//! Per-track playback state and the state machine that commands drive.
use vstd::prelude::*;
use crate::action::TrackAction;
use crate::names::NameMap;

verus! {

/// Ticks by which a track at full speed advances per output frame.
pub const FULL_STEP: u128 = 10;

/// Ticks by which a slowed track advances per output frame: nine tenths of
/// the full step.
pub const SLOW_STEP: u128 = 9;

/// No cursor ever exceeds this many ticks (2^100): a cursor only advances
/// while it still indexes into a sample buffer, and a buffer holds at most
/// `usize::MAX` samples.
pub const MAX_CURSOR: u128 = 0x10_0000_0000_0000_0000_0000_0000;

/// Whether a track is audible, and at what speed it runs.
#[derive(Debug, Clone, Copy, PartialEq, Eq, Structural)]
pub enum TrackState {
    Playing,
    Stopped,
    Slow,
}

/// The playback state of one track.
#[derive(Debug, Clone, Copy, PartialEq, Eq, Structural)]
pub struct Track {
    pub state: TrackState,
    /// Elapsed playback time in ticks. One tick is a tenth of an output frame
    /// period, so `time / (10 * output_rate)` is the elapsed time in seconds.
    pub time: u128,
}

impl TrackState {
    /// Only `Playing` and `Slow` tracks advance and contribute audio.
    pub open spec fn audible(self) -> bool {
        self != TrackState::Stopped
    }

    /// The number of ticks that a track in this state gains per frame.
    pub open spec fn step(self) -> int {
        match self {
            TrackState::Playing => FULL_STEP as int,
            TrackState::Slow => SLOW_STEP as int,
            TrackState::Stopped => 0,
        }
    }
}

/// What a command makes of a track: `prior` is the track's state before the
/// command, `None` if the table has not seen the name yet.
///
/// `Play`, `Stop` and `Slow` set the mode and keep the cursor (a new track
/// starts at 0); `Reset` stops the track and rewinds it.
pub open spec fn transition(prior: Option<Track>, action: TrackAction) -> Track {
    let time = match prior {
        Some(track) => track.time,
        None => 0,
    };
    match action {
        TrackAction::Play(_) => Track { state: TrackState::Playing, time },
        TrackAction::Slow(_) => Track { state: TrackState::Slow, time },
        TrackAction::Stop(_) => Track { state: TrackState::Stopped, time },
        TrackAction::Reset(_) => Track { state: TrackState::Stopped, time: 0 },
        TrackAction::ShutdownThread => Track { state: TrackState::Stopped, time },
    }
}

/// The mathematical content of a [`TrackTable`]: names in the order in which
/// they were first commanded, and the track of each.
pub struct TableModel {
    pub names: Seq<Seq<char>>,
    pub tracks: Seq<Track>,
}

impl TableModel {
    pub open spec fn wf(self) -> bool {
        &&& self.names.len() == self.tracks.len()
        &&& self.names.no_duplicates()
        &&& forall|i: int| 0 <= i < self.tracks.len() ==> (#[trigger] self.tracks[i]).time <= MAX_CURSOR
    }

    pub open spec fn empty() -> TableModel {
        TableModel { names: Seq::empty(), tracks: Seq::empty() }
    }

    pub open spec fn contains(self, name: Seq<char>) -> bool {
        self.names.contains(name)
    }

    /// The track known under `name`, if any.
    pub open spec fn lookup(self, name: Seq<char>) -> Option<Track> {
        if self.names.contains(name) {
            Some(self.tracks[self.names.index_of(name)])
        } else {
            None
        }
    }

    /// The table with `track` stored under `name`: in place if the name is
    /// known, at the end if it is new.
    pub open spec fn put(self, name: Seq<char>, track: Track) -> TableModel {
        if self.names.contains(name) {
            TableModel {
                names: self.names,
                tracks: self.tracks.update(self.names.index_of(name), track),
            }
        } else {
            TableModel { names: self.names.push(name), tracks: self.tracks.push(track) }
        }
    }

    /// The table after one command. `ShutdownThread` addresses no track and
    /// changes nothing.
    pub open spec fn apply(self, action: TrackAction) -> TableModel {
        match action.target() {
            Some(name) => self.put(name, transition(self.lookup(name), action)),
            None => self,
        }
    }

    /// The table after a queue of commands, applied first to last.
    pub open spec fn apply_all(self, actions: Seq<TrackAction>) -> TableModel
        decreases actions.len(),
    {
        if actions.len() == 0 {
            self
        } else {
            self.apply_all(actions.drop_last()).apply(actions.last())
        }
    }

    /// Storing a track keeps the table well formed, makes the name known and
    /// touches no other name.
    pub proof fn lemma_put(self, name: Seq<char>, track: Track)
        requires
            self.wf(),
            track.time <= MAX_CURSOR,
        ensures
            self.put(name, track).wf(),
            self.put(name, track).lookup(name) == Some(track),
            forall|other: Seq<char>|
                other != name ==> self.put(name, track).lookup(other) == self.lookup(other),
    {
        let after = self.put(name, track);
        if self.names.contains(name) {
            let i = self.names.index_of(name);
            assert(0 <= i < self.names.len() && self.names[i] == name);
            assert forall|other: Seq<char>| other != name implies after.lookup(other)
                == self.lookup(other) by {
                if self.names.contains(other) {
                    let j = self.names.index_of(other);
                    assert(0 <= j < self.names.len() && self.names[j] == other);
                }
            }
        } else {
            let n = self.names.len() as int;
            assert(after.names[n] == name);
            assert(after.names.contains(name));
            let i = after.names.index_of(name);
            assert(0 <= i < after.names.len() && after.names[i] == name);
            assert(i == n) by {
                if i < n {
                    assert(self.names[i] == name);
                }
            }
            assert forall|other: Seq<char>| other != name implies after.lookup(other)
                == self.lookup(other) by {
                if self.names.contains(other) {
                    let j = self.names.index_of(other);
                    assert(0 <= j < self.names.len() && self.names[j] == other);
                    assert(after.names[j] == other);
                    let k = after.names.index_of(other);
                    assert(0 <= k < after.names.len() && after.names[k] == other);
                    assert(k == j);
                } else if after.names.contains(other) {
                    let k = after.names.index_of(other);
                    assert(0 <= k < after.names.len() && after.names[k] == other);
                    assert(self.names[k] == other);
                }
            }
        }
    }

    /// A command keeps the table well formed.
    pub proof fn lemma_apply_wf(self, action: TrackAction)
        requires
            self.wf(),
        ensures
            self.apply(action).wf(),
    {
        match action.target() {
            Some(name) => {
                if self.names.contains(name) {
                    let i = self.names.index_of(name);
                    assert(0 <= i < self.names.len() && self.names[i] == name);
                    assert(self.tracks[i].time <= MAX_CURSOR);
                }
                self.lemma_put(name, transition(self.lookup(name), action));
            },
            None => {},
        }
    }

    /// A command sets the track that it names to what `transition` says and
    /// leaves every other track as it was.
    pub proof fn lemma_apply_effect(self, action: TrackAction)
        requires
            self.wf(),
            action.target() is Some,
        ensures
            self.apply(action).lookup(action.target()->0) == Some(
                transition(self.lookup(action.target()->0), action),
            ),
            forall|other: Seq<char>|
                other != action.target()->0 ==> self.apply(action).lookup(other) == self.lookup(
                    other,
                ),
    {
        let name = action.target()->0;
        if self.names.contains(name) {
            let i = self.names.index_of(name);
            assert(0 <= i < self.names.len() && self.names[i] == name);
            assert(self.tracks[i].time <= MAX_CURSOR);
        }
        self.lemma_put(name, transition(self.lookup(name), action));
    }

    /// Sending a command twice in a row is the same as sending it once.
    pub proof fn lemma_apply_idempotent(self, action: TrackAction)
        requires
            self.wf(),
        ensures
            self.apply(action).apply(action) == self.apply(action),
    {
        match action.target() {
            Some(name) => {
                let once = self.apply(action);
                self.lemma_apply_effect(action);
                self.lemma_apply_wf(action);
                assert(once.names.contains(name));
                let i = once.names.index_of(name);
                assert(0 <= i < once.names.len() && once.names[i] == name);
                let track = once.tracks[i];
                assert(transition(Some(track), action) == track);
                assert(once.tracks.update(i, track) =~= once.tracks);
            },
            None => {},
        }
    }

    /// `Play` on a stopped track makes it `Playing` and keeps its cursor,
    /// however often it is sent.
    pub proof fn lemma_play_stopped(self, name: String, track: Track)
        requires
            self.wf(),
            self.lookup(name@) == Some(track),
            track.state == TrackState::Stopped,
        ensures
            self.apply(TrackAction::Play(name)).lookup(name@) == Some(
                Track { state: TrackState::Playing, time: track.time },
            ),
            self.apply(TrackAction::Play(name)).apply(TrackAction::Play(name)) == self.apply(
                TrackAction::Play(name),
            ),
    {
        self.lemma_apply_effect(TrackAction::Play(name));
        self.lemma_apply_idempotent(TrackAction::Play(name));
    }

    /// A command for a name that the table has not seen creates the entry, at
    /// the end and with cursor 0; `Stop` creates it `Stopped`.
    pub proof fn lemma_apply_unknown(self, action: TrackAction)
        requires
            self.wf(),
            action.target() is Some,
            !self.contains(action.target()->0),
        ensures
            self.apply(action).names == self.names.push(action.target()->0),
            self.apply(action).tracks == self.tracks.push(transition(None, action)),
            self.apply(action).lookup(action.target()->0) == Some(transition(None, action)),
            transition(None, action).time == 0,
            action is Stop ==> transition(None, action).state == TrackState::Stopped,
    {
        self.lemma_apply_effect(action);
    }
}

/// The playback state of every track that a command has named so far.
/// Entries are never removed: a stopped track stays, with its cursor.
pub struct TrackTable {
    entries: NameMap<Track>,
}

impl View for TrackTable {
    type V = TableModel;

    closed spec fn view(&self) -> TableModel {
        TableModel { names: self.entries.keys(), tracks: self.entries.values() }
    }
}

impl TrackTable {
    pub open spec fn wf(&self) -> bool {
        self@.wf()
    }

    /// A table that knows no track.
    pub fn new() -> (table: Self)
        ensures
            table.wf(),
            table@ == TableModel::empty(),
    {
        TrackTable { entries: NameMap::new() }
    }

    /// The number of tracks that commands have named so far.
    pub fn len(&self) -> (n: usize)
        requires
            self.wf(),
        ensures
            n == self@.names.len(),
    {
        self.entries.len()
    }

    /// The state of the track `name`; `None` if no command has named it yet.
    pub fn get(&self, name: &String) -> (found: Option<Track>)
        requires
            self.wf(),
        ensures
            found == self@.lookup(name@),
    {
        match self.entries.get(name) {
            Some(track) => Some(*track),
            None => None,
        }
    }

    /// The name of the track at index `i`.
    pub fn name_at(&self, i: usize) -> (name: &String)
        requires
            self.wf(),
            i < self@.names.len(),
        ensures
            name@ == self@.names[i as int],
    {
        self.entries.name_at(i)
    }

    /// The track at index `i`.
    pub fn track_at(&self, i: usize) -> (track: Track)
        requires
            self.wf(),
            i < self@.tracks.len(),
        ensures
            track == self@.tracks[i as int],
            track.time <= MAX_CURSOR,
    {
        *self.entries.value_at(i)
    }

    /// Replaces the track at index `i`.
    pub fn set_track(&mut self, i: usize, track: Track)
        requires
            old(self).wf(),
            i < old(self)@.tracks.len(),
            track.time <= MAX_CURSOR,
        ensures
            final(self).wf(),
            final(self)@.names == old(self)@.names,
            final(self)@.tracks == old(self)@.tracks.update(i as int, track),
    {
        self.entries.set_value(i, track);
    }

    /// Stores `track` under `name`: in place if the name is known, at the
    /// end if it is new.
    pub fn put(&mut self, name: String, track: Track)
        requires
            old(self).wf(),
            track.time <= MAX_CURSOR,
        ensures
            final(self).wf(),
            final(self)@ == old(self)@.put(name@, track),
    {
        proof {
            old(self)@.lemma_put(name@, track);
        }
        self.entries.insert(name, track);
    }
}

/// Applies one command to the table of tracks.
///
/// `Play`, `Stop` and `Slow` set the mode of the named track and keep its
/// cursor; `Reset` stops it and rewinds the cursor to 0. A name that the
/// table has not seen yet gets an entry with cursor 0. `ShutdownThread`
/// changes nothing.
pub fn update_track_state(tracks: &mut TrackTable, action: TrackAction)
    requires
        old(tracks).wf(),
    ensures
        final(tracks).wf(),
        final(tracks)@ == old(tracks)@.apply(action),
        action.target() matches Some(name) ==> final(tracks)@.lookup(name) == Some(
            transition(old(tracks)@.lookup(name), action),
        ),
        forall|other: Seq<char>|
            action.target() != Some(other) ==> final(tracks)@.lookup(other) == old(
                tracks,
            )@.lookup(other),
{
    proof {
        if action.target() is Some {
            old(tracks)@.lemma_apply_effect(action);
        }
    }
    match action {
        TrackAction::Reset(track) => {
            tracks.put(track, Track { state: TrackState::Stopped, time: 0 });
        },
        TrackAction::Play(track) => {
            let time = match tracks.get(&track) {
                Some(t) => t.time,
                None => 0,
            };
            tracks.put(track, Track { state: TrackState::Playing, time });
        },
        TrackAction::Slow(track) => {
            let time = match tracks.get(&track) {
                Some(t) => t.time,
                None => 0,
            };
            tracks.put(track, Track { state: TrackState::Slow, time });
        },
        TrackAction::Stop(track) => {
            let time = match tracks.get(&track) {
                Some(t) => t.time,
                None => 0,
            };
            tracks.put(track, Track { state: TrackState::Stopped, time });
        },
        TrackAction::ShutdownThread => (),
    }
}

} // verus!
