//! The control plane: which tracks are being loaded, which are loaded, and
//! what the host has to pass on.
//!
//! The manager decides and the host acts. It takes the messages and load
//! completions that the host has received, and hands back the commands that
//! the host has to carry out: a load to request, a track command to pass on
//! to the mixer.
use vstd::prelude::*;
use crate::action::{AudioMessage, TrackAction};
use crate::names::NameSet;
use crate::store::SampleStore;
use crate::wav::Wav;

verus! {

/// Something that the host has to do for the manager.
#[derive(Debug, PartialEq, Eq)]
pub enum Command {
    /// Ask the loader for the track of this name.
    Load(String),
    /// Pass the command on to the mixer.
    Send(TrackAction),
}

/// The outcome of one load: the name that was asked for, and the decoded
/// track unless the load failed.
pub type Completion = (String, Option<Wav>);

/// The mathematical content of an [`AudioManager`].
pub struct ManagerModel {
    /// The tracks that have been requested and have not come back.
    pub loading: Set<Seq<char>>,
    /// The tracks that are in the store.
    pub loaded: Set<Seq<char>>,
    /// Whether the mixer has not been told to shut down yet.
    pub running: bool,
}

impl ManagerModel {
    /// Both sets are finite, and no track is loading and loaded at once.
    pub open spec fn wf(self) -> bool {
        &&& self.loading.finite()
        &&& self.loaded.finite()
        &&& self.loading.disjoint(self.loaded)
    }

    pub open spec fn fresh() -> ManagerModel {
        ManagerModel { loading: Set::empty(), loaded: Set::empty(), running: true }
    }

    /// Whether a load of `name` has to be requested: it is neither loaded
    /// nor on its way.
    pub open spec fn wants(self, name: Seq<char>) -> bool {
        !self.loaded.contains(name) && !self.loading.contains(name)
    }

    /// The state after a request to load `name`.
    pub open spec fn load(self, name: Seq<char>) -> ManagerModel {
        if self.wants(name) {
            ManagerModel { loading: self.loading.insert(name), ..self }
        } else {
            self
        }
    }

    /// The state after one message.
    pub open spec fn receive(self, message: AudioMessage) -> ManagerModel {
        match message {
            AudioMessage::Load(name) => self.load(name@),
            AudioMessage::TrackAction(_) => self,
        }
    }

    /// What the host has to do about one message, if anything.
    pub open spec fn command(self, message: AudioMessage) -> Option<Command> {
        match message {
            AudioMessage::Load(name) => if self.wants(name@) {
                Some(Command::Load(name))
            } else {
                None
            },
            AudioMessage::TrackAction(action) => Some(Command::Send(action)),
        }
    }

    /// The state after a queue of messages, taken first to last.
    pub open spec fn receive_all(self, messages: Seq<AudioMessage>) -> ManagerModel
        decreases messages.len(),
    {
        if messages.len() == 0 {
            self
        } else {
            self.receive_all(messages.drop_last()).receive(messages.last())
        }
    }

    /// The commands that a queue of messages gives rise to, in the order of
    /// the messages.
    pub open spec fn commands(self, messages: Seq<AudioMessage>) -> Seq<Command>
        decreases messages.len(),
    {
        if messages.len() == 0 {
            Seq::empty()
        } else {
            let earlier = self.commands(messages.drop_last());
            match self.receive_all(messages.drop_last()).command(messages.last()) {
                Some(command) => earlier.push(command),
                None => earlier,
            }
        }
    }

    /// The state after a batch of load completions: every name that came
    /// back is no longer loading, and those that came back with a track are
    /// loaded.
    pub open spec fn complete(self, completions: Seq<Completion>) -> ManagerModel {
        ManagerModel {
            loading: self.loading.difference(returned(completions)),
            loaded: self.loaded.union(decoded(completions)),
            running: self.running,
        }
    }
}

/// Asking twice for a track is asking once: the second request changes
/// nothing and asks nothing of the host.
pub proof fn lemma_load_idempotent(model: ManagerModel, name: String)
    ensures
        model.load(name@).load(name@) == model.load(name@),
        !model.load(name@).wants(name@),
        model.load(name@).command(AudioMessage::Load(name)) is None,
{
}

/// A request keeps the loading and the loaded tracks apart, and changes
/// nothing for any other track.
pub proof fn lemma_load_wf(model: ManagerModel, name: Seq<char>)
    requires
        model.wf(),
    ensures
        model.load(name).wf(),
        model.load(name).loaded == model.loaded,
        forall|other: Seq<char>|
            other != name ==> model.load(name).loading.contains(other) == model.loading.contains(
                other,
            ),
{
}

/// A load that fails leaves its track neither loading nor, unless it was
/// loaded before, loaded: the track can be asked for again.
pub proof fn lemma_failed_load(model: ManagerModel, name: String)
    requires
        !model.loaded.contains(name@),
    ensures
        model.complete(seq![(name, None::<Wav>)]).wants(name@),
        model.complete(seq![(name, None::<Wav>)]).loaded == model.loaded,
        stored(Map::<Seq<char>, Wav>::empty(), seq![(name, None::<Wav>)]) == Map::<
            Seq<char>,
            Wav,
        >::empty(),
{
    let batch: Seq<Completion> = seq![(name, None::<Wav>)];
    assert(batch[0].0@ == name@);
    assert(returned(batch).contains(name@));
    assert(decoded(batch) =~= Set::<Seq<char>>::empty());
    assert(model.loaded.union(decoded(batch)) =~= model.loaded);
    assert(batch.drop_last() =~= Seq::<Completion>::empty());
    reveal_with_fuel(stored, 2);
}

/// A load that succeeds makes its track loaded and puts it in the store,
/// and the track is not asked for again.
pub proof fn lemma_finished_load(
    model: ManagerModel,
    samples: Map<Seq<char>, Wav>,
    name: String,
    wav: Wav,
)
    ensures
        model.complete(seq![(name, Some(wav))]).loaded.contains(name@),
        !model.complete(seq![(name, Some(wav))]).loading.contains(name@),
        !model.complete(seq![(name, Some(wav))]).wants(name@),
        stored(samples, seq![(name, Some(wav))]) == samples.insert(name@, wav),
{
    let batch: Seq<Completion> = seq![(name, Some(wav))];
    assert(batch[0].0@ == name@ && batch[0].1 is Some);
    assert(returned(batch).contains(name@));
    assert(decoded(batch).contains(name@));
    assert(batch.drop_last() =~= Seq::<Completion>::empty());
    reveal_with_fuel(stored, 2);
}

/// The names that a batch of completions answers.
pub open spec fn returned(completions: Seq<Completion>) -> Set<Seq<char>> {
    Set::new(
        |name: Seq<char>|
            exists|i: int| 0 <= i < completions.len() && (#[trigger] completions[i]).0@ == name,
    )
}

/// The names that a batch of completions brings a track for.
pub open spec fn decoded(completions: Seq<Completion>) -> Set<Seq<char>> {
    Set::new(
        |name: Seq<char>|
            exists|i: int|
                0 <= i < completions.len() && (#[trigger] completions[i]).0@ == name
                    && completions[i].1 is Some,
    )
}

/// The store after a batch of completions: each decoded track stored under
/// its name, in the order of arrival, a later one replacing an earlier one.
pub open spec fn stored(samples: Map<Seq<char>, Wav>, completions: Seq<Completion>) -> Map<
    Seq<char>,
    Wav,
>
    decreases completions.len(),
{
    if completions.len() == 0 {
        samples
    } else {
        let earlier = stored(samples, completions.drop_last());
        match completions.last().1 {
            Some(wav) => earlier.insert(completions.last().0@, wav),
            None => earlier,
        }
    }
}

/// Every track that a batch of completions brings is well formed.
pub open spec fn all_wf(completions: Seq<Completion>) -> bool {
    forall|i: int|
        0 <= i < completions.len() ==> ((#[trigger] completions[i]).1 matches Some(wav)
            ==> wav.wf())
}

/// The state of the control plane.
pub struct AudioManager {
    loading_files: NameSet,
    loaded_files: NameSet,
    running: bool,
}

impl View for AudioManager {
    type V = ManagerModel;

    closed spec fn view(&self) -> ManagerModel {
        ManagerModel {
            loading: self.loading_files@,
            loaded: self.loaded_files@,
            running: self.running,
        }
    }
}

impl AudioManager {
    pub closed spec fn wf(&self) -> bool {
        &&& self.loading_files.wf()
        &&& self.loaded_files.wf()
        &&& self@.wf()
    }

    /// A well-formed manager has a well-formed content.
    pub proof fn lemma_wf(&self)
        requires
            self.wf(),
        ensures
            self@.wf(),
    {
    }

    /// A manager that has requested nothing yet, for a mixer that runs.
    pub fn new() -> (manager: Self)
        ensures
            manager.wf(),
            manager@ == ManagerModel::fresh(),
    {
        let manager = AudioManager {
            loading_files: NameSet::new(),
            loaded_files: NameSet::new(),
            running: true,
        };
        proof {
            assert(manager@.loading.disjoint(manager@.loaded));
        }
        manager
    }

    /// Notes a request to load the track `name`. Returns the name if the
    /// host has to pass the request on to the loader; a track that is
    /// loaded or on its way is not requested again.
    pub fn load(&mut self, name: String) -> (request: Option<String>)
        requires
            old(self).wf(),
        ensures
            final(self).wf(),
            final(self)@ == old(self)@.load(name@),
            request == if old(self)@.wants(name@) {
                Some(name)
            } else {
                None
            },
    {
        if self.loaded_files.contains(&name) || self.loading_files.contains(&name) {
            return None;
        }
        let request = name.clone();
        self.loading_files.insert(name);
        Some(request)
    }

    /// Takes the messages that have come in, first to last, and returns
    /// what the host has to do about them: for `Load`, the request to the
    /// loader unless the track is loaded or on its way; for a track command,
    /// the command to pass on to the mixer.
    pub fn handle_messages(&mut self, messages: Vec<AudioMessage>) -> (commands: Vec<Command>)
        requires
            old(self).wf(),
        ensures
            final(self).wf(),
            final(self)@ == old(self)@.receive_all(messages@),
            commands@ == old(self)@.commands(messages@),
    {
        let ghost queue = messages@;
        let mut commands: Vec<Command> = Vec::new();
        for message in it: messages
            invariant
                it.seq() == queue,
                self.wf(),
                self@ == old(self)@.receive_all(queue.take(it.index() as int)),
                commands@ == old(self)@.commands(queue.take(it.index() as int)),
        {
            assert(queue.take(it.index() + 1).drop_last() =~= queue.take(it.index() as int));
            match message {
                AudioMessage::Load(name) => {
                    match self.load(name) {
                        Some(request) => commands.push(Command::Load(request)),
                        None => {},
                    }
                },
                AudioMessage::TrackAction(action) => {
                    commands.push(Command::Send(action));
                },
            }
        }
        assert(queue.take(queue.len() as int) =~= queue);
        commands
    }

    /// Whether any requested track has not come back yet.
    pub fn is_loading(&self) -> (loading: bool)
        requires
            self.wf(),
        ensures
            loading == (self@.loading != Set::<Seq<char>>::empty()),
    {
        !self.loading_files.is_empty()
    }

    /// Takes a batch of load completions. Every name that came back is no
    /// longer loading; a track that was decoded goes into the store under
    /// its name and counts as loaded; a failed load leaves the track absent,
    /// to be requested again at will.
    pub fn complete_loads(&mut self, wavs: &mut SampleStore, completions: Vec<Completion>)
        requires
            old(self).wf(),
            old(wavs).wf(),
            all_wf(completions@),
        ensures
            final(self).wf(),
            final(wavs).wf(),
            final(self)@ == old(self)@.complete(completions@),
            final(wavs)@ == stored(old(wavs)@, completions@),
    {
        let ghost queue = completions@;
        proof {
            let none = queue.take(0);
            assert(old(self)@.loading.difference(returned(none)) =~= old(self)@.loading);
            assert(old(self)@.loaded.union(decoded(none)) =~= old(self)@.loaded);
        }
        for completion in it: completions
            invariant
                it.seq() == queue,
                all_wf(queue),
                self.wf(),
                wavs.wf(),
                self@ == old(self)@.complete(queue.take(it.index() as int)),
                wavs@ == stored(old(wavs)@, queue.take(it.index() as int)),
        {
            let ghost done = queue.take(it.index() as int);
            let ghost next = queue.take(it.index() + 1);
            let ghost before = self@;
            assert(next.drop_last() =~= done);
            assert(next.last() == completion);
            assert(queue[it.index() as int] == completion);
            let (file, res) = completion;
            proof {
                assert forall|name: Seq<char>| returned(next).contains(name) <==> (returned(
                    done,
                ).contains(name) || name == file@) by {
                    if returned(done).contains(name) {
                        let i = choose|i: int|
                            0 <= i < done.len() && (#[trigger] done[i]).0@ == name;
                        assert(next[i].0@ == name);
                    }
                    if name == file@ {
                        assert(next[next.len() - 1].0@ == name);
                    }
                    if returned(next).contains(name) {
                        let i = choose|i: int|
                            0 <= i < next.len() && (#[trigger] next[i]).0@ == name;
                        if i < done.len() {
                            assert(done[i].0@ == name);
                        }
                    }
                }
                assert forall|name: Seq<char>| decoded(next).contains(name) <==> (decoded(
                    done,
                ).contains(name) || (name == file@ && res is Some)) by {
                    if decoded(done).contains(name) {
                        let i = choose|i: int|
                            0 <= i < done.len() && (#[trigger] done[i]).0@ == name
                                && done[i].1 is Some;
                        assert(next[i].0@ == name && next[i].1 is Some);
                    }
                    if name == file@ && res is Some {
                        assert(next[next.len() - 1].0@ == name);
                    }
                    if decoded(next).contains(name) {
                        let i = choose|i: int|
                            0 <= i < next.len() && (#[trigger] next[i]).0@ == name
                                && next[i].1 is Some;
                        if i < done.len() {
                            assert(done[i].0@ == name && done[i].1 is Some);
                        }
                    }
                }
            }
            self.loading_files.remove(&file);
            match res {
                Some(wav) => {
                    wavs.insert(file.clone(), wav);
                    self.loaded_files.insert(file);
                },
                None => {},
            }
            proof {
                assert(self@.loading =~= old(self)@.loading.difference(returned(next)));
                assert(self@.loaded =~= old(self)@.loaded.union(decoded(next)));
                assert(self@.loading.disjoint(self@.loaded));
            }
        }
        assert(queue.take(queue.len() as int) =~= queue);
    }

    /// One round of the control plane: the messages first, then the load
    /// completions. Returns what the host has to do, and how many tracks are
    /// loading and how many are loaded after the round.
    pub fn update(
        &mut self,
        wavs: &mut SampleStore,
        messages: Vec<AudioMessage>,
        completions: Vec<Completion>,
    ) -> (out: (Vec<Command>, (usize, usize)))
        requires
            old(self).wf(),
            old(wavs).wf(),
            all_wf(completions@),
        ensures
            final(self).wf(),
            final(wavs).wf(),
            final(self)@ == old(self)@.receive_all(messages@).complete(completions@),
            final(wavs)@ == stored(old(wavs)@, completions@),
            out.0@ == old(self)@.commands(messages@),
            out.1.0 == final(self)@.loading.len(),
            out.1.1 == final(self)@.loaded.len(),
    {
        let commands = self.handle_messages(messages);
        self.complete_loads(wavs, completions);
        (commands, self.loaded_check())
    }

    /// How many tracks are loading, and how many are loaded.
    pub fn loaded_check(&self) -> (counts: (usize, usize))
        requires
            self.wf(),
        ensures
            counts.0 == self@.loading.len(),
            counts.1 == self@.loaded.len(),
    {
        (self.loading_files.len(), self.loaded_files.len())
    }

    /// Tears the manager down. The first call returns the shutdown command
    /// for the host to send to the mixer; any later call returns nothing, so
    /// that the command is sent once.
    pub fn cleanup(&mut self) -> (last: Option<TrackAction>)
        requires
            old(self).wf(),
        ensures
            final(self).wf(),
            final(self)@ == (ManagerModel { running: false, ..old(self)@ }),
            old(self)@.running ==> last == Some(TrackAction::ShutdownThread),
            !old(self)@.running ==> last is None,
    {
        if self.running {
            self.running = false;
            Some(TrackAction::ShutdownThread)
        } else {
            None
        }
    }
}

} // verus!
