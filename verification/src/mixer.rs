//! The mixer: every audible track advanced, resampled and summed, one
//! output frame at a time.
use vstd::prelude::*;
use vstd::arithmetic::div_mod::{lemma_fundamental_div_mod, lemma_fundamental_div_mod_converse};
use crate::action::TrackAction;
use crate::resample::{
    contribution, lemma_cursor_in_buffer, lemma_missing_buffer, mix_track, past_end, run_track,
    step_track, ticks_per_second, FULL_SCALE,
};
use crate::store::{buffer_of, SampleStore};
use crate::track::{update_track_state, TableModel, Track, TrackState, TrackTable, MAX_CURSOR};
use crate::wav::Wav;

verus! {

/// The sum of what the first `upto` tracks of the table add to one frame.
/// Nothing is averaged and nothing is clipped.
pub open spec fn frame_sum(
    table: TableModel,
    samples: Map<Seq<char>, Wav>,
    rate: int,
    upto: int,
) -> int
    decreases upto,
{
    if upto <= 0 {
        0
    } else {
        frame_sum(table, samples, rate, upto - 1) + contribution(
            table.tracks[upto - 1],
            buffer_of(samples, table.names[upto - 1]),
            rate,
        )
    }
}

/// The value of one output frame, as a numerator over
/// `FULL_SCALE * ticks_per_second(rate)`: the sum over all tracks.
pub open spec fn frame_value(table: TableModel, samples: Map<Seq<char>, Wav>, rate: int) -> int {
    frame_sum(table, samples, rate, table.tracks.len() as int)
}

/// The table after one output frame: every track stepped on its own.
pub open spec fn advance(table: TableModel, samples: Map<Seq<char>, Wav>, rate: int) -> TableModel {
    TableModel {
        names: table.names,
        tracks: Seq::new(
            table.tracks.len(),
            |i: int| step_track(table.tracks[i], buffer_of(samples, table.names[i]), rate),
        ),
    }
}

/// The table after `frames` output frames, and the values of those frames
/// in order.
pub open spec fn render(
    table: TableModel,
    samples: Map<Seq<char>, Wav>,
    rate: int,
    frames: nat,
) -> (TableModel, Seq<int>)
    decreases frames,
{
    if frames == 0 {
        (table, Seq::empty())
    } else {
        let (before, values) = render(table, samples, rate, (frames - 1) as nat);
        (advance(before, samples, rate), values.push(frame_value(before, samples, rate)))
    }
}

/// The number of frames that a buffer of `len` samples holds at `channels`
/// samples per frame, a last short frame counted.
pub open spec fn frame_count(len: int, channels: int) -> int {
    (len + channels - 1) / channels
}

/// An index within the `frame`-th run of `channels` samples belongs to that
/// frame.
pub proof fn lemma_frame_of_index(index: int, frame: int, channels: int)
    requires
        0 < channels,
        frame * channels <= index < frame * channels + channels,
    ensures
        index / channels == frame,
{
    lemma_fundamental_div_mod_converse(index, channels, frame, index - frame * channels);
}

/// A buffer that ends within or at the end of the `frames`-th run of
/// `channels` samples holds `frames` frames.
pub proof fn lemma_frame_count(len: int, frames: int, channels: int)
    requires
        0 < channels,
        0 <= len,
        len <= frames * channels < len + channels,
    ensures
        frame_count(len, channels) == frames,
{
    lemma_fundamental_div_mod_converse(
        len + channels - 1,
        channels,
        frames,
        len + channels - 1 - frames * channels,
    );
}

/// An index before the `frames`-th run of `channels` samples belongs to an
/// earlier frame.
pub proof fn lemma_frame_below(index: int, frames: int, channels: int)
    requires
        0 < channels,
        0 <= index < frames * channels,
    ensures
        0 <= index / channels < frames,
{
    lemma_fundamental_div_mod(index, channels);
    let q = index / channels;
    assert(0 <= q < frames) by (nonlinear_arith)
        requires
            0 < channels,
            0 <= index < frames * channels,
            index == channels * q + index % channels,
            0 <= index % channels < channels,
    ;
}

/// Rendering keeps the table well formed and its names in place, and
/// yields one value per frame.
pub proof fn lemma_render(table: TableModel, samples: Map<Seq<char>, Wav>, rate: int, frames: nat)
    requires
        table.wf(),
        0 < rate <= u32::MAX,
        forall|name: Seq<char>| #[trigger] samples.dom().contains(name) ==> samples[name].wf(),
    ensures
        render(table, samples, rate, frames).0.wf(),
        render(table, samples, rate, frames).0.names == table.names,
        render(table, samples, rate, frames).1.len() == frames,
    decreases frames,
{
    if frames > 0 {
        lemma_render(table, samples, rate, (frames - 1) as nat);
        let before = render(table, samples, rate, (frames - 1) as nat).0;
        lemma_advance_wf(before, samples, rate);
    }
}

/// One frame keeps the table well formed.
pub proof fn lemma_advance_wf(table: TableModel, samples: Map<Seq<char>, Wav>, rate: int)
    requires
        table.wf(),
        0 < rate <= u32::MAX,
        forall|name: Seq<char>| #[trigger] samples.dom().contains(name) ==> samples[name].wf(),
    ensures
        advance(table, samples, rate).wf(),
{
    let after = advance(table, samples, rate);
    assert forall|i: int| 0 <= i < after.tracks.len() implies (#[trigger] after.tracks[i]).time
        <= MAX_CURSOR by {
        let track = table.tracks[i];
        let wav = buffer_of(samples, table.names[i]);
        assert(track.time <= MAX_CURSOR);
        if track.state.audible() && wav is Some && !past_end(
            wav->0,
            track.time as int,
            rate,
        ) {
            assert(samples.dom().contains(table.names[i]));
            assert(wav->0.samples.len() == wav->0.samples@.len());
            lemma_cursor_in_buffer(
                track.time as int,
                wav->0.sample_rate as int,
                rate,
                wav->0.samples@.len() as int,
            );
        }
    }
}

/// Rendering steps every track on its own: after any number of frames a
/// track stands where those frames take it, whatever the other tracks do.
pub proof fn lemma_render_track(
    table: TableModel,
    samples: Map<Seq<char>, Wav>,
    rate: int,
    frames: nat,
    i: int,
)
    requires
        table.names.len() == table.tracks.len(),
        0 <= i < table.tracks.len(),
    ensures
        render(table, samples, rate, frames).0.names == table.names,
        render(table, samples, rate, frames).0.tracks.len() == table.tracks.len(),
        render(table, samples, rate, frames).0.tracks[i] == run_track(
            table.tracks[i],
            buffer_of(samples, table.names[i]),
            rate,
            frames,
        ),
    decreases frames,
{
    if frames > 0 {
        lemma_render_track(table, samples, rate, (frames - 1) as nat, i);
    }
}

/// A track that has been told to play before its buffer is in the store is
/// silent and keeps its mode and cursor, frame after frame; once the buffer
/// is there, mixing goes on from that cursor.
pub proof fn lemma_silent_until_loaded(
    table: TableModel,
    samples: Map<Seq<char>, Wav>,
    rate: int,
    frames: nat,
    i: int,
)
    requires
        table.names.len() == table.tracks.len(),
        0 <= i < table.tracks.len(),
        !samples.dom().contains(table.names[i]),
    ensures
        contribution(table.tracks[i], buffer_of(samples, table.names[i]), rate) == 0,
        render(table, samples, rate, frames).0.tracks[i] == table.tracks[i],
        forall|wav: Wav|
            step_track(
                render(table, samples, rate, frames).0.tracks[i],
                buffer_of(samples.insert(table.names[i], wav), table.names[i]),
                rate,
            ) == step_track(table.tracks[i], Some(wav), rate),
{
    lemma_render_track(table, samples, rate, frames, i);
    lemma_missing_buffer(table.tracks[i], rate, frames);
}

/// The sum over the first tracks of a table does not depend on the tracks
/// that follow them.
pub proof fn lemma_frame_sum_prefix(
    table: TableModel,
    longer: TableModel,
    samples: Map<Seq<char>, Wav>,
    rate: int,
    upto: int,
)
    requires
        upto <= table.tracks.len() <= longer.tracks.len(),
        upto <= table.names.len() <= longer.names.len(),
        forall|j: int| 0 <= j < upto ==> table.tracks[j] == longer.tracks[j],
        forall|j: int| 0 <= j < upto ==> table.names[j] == longer.names[j],
    ensures
        frame_sum(longer, samples, rate, upto) == frame_sum(table, samples, rate, upto),
    decreases upto,
{
    if upto > 0 {
        lemma_frame_sum_prefix(table, longer, samples, rate, upto - 1);
    }
}

/// One more track adds what it contributes to the frame, no more and no
/// less: the mix is a plain sum, neither averaged nor clipped.
pub proof fn lemma_mix_is_sum(
    table: TableModel,
    name: Seq<char>,
    track: Track,
    samples: Map<Seq<char>, Wav>,
    rate: int,
)
    requires
        table.names.len() == table.tracks.len(),
    ensures
        frame_value(
            TableModel { names: table.names.push(name), tracks: table.tracks.push(track) },
            samples,
            rate,
        ) == frame_value(table, samples, rate) + contribution(
            track,
            buffer_of(samples, name),
            rate,
        ),
{
    let longer = TableModel { names: table.names.push(name), tracks: table.tracks.push(track) };
    lemma_frame_sum_prefix(table, longer, samples, rate, table.tracks.len() as int);
}

/// The frame of a table of two tracks is the sum of what the two add.
pub proof fn lemma_mix_of_two(table: TableModel, samples: Map<Seq<char>, Wav>, rate: int)
    requires
        table.names.len() == 2,
        table.tracks.len() == 2,
    ensures
        frame_value(table, samples, rate) == contribution(
            table.tracks[0],
            buffer_of(samples, table.names[0]),
            rate,
        ) + contribution(table.tracks[1], buffer_of(samples, table.names[1]), rate),
{
    reveal_with_fuel(frame_sum, 3);
}

/// The real-time half of the engine: the output rate and the playback state
/// of every track. Nothing else ever touches the tracks.
pub struct Mixer {
    sample_rate: u32,
    tracks: TrackTable,
}

impl Mixer {
    /// The output rate in frames per second.
    pub closed spec fn rate(&self) -> int {
        self.sample_rate as int
    }

    /// The tracks and their playback state.
    pub closed spec fn tracks(&self) -> TableModel {
        self.tracks@
    }

    pub open spec fn wf(&self) -> bool {
        &&& 0 < self.rate() <= u32::MAX
        &&& self.tracks().wf()
    }

    /// A mixer for an output of `sample_rate` frames per second, with no
    /// track known yet.
    pub fn new(sample_rate: u32) -> (mixer: Self)
        requires
            sample_rate > 0,
        ensures
            mixer.wf(),
            mixer.rate() == sample_rate,
            mixer.tracks() == TableModel::empty(),
    {
        Mixer { sample_rate, tracks: TrackTable::new() }
    }

    /// The output rate in frames per second.
    pub fn sample_rate(&self) -> (rate: u32)
        ensures
            rate == self.rate(),
    {
        self.sample_rate
    }

    /// The denominator of every frame value: a frame value of `scale()` is
    /// an amplitude of 1.
    pub fn scale(&self) -> (scale: u64)
        requires
            self.wf(),
        ensures
            scale == FULL_SCALE * ticks_per_second(self.rate()),
    {
        // Full scale times the ticks of a frame period.
        327680 * (self.sample_rate as u64)
    }

    /// The playback state of the track `name`; `None` if no command has
    /// named it yet.
    pub fn track(&self, name: &String) -> (found: Option<Track>)
        requires
            self.wf(),
        ensures
            found == self.tracks().lookup(name@),
    {
        self.tracks.get(name)
    }

    /// Applies the queued commands, first to last.
    pub fn apply_actions(&mut self, actions: Vec<TrackAction>)
        requires
            old(self).wf(),
        ensures
            final(self).wf(),
            final(self).rate() == old(self).rate(),
            final(self).tracks() == old(self).tracks().apply_all(actions@),
    {
        let ghost queue = actions@;
        for action in it: actions
            invariant
                it.seq() == queue,
                self.wf(),
                self.rate() == old(self).rate(),
                self.tracks() == old(self).tracks().apply_all(queue.take(it.index() as int)),
        {
            assert(queue.take(it.index() + 1).drop_last() =~= queue.take(it.index() as int));
            update_track_state(&mut self.tracks, action);
        }
        assert(queue.take(queue.len() as int) =~= queue);
    }

    /// Mixes one output frame: steps every track and returns the sum of what
    /// the tracks add, as a numerator over `scale()`.
    ///
    /// A track that is stopped, or whose buffer is not in the store, adds
    /// nothing and keeps its cursor. A track whose cursor has run past its
    /// buffer adds nothing, stops and rewinds. Any other track adds the
    /// sample interpolated at its cursor and advances by the step of its
    /// mode. The sum is not clipped.
    pub fn mix_frame(&mut self, wavs: &SampleStore) -> (value: i128)
        requires
            old(self).wf(),
            wavs.wf(),
        ensures
            final(self).wf(),
            final(self).rate() == old(self).rate(),
            final(self).tracks() == advance(old(self).tracks(), wavs@, old(self).rate()),
            value == frame_value(old(self).tracks(), wavs@, old(self).rate()),
    {
        let rate = self.sample_rate;
        let count = self.tracks.len();
        let ghost before = self.tracks@;
        let ghost bound: int = FULL_SCALE * ticks_per_second(rate as int);
        let mut result: i128 = 0;
        let mut i: usize = 0;
        while i < count
            invariant
                i <= count,
                wavs.wf(),
                before.wf(),
                rate == self.sample_rate,
                0 < rate,
                bound == FULL_SCALE * ticks_per_second(rate as int),
                self.tracks.wf(),
                self.tracks@.names == before.names,
                self.tracks@.tracks.len() == count,
                forall|j: int|
                    0 <= j < i ==> self.tracks@.tracks[j] == step_track(
                        before.tracks[j],
                        buffer_of(wavs@, before.names[j]),
                        rate as int,
                    ),
                forall|j: int| i <= j < count ==> self.tracks@.tracks[j] == before.tracks[j],
                result == frame_sum(before, wavs@, rate as int, i as int),
                -(i * bound) <= result <= i * bound,
            decreases count - i,
        {
            let track = self.tracks.track_at(i);
            let mut added: i64 = 0;
            if track.state == TrackState::Playing || track.state == TrackState::Slow {
                match wavs.get(self.tracks.name_at(i)) {
                    Some(wav) => {
                        let (next, sample) = mix_track(track, wav, rate);
                        self.tracks.set_track(i, next);
                        added = sample;
                    },
                    None => {},
                }
            }
            proof {
                assert((i + 1) * bound == i * bound + bound) by (nonlinear_arith);
                assert((i + 1) * bound <= 0x1_0000_0000_0000_0000 * 1407374883225600)
                    by (nonlinear_arith)
                    requires
                        0 <= i + 1 <= 0x1_0000_0000_0000_0000,
                        0 <= bound <= 1407374883225600,
                ;
            }
            result = result + added as i128;
            i += 1;
        }
        assert(self.tracks@.tracks =~= advance(before, wavs@, rate as int).tracks);
        result
    }

    /// Applies the commands that are pending, first to last, then mixes one
    /// output frame.
    pub fn get_next_audio_value(&mut self, wavs: &SampleStore, pending: Vec<TrackAction>) -> (value:
        i128)
        requires
            old(self).wf(),
            wavs.wf(),
        ensures
            final(self).wf(),
            final(self).rate() == old(self).rate(),
            final(self).tracks() == advance(
                old(self).tracks().apply_all(pending@),
                wavs@,
                old(self).rate(),
            ),
            value == frame_value(old(self).tracks().apply_all(pending@), wavs@, old(self).rate()),
    {
        self.apply_actions(pending);
        self.mix_frame(wavs)
    }

    /// Fills one output buffer: applies the commands that are pending, first
    /// to last, before any sample is produced, then writes one mixed frame
    /// after the other, each to all of its channels.
    pub fn produce(
        &mut self,
        pending: Vec<TrackAction>,
        wavs: &SampleStore,
        output: &mut [i128],
        channels: usize,
    )
        requires
            old(self).wf(),
            wavs.wf(),
            channels > 0,
        ensures
            final(self).wf(),
            final(self).rate() == old(self).rate(),
            final(output)@.len() == old(output)@.len(),
            ({
                let frames = frame_count(old(output)@.len() as int, channels as int) as nat;
                let rendered = render(
                    old(self).tracks().apply_all(pending@),
                    wavs@,
                    old(self).rate(),
                    frames,
                );
                &&& final(self).tracks() == rendered.0
                &&& forall|i: int|
                    0 <= i < old(output)@.len() ==> final(output)@[i] == rendered.1[i / (
                    channels as int)]
            }),
    {
        self.apply_actions(pending);
        write_data(output, channels, self, wavs);
    }
}

/// Fills `output` with mixed frames of `channels` samples each: the value of
/// a frame is written identically to every channel. A last frame that the
/// buffer has no room for in full is written as far as the buffer goes.
pub fn write_data(output: &mut [i128], channels: usize, mixer: &mut Mixer, wavs: &SampleStore)
    requires
        channels > 0,
        old(mixer).wf(),
        wavs.wf(),
    ensures
        final(mixer).wf(),
        final(mixer).rate() == old(mixer).rate(),
        final(output)@.len() == old(output)@.len(),
        ({
            let frames = frame_count(old(output)@.len() as int, channels as int) as nat;
            let rendered = render(old(mixer).tracks(), wavs@, old(mixer).rate(), frames);
            &&& final(mixer).tracks() == rendered.0
            &&& forall|i: int|
                0 <= i < old(output)@.len() ==> final(output)@[i] == rendered.1[i / (
                channels as int)]
        }),
{
    let len = output.len();
    let ghost table = mixer.tracks();
    let ghost rate = mixer.rate();
    let ghost mut frames: nat = 0;
    let mut start: usize = 0;
    proof {
        assert(0 * channels == 0) by (nonlinear_arith);
    }
    while start < len
        invariant
            0 < channels,
            len == output@.len(),
            start <= len,
            mixer.wf(),
            wavs.wf(),
            table.wf(),
            mixer.rate() == rate,
            0 < rate <= u32::MAX,
            start == frames * channels || (start == len && frames * channels - channels < len
                < frames * channels),
            mixer.tracks() == render(table, wavs@, rate, frames).0,
            render(table, wavs@, rate, frames).1.len() == frames,
            forall|i: int|
                0 <= i < start ==> output@[i] == render(table, wavs@, rate, frames).1[i / (
                channels as int)],
        decreases len - start,
    {
        let ghost values = render(table, wavs@, rate, frames).1;
        let value = mixer.mix_frame(wavs);
        let remaining = len - start;
        let width = if channels < remaining {
            channels
        } else {
            remaining
        };
        let end = start + width;
        let mut k = start;
        while k < end
            invariant
                start <= k <= end <= len,
                len == output@.len(),
                forall|i: int| 0 <= i < start ==> output@[i] == values[i / (channels as int)],
                forall|i: int| start <= i < k ==> output@[i] == value,
            decreases end - k,
        {
            output[k] = value;
            k += 1;
        }
        proof {
            let next = render(table, wavs@, rate, frames + 1).1;
            assert(next == values.push(value as int));
            assert((frames + 1) * channels == frames * channels + channels) by (nonlinear_arith);
            assert forall|i: int| 0 <= i < end implies output@[i] == next[i / (channels as int)] by {
                if i < start {
                    lemma_frame_below(i, frames as int, channels as int);
                } else {
                    lemma_frame_of_index(i, frames as int, channels as int);
                }
            }
            frames = frames + 1;
        }
        start = end;
    }
    proof {
        lemma_frame_count(len as int, frames as int, channels as int);
    }
}

} // verus!
