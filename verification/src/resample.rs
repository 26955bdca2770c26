//! Where a cursor falls in a sample buffer, and the value read there.
//!
//! A cursor of `time` ticks in a buffer recorded at `native` samples per
//! second, played at `rate` output frames per second, stands at the raw
//! index `time * native / (10 * rate)`. The functions here split that
//! rational into its floor, its ceiling and the numerator of its fractional
//! part, and interpolate linearly between the two neighbouring samples.
use vstd::prelude::*;
use vstd::arithmetic::div_mod::{lemma_fundamental_div_mod, lemma_fundamental_div_mod_converse};
use crate::track::{Track, TrackState, FULL_STEP, MAX_CURSOR, SLOW_STEP};
use crate::wav::Wav;

verus! {

/// The magnitude of a full-scale 16-bit sample, by which sample values are
/// divided to reach the range from -1 to 1.
pub const FULL_SCALE: i64 = 32768;

/// Ticks per second at an output rate of `rate` frames per second: the
/// denominator of every position computed here.
pub open spec fn ticks_per_second(rate: int) -> int {
    FULL_STEP * rate
}

/// The raw index rounded down.
pub open spec fn floor_index(time: int, native: int, rate: int) -> int {
    (time * native) / ticks_per_second(rate)
}

/// The fractional part of the raw index, as a numerator over
/// `ticks_per_second(rate)`.
pub open spec fn fraction(time: int, native: int, rate: int) -> int {
    (time * native) % ticks_per_second(rate)
}

/// The raw index rounded up.
pub open spec fn ceil_index(time: int, native: int, rate: int) -> int {
    if fraction(time, native, rate) == 0 {
        floor_index(time, native, rate)
    } else {
        floor_index(time, native, rate) + 1
    }
}

/// Whether the cursor has run past the buffer: the sample above the raw
/// index does not exist. An empty buffer is past its end at once.
pub open spec fn past_end(wav: Wav, time: int, rate: int) -> bool {
    ceil_index(time, wav.sample_rate as int, rate) >= wav.samples@.len()
}

/// The linear interpolation between the samples below and above the raw
/// index, as a numerator over `ticks_per_second(rate)`:
/// `upper * frac + lower * (1 - frac)`.
pub open spec fn interpolate(wav: Wav, time: int, rate: int) -> int {
    let native = wav.sample_rate as int;
    let frac = fraction(time, native, rate);
    let lower = wav.samples@[floor_index(time, native, rate)];
    let upper = wav.samples@[ceil_index(time, native, rate)];
    upper * frac + lower * (ticks_per_second(rate) - frac)
}

/// The track after one output frame, given the buffer found under its name.
///
/// A stopped track and a track without a buffer stay as they are. An audible
/// track whose cursor has run past its buffer stops and rewinds; any other
/// audible track advances by the step of its mode.
pub open spec fn step_track(track: Track, wav: Option<Wav>, rate: int) -> Track {
    if !track.state.audible() {
        track
    } else {
        match wav {
            None => track,
            Some(wav) => if past_end(wav, track.time as int, rate) {
                Track { state: TrackState::Stopped, time: 0 }
            } else {
                Track { state: track.state, time: (track.time + track.state.step()) as u128 }
            },
        }
    }
}

/// What the track adds to one output frame, as a numerator over
/// `FULL_SCALE * ticks_per_second(rate)`: the interpolated sample for an
/// audible track that has a buffer and has not run past it, 0 otherwise.
pub open spec fn contribution(track: Track, wav: Option<Wav>, rate: int) -> int {
    if !track.state.audible() {
        0
    } else {
        match wav {
            None => 0,
            Some(wav) => if past_end(wav, track.time as int, rate) {
                0
            } else {
                interpolate(wav, track.time as int, rate)
            },
        }
    }
}

/// Splitting the cursor into whole seconds and a rest splits the raw index
/// the same way; the fraction depends on the rest alone.
pub proof fn lemma_split_index(time: int, native: int, d: int)
    requires
        0 <= time,
        0 <= native,
        0 < d,
    ensures
        (time * native) / d == (time / d) * native + ((time % d) * native) / d,
        (time * native) % d == ((time % d) * native) % d,
{
    let q = time / d;
    let r = time % d;
    let p = r * native;
    lemma_fundamental_div_mod(time, d);
    lemma_fundamental_div_mod(p, d);
    assert(0 <= p) by (nonlinear_arith)
        requires
            0 <= r,
            0 <= native,
            p == r * native,
    ;
    assert(time * native == (q * native + p / d) * d + p % d) by (nonlinear_arith)
        requires
            time == d * q + r,
            p == r * native,
            p == d * (p / d) + p % d,
    ;
    lemma_fundamental_div_mod_converse(time * native, d, q * native + p / d, p % d);
}

/// A value between two 16-bit samples, scaled by `d`, stays within full
/// scale times `d`.
pub proof fn lemma_interpolation_bound(lower: int, upper: int, frac: int, d: int)
    requires
        -FULL_SCALE <= lower <= FULL_SCALE,
        -FULL_SCALE <= upper <= FULL_SCALE,
        0 <= frac <= d,
    ensures
        -(FULL_SCALE * d) <= upper * frac + lower * (d - frac) <= FULL_SCALE * d,
        -(FULL_SCALE * frac) <= upper * frac <= FULL_SCALE * frac,
        -(FULL_SCALE * (d - frac)) <= lower * (d - frac) <= FULL_SCALE * (d - frac),
{
    assert(-(FULL_SCALE * frac) <= upper * frac <= FULL_SCALE * frac) by (nonlinear_arith)
        requires
            -FULL_SCALE <= upper <= FULL_SCALE,
            0 <= frac,
    ;
    assert(-(FULL_SCALE * (d - frac)) <= lower * (d - frac) <= FULL_SCALE * (d - frac))
        by (nonlinear_arith)
        requires
            -FULL_SCALE <= lower <= FULL_SCALE,
            0 <= d - frac,
    ;
    assert(FULL_SCALE * frac + FULL_SCALE * (d - frac) == FULL_SCALE * d) by (nonlinear_arith);
}

/// A cursor that still indexes into a buffer is far from the largest
/// cursor: stepping it cannot overflow.
pub proof fn lemma_cursor_in_buffer(time: int, native: int, rate: int, len: int)
    requires
        0 <= time,
        1 <= native,
        1 <= rate <= u32::MAX,
        len <= usize::MAX,
        floor_index(time, native, rate) < len,
    ensures
        time + FULL_STEP <= MAX_CURSOR,
{
    let d = ticks_per_second(rate);
    let x = time * native;
    assert(time <= x) by (nonlinear_arith)
        requires
            0 <= time,
            1 <= native,
            x == time * native,
    ;
    lemma_fundamental_div_mod(x, d);
    let q = x / d;
    assert(q <= 0xffff_ffff_ffff_fffe);
    assert(d <= 42949672950);
    assert(d * q <= 42949672950 * 0xffff_ffff_ffff_fffe) by (nonlinear_arith)
        requires
            0 < d <= 42949672950,
            q <= 0xffff_ffff_ffff_fffe,
    ;
}

/// The track after `frames` output frames, given the buffer found under its
/// name.
pub open spec fn run_track(track: Track, wav: Option<Wav>, rate: int, frames: nat) -> Track
    decreases frames,
{
    if frames == 0 {
        track
    } else {
        step_track(run_track(track, wav, rate, (frames - 1) as nat), wav, rate)
    }
}

/// Where the raw index is a whole number, the interpolated value is the
/// sample at that index itself.
pub proof fn lemma_whole_index(wav: Wav, time: int, rate: int)
    requires
        fraction(time, wav.sample_rate as int, rate) == 0,
    ensures
        ceil_index(time, wav.sample_rate as int, rate) == floor_index(
            time,
            wav.sample_rate as int,
            rate,
        ),
        interpolate(wav, time, rate) == wav.samples@[floor_index(
            time,
            wav.sample_rate as int,
            rate,
        )] * ticks_per_second(rate),
{
    let sample = wav.samples@[floor_index(time, wav.sample_rate as int, rate)];
    assert(sample * 0 == 0) by (nonlinear_arith);
}

/// Where the raw index falls between two samples, the interpolated value
/// is the lower sample plus the fraction of the way to the upper one, and
/// lies between the two.
pub proof fn lemma_between_samples(wav: Wav, time: int, rate: int)
    requires
        0 <= time,
        0 < rate,
        fraction(time, wav.sample_rate as int, rate) != 0,
    ensures
        ceil_index(time, wav.sample_rate as int, rate) == floor_index(
            time,
            wav.sample_rate as int,
            rate,
        ) + 1,
        0 < fraction(time, wav.sample_rate as int, rate) < ticks_per_second(rate),
        ({
            let lower = wav.samples@[floor_index(time, wav.sample_rate as int, rate)];
            let upper = wav.samples@[floor_index(time, wav.sample_rate as int, rate) + 1];
            let frac = fraction(time, wav.sample_rate as int, rate);
            let d = ticks_per_second(rate);
            &&& interpolate(wav, time, rate) == lower * d + (upper - lower) * frac
            &&& lower <= upper ==> lower * d <= interpolate(wav, time, rate) <= upper * d
            &&& upper <= lower ==> upper * d <= interpolate(wav, time, rate) <= lower * d
        }),
{
    let native = wav.sample_rate as int;
    let lower = wav.samples@[floor_index(time, native, rate)] as int;
    let upper = wav.samples@[floor_index(time, native, rate) + 1] as int;
    let frac = fraction(time, native, rate);
    let d = ticks_per_second(rate);
    lemma_fundamental_div_mod(time * native, d);
    assert(0 <= frac < d);
    assert(upper * frac + lower * (d - frac) == lower * d + (upper - lower) * frac)
        by (nonlinear_arith);
    assert(lower <= upper ==> 0 <= (upper - lower) * frac <= (upper - lower) * d)
        by (nonlinear_arith)
        requires
            0 <= frac < d,
    ;
    assert(upper <= lower ==> (upper - lower) * d <= (upper - lower) * frac <= 0)
        by (nonlinear_arith)
        requires
            0 <= frac < d,
    ;
    assert(lower * d + (upper - lower) * d == upper * d) by (nonlinear_arith);
}

/// A cursor is past the end of a buffer exactly when its raw index lies
/// beyond the last sample.
pub proof fn lemma_past_end(wav: Wav, time: int, rate: int)
    requires
        0 <= time,
        0 < rate,
    ensures
        past_end(wav, time, rate) <==> time * wav.sample_rate > (wav.samples@.len() - 1)
            * ticks_per_second(rate),
{
    let native = wav.sample_rate as int;
    let d = ticks_per_second(rate);
    let x = time * native;
    let last = wav.samples@.len() - 1;
    lemma_fundamental_div_mod(x, d);
    let q = x / d;
    let r = x % d;
    assert(0 <= r < d);
    assert(q > last <==> d * q > last * d) by (nonlinear_arith)
        requires
            0 < d,
    ;
    assert(q >= last ==> d * q >= last * d) by (nonlinear_arith)
        requires
            0 < d,
    ;
    assert(q < last ==> d * q + d <= last * d) by (nonlinear_arith)
        requires
            0 < d,
    ;
}

/// A cursor that is past the end stays past the end as it grows.
pub proof fn lemma_past_end_monotone(wav: Wav, earlier: int, later: int, rate: int)
    requires
        0 <= earlier <= later,
        0 < rate,
        past_end(wav, earlier, rate),
    ensures
        past_end(wav, later, rate),
{
    lemma_past_end(wav, earlier, rate);
    lemma_past_end(wav, later, rate);
    assert(earlier * wav.sample_rate <= later * wav.sample_rate) by (nonlinear_arith)
        requires
            earlier <= later,
            0 <= wav.sample_rate,
    ;
}

/// An audible track whose cursor has run past its buffer is stopped and
/// rewound by the next frame and adds nothing to it, whatever the length of
/// the buffer.
pub proof fn lemma_end_of_track(track: Track, wav: Wav, rate: int)
    requires
        0 < rate,
        track.state.audible(),
        track.time * wav.sample_rate > (wav.samples@.len() - 1) * ticks_per_second(rate),
    ensures
        step_track(track, Some(wav), rate) == (Track { state: TrackState::Stopped, time: 0 }),
        contribution(track, Some(wav), rate) == 0,
{
    lemma_past_end(wav, track.time as int, rate);
}

/// A track without a buffer is silent and keeps its mode and cursor, frame
/// after frame.
pub proof fn lemma_missing_buffer(track: Track, rate: int, frames: nat)
    ensures
        contribution(track, None, rate) == 0,
        run_track(track, None, rate, frames) == track,
    decreases frames,
{
    if frames > 0 {
        lemma_missing_buffer(track, rate, (frames - 1) as nat);
    }
}

/// A stopped track is silent and inert, frame after frame.
pub proof fn lemma_stopped_track(track: Track, wav: Option<Wav>, rate: int, frames: nat)
    requires
        track.state == TrackState::Stopped,
    ensures
        contribution(track, wav, rate) == 0,
        run_track(track, wav, rate, frames) == track,
    decreases frames,
{
    if frames > 0 {
        lemma_stopped_track(track, wav, rate, (frames - 1) as nat);
    }
}

/// As long as an audible track stays within its buffer, every frame
/// advances its cursor by the step of its mode: after `frames` frames by
/// `frames` times the step.
pub proof fn lemma_steady_advance(track: Track, wav: Wav, rate: int, frames: nat)
    requires
        wav.wf(),
        0 < rate <= u32::MAX,
        track.state.audible(),
        frames > 0 ==> !past_end(wav, track.time + (frames - 1) * track.state.step(), rate),
    ensures
        run_track(track, Some(wav), rate, frames) == (Track {
            state: track.state,
            time: (track.time + frames * track.state.step()) as u128,
        }),
        track.time + frames * track.state.step() <= u128::MAX,
    decreases frames,
{
    let step = track.state.step();
    if frames == 0 {
        assert(frames * step == 0) by (nonlinear_arith)
            requires
                frames == 0,
        ;
    } else {
        let prev = (frames - 1) as nat;
        let last = track.time + prev * step;
        assert(0 <= prev * step) by (nonlinear_arith)
            requires
                0 <= prev,
                0 <= step,
        ;
        assert(frames * step == prev * step + step) by (nonlinear_arith)
            requires
                frames == prev + 1,
        ;
        if prev > 0 {
            let before = track.time + (prev - 1) * step;
            assert(prev * step == (prev - 1) * step + step) by (nonlinear_arith);
            assert(0 <= (prev - 1) * step) by (nonlinear_arith)
                requires
                    0 <= prev - 1,
                    0 <= step,
            ;
            if past_end(wav, before, rate) {
                lemma_past_end_monotone(wav, before, last, rate);
            }
        }
        lemma_steady_advance(track, wav, rate, prev);
        assert(wav.samples.len() == wav.samples@.len());
        lemma_cursor_in_buffer(last, wav.sample_rate as int, rate, wav.samples@.len() as int);
        let reached = run_track(track, Some(wav), rate, prev);
        assert(reached.time == last);
        assert(reached.state == track.state);
        assert(run_track(track, Some(wav), rate, frames) == step_track(reached, Some(wav), rate));
    }
}

/// Over any number of frames within the buffer, a slowed track gains nine
/// tenths of what a track at full speed gains: `9 * frames` ticks against
/// `10 * frames`.
pub proof fn lemma_slow_rate(time: u128, wav: Wav, rate: int, frames: nat)
    requires
        wav.wf(),
        0 < rate <= u32::MAX,
        frames > 0 ==> !past_end(wav, time + (frames - 1) * FULL_STEP, rate),
    ensures
        ({
            let slow = run_track(
                Track { state: TrackState::Slow, time },
                Some(wav),
                rate,
                frames,
            );
            let full = run_track(
                Track { state: TrackState::Playing, time },
                Some(wav),
                rate,
                frames,
            );
            &&& slow.state == TrackState::Slow
            &&& full.state == TrackState::Playing
            &&& slow.time - time == SLOW_STEP * frames
            &&& full.time - time == FULL_STEP * frames
            &&& FULL_STEP * (slow.time - time) == SLOW_STEP * (full.time - time)
        }),
{
    if frames > 0 {
        assert(0 <= (frames - 1) * SLOW_STEP <= (frames - 1) * FULL_STEP) by (nonlinear_arith)
            requires
                0 <= frames - 1,
        ;
        if past_end(wav, time + (frames - 1) * SLOW_STEP, rate) {
            lemma_past_end_monotone(
                wav,
                time + (frames - 1) * SLOW_STEP,
                time + (frames - 1) * FULL_STEP,
                rate,
            );
        }
    }
    lemma_steady_advance(Track { state: TrackState::Slow, time }, wav, rate, frames);
    lemma_steady_advance(Track { state: TrackState::Playing, time }, wav, rate, frames);
    assert(frames * TrackState::Slow.step() == SLOW_STEP * frames) by (nonlinear_arith)
        requires
            TrackState::Slow.step() == SLOW_STEP,
    ;
    assert(frames * TrackState::Playing.step() == FULL_STEP * frames) by (nonlinear_arith)
        requires
            TrackState::Playing.step() == FULL_STEP,
    ;
    assert(FULL_STEP * (SLOW_STEP * frames) == SLOW_STEP * (FULL_STEP * frames))
        by (nonlinear_arith);
}

/// Mixes one track for one output frame: returns the track as it stands
/// after the frame and what it adds to the frame.
pub fn mix_track(track: Track, wav: &Wav, rate: u32) -> (out: (Track, i64))
    requires
        wav.wf(),
        rate > 0,
        track.time <= MAX_CURSOR,
    ensures
        out.0 == step_track(track, Some(*wav), rate as int),
        out.1 == contribution(track, Some(*wav), rate as int),
        out.0.time <= MAX_CURSOR,
        -(FULL_SCALE * ticks_per_second(rate as int)) <= out.1 <= FULL_SCALE * ticks_per_second(
            rate as int,
        ),
{
    let step: u128 = match track.state {
        TrackState::Stopped => {
            return (track, 0);
        },
        TrackState::Playing => FULL_STEP,
        TrackState::Slow => SLOW_STEP,
    };
    let stopped = Track { state: TrackState::Stopped, time: 0 };
    let d: u128 = FULL_STEP * (rate as u128);
    let native: u128 = wav.sample_rate as u128;
    let len: u128 = wav.samples.len() as u128;
    let whole: u128 = track.time / d;
    let rest: u128 = track.time % d;
    proof {
        lemma_split_index(track.time as int, native as int, d as int);
        assert(whole <= whole * native) by (nonlinear_arith)
            requires
                1 <= native,
        ;
        assert(0 <= (rest * native) / (d as int)) by (nonlinear_arith)
            requires
                0 < d,
                0 <= rest,
                0 <= native,
        ;
    }
    if whole >= len {
        return (stopped, 0);
    }
    assert(whole * native <= 0xffff_ffff_ffff_ffff * 0xffff_ffff) by (nonlinear_arith)
        requires
            whole <= 0xffff_ffff_ffff_ffff,
            native <= 0xffff_ffff,
    ;
    assert(rest * native <= 42949672950 * 0xffff_ffff) by (nonlinear_arith)
        requires
            rest <= 42949672950,
            native <= 0xffff_ffff,
    ;
    let part: u128 = rest * native;
    let lower: u128 = whole * native + part / d;
    let frac: u128 = part % d;
    let upper: u128 = if frac == 0 {
        lower
    } else {
        lower + 1
    };
    assert(lower == floor_index(track.time as int, native as int, rate as int));
    assert(frac == fraction(track.time as int, native as int, rate as int));
    assert(upper == ceil_index(track.time as int, native as int, rate as int));
    if upper >= len {
        return (stopped, 0);
    }
    let below: i64 = wav.samples[lower as usize] as i64;
    let above: i64 = wav.samples[upper as usize] as i64;
    let weight: i64 = frac as i64;
    let full: i64 = d as i64;
    proof {
        lemma_interpolation_bound(below as int, above as int, weight as int, full as int);
        lemma_cursor_in_buffer(track.time as int, native as int, rate as int, len as int);
        assert(FULL_SCALE * weight <= FULL_SCALE * 42949672950) by (nonlinear_arith)
            requires
                weight <= 42949672950,
        ;
        assert(FULL_SCALE * (full - weight) <= FULL_SCALE * 42949672950) by (nonlinear_arith)
            requires
                full - weight <= 42949672950,
        ;
        assert(FULL_SCALE * full <= FULL_SCALE * 42949672950) by (nonlinear_arith)
            requires
                full <= 42949672950,
        ;
    }
    let value: i64 = above * weight + below * (full - weight);
    (Track { state: track.state, time: track.time + step }, value)
}

} // verus!
