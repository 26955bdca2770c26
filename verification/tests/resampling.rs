use track_mixer::action::TrackAction;
use track_mixer::mixer::{write_data, Mixer};
use track_mixer::resample::{mix_track, FULL_SCALE};
use track_mixer::store::SampleStore;
use track_mixer::track::{Track, TrackState};
use track_mixer::wav::Wav;

fn wav(samples: Vec<i16>, sample_rate: u32) -> Wav {
    Wav { samples, sample_rate, sample_size: 2 }
}

fn playing(time: u128) -> Track {
    Track { state: TrackState::Playing, time }
}

fn name(text: &str) -> String {
    text.to_string()
}

#[test]
fn whole_index_reads_the_sample_itself() {
    // Native rate 3, output rate 5: one second is 50 ticks.
    let ramp = wav(vec![100, -200, 300, -400, 500], 3);
    // 50 ticks is 1 s, raw index 3.
    let (next, value) = mix_track(playing(50), &ramp, 5);
    assert_eq!(value, -400 * 50);
    assert_eq!(next, playing(60));
    let (_, first) = mix_track(playing(0), &ramp, 5);
    assert_eq!(first, 100 * 50);
}

#[test]
fn fractional_index_interpolates_linearly() {
    let ramp = wav(vec![100, -200, 300, -400, 500], 3);
    // 20 ticks at rate 5 is 0.4 s, raw index 1.2: floor 1, ceil 2, frac 10/50.
    let (next, value) = mix_track(playing(20), &ramp, 5);
    assert_eq!(value, 300 * 10 + -200 * 40);
    assert_eq!(next, playing(30));
    // The same as a float: -200 * 0.8 + 300 * 0.2 = -100.
    assert_eq!(value as f64 / 50.0, -100.0);
    // 59 ticks: raw index 3.54, frac 27/50.
    let (_, late) = mix_track(playing(59), &ramp, 5);
    assert_eq!(late, 500 * 27 + -400 * 23);
}

#[test]
fn equal_rates_read_sample_after_sample() {
    let ramp = wav(vec![5, 6, 7, 8], 8);
    let mut track = playing(0);
    let mut heard = Vec::new();
    for _ in 0..4 {
        let (next, value) = mix_track(track, &ramp, 8);
        heard.push(value);
        track = next;
    }
    assert_eq!(heard, vec![5 * 80, 6 * 80, 7 * 80, 8 * 80]);
    let (end, silence) = mix_track(track, &ramp, 8);
    assert_eq!(silence, 0);
    assert_eq!(end, Track { state: TrackState::Stopped, time: 0 });
}

#[test]
fn cursor_past_the_end_stops_and_rewinds() {
    let ramp = wav(vec![1, 2, 3], 1);
    // Raw index 2 is the last sample; anything above has no upper neighbour.
    let (at_last, value) = mix_track(playing(20), &ramp, 1);
    assert_eq!(value, 3 * 10);
    assert_eq!(at_last, playing(30));
    let (after, silence) = mix_track(playing(21), &ramp, 1);
    assert_eq!(silence, 0);
    assert_eq!(after, Track { state: TrackState::Stopped, time: 0 });
    let (far, nothing) = mix_track(playing(1u128 << 100), &ramp, 1);
    assert_eq!(nothing, 0);
    assert_eq!(far, Track { state: TrackState::Stopped, time: 0 });
}

#[test]
fn single_sample_buffer_plays_once() {
    let blip = wav(vec![1234], 44100);
    let (next, value) = mix_track(playing(0), &blip, 44100);
    assert_eq!(value, 1234 * 441000);
    assert_eq!(next, playing(10));
    let (end, silence) = mix_track(next, &blip, 44100);
    assert_eq!(silence, 0);
    assert_eq!(end, Track { state: TrackState::Stopped, time: 0 });
}

#[test]
fn empty_buffer_stops_at_once() {
    let nothing = wav(Vec::new(), 44100);
    let (end, silence) = mix_track(playing(0), &nothing, 48000);
    assert_eq!(silence, 0);
    assert_eq!(end, Track { state: TrackState::Stopped, time: 0 });
    let slow = Track { state: TrackState::Slow, time: 0 };
    assert_eq!(mix_track(slow, &nothing, 48000), (Track { state: TrackState::Stopped, time: 0 }, 0));
}

#[test]
fn stopped_track_is_inert() {
    let ramp = wav(vec![1, 2, 3], 1);
    let stopped = Track { state: TrackState::Stopped, time: 5 };
    assert_eq!(mix_track(stopped, &ramp, 1), (stopped, 0));
}

#[test]
fn slow_track_gains_nine_tenths() {
    let long = wav(vec![0; 1000], 100);
    let mut slow = Track { state: TrackState::Slow, time: 0 };
    let mut full = playing(0);
    for _ in 0..500 {
        slow = mix_track(slow, &long, 100).0;
        full = mix_track(full, &long, 100).0;
    }
    assert_eq!(slow, Track { state: TrackState::Slow, time: 4500 });
    assert_eq!(full, playing(5000));
    // In seconds: ticks over ten times the output rate.
    assert_eq!(slow.time as f64 / 1000.0, 0.9 * 500.0 / 100.0);
    assert_eq!(full.time as f64 / 1000.0, 500.0 / 100.0);
}

#[test]
fn slow_track_reads_between_the_samples() {
    let ramp = wav(vec![0, 1000, 2000, 3000], 10);
    let slow = Track { state: TrackState::Slow, time: 9 };
    // 9 ticks at rate 10: raw index 0.9.
    let (next, value) = mix_track(slow, &ramp, 10);
    assert_eq!(value, 1000 * 90);
    assert_eq!(next, Track { state: TrackState::Slow, time: 18 });
}

#[test]
fn full_scale_is_the_sixteen_bit_magnitude() {
    assert_eq!(FULL_SCALE, 32768);
    let loud = wav(vec![i16::MIN, i16::MAX], 1);
    let (_, low) = mix_track(playing(0), &loud, 1);
    assert_eq!(low, -32768 * 10);
    let (_, high) = mix_track(playing(10), &loud, 1);
    assert_eq!(high, 32767 * 10);
}

#[test]
fn unloaded_track_is_silent_and_keeps_its_cursor() {
    let mut store = SampleStore::new();
    let mut mixer = Mixer::new(4);
    mixer.apply_actions(vec![TrackAction::Play(name("unloaded"))]);
    for _ in 0..5 {
        assert_eq!(mixer.mix_frame(&store), 0);
        assert_eq!(mixer.track(&name("unloaded")), Some(playing(0)));
    }
    store.insert(name("unloaded"), wav(vec![0, 16384, 0, -16384], 2));
    assert_eq!(mixer.mix_frame(&store), 0);
    assert_eq!(mixer.mix_frame(&store), 327680);
    assert_eq!(mixer.track(&name("unloaded")), Some(playing(20)));
}

#[test]
fn track_resumes_from_its_cursor_when_the_buffer_appears() {
    let mut loaded = SampleStore::new();
    loaded.insert(name("late"), wav(vec![0, 16384, 0, -16384], 2));
    let empty = SampleStore::new();
    let mut mixer = Mixer::new(4);
    mixer.apply_actions(vec![TrackAction::Play(name("late"))]);
    mixer.mix_frame(&loaded);
    mixer.mix_frame(&loaded);
    // The buffer is gone for a while: silence, and the cursor stays at 20.
    assert_eq!(mixer.mix_frame(&empty), 0);
    assert_eq!(mixer.mix_frame(&empty), 0);
    assert_eq!(mixer.track(&name("late")), Some(playing(20)));
    assert_eq!(mixer.mix_frame(&loaded), 655360);
    assert_eq!(mixer.track(&name("late")), Some(playing(30)));
}

#[test]
fn two_tracks_at_half_scale_sum_to_full_scale() {
    let mut store = SampleStore::new();
    store.insert(name("a"), wav(vec![16384; 8], 4));
    store.insert(name("b"), wav(vec![16384; 8], 4));
    let mut mixer = Mixer::new(4);
    mixer.apply_actions(vec![TrackAction::Play(name("a")), TrackAction::Play(name("b"))]);
    let value = mixer.mix_frame(&store);
    assert_eq!(value, mixer.scale() as i128);
    assert_eq!(value as f64 / mixer.scale() as f64, 1.0);
}

#[test]
fn the_mix_is_not_clipped() {
    let mut store = SampleStore::new();
    store.insert(name("a"), wav(vec![32767; 4], 4));
    store.insert(name("b"), wav(vec![32767; 4], 4));
    store.insert(name("c"), wav(vec![-32768; 4], 4));
    let mut mixer = Mixer::new(4);
    mixer.apply_actions(vec![TrackAction::Play(name("a")), TrackAction::Play(name("b"))]);
    assert_eq!(mixer.mix_frame(&store), 2 * 32767 * 40);
    mixer.apply_actions(vec![TrackAction::Stop(name("a")), TrackAction::Stop(name("b"))]);
    mixer.apply_actions(vec![TrackAction::Play(name("c")), TrackAction::Reset(name("a"))]);
    assert_eq!(mixer.mix_frame(&store), -32768 * 40);
}

#[test]
fn stopped_tracks_do_not_advance_in_the_mix() {
    let mut store = SampleStore::new();
    store.insert(name("a"), wav(vec![10, 20, 30, 40], 1));
    let mut mixer = Mixer::new(1);
    mixer.apply_actions(vec![TrackAction::Play(name("a"))]);
    assert_eq!(mixer.mix_frame(&store), 100);
    mixer.apply_actions(vec![TrackAction::Stop(name("a"))]);
    assert_eq!(mixer.mix_frame(&store), 0);
    assert_eq!(mixer.track(&name("a")), Some(Track { state: TrackState::Stopped, time: 10 }));
    mixer.apply_actions(vec![TrackAction::Slow(name("a"))]);
    assert_eq!(mixer.mix_frame(&store), 200);
    assert_eq!(mixer.track(&name("a")), Some(Track { state: TrackState::Slow, time: 19 }));
    // 19 ticks of 10 per second: raw index 1.9.
    assert_eq!(mixer.mix_frame(&store), 30 * 9 + 20 * 1);
}

#[test]
fn every_channel_of_a_frame_gets_the_same_value() {
    let mut store = SampleStore::new();
    store.insert(name("a"), wav(vec![1, 2, 3, 4], 1));
    let mut mixer = Mixer::new(1);
    mixer.apply_actions(vec![TrackAction::Play(name("a"))]);
    let mut output = vec![-1i128; 7];
    write_data(&mut output, 3, &mut mixer, &store);
    // Two full frames and one that the buffer cuts short.
    assert_eq!(output, vec![10, 10, 10, 20, 20, 20, 30]);
    assert_eq!(mixer.track(&name("a")), Some(playing(30)));
}

#[test]
fn an_empty_buffer_asks_for_no_frame() {
    let mut store = SampleStore::new();
    store.insert(name("a"), wav(vec![1, 2, 3, 4], 1));
    let mut mixer = Mixer::new(1);
    mixer.apply_actions(vec![TrackAction::Play(name("a"))]);
    let mut output: Vec<i128> = Vec::new();
    write_data(&mut output, 2, &mut mixer, &store);
    assert!(output.is_empty());
    assert_eq!(mixer.track(&name("a")), Some(playing(0)));
}

#[test]
fn mono_output_is_frame_after_frame() {
    let mut store = SampleStore::new();
    store.insert(name("a"), wav(vec![1, 2, 3], 1));
    let mut mixer = Mixer::new(1);
    assert_eq!(mixer.sample_rate(), 1);
    let mut output = vec![0i128; 5];
    mixer.produce(vec![TrackAction::Play(name("a"))], &store, &mut output, 1);
    assert_eq!(output, vec![10, 20, 30, 0, 0]);
    assert_eq!(mixer.track(&name("a")), Some(Track { state: TrackState::Stopped, time: 0 }));
}
