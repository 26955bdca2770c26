use track_mixer::action::TrackAction;
use track_mixer::mixer::Mixer;
use track_mixer::store::SampleStore;
use track_mixer::track::{Track, TrackState};
use track_mixer::wav::Wav;

fn beep_store() -> SampleStore {
    let mut store = SampleStore::new();
    store.insert(
        "beep".to_string(),
        Wav { samples: vec![0, 16384, 0, -16384], sample_rate: 2, sample_size: 2 },
    );
    store
}

fn beep() -> String {
    "beep".to_string()
}

#[test]
fn beep_at_half_sample_steps() {
    let store = beep_store();
    let mut mixer = Mixer::new(4);
    mixer.apply_actions(vec![TrackAction::Play(beep())]);
    let scale = mixer.scale() as f64;
    let mut heard = Vec::new();
    for _ in 0..4 {
        heard.push(mixer.mix_frame(&store) as f64 / scale);
    }
    assert_eq!(heard, vec![0.0, 0.25, 0.5, 0.25]);
    assert_eq!(mixer.track(&beep()), Some(Track { state: TrackState::Playing, time: 40 }));
}

#[test]
fn beep_frame_values_are_exact() {
    let store = beep_store();
    let mut mixer = Mixer::new(4);
    assert_eq!(mixer.scale(), 32768 * 10 * 4);
    mixer.apply_actions(vec![TrackAction::Play(beep())]);
    let mut heard = Vec::new();
    for _ in 0..7 {
        heard.push(mixer.mix_frame(&store));
    }
    assert_eq!(heard, vec![0, 327680, 655360, 327680, 0, -327680, -655360]);
    assert_eq!(mixer.track(&beep()), Some(Track { state: TrackState::Playing, time: 70 }));
}

#[test]
fn beep_stops_and_rewinds_when_the_buffer_runs_out() {
    let store = beep_store();
    let mut mixer = Mixer::new(4);
    mixer.apply_actions(vec![TrackAction::Play(beep())]);
    for _ in 0..7 {
        mixer.mix_frame(&store);
    }
    // The cursor now stands at index 3.5: the sample above it does not exist.
    assert_eq!(mixer.mix_frame(&store), 0);
    assert_eq!(mixer.track(&beep()), Some(Track { state: TrackState::Stopped, time: 0 }));
    assert_eq!(mixer.mix_frame(&store), 0);
    assert_eq!(mixer.track(&beep()), Some(Track { state: TrackState::Stopped, time: 0 }));
}

#[test]
fn beep_through_the_callback() {
    let store = beep_store();
    let mut mixer = Mixer::new(4);
    let mut output = vec![7i128; 8];
    mixer.produce(vec![TrackAction::Play(beep())], &store, &mut output, 2);
    assert_eq!(output, vec![0, 0, 327680, 327680, 655360, 655360, 327680, 327680]);
    assert_eq!(mixer.track(&beep()), Some(Track { state: TrackState::Playing, time: 40 }));
}

#[test]
fn pending_commands_apply_before_the_frame() {
    let store = beep_store();
    let mut mixer = Mixer::new(4);
    assert_eq!(mixer.get_next_audio_value(&store, vec![TrackAction::Play(beep())]), 0);
    assert_eq!(mixer.get_next_audio_value(&store, Vec::new()), 327680);
    assert_eq!(mixer.get_next_audio_value(&store, vec![TrackAction::Stop(beep())]), 0);
    assert_eq!(mixer.track(&beep()), Some(Track { state: TrackState::Stopped, time: 20 }));
    assert_eq!(
        mixer.get_next_audio_value(
            &store,
            vec![TrackAction::Reset(beep()), TrackAction::Play(beep())]
        ),
        0
    );
    assert_eq!(mixer.track(&beep()), Some(Track { state: TrackState::Playing, time: 10 }));
}
