use track_mixer::action::{AudioMessage, TrackAction};
use track_mixer::cue::{death, pause, play, reset, PlayerStatus, DEATH_TRACK};
use track_mixer::manager::{AudioManager, Command};
use track_mixer::mixer::Mixer;
use track_mixer::store::SampleStore;
use track_mixer::track::{Track, TrackState};
use track_mixer::wav::Wav;

fn song() -> String {
    "song.wav".to_string()
}

#[test]
fn music_plays_for_the_living_and_slows_for_the_dead() {
    assert_eq!(
        play(PlayerStatus::Alive, &song()),
        AudioMessage::TrackAction(TrackAction::Play(song()))
    );
    assert_eq!(
        play(PlayerStatus::Dead, &song()),
        AudioMessage::TrackAction(TrackAction::Slow(song()))
    );
}

#[test]
fn pause_stops_and_reset_rewinds() {
    assert_eq!(pause(&song()), AudioMessage::TrackAction(TrackAction::Stop(song())));
    assert_eq!(reset(&song()), AudioMessage::TrackAction(TrackAction::Reset(song())));
}

#[test]
fn death_plays_its_track_and_slows_the_music() {
    assert_eq!(DEATH_TRACK, "test.wav");
    let (first, second) = death(&song());
    assert_eq!(first, AudioMessage::TrackAction(TrackAction::Play("test.wav".to_string())));
    assert_eq!(second, AudioMessage::TrackAction(TrackAction::Slow(song())));
}

#[test]
fn a_death_reaches_the_mixer() {
    let mut store = SampleStore::new();
    store.insert(song(), Wav { samples: vec![100; 64], sample_rate: 8, sample_size: 2 });
    store.insert(
        DEATH_TRACK.to_string(),
        Wav { samples: vec![-300; 64], sample_rate: 8, sample_size: 2 },
    );
    let mut manager = AudioManager::new();
    let mut mixer = Mixer::new(8);

    let started = manager.handle_messages(vec![play(PlayerStatus::Alive, &song())]);
    let mut pending = Vec::new();
    for command in started {
        match command {
            Command::Send(action) => pending.push(action),
            Command::Load(_) => unreachable!(),
        }
    }
    let mut output = vec![0i128; 4];
    mixer.produce(pending, &store, &mut output, 1);
    assert_eq!(output, vec![100 * 80; 4]);

    let (first, second) = death(&song());
    let died = manager.handle_messages(vec![first, second]);
    let mut pending = Vec::new();
    for command in died {
        match command {
            Command::Send(action) => pending.push(action),
            Command::Load(_) => unreachable!(),
        }
    }
    mixer.produce(pending, &store, &mut output, 1);
    assert_eq!(output, vec![(100 - 300) * 80; 4]);
    assert_eq!(mixer.track(&song()), Some(Track { state: TrackState::Slow, time: 40 + 36 }));
    assert_eq!(
        mixer.track(&DEATH_TRACK.to_string()),
        Some(Track { state: TrackState::Playing, time: 40 })
    );
}
