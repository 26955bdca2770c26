use track_mixer::action::{AudioMessage, TrackAction};
use track_mixer::manager::{AudioManager, Command};
use track_mixer::store::SampleStore;
use track_mixer::wav::Wav;

fn name(text: &str) -> String {
    text.to_string()
}

fn wav(first: i16) -> Wav {
    Wav { samples: vec![first, 2, 3], sample_rate: 8000, sample_size: 2 }
}

#[test]
fn a_fresh_manager_has_nothing_in_flight() {
    let manager = AudioManager::new();
    assert_eq!(manager.loaded_check(), (0, 0));
    assert!(!manager.is_loading());
}

#[test]
fn load_is_requested_once() {
    let mut manager = AudioManager::new();
    assert_eq!(manager.load(name("music")), Some(name("music")));
    assert_eq!(manager.loaded_check(), (1, 0));
    assert!(manager.is_loading());
    // Already on its way: nothing to do.
    assert_eq!(manager.load(name("music")), None);
    assert_eq!(manager.loaded_check(), (1, 0));
}

#[test]
fn a_loaded_track_is_not_requested_again() {
    let mut manager = AudioManager::new();
    let mut store = SampleStore::new();
    manager.load(name("music"));
    manager.complete_loads(&mut store, vec![(name("music"), Some(wav(1)))]);
    assert_eq!(manager.loaded_check(), (0, 1));
    assert!(!manager.is_loading());
    assert_eq!(manager.load(name("music")), None);
    assert_eq!(manager.loaded_check(), (0, 1));
    assert!(store.contains(&name("music")));
    assert_eq!(store.len(), 1);
}

#[test]
fn a_failed_load_leaves_the_track_absent_and_free_to_ask_for() {
    let mut manager = AudioManager::new();
    let mut store = SampleStore::new();
    manager.load(name("broken"));
    manager.complete_loads(&mut store, vec![(name("broken"), None)]);
    assert_eq!(manager.loaded_check(), (0, 0));
    assert!(!store.contains(&name("broken")));
    assert_eq!(store.len(), 0);
    assert_eq!(manager.load(name("broken")), Some(name("broken")));
    assert_eq!(manager.loaded_check(), (1, 0));
}

#[test]
fn messages_become_commands_in_order() {
    let mut manager = AudioManager::new();
    let commands = manager.handle_messages(vec![
        AudioMessage::Load(name("a")),
        AudioMessage::TrackAction(TrackAction::Play(name("a"))),
        AudioMessage::Load(name("a")),
        AudioMessage::Load(name("b")),
        AudioMessage::TrackAction(TrackAction::Slow(name("zzz"))),
    ]);
    assert_eq!(
        commands,
        vec![
            Command::Load(name("a")),
            Command::Send(TrackAction::Play(name("a"))),
            Command::Load(name("b")),
            Command::Send(TrackAction::Slow(name("zzz"))),
        ]
    );
    assert_eq!(manager.loaded_check(), (2, 0));
}

#[test]
fn completions_fill_the_store_in_one_batch() {
    let mut manager = AudioManager::new();
    let mut store = SampleStore::new();
    manager.handle_messages(vec![
        AudioMessage::Load(name("a")),
        AudioMessage::Load(name("b")),
        AudioMessage::Load(name("c")),
    ]);
    manager.complete_loads(
        &mut store,
        vec![(name("a"), Some(wav(10))), (name("b"), None), (name("a"), Some(wav(20)))],
    );
    assert_eq!(manager.loaded_check(), (1, 1));
    assert_eq!(store.len(), 1);
    // The later buffer replaced the earlier one wholesale.
    assert_eq!(store.get(&name("a")).unwrap().samples, vec![20, 2, 3]);
    assert!(store.get(&name("b")).is_none());
    assert!(manager.is_loading());
}

#[test]
fn update_reports_the_counts_after_the_round() {
    let mut manager = AudioManager::new();
    let mut store = SampleStore::new();
    let (commands, counts) = manager.update(
        &mut store,
        vec![AudioMessage::Load(name("a")), AudioMessage::Load(name("b"))],
        Vec::new(),
    );
    assert_eq!(commands, vec![Command::Load(name("a")), Command::Load(name("b"))]);
    assert_eq!(counts, (2, 0));
    let (commands, counts) = manager.update(
        &mut store,
        vec![AudioMessage::TrackAction(TrackAction::Play(name("a")))],
        vec![(name("a"), Some(wav(1)))],
    );
    assert_eq!(commands, vec![Command::Send(TrackAction::Play(name("a")))]);
    assert_eq!(counts, (1, 1));
    let (commands, counts) = manager.update(&mut store, Vec::new(), vec![(name("b"), None)]);
    assert!(commands.is_empty());
    assert_eq!(counts, (0, 1));
    assert_eq!(manager.loaded_check(), (0, 1));
}

#[test]
fn shutdown_is_sent_once() {
    let mut manager = AudioManager::new();
    manager.load(name("a"));
    assert_eq!(manager.cleanup(), Some(TrackAction::ShutdownThread));
    assert_eq!(manager.cleanup(), None);
    assert_eq!(manager.cleanup(), None);
    assert_eq!(manager.loaded_check(), (1, 0));
}
