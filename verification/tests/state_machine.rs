use track_mixer::action::{AudioMessage, TrackAction};
use track_mixer::track::{
    update_track_state, Track, TrackState, TrackTable, FULL_STEP, MAX_CURSOR, SLOW_STEP,
};

fn name(text: &str) -> String {
    text.to_string()
}

#[test]
fn play_twice_is_play_once() {
    let mut once = TrackTable::new();
    update_track_state(&mut once, TrackAction::Stop(name("a")));
    once.set_track(0, Track { state: TrackState::Stopped, time: 123 });
    update_track_state(&mut once, TrackAction::Play(name("a")));

    let mut twice = TrackTable::new();
    update_track_state(&mut twice, TrackAction::Stop(name("a")));
    twice.set_track(0, Track { state: TrackState::Stopped, time: 123 });
    update_track_state(&mut twice, TrackAction::Play(name("a")));
    update_track_state(&mut twice, TrackAction::Play(name("a")));

    let expected = Some(Track { state: TrackState::Playing, time: 123 });
    assert_eq!(once.get(&name("a")), expected);
    assert_eq!(twice.get(&name("a")), expected);
    assert_eq!(once.len(), 1);
    assert_eq!(twice.len(), 1);
}

#[test]
fn stop_on_unknown_track_creates_stopped_entry() {
    let mut table = TrackTable::new();
    assert_eq!(table.get(&name("ghost")), None);
    update_track_state(&mut table, TrackAction::Stop(name("ghost")));
    assert_eq!(table.get(&name("ghost")), Some(Track { state: TrackState::Stopped, time: 0 }));
    assert_eq!(table.len(), 1);
}

#[test]
fn unknown_track_starts_at_zero_in_the_commanded_mode() {
    let mut table = TrackTable::new();
    update_track_state(&mut table, TrackAction::Play(name("p")));
    update_track_state(&mut table, TrackAction::Slow(name("s")));
    update_track_state(&mut table, TrackAction::Reset(name("r")));
    assert_eq!(table.get(&name("p")), Some(Track { state: TrackState::Playing, time: 0 }));
    assert_eq!(table.get(&name("s")), Some(Track { state: TrackState::Slow, time: 0 }));
    assert_eq!(table.get(&name("r")), Some(Track { state: TrackState::Stopped, time: 0 }));
    assert_eq!(table.len(), 3);
    assert_eq!(table.name_at(0), "p");
    assert_eq!(table.name_at(1), "s");
    assert_eq!(table.name_at(2), "r");
}

#[test]
fn mode_changes_keep_the_cursor_and_reset_rewinds() {
    let mut table = TrackTable::new();
    update_track_state(&mut table, TrackAction::Play(name("a")));
    table.set_track(0, Track { state: TrackState::Playing, time: 77 });
    update_track_state(&mut table, TrackAction::Slow(name("a")));
    assert_eq!(table.get(&name("a")), Some(Track { state: TrackState::Slow, time: 77 }));
    update_track_state(&mut table, TrackAction::Stop(name("a")));
    assert_eq!(table.get(&name("a")), Some(Track { state: TrackState::Stopped, time: 77 }));
    update_track_state(&mut table, TrackAction::Play(name("a")));
    assert_eq!(table.get(&name("a")), Some(Track { state: TrackState::Playing, time: 77 }));
    update_track_state(&mut table, TrackAction::Reset(name("a")));
    assert_eq!(table.get(&name("a")), Some(Track { state: TrackState::Stopped, time: 0 }));
    assert_eq!(table.track_at(0), Track { state: TrackState::Stopped, time: 0 });
}

#[test]
fn a_command_touches_only_its_own_track() {
    let mut table = TrackTable::new();
    update_track_state(&mut table, TrackAction::Play(name("a")));
    update_track_state(&mut table, TrackAction::Slow(name("b")));
    update_track_state(&mut table, TrackAction::Stop(name("a")));
    assert_eq!(table.get(&name("a")), Some(Track { state: TrackState::Stopped, time: 0 }));
    assert_eq!(table.get(&name("b")), Some(Track { state: TrackState::Slow, time: 0 }));
}

#[test]
fn shutdown_changes_no_track() {
    let mut table = TrackTable::new();
    update_track_state(&mut table, TrackAction::Play(name("a")));
    update_track_state(&mut table, TrackAction::ShutdownThread);
    assert_eq!(table.len(), 1);
    assert_eq!(table.get(&name("a")), Some(Track { state: TrackState::Playing, time: 0 }));
}

#[test]
fn shutdown_is_the_only_action_without_a_track() {
    assert!(TrackAction::ShutdownThread.is_shutdown());
    assert_eq!(TrackAction::ShutdownThread.track_name(), None);
    for action in [
        TrackAction::Play(name("x")),
        TrackAction::Stop(name("x")),
        TrackAction::Reset(name("x")),
        TrackAction::Slow(name("x")),
    ] {
        assert!(!action.is_shutdown());
        assert_eq!(action.track_name(), Some(&name("x")));
    }
}

#[test]
fn messages_compare_by_content() {
    assert_eq!(AudioMessage::Load(name("a")), AudioMessage::Load(name("a")));
    assert_ne!(
        AudioMessage::TrackAction(TrackAction::Play(name("a"))),
        AudioMessage::TrackAction(TrackAction::Stop(name("a")))
    );
}

#[test]
fn step_constants() {
    assert_eq!(FULL_STEP, 10);
    assert_eq!(SLOW_STEP, 9);
    assert_eq!(MAX_CURSOR, 1u128 << 100);
}
