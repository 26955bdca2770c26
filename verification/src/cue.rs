//! The audio commands that game events give rise to.
use vstd::prelude::*;
use vstd::string::StringExecFns;
use crate::action::{AudioMessage, TrackAction};

verus! {

/// The track that plays once when the player dies.
pub const DEATH_TRACK: &'static str = "test.wav";

/// Whether the player is still in the game.
#[derive(Debug, Clone, Copy, PartialEq, Eq, Structural)]
pub enum PlayerStatus {
    Alive,
    Dead,
}

/// Starting or resuming a level: its music plays at full speed while the
/// player is alive and slowed once the player is dead.
pub fn play(player_state: PlayerStatus, music: &String) -> (message: AudioMessage)
    ensures
        message == AudioMessage::TrackAction(
            match player_state {
                PlayerStatus::Alive => TrackAction::Play(*music),
                PlayerStatus::Dead => TrackAction::Slow(*music),
            },
        ),
{
    let action = match player_state {
        PlayerStatus::Alive => TrackAction::Play(music.clone()),
        PlayerStatus::Dead => TrackAction::Slow(music.clone()),
    };
    AudioMessage::TrackAction(action)
}

/// Pausing a level stops its music where it is.
pub fn pause(music: &String) -> (message: AudioMessage)
    ensures
        message == AudioMessage::TrackAction(TrackAction::Stop(*music)),
{
    AudioMessage::TrackAction(TrackAction::Stop(music.clone()))
}

/// The death of the player plays the death track and slows the music down,
/// in that order.
pub fn death(music: &String) -> (messages: (AudioMessage, AudioMessage))
    ensures
        messages.0 matches AudioMessage::TrackAction(TrackAction::Play(track))
            && track@ == DEATH_TRACK@,
        messages.1 == AudioMessage::TrackAction(TrackAction::Slow(*music)),
{
    let play_death = TrackAction::Play(String::from_str(DEATH_TRACK));
    let action = TrackAction::Slow(music.clone());
    (AudioMessage::TrackAction(play_death), AudioMessage::TrackAction(action))
}

/// Restarting a level, or leaving it for another, stops its music and
/// rewinds it.
pub fn reset(music: &String) -> (message: AudioMessage)
    ensures
        message == AudioMessage::TrackAction(TrackAction::Reset(*music)),
{
    AudioMessage::TrackAction(TrackAction::Reset(music.clone()))
}

} // verus!
