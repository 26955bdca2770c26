//! Commands sent from the control plane to the mixer.
use vstd::prelude::*;

verus! {

/// A command for one named track, or the request to shut the mixer down.
#[derive(Debug, Clone, PartialEq, Eq)]
pub enum TrackAction {
    Play(String),
    Stop(String),
    Reset(String),
    Slow(String),
    ShutdownThread,
}

/// A request to the audio manager.
#[derive(Debug, Clone, PartialEq, Eq)]
pub enum AudioMessage {
    Load(String),
    TrackAction(TrackAction),
}

impl TrackAction {
    /// The track that the action addresses, as a sequence of characters;
    /// `None` for `ShutdownThread`.
    pub open spec fn target(self) -> Option<Seq<char>> {
        match self {
            TrackAction::Play(name) => Some(name@),
            TrackAction::Stop(name) => Some(name@),
            TrackAction::Reset(name) => Some(name@),
            TrackAction::Slow(name) => Some(name@),
            TrackAction::ShutdownThread => None,
        }
    }

    /// Whether this is the shutdown sentinel, on which the relay loop ends.
    pub fn is_shutdown(&self) -> (b: bool)
        ensures
            b == (*self is ShutdownThread),
            b == (self.target() is None),
    {
        match self {
            TrackAction::ShutdownThread => true,
            _ => false,
        }
    }

    /// The name of the track that the action addresses.
    pub fn track_name(&self) -> (name: Option<&String>)
        ensures
            name is Some == (self.target() is Some),
            name is Some ==> name->0@ == self.target()->0,
    {
        match self {
            TrackAction::Play(name) => Some(name),
            TrackAction::Stop(name) => Some(name),
            TrackAction::Reset(name) => Some(name),
            TrackAction::Slow(name) => Some(name),
            TrackAction::ShutdownThread => None,
        }
    }
}

} // verus!
