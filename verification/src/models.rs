//! What the player tells its listeners and what it keeps on disk.
use crate::double::Double;
use vstd::prelude::*;

verus! {

/// What the player is doing.
#[derive(Clone, Copy, Debug, PartialEq, Eq, Structural)]
pub enum Status {
    Error,
    Ended,
    Playing,
    Loading,
    Idle,
}

impl Status {
    /// The word that listeners see.
    pub open spec fn word(self) -> Seq<char> {
        match self {
            Status::Error => "error"@,
            Status::Ended => "ended"@,
            Status::Playing => "playing"@,
            Status::Loading => "loading"@,
            Status::Idle => "idle"@,
        }
    }

    /// The word that listeners see.
    pub fn as_str(&self) -> (r: &'static str)
        ensures
            r@ == self.word(),
    {
        match *self {
            Status::Error => "error",
            Status::Ended => "ended",
            Status::Playing => "playing",
            Status::Loading => "loading",
            Status::Idle => "idle",
        }
    }
}

/// The text of an optional string.
pub open spec fn text_of(s: Option<String>) -> Option<Seq<char>> {
    match s {
        Some(t) => Some(t@),
        None => None,
    }
}

/// The state of the player as listeners see it.
#[derive(Debug)]
pub struct NativeAudioState {
    pub status: Status,
    pub current_time: Double,
    pub duration: Double,
    pub is_playing: bool,
    pub buffering: bool,
    pub rate: Double,
    pub error: Option<String>,
}

/// The same, with the error as a sequence of characters.
pub struct StateView {
    pub status: Status,
    pub current_time: Double,
    pub duration: Double,
    pub is_playing: bool,
    pub buffering: bool,
    pub rate: Double,
    pub error: Option<Seq<char>>,
}

impl View for NativeAudioState {
    type V = StateView;

    open spec fn view(&self) -> StateView {
        StateView {
            status: self.status,
            current_time: self.current_time,
            duration: self.duration,
            is_playing: self.is_playing,
            buffering: self.buffering,
            rate: self.rate,
            error: text_of(self.error),
        }
    }
}

impl Clone for NativeAudioState {
    fn clone(&self) -> (r: Self)
        ensures
            r@ == self@,
    {
        NativeAudioState {
            status: self.status,
            current_time: self.current_time,
            duration: self.duration,
            is_playing: self.is_playing,
            buffering: self.buffering,
            rate: self.rate,
            error: self.error.clone(),
        }
    }
}

/// How far a track was played, to be kept on disk.
#[derive(Clone, Copy, Debug, PartialEq, Eq, Structural)]
pub struct NativeAudioProgressCheckpoint {
    pub id: i64,
    pub current_time: Double,
    pub updated_at_ms: i64,
    pub status: Option<Status>,
}

/// How a checkpoint is to be written along with a state.
#[derive(Clone, Copy, Debug, PartialEq, Eq, Structural)]
pub enum Persist {
    /// A checkpoint, unless the last one is too recent or says the same.
    WhenDue,
    /// A checkpoint in any case.
    Always,
}

/// A state for the listeners, and how a checkpoint goes with it.
pub struct Report {
    pub state: NativeAudioState,
    pub persist: Persist,
}

/// The flags of the sink, read from it. Without a sink they mean nothing.
#[derive(Clone, Copy, Debug, PartialEq, Eq, Structural)]
pub struct SinkStatus {
    pub paused: bool,
    pub empty: bool,
}

} // verus!
