use vstd::prelude::*;

verus! {

/// The state of a round, as the status indicator sees it.
#[derive(Debug, Clone, Copy, PartialEq, Eq, Structural)]
pub enum GameState {
    Init,
    Playing,
    Win,
    Lose,
}

#[derive(Debug, Clone, Copy, PartialEq, Eq, Structural)]
pub enum MouseButton {
    Left,
    Middle,
    Right,
}

/// A mouse press at (x, y) in window pixels.
#[derive(Debug, Clone, Copy, PartialEq, Eq, Structural)]
pub struct MouseEventData {
    pub x: i32,
    pub y: i32,
    pub mouse_btn: MouseButton,
}

/// What flows through the channels between components.
#[derive(Debug, Clone, Copy, PartialEq, Eq, Structural)]
pub enum ChannelMessage {
    /// Carries nothing; every component ignores it.
    TestMessage,
    /// The round changed state.
    GameStateChanged(GameState),
    /// The flag budget became exhausted (true) or available again (false).
    FlagStateChanged(bool),
    /// A tile was flagged (true) or unflagged (false).
    Flagged(bool),
    /// A tile was revealed: whether it holds a mine, whether it has mines around it.
    Revealed(bool, bool),
    /// A revealed tile asks its neighbours to reveal themselves.
    Clear,
    /// Input from the mouse.
    MouseEvent(MouseEventData),
}

/// Failures that a display backend reports to its caller.
#[derive(Debug, PartialEq, Eq)]
pub enum Error {
    /// The clock reads earlier than the moment the round started.
    StartTimeInvalid,
    /// Any other failure, described in words (a missing image, say).
    Any { desc: String },
}

impl From<String> for Error {
    fn from(source: String) -> (r: Error) {
        Error::Any { desc: source }
    }
}

impl vstd::std_specs::convert::FromSpecImpl<String> for Error {
    open spec fn obeys_from_spec() -> bool {
        true
    }

    open spec fn from_spec(v: String) -> Error {
        Error::Any { desc: v }
    }
}

} // verus!
