use vstd::prelude::*;

verus! {

/// The kind of game a replay records; it decides the order of the piece bag.
#[derive(Clone, Copy, Debug, PartialEq, Eq, Structural)]
pub enum GameType {
    FortyLine,
    League,
    Custom,
    Blitz,
}

/// The keys of the game.
#[derive(Clone, Copy, Debug, PartialEq, Eq, Structural)]
pub enum Key {
    Hold,
    Left,
    Right,
    Clockwise,
    Flip,
    CounterClockwise,
    SoftDrop,
    HardDrop,
}

/// A key press or release: the key, and its offset within the frame in tenths of a frame.
#[derive(Clone, Copy, Debug, PartialEq, Eq)]
pub struct KeyEvent {
    pub key: Key,
    pub subframe: u32,
    pub hoisted: Option<bool>,
}

/// Garbage sent to the player: first announced (`InteractionDo`), then confirmed.
#[derive(Clone, Copy, Debug, PartialEq, Eq, Structural)]
pub enum InteractionData {
    InteractionDo { amt: u16, column: u16 },
    InteractionConfirm { amt: u16, column: u16 },
}

/// The state a game starts from: the piece seed, the match settings, and the initial matrix as
/// rows from the top, each cell a piece name, "gb" for garbage, or `None` when empty.
#[derive(Clone, Debug)]
pub struct EventFull {
    pub seed: u64,
    pub settings: crate::settings::Settings,
    pub board: Vec<Vec<Option<String>>>,
}

/// What happened on one frame of a replay.
#[derive(Clone, Debug)]
pub enum EventData {
    Start,
    Full { data: EventFull },
    Targets,
    KeyDown { key_event: KeyEvent },
    KeyUp { key_event: KeyEvent },
    InGameEvent { event: InteractionData },
    End,
}

/// One event of a replay and the frame on which it happened.
#[derive(Clone, Debug)]
pub struct Event {
    pub frame: u32,
    pub data: EventData,
}

} // verus!
