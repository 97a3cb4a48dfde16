//! What the tray shows: the watcher's health, and what its menu asks for.
use vstd::prelude::*;

verus! {

/// How the watcher is doing.
#[derive(Copy, Clone, Debug, PartialEq, Eq, Structural)]
pub enum Health {
    Idle,
    Waiting,
    Live,
}

/// The colour a health is shown in.
pub open spec fn tint_of(h: Health) -> [u8; 3] {
    match h {
        Health::Idle => [0x6Bu8, 0x72u8, 0x80u8],
        Health::Waiting => [0xD9u8, 0x8Cu8, 0x2Bu8],
        Health::Live => [0x3Bu8, 0xA5u8, 0x5Du8],
    }
}

impl Health {
    /// The colour the tray icon takes: grey when idle, amber while waiting,
    /// green when live.
    pub fn tint(self) -> (r: [u8; 3])
        ensures
            r@ == tint_of(self)@,
    {
        match self {
            Health::Idle => [0x6B, 0x72, 0x80],
            Health::Waiting => [0xD9, 0x8C, 0x2B],
            Health::Live => [0x3B, 0xA5, 0x5D],
        }
    }
}

/// What the tray's menu asks of the program.
#[derive(Copy, Clone, Debug, PartialEq, Eq, Structural)]
pub enum Action {
    ToggleSettings,
    ToggleStartup(bool),
    ReloadConfig,
    Quit,
}

} // verus!
