use vstd::prelude::*;

pub mod text;
pub mod keymap;
pub mod phase;
pub mod config;
pub mod log_tail;
pub mod profile;
pub mod presence;
pub mod region;
pub mod tray;
pub mod watch;
pub mod prompt;
pub mod game;
pub mod m3;
pub mod check;
pub mod settings;
pub mod lang;
pub mod win;
pub mod cli;

verus! {

} // verus!
