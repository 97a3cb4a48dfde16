//! What the program was started to do, from its command line.
use vstd::prelude::*;
use crate::config::Table;
use crate::keymap::text_eq;
use crate::prompt::{flag_of, from_flag};
use crate::settings::Page;

verus! {

/// What the program runs as.
pub enum Mode {
    /// The tray, watching the game.
    Tray,
    /// The settings window, opened at a page.
    Settings(Page),
    /// A one-off report of what can be read now.
    Probe,
    /// The usage text.
    Help,
    /// The window that asks for a name, for a key when one was given.
    Prompt(Table, Option<String>),
    /// An argument it does not know.
    Unknown(String),
}

/// What the program runs as: the tray without arguments; `--settings`,
/// `--probe`, `--help` or `-h`; a prompt's flag with the key after it.
pub open spec fn mode_of(args: Seq<Seq<char>>) -> (int, Option<Page>, Option<Table>) {
    if args.len() == 0 {
        (0, None, None)
    } else if args[0] == "--settings"@ {
        (1, Some(if args.len() > 1 && args[1] == "log"@ { Page::Log } else { Page::Overview }), None)
    } else if args[0] == "--probe"@ {
        (2, None, None)
    } else if args[0] == "--help"@ || args[0] == "-h"@ {
        (3, None, None)
    } else if args[0] == flag_of(Table::Servers) {
        (4, None, Some(Table::Servers))
    } else if args[0] == flag_of(Table::Characters) {
        (4, None, Some(Table::Characters))
    } else {
        (5, None, None)
    }
}

pub open spec fn mode_view(m: Mode) -> (int, Option<Page>, Option<Table>) {
    match m {
        Mode::Tray => (0, None, None),
        Mode::Settings(p) => (1, Some(p), None),
        Mode::Probe => (2, None, None),
        Mode::Help => (3, None, None),
        Mode::Prompt(t, _) => (4, None, Some(t)),
        Mode::Unknown(_) => (5, None, None),
    }
}

/// What the program runs as, from its arguments after its own name.
pub fn mode(args: &Vec<String>) -> (r: Mode)
    ensures
        mode_view(r) == mode_of(args@.map_values(|a: String| a@)),
        r matches Mode::Prompt(_, key) ==> match key {
            Some(k) => args@.len() > 1 && k@ == args@[1]@,
            None => args@.len() <= 1,
        },
        r matches Mode::Unknown(a) ==> a@ == args@[0]@,
{
    let ghost view = args@.map_values(|a: String| a@);
    if args.len() == 0 {
        return Mode::Tray;
    }
    assert(view[0] == args@[0]@);
    let first = args[0].as_str();
    if text_eq(first, "--settings") {
        if args.len() > 1 {
            assert(view[1] == args@[1]@);
        }
        let page = if args.len() > 1 && text_eq(args[1].as_str(), "log") { Page::Log } else { Page::Overview };
        return Mode::Settings(page);
    }
    if text_eq(first, "--probe") {
        return Mode::Probe;
    }
    if text_eq(first, "--help") || text_eq(first, "-h") {
        return Mode::Help;
    }
    match from_flag(first) {
        Some(table) => {
            let key = if args.len() > 1 { Some(args[1].clone()) } else { None };
            Mode::Prompt(table, key)
        },
        None => Mode::Unknown(args[0].clone()),
    }
}

/// Whether the program writes to the console it was started from: for a
/// probe, the help, or an unknown argument, but not for the windows.
pub fn wants_console(args: &Vec<String>) -> (r: bool)
    ensures
        r == (args@.len() > 0 && args@[0]@ != "--settings"@ && from_flag_is_none(args@[0]@)),
{
    if args.len() == 0 {
        return false;
    }
    !text_eq(args[0].as_str(), "--settings") && from_flag(args[0].as_str()).is_none()
}

pub open spec fn from_flag_is_none(arg: Seq<char>) -> bool {
    arg != flag_of(Table::Servers) && arg != flag_of(Table::Characters)
}

} // verus!
