//! The small window that asks the user to name a server or character the
//! watcher has not seen before: its command line, its words, and the entry
//! it saves.
use vstd::prelude::*;
use crate::config::{Config, Table, names_view, table_of};
use crate::keymap::text_eq;
use crate::text::{all_digits, blank, chars_of, concat, is_blank, trim, trimmed};

verus! {

pub open spec fn flag_of(table: Table) -> Seq<char> {
    match table {
        Table::Servers => "--name-server"@,
        Table::Characters => "--name-character"@,
    }
}

/// The command line flag that opens the prompt for a table.
pub fn flag(table: Table) -> (r: &'static str)
    ensures
        r@ == flag_of(table),
{
    match table {
        Table::Servers => "--name-server",
        Table::Characters => "--name-character",
    }
}

/// The table a command line flag opens the prompt for.
pub fn from_flag(arg: &str) -> (r: Option<Table>)
    ensures
        r == if arg@ == flag_of(Table::Servers) {
            Some(Table::Servers)
        } else if arg@ == flag_of(Table::Characters) {
            Some(Table::Characters)
        } else {
            None
        },
{
    if text_eq(flag(Table::Servers), arg) {
        Some(Table::Servers)
    } else if text_eq(flag(Table::Characters), arg) {
        Some(Table::Characters)
    } else {
        None
    }
}

/// Each table's flag leads back to that table.
pub proof fn lemma_flag_round_trip(table: Table)
    ensures
        (if flag_of(table) == flag_of(Table::Servers) {
            Some(Table::Servers)
        } else if flag_of(table) == flag_of(Table::Characters) {
            Some(Table::Characters)
        } else {
            None
        }) == Some(table),
{
    reveal_strlit("--name-server");
    reveal_strlit("--name-character");
    assert(flag_of(Table::Servers)[7] != flag_of(Table::Characters)[7]);
}

pub open spec fn title_of(table: Table) -> Seq<char> {
    match table {
        Table::Servers => "New Server"@,
        Table::Characters => "New Character"@,
    }
}

/// The prompt window's title.
pub fn title(table: Table) -> (r: &'static str)
    ensures
        r@ == title_of(table),
{
    match table {
        Table::Servers => "New Server",
        Table::Characters => "New Character",
    }
}

/// The line that says what is unnamed.
pub fn intro(table: Table, key: &str) -> (r: String)
    ensures
        r@ == match table {
            Table::Servers => "You are on an unnamed Server: "@ + key@,
            Table::Characters => "You are playing an unnamed Character: "@ + key@,
        },
{
    match table {
        Table::Servers => concat("You are on an unnamed Server: ", key),
        Table::Characters => concat("You are playing an unnamed Character: ", key),
    }
}

/// What an unnamed entry looks like meanwhile.
pub fn explain(table: Table) -> (r: &'static str)
    ensures
        r@ == match table {
            Table::Servers => "An unnamed Server shows its Key."@,
            Table::Characters => "An unnamed Character shows as Unknown."@,
        },
{
    match table {
        Table::Servers => "An unnamed Server shows its Key.",
        Table::Characters => "An unnamed Character shows as Unknown.",
    }
}

/// The input field's placeholder.
pub fn hint(table: Table) -> (r: &'static str)
    ensures
        r@ == match table {
            Table::Servers => "Server Name"@,
            Table::Characters => "Character Name"@,
        },
{
    match table {
        Table::Servers => "Server Name",
        Table::Characters => "Character Name",
    }
}

/// What the flag needs after it, when it is missing.
pub fn wanted(table: Table) -> (r: &'static str)
    ensures
        r@ == match table {
            Table::Servers => "Server Key"@,
            Table::Characters => "Character ID"@,
        },
{
    match table {
        Table::Servers => "Server Key",
        Table::Characters => "Character ID",
    }
}

/// Whether a key can be asked about: a character's ID is all digits.
pub open spec fn key_ok(table: Table, key: Seq<char>) -> bool {
    table == Table::Servers || (key.len() > 0 && all_digits(key))
}

pub fn key_acceptable(table: Table, key: &str) -> (r: bool)
    ensures
        r == key_ok(table, key@),
{
    match table {
        Table::Servers => true,
        Table::Characters => {
            let v = chars_of(key);
            if v.len() == 0 {
                return false;
            }
            let mut i: usize = 0;
            while i < v.len()
                invariant
                    i <= v@.len(),
                    v@ == key@,
                    table == Table::Characters,
                    forall|j: int| 0 <= j < i ==> crate::text::is_digit(#[trigger] v@[j]),
                decreases v@.len() - i,
            {
                if !(v[i] >= '0' && v[i] <= '9') {
                    assert(!crate::text::is_digit(key@[i as int]));
                    return false;
                }
                i += 1;
            }
            true
        },
    }
}

/// Whether the typed name can be saved: it is not blank.
pub fn can_save(name: &str) -> (r: bool)
    ensures
        r == !is_blank(name@),
{
    !blank(name)
}

/// The config with `key` named `name`, trimmed, in the table.
pub fn name_entry(config: &mut Config, table: Table, key: &str, name: &str)
    ensures
        names_view(table_of(table, *final(config))) == names_view(table_of(table, *old(config))).insert(key@, trim(name@)),
        match table {
            Table::Servers => final(config).characters == old(config).characters,
            Table::Characters => final(config).servers == old(config).servers,
        },
        final(config).phases == old(config).phases,
        final(config).identity == old(config).identity,
        final(config).display == old(config).display,
        final(config).profile == old(config).profile,
{
    let value = trimmed(name);
    let ghost v = value;
    let entries = table.entries_mut(config);
    entries.insert(String::from_str(key), value);
    proof {
        let before = names_view(table_of(table, *old(config)));
        let after = names_view(table_of(table, *config));
        assert(after =~= before.insert(key@, trim(name@)));
    }
}

} // verus!
