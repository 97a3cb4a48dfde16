//! Finding the game and what its folders tell: the service region, the
//! family, and the character played.
use vstd::prelude::*;
use crate::keymap::{KeyMap, lex_less, text_eq};
use crate::log_tail::{decode_utf16_lossy, utf16_lossy};
use crate::text::{
    all_digits, chars_of, eq_ignore_case, find_char, find_char_from, is_digit, string_of,
    string_of_range, text_eq_ignore_case, trim, trimmed,
};

verus! {

/// The game's executable.
pub fn game_exe() -> (r: &'static str)
    ensures
        r@ == "BlackDesert64.exe"@,
{
    "BlackDesert64.exe"
}
/// How long after entering the game a character's folder is read, in nanoseconds.
pub const CHARACTER_READ_WINDOW_NANOS: i128 = 10_000_000_000;

// ---------------------------------------------------------------------------
// service.ini
// ---------------------------------------------------------------------------

/// The lines `text` completes after `line` was begun, split at each `\n`,
/// and the last one.
pub open spec fn lines_from(text: Seq<char>, line: Seq<char>) -> (Seq<Seq<char>>, Seq<char>)
    decreases text.len(),
{
    if text.len() == 0 {
        (seq![], line)
    } else if text[0] == '\n' {
        let (more, rest) = lines_from(text.drop_first(), seq![]);
        (seq![line] + more, rest)
    } else {
        lines_from(text.drop_first(), line.push(text[0]))
    }
}

/// The lines of a text, split at each `\n`.
pub open spec fn text_lines(text: Seq<char>) -> Seq<Seq<char>> {
    let (complete, rest) = lines_from(text, seq![]);
    complete.push(rest)
}

/// The `type` of the `[SERVICE]` section, read from the lines that follow
/// with `in_service` telling whether they are in that section: comments
/// and blank lines skipped, section names and keys read ASCII case aside.
pub open spec fn service_from(lines: Seq<Seq<char>>, in_service: bool) -> Option<Seq<char>>
    decreases lines.len(),
{
    if lines.len() == 0 {
        None
    } else {
        let line = trim(lines[0]);
        let rest = lines.drop_first();
        if line.len() == 0 || line[0] == ';' || line[0] == '#' {
            service_from(rest, in_service)
        } else if line[0] == '[' {
            service_from(rest, eq_ignore_case(line, "[SERVICE]"@))
        } else if !in_service {
            service_from(rest, in_service)
        } else {
            match find_char(line, '=') {
                Some(i) => if eq_ignore_case(trim(line.take(i)), "type"@) {
                    Some(trim(line.skip(i + 1)))
                } else {
                    service_from(rest, in_service)
                },
                None => service_from(rest, in_service),
            }
        }
    }
}

/// The service region a `service.ini` names.
pub open spec fn service_of(text: Seq<char>) -> Option<Seq<char>> {
    service_from(text_lines(text), false)
}

proof fn lemma_lines_step(text: Seq<char>, line: Seq<char>)
    requires
        text.len() > 0,
    ensures
        text[0] == '\n' ==> lines_from(text, line) == ({
            let (more, rest) = lines_from(text.drop_first(), seq![]);
            (seq![line] + more, rest)
        }),
        text[0] != '\n' ==> lines_from(text, line) == lines_from(text.drop_first(), line.push(text[0])),
{
}

/// The lines of a text.
fn split_lines(text: &str) -> (r: Vec<String>)
    ensures
        r@.len() == text_lines(text@).len(),
        forall|i: int| 0 <= i < r@.len() ==> #[trigger] r@[i]@ == text_lines(text@)[i],
{
    let v = chars_of(text);
    let mut out: Vec<String> = Vec::new();
    let mut line: Vec<char> = Vec::new();
    let ghost whole = lines_from(v@, seq![]);
    let ghost mut done: Seq<Seq<char>> = seq![];
    let mut i: usize = 0;
    assert(v@.skip(0) == v@);
    assert(Seq::<Seq<char>>::empty() + whole.0 == whole.0);
    while i < v.len()
        invariant
            i <= v@.len(),
            whole == lines_from(v@, seq![]),
            ({
                let (more, rest) = lines_from(v@.skip(i as int), line@);
                whole == (done + more, rest)
            }),
            out@.len() == done.len(),
            forall|j: int| 0 <= j < out@.len() ==> #[trigger] out@[j]@ == done[j],
        decreases v@.len() - i,
    {
        let c = v[i];
        proof {
            lemma_lines_step(v@.skip(i as int), line@);
            assert(v@.skip(i as int)[0] == c);
            assert(v@.skip(i as int).drop_first() == v@.skip(i + 1));
        }
        if c == '\n' {
            let s = string_of(line.as_slice());
            proof {
                let (more, rest) = lines_from(v@.skip(i + 1), seq![]);
                assert(done + (seq![line@] + more) == done.push(line@) + more);
                done = done.push(line@);
            }
            out.push(s);
            line = Vec::new();
        } else {
            line.push(c);
        }
        i += 1;
    }
    proof {
        assert(v@.skip(i as int).len() == 0);
        assert(done + Seq::<Seq<char>>::empty() == done);
    }
    out.push(string_of(line.as_slice()));
    proof {
        assert(whole.0 == done);
        assert(whole.1 == line@);
        assert(text_lines(text@) == done.push(line@));
    }
    out
}

/// The service region a `service.ini` text names: the `type` key of its
/// `[SERVICE]` section.
pub fn service_type(text: &str) -> (r: Option<String>)
    ensures
        match r {
            Some(t) => service_of(text@) == Some(t@),
            None => service_of(text@) is None,
        },
{
    let lines = split_lines(text);
    let ghost all = text_lines(text@);
    let mut in_service = false;
    let mut i: usize = 0;
    assert(all.skip(0) == all);
    while i < lines.len()
        invariant
            i <= lines@.len() == all.len(),
            all == text_lines(text@),
            forall|j: int| 0 <= j < lines@.len() ==> #[trigger] lines@[j]@ == all[j],
            service_of(text@) == service_from(all.skip(i as int), in_service),
        decreases lines@.len() - i,
    {
        let line = trimmed(lines[i].as_str());
        let lv = chars_of(line.as_str());
        proof {
            assert(all.skip(i as int)[0] == all[i as int]);
            assert(all.skip(i as int).drop_first() == all.skip(i + 1));
            assert(lv@ == trim(all[i as int]));
        }
        if lv.len() == 0 || lv[0] == ';' || lv[0] == '#' {
            i += 1;
            continue;
        }
        if lv[0] == '[' {
            in_service = text_eq_ignore_case(line.as_str(), "[SERVICE]");
            i += 1;
            continue;
        }
        if !in_service {
            i += 1;
            continue;
        }
        assert(lv@.subrange(0, lv@.len() as int) == lv@);
        match find_char_from(lv.as_slice(), 0, '=') {
            Some(at) => {
                let key = string_of_range(lv.as_slice(), 0, at);
                let k = trimmed(key.as_str());
                assert(lv@.subrange(0, at as int) == lv@.take(at as int));
                if text_eq_ignore_case(k.as_str(), "type") {
                    let value = string_of_range(lv.as_slice(), at + 1, lv.len());
                    assert(lv@.subrange(at + 1, lv@.len() as int) == lv@.skip(at + 1));
                    return Some(trimmed(value.as_str()));
                }
            },
            None => {},
        }
        i += 1;
    }
    assert(all.skip(i as int).len() == 0);
    None
}

// ---------------------------------------------------------------------------
// The family, from the user's cache.
// ---------------------------------------------------------------------------

/// Whether a cache folder's name can be a family's: not empty, not `-1`,
/// and not all digits.
pub open spec fn family_name_ok(name: Seq<char>) -> bool {
    name.len() > 0 && name != "-1"@ && !all_digits(name)
}

/// Whether `i` is the newest folder with a family's name, the last of
/// equally new ones.
pub open spec fn is_newest_family(es: Seq<(String, i128)>, i: int) -> bool {
    &&& 0 <= i < es.len()
    &&& family_name_ok(es[i].0@)
    &&& forall|j: int|
        0 <= j < es.len() && #[trigger] family_name_ok(es[j].0@) ==> es[j].1 <= es[i].1 && (j > i
            ==> es[j].1 < es[i].1)
}

/// The family: the name of the newest folder in the user's cache that can
/// be a family's.
pub open spec fn family_of(es: Seq<(String, i128)>) -> Option<Seq<char>> {
    if exists|i: int| is_newest_family(es, i) {
        Some(es[choose|i: int| is_newest_family(es, i)].0@)
    } else {
        None
    }
}

/// Whether a folder name can be a family's.
pub fn is_family_name(name: &str) -> (r: bool)
    ensures
        r == family_name_ok(name@),
{
    let v = chars_of(name);
    if v.len() == 0 || text_eq(name, "-1") {
        return false;
    }
    let mut i: usize = 0;
    while i < v.len()
        invariant
            i <= v@.len(),
            v@ == name@,
            v@.len() > 0,
            name@ != "-1"@,
            forall|j: int| 0 <= j < i ==> is_digit(#[trigger] v@[j]),
        decreases v@.len() - i,
    {
        if !('0' <= v[i] && v[i] <= '9') {
            assert(!is_digit(name@[i as int]));
            return true;
        }
        i += 1;
    }
    false
}

/// The family, from the cache's folders and when each was last written,
/// in nanoseconds since the Unix epoch.
pub fn choose_family(entries: &Vec<(String, i128)>) -> (r: Option<String>)
    ensures
        match r {
            Some(n) => family_of(entries@) == Some(n@),
            None => family_of(entries@) is None,
        },
{
    let mut best: Option<usize> = None;
    let mut i: usize = 0;
    while i < entries.len()
        invariant
            i <= entries@.len(),
            match best {
                Some(b) => b < i && family_name_ok(entries@[b as int].0@) && forall|j: int|
                    0 <= j < i && #[trigger] family_name_ok(entries@[j].0@) ==> entries@[j].1
                        <= entries@[b as int].1 && (j > b ==> entries@[j].1 < entries@[b as int].1),
                None => forall|j: int| 0 <= j < i ==> !#[trigger] family_name_ok(entries@[j].0@),
            },
        decreases entries@.len() - i,
    {
        if is_family_name(entries[i].0.as_str()) {
            let better = match best {
                Some(b) => entries[i].1 >= entries[b].1,
                None => true,
            };
            if better {
                best = Some(i);
            }
        }
        i += 1;
    }
    match best {
        Some(b) => {
            proof {
                assert(is_newest_family(entries@, b as int));
                let k = choose|k: int| is_newest_family(entries@, k);
                if k < b {
                    assert(entries@[b as int].1 < entries@[k].1);
                } else if k > b {
                    assert(entries@[k].1 < entries@[b as int].1);
                }
            }
            Some(entries[b].0.clone())
        },
        None => None,
    }
}

// ---------------------------------------------------------------------------
// Characters, from their folders.
// ---------------------------------------------------------------------------

/// Whether a folder name is a character's ID: digits only, at least one.
pub open spec fn is_id(name: Seq<char>) -> bool {
    name.len() > 0 && all_digits(name)
}

pub fn is_character_id(name: &str) -> (r: bool)
    ensures
        r == is_id(name@),
{
    let v = chars_of(name);
    if v.len() == 0 {
        return false;
    }
    let mut i: usize = 0;
    while i < v.len()
        invariant
            i <= v@.len(),
            v@ == name@,
            forall|j: int| 0 <= j < i ==> is_digit(#[trigger] v@[j]),
        decreases v@.len() - i,
    {
        if !('0' <= v[i] && v[i] <= '9') {
            assert(!is_digit(name@[i as int]));
            return false;
        }
        i += 1;
    }
    true
}

/// The character IDs among folder names, sorted, each once.
pub fn character_ids(names: &Vec<String>) -> (r: Vec<String>)
    ensures
        forall|i: int, j: int| 0 <= i < j < r@.len() ==> lex_less(#[trigger] r@[i]@, #[trigger] r@[j]@),
        forall|a: int| 0 <= a < r@.len() ==> is_id(#[trigger] r@[a]@) && exists|j: int|
            0 <= j < names@.len() && names@[j]@ == r@[a]@,
        forall|j: int| 0 <= j < names@.len() && is_id(#[trigger] names@[j]@) ==> exists|a: int|
            0 <= a < r@.len() && r@[a]@ == names@[j]@,
{
    let mut ids: KeyMap<bool> = KeyMap::new();
    let mut i: usize = 0;
    while i < names.len()
        invariant
            i <= names@.len(),
            forall|k: Seq<char>| #[trigger] ids@.contains_key(k) ==> is_id(k) && exists|j: int|
                0 <= j < i && names@[j]@ == k,
            forall|j: int| 0 <= j < i && is_id(#[trigger] names@[j]@) ==> ids@.contains_key(names@[j]@),
        decreases names@.len() - i,
    {
        if is_character_id(names[i].as_str()) {
            let ghost before = ids@;
            ids.insert(names[i].clone(), true);
            proof {
                assert forall|k: Seq<char>| #[trigger] ids@.contains_key(k) implies is_id(k) && exists|j: int|
                    0 <= j < i + 1 && names@[j]@ == k by {
                    if k != names@[i as int]@ {
                        assert(before.contains_key(k));
                    }
                }
            }
        }
        i += 1;
    }
    ids.check_sorted();
    let mut out: Vec<String> = Vec::new();
    let n = ids.len();
    let mut m: usize = 0;
    while m < n
        invariant
            m <= n == ids.items().len(),
            crate::keymap::sorted_items(ids.items()),
            out@.len() == m,
            forall|a: int| 0 <= a < m ==> #[trigger] out@[a]@ == ids.key(a),
        decreases n - m,
    {
        out.push(ids.key_at(m).clone());
        m += 1;
    }
    proof {
        assert forall|a: int| 0 <= a < out@.len() implies is_id(#[trigger] out@[a]@) && exists|j: int|
            0 <= j < names@.len() && names@[j]@ == out@[a]@ by {
            crate::keymap::lemma_map_at(ids.items(), a);
            assert(ids@.contains_key(out@[a]@));
        }
        assert forall|j: int| 0 <= j < names@.len() && is_id(#[trigger] names@[j]@) implies exists|a: int|
            0 <= a < out@.len() && out@[a]@ == names@[j]@ by {
            assert(ids@.contains_key(names@[j]@));
            let a = choose|a: int| 0 <= a < ids.items().len() && crate::keymap::key_in(ids.items(), a) == names@[j]@;
            assert(out@[a]@ == names@[j]@);
        }
        assert forall|a: int, b: int| 0 <= a < b < out@.len() implies lex_less(#[trigger] out@[a]@, #[trigger] out@[b]@) by {
            assert(lex_less(crate::keymap::key_in(ids.items(), a), crate::keymap::key_in(ids.items(), b)));
        }
    }
    out
}

/// How far apart two instants are, in nanoseconds.
pub open spec fn gap_of(a: i128, b: i128) -> int {
    if a >= b { a - b } else { b - a }
}

/// Whether `i` is the character read nearest to the start of play, within
/// the read window, the first of equally near ones.
pub open spec fn is_nearest(cands: Seq<(String, i128)>, started: i128, i: int) -> bool {
    &&& 0 <= i < cands.len()
    &&& gap_of(cands[i].1, started) <= CHARACTER_READ_WINDOW_NANOS
    &&& forall|j: int|
        0 <= j < cands.len() && #[trigger] gap_of(cands[j].1, started) <= CHARACTER_READ_WINDOW_NANOS
            ==> gap_of(cands[i].1, started) <= gap_of(cands[j].1, started) && (j < i ==> gap_of(
            cands[i].1,
            started,
        ) < gap_of(cands[j].1, started))
}

/// The character played: of the characters' folders and when each one's
/// settings were last read, the one read nearest to the start of play,
/// within the read window. The client reads the file on entering a
/// character and writes it on leaving.
pub open spec fn nearest_of(cands: Seq<(String, i128)>, started: i128) -> Option<Seq<char>> {
    if exists|i: int| is_nearest(cands, started, i) {
        Some(cands[choose|i: int| is_nearest(cands, started, i)].0@)
    } else {
        None
    }
}

fn gap(a: i128, b: i128) -> (r: Option<u128>)
    ensures
        match r {
            Some(g) => g == gap_of(a, b),
            None => gap_of(a, b) > u128::MAX,
        },
{
    if a >= b {
        if b >= 0 || a < 0 {
            Some((a - b) as u128)
        } else {
            Some((a as u128) + ((-(b + 1)) as u128) + 1)
        }
    } else {
        if a >= 0 || b < 0 {
            Some((b - a) as u128)
        } else {
            Some((b as u128) + ((-(a + 1)) as u128) + 1)
        }
    }
}

/// The character played, from the characters' folders and when each one's
/// settings were last read, and the start of play, all in nanoseconds since
/// the Unix epoch.
pub fn choose_character(cands: &Vec<(String, i128)>, started: i128) -> (r: Option<String>)
    ensures
        match r {
            Some(n) => nearest_of(cands@, started) == Some(n@),
            None => nearest_of(cands@, started) is None,
        },
{
    let mut best: Option<(usize, u128)> = None;
    let mut i: usize = 0;
    while i < cands.len()
        invariant
            i <= cands@.len(),
            match best {
                Some((b, g)) => b < i && g == gap_of(cands@[b as int].1, started) && g
                    <= CHARACTER_READ_WINDOW_NANOS && forall|j: int|
                    0 <= j < i && #[trigger] gap_of(cands@[j].1, started)
                        <= CHARACTER_READ_WINDOW_NANOS ==> g <= gap_of(cands@[j].1, started) && (j
                        < b ==> g < gap_of(cands@[j].1, started)),
                None => forall|j: int|
                    0 <= j < i ==> #[trigger] gap_of(cands@[j].1, started) > CHARACTER_READ_WINDOW_NANOS,
            },
        decreases cands@.len() - i,
    {
        match gap(cands[i].1, started) {
            Some(g) => {
                if g <= CHARACTER_READ_WINDOW_NANOS as u128 {
                    let better = match best {
                        Some((_, bg)) => g < bg,
                        None => true,
                    };
                    if better {
                        best = Some((i, g));
                    }
                }
            },
            None => {},
        }
        i += 1;
    }
    match best {
        Some((b, _)) => {
            proof {
                assert(is_nearest(cands@, started, b as int));
                let k = choose|k: int| is_nearest(cands@, started, k);
                if k < b {
                    assert(gap_of(cands@[k].1, started) < gap_of(cands@[b as int].1, started));
                } else if k > b {
                    assert(gap_of(cands@[b as int].1, started) < gap_of(cands@[k].1, started));
                }
            }
            Some(cands[b].0.clone())
        },
        None => None,
    }
}

// ---------------------------------------------------------------------------
// The process.
// ---------------------------------------------------------------------------

/// The text of a NUL-terminated UTF-16 buffer: the units before the first
/// NUL, or all of them.
pub open spec fn wide_prefix(buf: Seq<u16>) -> Seq<u16> {
    if exists|i: int| 0 <= i < buf.len() && buf[i] == 0 {
        buf.take(choose|i: int| 0 <= i < buf.len() && buf[i] == 0 && forall|j: int| 0 <= j < i ==> buf[j] != 0)
    } else {
        buf
    }
}

pub fn wide_to_string(buf: &[u16]) -> (r: String)
    ensures
        r@ == utf16_lossy(wide_prefix(buf@)),
{
    let mut end: usize = 0;
    while end < buf.len() && buf[end] != 0
        invariant
            end <= buf@.len(),
            forall|j: int| 0 <= j < end ==> buf@[j] != 0,
        decreases buf@.len() - end,
    {
        end += 1;
    }
    let mut units: Vec<u16> = Vec::new();
    let mut k: usize = 0;
    while k < end
        invariant
            k <= end <= buf@.len(),
            units@ == buf@.take(k as int),
        decreases end - k,
    {
        units.push(buf[k]);
        assert(buf@.take(k + 1) == buf@.take(k as int).push(buf@[k as int]));
        k += 1;
    }
    proof {
        if end < buf@.len() {
            assert(buf@[end as int] == 0);
            let i = choose|i: int| 0 <= i < buf@.len() && buf@[i] == 0 && forall|j: int| 0 <= j < i ==> buf@[j] != 0;
            assert(0 <= (end as int) < buf@.len() && buf@[end as int] == 0 && forall|j: int| 0 <= j < end ==> buf@[j] != 0);
            if i < end {
                assert(buf@[i] != 0);
            } else if i > end {
                assert(buf@[end as int] != 0);
            }
        } else {
            assert(buf@.take(end as int) == buf@);
        }
    }
    decode_utf16_lossy(units.as_slice())
}

/// The Windows epoch's distance from the Unix epoch, in 100 ns ticks.
pub const EPOCH_DIFF_TICKS: u64 = 116_444_736_000_000_000;

/// A process's creation time, from its `FILETIME` halves, as nanoseconds
/// after the Unix epoch: none before that epoch, or past what 64 bits hold.
pub open spec fn creation_nanos_of(high: u32, low: u32) -> Option<u64> {
    let ticks = high as int * 4294967296 + low as int;
    if ticks < EPOCH_DIFF_TICKS || (ticks - EPOCH_DIFF_TICKS) * 100 > u64::MAX {
        None
    } else {
        Some(((ticks - EPOCH_DIFF_TICKS) * 100) as u64)
    }
}

pub fn creation_nanos(high: u32, low: u32) -> (r: Option<u64>)
    ensures
        r == creation_nanos_of(high, low),
{
    let ticks: u64 = (high as u64) * 4294967296 + (low as u64);
    if ticks < EPOCH_DIFF_TICKS {
        return None;
    }
    let since = ticks - EPOCH_DIFF_TICKS;
    if since > u64::MAX / 100 {
        return None;
    }
    Some(since * 100)
}

} // verus!
