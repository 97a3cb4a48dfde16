//! Following the client's log as it is written, and what each record says
//! about the session.
use vstd::prelude::*;
use vstd::string::StringSliceAdditionalSpecFns;
use crate::phase::{Phase, processor_phase};
use crate::text::{
    chars_of, find, find_from, first_at, lemma_find_is, matches_at, occurs_at, starts_with,
    string_of, string_of_range,
};

verus! {

/// What the log has said so far.
pub struct GameState {
    pub phase: Option<Phase>,
    pub phase_since: Option<i64>,
    pub session_start: Option<i64>,
    pub game_server: Option<String>,
}

pub struct GameStateView {
    pub phase: Option<Phase>,
    pub phase_since: Option<i64>,
    pub session_start: Option<i64>,
    pub game_server: Option<Seq<char>>,
}

impl View for GameState {
    type V = GameStateView;

    open spec fn view(&self) -> GameStateView {
        GameStateView {
            phase: self.phase,
            phase_since: self.phase_since,
            session_start: self.session_start,
            game_server: match self.game_server {
                Some(s) => Some(s@),
                None => None,
            },
        }
    }
}

/// Nothing known yet.
pub open spec fn empty_state() -> GameStateView {
    GameStateView { phase: None, phase_since: None, session_start: None, game_server: None }
}

impl GameState {
    /// Nothing known yet.
    pub fn new() -> (r: GameState)
        ensures
            r@ == empty_state(),
            r.phase is None,
            r.phase_since is None,
            r.session_start is None,
            r.game_server is None,
    {
        GameState { phase: None, phase_since: None, session_start: None, game_server: None }
    }

    /// An equal copy.
    pub fn duplicate(&self) -> (r: GameState)
        ensures
            r@ == self@,
    {
        GameState {
            phase: self.phase,
            phase_since: self.phase_since,
            session_start: self.session_start,
            game_server: match &self.game_server {
                Some(s) => Some(s.clone()),
                None => None,
            },
        }
    }
}

// ---------------------------------------------------------------------------
// Reading a field out of a record.
// ---------------------------------------------------------------------------

/// What a record writes before a key's quoted value: `"key":"`.
pub open spec fn needle(key: Seq<char>) -> Seq<char> {
    seq!['"'] + key + seq!['"', ':', '"']
}

/// The character an escape `\c` stands for.
pub open spec fn unescaped(c: char) -> char {
    if c == 'n' {
        '\n'
    } else if c == 'r' {
        '\r'
    } else if c == 't' {
        '\t'
    } else {
        c
    }
}

/// A quoted value read up to its closing quote, escapes undone; `None` when
/// the quote never closes or the text ends inside an escape.
pub open spec fn unquote(s: Seq<char>) -> Option<Seq<char>>
    decreases s.len(),
{
    if s.len() == 0 {
        None
    } else if s[0] == '"' {
        Some(seq![])
    } else if s[0] == '\\' {
        if s.len() < 2 {
            None
        } else {
            match unquote(s.skip(2)) {
                Some(rest) => Some(seq![unescaped(s[1])] + rest),
                None => None,
            }
        }
    } else {
        match unquote(s.skip(1)) {
            Some(rest) => Some(seq![s[0]] + rest),
            None => None,
        }
    }
}

/// The string value of `key` in a record: the value after the first
/// `"key":"`, read as `unquote` reads it.
pub open spec fn extract_view(record: Seq<char>, key: Seq<char>) -> Option<Seq<char>> {
    match find(record, needle(key)) {
        Some(i) => unquote(record.skip(i + needle(key).len())),
        None => None,
    }
}

fn unescape_char(c: char) -> (r: char)
    ensures
        r == unescaped(c),
{
    if c == 'n' {
        '\n'
    } else if c == 'r' {
        '\r'
    } else if c == 't' {
        '\t'
    } else {
        c
    }
}

/// The string value of `key` in a log record.
pub fn extract(record: &str, key: &str) -> (r: Option<String>)
    ensures
        match r {
            Some(s) => extract_view(record@, key@) == Some(s@),
            None => extract_view(record@, key@) is None,
        },
{
    let v = chars_of(record);
    let mut pat: Vec<char> = Vec::new();
    pat.push('"');
    let k = chars_of(key);
    let mut j: usize = 0;
    while j < k.len()
        invariant
            j <= k@.len(),
            pat@ == seq!['"'] + k@.take(j as int),
        decreases k@.len() - j,
    {
        pat.push(k[j]);
        assert(k@.take(j + 1) == k@.take(j as int).push(k@[j as int]));
        j += 1;
    }
    pat.push('"');
    pat.push(':');
    pat.push('"');
    assert(k@.take(k@.len() as int) == k@);
    assert(pat@ == needle(key@));
    assert(v@.subrange(0, v@.len() as int) == v@);
    let found = find_from(v.as_slice(), 0, pat.as_slice());
    let at = match found {
        Some(at) => at,
        None => return None,
    };
    let plen = pat.len();
    let vlen = v.len();
    assert(at + plen <= vlen);
    let start = at + plen;
    let mut out: Vec<char> = Vec::new();
    let mut i = start;
    while i < v.len()
        invariant
            start <= i <= v@.len(),
            start == at + needle(key@).len(),
            find(v@, needle(key@)) == Some(at as int),
            v@ == record@,
            unquote(v@.skip(start as int)) == match unquote(v@.skip(i as int)) {
                Some(rest) => Some(out@ + rest),
                None => None::<Seq<char>>,
            },
        decreases v@.len() - i,
    {
        let c = v[i];
        let ghost tail = v@.skip(i as int);
        assert(tail[0] == c);
        if c == '\\' {
            if i + 1 >= v.len() {
                assert(unquote(tail) is None);
                return None;
            }
            let e = v[i + 1];
            assert(tail[1] == e);
            assert(tail.skip(2) == v@.skip(i + 2));
            let ghost before = out@;
            out.push(unescape_char(e));
            proof {
                match unquote(v@.skip(i + 2)) {
                    Some(rest) => {
                        assert(before.push(unescaped(e)) + rest == before + (seq![unescaped(e)] + rest));
                    },
                    None => {},
                }
            }
            i += 2;
        } else if c == '"' {
            assert(unquote(tail) == Some(Seq::<char>::empty()));
            assert(out@ + Seq::<char>::empty() == out@);
            return Some(string_of(out.as_slice()));
        } else {
            assert(tail.skip(1) == v@.skip(i + 1));
            let ghost before = out@;
            out.push(c);
            proof {
                match unquote(v@.skip(i + 1)) {
                    Some(rest) => {
                        assert(before.push(c) + rest == before + (seq![c] + rest));
                    },
                    None => {},
                }
            }
            i += 1;
        }
    }
    assert(v@.skip(i as int).len() == 0);
    None
}

// ---------------------------------------------------------------------------
// Server hosts.
// ---------------------------------------------------------------------------

/// Whether `i` is the position of the last `.` in `s`.
pub open spec fn is_last_dot(s: Seq<char>, i: int) -> bool {
    0 <= i < s.len() && s[i] == '.' && forall|j: int| i < j < s.len() ==> s[j] != '.'
}

/// The position of the last `.` in `s`.
pub open spec fn last_dot(s: Seq<char>) -> Option<int> {
    if exists|i: int| is_last_dot(s, i) {
        Some(choose|i: int| is_last_dot(s, i))
    } else {
        None
    }
}

/// A host without its last two labels, when it has more than two; the
/// host itself otherwise.
pub open spec fn server_key_of(host: Seq<char>) -> Seq<char> {
    match last_dot(host) {
        Some(j) => match last_dot(host.take(j)) {
            Some(k) => host.take(k),
            None => host,
        },
        None => host,
    }
}

proof fn lemma_last_dot_unique(s: Seq<char>, i: int, j: int)
    requires
        is_last_dot(s, i),
        is_last_dot(s, j),
    ensures
        i == j,
{
}

/// The last `.` among the first `end` characters of `v`.
fn last_dot_before(v: &[char], end: usize) -> (r: Option<usize>)
    requires
        end <= v@.len(),
    ensures
        match r {
            Some(i) => i < end && last_dot(v@.take(end as int)) == Some(i as int),
            None => last_dot(v@.take(end as int)) is None,
        },
{
    let ghost s = v@.take(end as int);
    let mut i = end;
    while i > 0
        invariant
            i <= end <= v@.len(),
            s == v@.take(end as int),
            forall|j: int| i <= j < end ==> s[j] != '.',
        decreases i,
    {
        if v[i - 1] == '.' {
            proof {
                assert(is_last_dot(s, i - 1));
                let k = choose|k: int| is_last_dot(s, k);
                lemma_last_dot_unique(s, i - 1, k);
            }
            return Some(i - 1);
        }
        i -= 1;
    }
    None
}

/// The part of a game server's host that tells servers apart: the host
/// without its last two labels, when it has more than two.
pub fn server_key(host: &str) -> (r: String)
    ensures
        r@ == server_key_of(host@),
{
    let v = chars_of(host);
    assert(v@.take(v@.len() as int) == v@);
    match last_dot_before(v.as_slice(), v.len()) {
        Some(j) => {
            match last_dot_before(v.as_slice(), j) {
                Some(k) => {
                    assert(v@.take(j as int).take(k as int) == v@.take(k as int));
                    assert(v@.subrange(0, k as int) == v@.take(k as int));
                    proof {
                        assert(v@.take(j as int) == host@.take(j as int));
                    }
                    string_of_range(v.as_slice(), 0, k)
                },
                None => {
                    assert(v@.take(j as int) == host@.take(j as int));
                    String::from_str(host)
                },
            }
        },
        None => String::from_str(host),
    }
}

// ---------------------------------------------------------------------------
// What a record does to the session.
// ---------------------------------------------------------------------------

pub open spec fn processor_prefix() -> Seq<char> {
    "Active Processor (eProcessor_"@
}

pub open spec fn server_marker() -> Seq<char> {
    "I will connect to 4-server type("@
}

pub open spec fn is_host_end(c: char) -> bool {
    c == ':' || c == ')'
}

/// Whether `i` is where the host ends: the first `:` or `)`.
pub open spec fn first_host_end(rest: Seq<char>, i: int) -> bool {
    0 <= i < rest.len() && is_host_end(rest[i]) && forall|j: int| 0 <= j < i ==> !is_host_end(
        rest[j],
    )
}

/// The host at the start of `rest`: up to the first `:` or `)`, or all of it.
pub open spec fn host_of(rest: Seq<char>) -> Seq<char> {
    if exists|i: int| first_host_end(rest, i) {
        rest.take(choose|i: int| first_host_end(rest, i))
    } else {
        rest
    }
}

/// The session after one log message written at `stamp`.
///
/// The first message starts the session. `Active Processor
/// (eProcessor_<name>)` moves to the phase `<name>` stands for, from
/// `stamp` on, when that is a new phase; an unknown name changes nothing.
/// Otherwise a `I will connect to 4-server type(<host>...` names the game
/// server the client joins.
pub open spec fn step(s: GameStateView, message: Seq<char>, stamp: i64) -> GameStateView {
    let s = GameStateView {
        session_start: if s.session_start is None { Some(stamp) } else { s.session_start },
        ..s
    };
    if starts_with(message, processor_prefix()) {
        let rest = message.skip(processor_prefix().len() as int);
        if rest.len() > 0 && rest.last() == ')' {
            match processor_phase(rest.drop_last()) {
                Some(p) => if s.phase != Some(p) {
                    GameStateView { phase: Some(p), phase_since: Some(stamp), ..s }
                } else {
                    s
                },
                None => s,
            }
        } else {
            s
        }
    } else {
        match find(message, server_marker()) {
            Some(at) => {
                let host = host_of(message.skip(at + server_marker().len()));
                if host.len() > 0 {
                    GameStateView { game_server: Some(server_key_of(host)), ..s }
                } else {
                    s
                }
            },
            None => s,
        }
    }
}

/// The session after a whole record written at `stamp`: records without a
/// `Log` message change nothing.
pub open spec fn apply_view(s: GameStateView, record: Seq<char>, stamp: i64) -> GameStateView {
    match extract_view(record, "Log"@) {
        Some(message) => step(s, message, stamp),
        None => s,
    }
}

/// Where the host ends in `v[from..]`: the first `:` or `)`, or the end.
fn host_end(v: &[char], from: usize) -> (r: usize)
    requires
        from <= v@.len(),
    ensures
        from <= r <= v@.len(),
        v@.subrange(from as int, r as int) == host_of(v@.skip(from as int)),
{
    let ghost rest = v@.skip(from as int);
    let mut i = from;
    while i < v.len()
        invariant
            from <= i <= v@.len(),
            rest == v@.skip(from as int),
            forall|j: int| 0 <= j < i - from ==> !is_host_end(rest[j]),
        decreases v@.len() - i,
    {
        if v[i] == ':' || v[i] == ')' {
            proof {
                assert(rest[i - from] == v@[i as int]);
                assert(first_host_end(rest, i - from));
                let k = choose|k: int| first_host_end(rest, k);
                if k < i - from {
                    assert(!is_host_end(rest[k]));
                } else if k > i - from {
                    assert(!is_host_end(rest[i - from]));
                }
                assert(rest.take(i - from) == v@.subrange(from as int, i as int));
            }
            return i;
        }
        assert(rest[i - from] == v@[i as int]);
        i += 1;
    }
    assert(rest == v@.subrange(from as int, v@.len() as int));
    i
}

/// What one log message written at `stamp` tells about the session.
/// A message naming a processor moves the session to the phase the name
/// stands for, which starts at the message's time when it is a change; the
/// session starts then too, if it had not.
pub proof fn lemma_processor_moves_phase(s: GameStateView, name: Seq<char>, stamp: i64, p: Phase)
    requires
        processor_phase(name) == Some(p),
    ensures
        step(s, processor_prefix() + name + seq![')'], stamp).phase == Some(p),
        s.phase != Some(p) ==> step(s, processor_prefix() + name + seq![')'], stamp).phase_since == Some(stamp),
        s.phase == Some(p) ==> step(s, processor_prefix() + name + seq![')'], stamp).phase_since == s.phase_since,
        step(s, processor_prefix() + name + seq![')'], stamp).session_start == match s.session_start {
            Some(t) => Some(t),
            None => Some(stamp),
        },
{
    let m = processor_prefix() + name + seq![')'];
    let pre = processor_prefix();
    assert(m.take(pre.len() as int) =~= pre);
    let rest = m.skip(pre.len() as int);
    assert(rest =~= name + seq![')']);
    assert(rest.drop_last() =~= name);
}

pub fn apply_message(state: &mut GameState, message: &str, stamp: i64)
    ensures
        final(state)@ == step(old(state)@, message@, stamp),
{
    if state.session_start.is_none() {
        state.session_start = Some(stamp);
    }
    let m = chars_of(message);
    let prefix = chars_of("Active Processor (eProcessor_");
    if matches_at(m.as_slice(), 0, prefix.as_slice()) {
        assert(m@.subrange(0, prefix@.len() as int) == m@.take(prefix@.len() as int));
        let start = prefix.len();
        let ghost rest = m@.skip(start as int);
        if m.len() > start && m[m.len() - 1] == ')' {
            assert(rest.last() == m@[m@.len() - 1]);
            let name = string_of_range(m.as_slice(), start, m.len() - 1);
            assert(name@ == rest.drop_last());
            match Phase::from_processor(name.as_str()) {
                Some(p) => {
                    let same = match state.phase {
                        Some(q) => q == p,
                        None => false,
                    };
                    if !same {
                        state.phase = Some(p);
                        state.phase_since = Some(stamp);
                    }
                },
                None => {},
            }
        }
        return ;
    }
    assert(!starts_with(message@, processor_prefix())) by {
        if starts_with(message@, processor_prefix()) {
            assert(m@.subrange(0, prefix@.len() as int) == m@.take(prefix@.len() as int));
        }
    }
    let marker = chars_of("I will connect to 4-server type(");
    assert(m@.subrange(0, m@.len() as int) == m@);
    let found = find_from(m.as_slice(), 0, marker.as_slice());
    match found {
        Some(at) => {
            let mlen = marker.len();
            let vlen = m.len();
            assert(at + mlen <= vlen);
            let start = at + mlen;
            let end = host_end(m.as_slice(), start);
            if end > start {
                let host = string_of_range(m.as_slice(), start, end);
                state.game_server = Some(server_key(host.as_str()));
            }
        },
        None => {},
    }
}


// ---------------------------------------------------------------------------
// Time stamps.
// ---------------------------------------------------------------------------

#[verifier::external_type_specification]
#[verifier::external_body]
pub struct ExNaiveDateTime(chrono::NaiveDateTime);

/// The wall-clock time `NaiveDateTime::parse_from_str` reads from a text in
/// a strftime format, when it reads one. It rests on the two texts alone.
pub uninterp spec fn naive_parsed(text: Seq<char>, format: Seq<char>) -> Option<chrono::NaiveDateTime>;

/// `NaiveDateTime::parse_from_str`: a wall-clock date and time read from
/// `text` in the strftime `format`, as named by `naive_parsed`. Which texts
/// read, and as what, is not stated.
#[verifier::external_body]
fn parse_naive(text: &str, format: &str) -> (r: Option<chrono::NaiveDateTime>)
    ensures
        r == naive_parsed(text@, format@),
{
    chrono::NaiveDateTime::parse_from_str(text, format).ok()
}

/// `TimeZone::from_local_datetime` on `chrono::Local`: the Unix time of a
/// wall-clock time in this machine's time zone, when it names exactly one
/// instant. It rests on the machine's time zone, so nothing is claimed of it.
#[verifier::external_body]
fn local_timestamp(naive: &chrono::NaiveDateTime) -> (r: Option<i64>) {
    match chrono::TimeZone::from_local_datetime(&chrono::Local, naive) {
        chrono::LocalResult::Single(at) => Some(at.timestamp()),
        chrono::LocalResult::Ambiguous(_, _) => None,
        chrono::LocalResult::None => None,
    }
}

/// `chrono::Local::now`, in Unix seconds. The clock decides it.
#[verifier::external_body]
fn now_timestamp() -> (r: i64) {
    chrono::Local::now().timestamp()
}

/// The Unix time of a log's `YYYY-MM-DD HH:MM:SS` date, read from its first
/// 19 bytes as local time.
fn parse_log_date(text: &str) -> (r: Option<i64>)
    ensures
        r is Some ==> vstd::utf8::is_char_boundary(text.spec_bytes(), 19),
        r is Some ==> naive_parsed(
            vstd::utf8::decode_utf8(text.spec_bytes().subrange(0, 19)),
            "%Y-%m-%d %H:%M:%S"@,
        ) is Some,
{
    if !text.is_char_boundary(19) {
        return None;
    }
    let (head, _) = text.split_at(19);
    proof {
        vstd::utf8::encode_utf8_decode_utf8(head@);
    }
    match parse_naive(head, "%Y-%m-%d %H:%M:%S") {
        Some(naive) => local_timestamp(&naive),
        None => None,
    }
}

/// The time a record is stamped with: its own date's instant when that
/// reads, else the present moment.
pub open spec fn record_stamp(date_stamp: Option<i64>, now: i64) -> i64 {
    match date_stamp {
        Some(t) => t,
        None => now,
    }
}

/// Whether a record's date reads as a wall-clock time: its first 19 bytes
/// are whole characters that chrono reads in the log's date format.
pub open spec fn date_reads(record: Seq<char>) -> bool {
    match extract_view(record, "Date"@) {
        Some(d) => {
            &&& vstd::utf8::is_char_boundary(vstd::utf8::encode_utf8(d), 19)
            &&& naive_parsed(
                vstd::utf8::decode_utf8(vstd::utf8::encode_utf8(d).subrange(0, 19)),
                "%Y-%m-%d %H:%M:%S"@,
            ) is Some
        },
        None => false,
    }
}

/// What one log record tells about the session, given the instant its date
/// stands for, when it has one that reads, and the present moment.
pub fn apply_record_at(record: &str, state: &mut GameState, date_stamp: Option<i64>, now: i64)
    ensures
        final(state)@ == apply_view(old(state)@, record@, record_stamp(date_stamp, now)),
{
    let stamp = match date_stamp {
        Some(t) => t,
        None => now,
    };
    match extract(record, "Log") {
        Some(m) => apply_message(state, m.as_str(), stamp),
        None => {},
    }
}

/// What one log record tells about the session. The record's own date
/// stamps it, or the present moment when it has none that reads. Which
/// instant a date stands for rests on the machine's time zone, and the
/// present moment on the clock, so the contract names neither; it says
/// that the record's date is used only where it reads.
pub fn apply_record(record: &str, state: &mut GameState)
    ensures
        exists|date_stamp: Option<i64>, now: i64|
            (date_stamp is Some ==> date_reads(record@)) && final(state)@ == #[trigger] apply_view(
                old(state)@,
                record@,
                record_stamp(date_stamp, now),
            ),
{
    let date_stamp = match extract(record, "Date") {
        Some(d) => parse_log_date(d.as_str()),
        None => None,
    };
    let now = match date_stamp {
        Some(t) => t,
        None => now_timestamp(),
    };
    apply_record_at(record, state, date_stamp, now);
}

// ---------------------------------------------------------------------------
// Following the newest log file.
// ---------------------------------------------------------------------------

/// How long a log folder listing stays fresh, in nanoseconds.
pub const RESCAN_NANOS: u64 = 10_000_000_000;
/// Bytes of a half-read line kept before it is given up on.
pub const MAX_PENDING: usize = 1048576;

/// One file in the log folder: its name when it is valid Unicode, its path,
/// and when it was last written, in nanoseconds since the Unix epoch.
pub struct LogEntry {
    pub name: Option<String>,
    pub path: String,
    pub modified: i128,
}

/// Whether a file is one of the client's logs: `Client_*.json`.
pub open spec fn is_client_log_name(name: Option<String>) -> bool {
    match name {
        Some(n) => starts_with(n@, "Client_"@) && crate::text::ends_with(n@, ".json"@),
        None => false,
    }
}

/// Whether an entry is a log worth following: a client log written no
/// earlier than `not_before`.
pub open spec fn is_candidate(e: LogEntry, not_before: Option<i128>) -> bool {
    &&& is_client_log_name(e.name)
    &&& match not_before {
        Some(floor) => e.modified >= floor,
        None => true,
    }
}

/// Whether `i` is the newest candidate: none is newer, and a later entry as
/// new as it does not come after it.
pub open spec fn is_newest(es: Seq<LogEntry>, not_before: Option<i128>, i: int) -> bool {
    &&& 0 <= i < es.len()
    &&& is_candidate(es[i], not_before)
    &&& forall|j: int|
        0 <= j < es.len() && #[trigger] is_candidate(es[j], not_before) ==> es[j].modified
            <= es[i].modified && (j > i ==> es[j].modified < es[i].modified)
}

pub open spec fn newest(es: Seq<LogEntry>, not_before: Option<i128>) -> Option<int> {
    if exists|i: int| is_newest(es, not_before, i) {
        Some(choose|i: int| is_newest(es, not_before, i))
    } else {
        None
    }
}

/// Whether a file name is one of the client's logs.
pub fn is_client_log(name: &Option<String>) -> (r: bool)
    ensures
        r == is_client_log_name(*name),
{
    match name {
        Some(n) => crate::text::text_starts_with(n.as_str(), "Client_")
            && crate::text::text_ends_with(n.as_str(), ".json"),
        None => false,
    }
}

fn newest_entry(es: &Vec<LogEntry>, not_before: Option<i128>) -> (r: Option<usize>)
    ensures
        match r {
            Some(i) => newest(es@, not_before) == Some(i as int),
            None => newest(es@, not_before) is None,
        },
{
    let mut best: Option<usize> = None;
    let mut i: usize = 0;
    while i < es.len()
        invariant
            i <= es@.len(),
            match best {
                Some(b) => b < i && is_candidate(es@[b as int], not_before) && forall|j: int|
                    0 <= j < i && #[trigger] is_candidate(es@[j], not_before) ==> es@[j].modified
                        <= es@[b as int].modified && (j > b ==> es@[j].modified
                        < es@[b as int].modified),
                None => forall|j: int| 0 <= j < i ==> !#[trigger] is_candidate(es@[j], not_before),
            },
        decreases es@.len() - i,
    {
        let e = &es[i];
        let fresh = match not_before {
            Some(floor) => e.modified >= floor,
            None => true,
        };
        if is_client_log(&e.name) && fresh {
            let better = match best {
                Some(b) => e.modified >= es[b].modified,
                None => true,
            };
            if better {
                best = Some(i);
            }
        }
        i += 1;
    }
    match best {
        Some(b) => {
            proof {
                assert(is_newest(es@, not_before, b as int));
                let k = choose|k: int| is_newest(es@, not_before, k);
                if k < b {
                    assert(es@[b as int].modified < es@[k].modified);
                } else if k > b {
                    assert(es@[k].modified < es@[b as int].modified);
                }
            }
        },
        None => {},
    }
    best
}

/// Where the follower stands in the log.
pub struct LogTail {
    log_dir: String,
    current: Option<String>,
    current_name: Option<String>,
    offset: u64,
    pending: Vec<char>,
    carry: Option<u8>,
    last_scan: Option<u64>,
    not_before: Option<i128>,
}

pub struct LogTailView {
    pub log_dir: Seq<char>,
    pub current: Option<Seq<char>>,
    pub current_name: Option<Seq<char>>,
    pub offset: u64,
    pub pending: Seq<char>,
    pub carry: Option<u8>,
    pub last_scan: Option<u64>,
    pub not_before: Option<i128>,
}

pub open spec fn opt_seq(o: Option<String>) -> Option<Seq<char>> {
    match o {
        Some(s) => Some(s@),
        None => None,
    }
}

impl View for LogTail {
    type V = LogTailView;

    closed spec fn view(&self) -> LogTailView {
        LogTailView {
            log_dir: self.log_dir@,
            current: opt_seq(self.current),
            current_name: opt_seq(self.current_name),
            offset: self.offset,
            pending: self.pending@,
            carry: self.carry,
            last_scan: self.last_scan,
            not_before: self.not_before,
        }
    }
}

/// The same follower, back at the start of its file.
pub open spec fn rewound(t: LogTailView) -> LogTailView {
    LogTailView { offset: 0, pending: seq![], carry: None, ..t }
}

/// Whether the folder is due a look: no file yet, never looked, or the last
/// look is ten seconds old.
pub open spec fn scan_due_at(t: LogTailView, now: u64) -> bool {
    t.current is None || match t.last_scan {
        Some(last) => now >= last + RESCAN_NANOS,
        None => true,
    }
}

/// The follower after a look at the folder at `now`: it moves to the newest
/// client log, from its start, when that is another file.
pub open spec fn after_scan(t: LogTailView, now: u64, listing: Option<Seq<LogEntry>>) -> LogTailView {
    if !scan_due_at(t, now) {
        t
    } else {
        let t = LogTailView { last_scan: Some(now), ..t };
        match listing {
            Some(es) => match newest(es, t.not_before) {
                Some(i) => if t.current != Some(es[i].path@) {
                    rewound(
                        LogTailView {
                            current: Some(es[i].path@),
                            current_name: opt_seq(es[i].name),
                            ..t
                        },
                    )
                } else {
                    t
                },
                None => t,
            },
            None => t,
        }
    }
}

/// The prefix of a Windows verbatim path, `\\?\`. `Path::join` rebuilds such
/// a path, dropping its `.` and `..` parts.
pub open spec fn verbatim_prefix() -> Seq<char> {
    seq!['\\', '\\', '?', '\\']
}

/// A name of ASCII letters only: a relative path of one part on every
/// platform.
pub open spec fn plain_name(name: Seq<char>) -> bool {
    &&& name.len() > 0
    &&& forall|i: int| 0 <= i < name.len() ==> ('a' <= #[trigger] name[i] <= 'z' || 'A' <= name[i] <= 'Z')
}

/// Whether `joined` is `path` with the relative `name` added after it: right
/// after an empty path or one that ends in a separator, else after one
/// separator, `/` or `\\` as the platform has it.
pub open spec fn joined_path(path: Seq<char>, name: Seq<char>, joined: Seq<char>) -> bool {
    ||| joined == path + name
    ||| joined == path + seq!['/'] + name
    ||| joined == path + seq!['\\'] + name
}

/// `path` joined with `name`, as `Path::join` makes it. For a name of ASCII
/// letters the name is added after the path, with or without one separator;
/// which separator, and whether one is added, rests on the platform and is
/// left open. A Windows verbatim path is rebuilt by `Path::join`, so nothing
/// is claimed of it.
#[verifier::external_body]
fn join_path(path: &str, name: &str) -> (r: String)
    requires
        plain_name(name@),
    ensures
        !starts_with(path@, verbatim_prefix()) ==> joined_path(path@, name@, r@),
        path@.len() == 0 ==> r@ == name@,
{
    std::path::Path::new(path).join(name).to_string_lossy().into_owned()
}

/// Bytes as UTF-16 code units, two little-endian bytes each.
pub open spec fn units_of(bytes: Seq<u8>) -> Seq<u16> {
    Seq::new(bytes.len() / 2, |i: int| (bytes[2 * i] + 256 * bytes[2 * i + 1]) as u16)
}

/// Whether a code unit is half of a surrogate pair.
pub open spec fn is_surrogate(u: u16) -> bool {
    0xD800 <= u <= 0xDFFF
}

/// The text UTF-16 code units encode, as `char::decode_utf16` reads them: a
/// unit outside the surrogates is its own character, a leading surrogate
/// followed by a trailing one is the pair's character, and any other
/// surrogate, unpaired, reads as U+FFFD.
pub open spec fn utf16_lossy(units: Seq<u16>) -> Seq<char>
    decreases units.len(),
{
    if units.len() == 0 {
        seq![]
    } else if !is_surrogate(units[0]) {
        seq![units[0] as char] + utf16_lossy(units.drop_first())
    } else if units[0] <= 0xDBFF && units.len() >= 2 && 0xDC00 <= units[1] <= 0xDFFF {
        seq![(0x10000 + (units[0] - 0xD800) * 0x400 + (units[1] - 0xDC00)) as char] + utf16_lossy(units.skip(2))
    } else {
        seq!['\u{FFFD}'] + utf16_lossy(units.drop_first())
    }
}

/// `String::from_utf16_lossy`: the text the units encode, each unpaired
/// surrogate read as U+FFFD.
#[verifier::external_body]
pub(crate) fn decode_utf16_lossy(units: &[u16]) -> (r: String)
    ensures
        r@ == utf16_lossy(units@),
{
    String::from_utf16_lossy(units)
}

/// A line without its trailing carriage returns.
pub open spec fn trim_cr(line: Seq<char>) -> Seq<char>
    decreases line.len(),
{
    if line.len() > 0 && line.last() == '\r' {
        trim_cr(line.drop_last())
    } else {
        line
    }
}

/// The lines `text` completes, each ended by a `\n` and without trailing
/// `\r`s, after `line` was already begun; and the unfinished rest.
pub open spec fn lines_from(text: Seq<char>, line: Seq<char>) -> (Seq<Seq<char>>, Seq<char>)
    decreases text.len(),
{
    if text.len() == 0 {
        (seq![], line)
    } else if text[0] == '\n' {
        let (more, rest) = lines_from(text.drop_first(), seq![]);
        (seq![trim_cr(line)] + more, rest)
    } else {
        lines_from(text.drop_first(), line.push(text[0]))
    }
}

/// The session after records written at `stamps`, in order.
pub open spec fn apply_all(s: GameStateView, records: Seq<Seq<char>>, stamps: Seq<i64>) -> GameStateView
    decreases records.len(),
{
    if records.len() == 0 {
        s
    } else {
        apply_view(
            apply_all(s, records.drop_last(), stamps.drop_last()),
            records.last(),
            stamps.last(),
        )
    }
}

/// The text a read chunk completes: what was pending, then the chunk's
/// whole code units, after the byte left over from the last chunk.
pub open spec fn chunk_text(t: LogTailView, chunk: Seq<u8>) -> Seq<char> {
    let bytes = match t.carry {
        Some(b) => seq![b] + chunk,
        None => chunk,
    };
    t.pending + utf16_lossy(units_of(bytes))
}

/// The byte a chunk leaves over, when the bytes so far are odd in number.
pub open spec fn chunk_carry(t: LogTailView, chunk: Seq<u8>) -> Option<u8> {
    let bytes = match t.carry {
        Some(b) => seq![b] + chunk,
        None => chunk,
    };
    if bytes.len() % 2 == 1 {
        Some(bytes.last())
    } else {
        None
    }
}

/// The records a chunk completes, in order.
pub open spec fn fed_lines(t: LogTailView, chunk: Seq<u8>) -> Seq<Seq<char>> {
    lines_from(chunk_text(t, chunk), seq![]).0
}

/// The follower after it takes in a chunk: further on by the chunk's length,
/// with the byte the chunk leaves over, and with the line it leaves
/// unfinished pending, unless that is over a megabyte.
pub open spec fn fed_tail(t: LogTailView, chunk: Seq<u8>) -> LogTailView {
    let rest = lines_from(chunk_text(t, chunk), seq![]).1;
    LogTailView {
        offset: (t.offset + chunk.len()) as u64,
        carry: chunk_carry(t, chunk),
        pending: if vstd::utf8::encode_utf8(rest).len() > MAX_PENDING {
            seq![]
        } else {
            rest
        },
        ..t
    }
}

/// The bytes a chunk is read as: the byte the last chunk left over, if any,
/// then the chunk.
pub open spec fn chunk_bytes(t: LogTailView, chunk: Seq<u8>) -> Seq<u8> {
    match t.carry {
        Some(b) => seq![b] + chunk,
        None => chunk,
    }
}

/// Whether no character of a text is a line break.
pub open spec fn no_break(x: Seq<char>) -> bool {
    forall|i: int| 0 <= i < x.len() ==> #[trigger] x[i] != '\n'
}

proof fn lemma_units_split(x: Seq<u8>, k: int)
    requires
        0 <= k,
        k + k <= x.len(),
    ensures
        units_of(x) == units_of(x.take(k + k)) + units_of(x.skip(k + k)),
{
    let a = units_of(x.take(k + k));
    let b = units_of(x.skip(k + k));
    assert(a.len() == k);
    assert(units_of(x).len() == k + b.len());
    assert forall|i: int| 0 <= i < units_of(x).len() implies #[trigger] units_of(x)[i] == (a + b)[i] by {
        if i < k {
            assert(x.take(k + k)[2 * i] == x[2 * i]);
            assert(x.take(k + k)[2 * i + 1] == x[2 * i + 1]);
        } else {
            let j = i - k;
            assert(x.skip(k + k)[2 * j] == x[2 * i]);
            assert(x.skip(k + k)[2 * j + 1] == x[2 * i + 1]);
        }
    }
    assert(units_of(x) =~= a + b);
}

proof fn lemma_utf16_concat(a: Seq<u16>, b: Seq<u16>)
    requires
        forall|i: int| 0 <= i < a.len() ==> !is_surrogate(#[trigger] a[i]),
    ensures
        utf16_lossy(a + b) == utf16_lossy(a) + utf16_lossy(b),
    decreases a.len(),
{
    if a.len() == 0 {
        assert(a + b =~= b);
        assert(utf16_lossy(a) + utf16_lossy(b) =~= utf16_lossy(b));
    } else {
        assert((a + b)[0] == a[0]);
        assert((a + b).drop_first() =~= a.drop_first() + b);
        lemma_utf16_concat(a.drop_first(), b);
        assert(!is_surrogate(a[0]));
        assert(utf16_lossy(a + b) =~= utf16_lossy(a) + utf16_lossy(b));
    }
}

proof fn lemma_lines_concat(a: Seq<char>, b: Seq<char>, line: Seq<char>)
    ensures
        lines_from(a + b, line) == (
            lines_from(a, line).0 + lines_from(b, lines_from(a, line).1).0,
            lines_from(b, lines_from(a, line).1).1,
        ),
    decreases a.len(),
{
    if a.len() == 0 {
        assert(a + b =~= b);
        assert(lines_from(a, line).0 + lines_from(b, line).0 =~= lines_from(b, line).0);
    } else {
        assert((a + b)[0] == a[0]);
        assert((a + b).drop_first() =~= a.drop_first() + b);
        if a[0] == '\n' {
            lemma_lines_concat(a.drop_first(), b, seq![]);
            let m1 = lines_from(a.drop_first(), seq![]).0;
            let m2 = lines_from(b, lines_from(a.drop_first(), seq![]).1).0;
            assert(seq![trim_cr(line)] + (m1 + m2) =~= (seq![trim_cr(line)] + m1) + m2);
        } else {
            lemma_lines_concat(a.drop_first(), b, line.push(a[0]));
        }
    }
}

proof fn lemma_lines_rest(text: Seq<char>, line: Seq<char>)
    requires
        no_break(line),
    ensures
        no_break(lines_from(text, line).1),
    decreases text.len(),
{
    if text.len() > 0 {
        if text[0] == '\n' {
            lemma_lines_rest(text.drop_first(), seq![]);
        } else {
            let l2 = line.push(text[0]);
            assert(no_break(l2)) by {
                assert forall|i: int| 0 <= i < l2.len() implies #[trigger] l2[i] != '\n' by {
                    if i < line.len() {
                        assert(l2[i] == line[i]);
                    }
                }
            }
            lemma_lines_rest(text.drop_first(), l2);
        }
    }
}

proof fn lemma_lines_plain(x: Seq<char>, line: Seq<char>)
    requires
        no_break(x),
    ensures
        lines_from(x, line) == (Seq::<Seq<char>>::empty(), line + x),
    decreases x.len(),
{
    if x.len() == 0 {
        assert(line + x =~= line);
    } else {
        assert(x[0] != '\n');
        assert(no_break(x.drop_first())) by {
            assert forall|i: int| 0 <= i < x.drop_first().len() implies #[trigger] x.drop_first()[i] != '\n' by {
                assert(x.drop_first()[i] == x[i + 1]);
            }
        }
        lemma_lines_plain(x.drop_first(), line.push(x[0]));
        assert(line.push(x[0]) + x.drop_first() =~= line + x);
    }
}

/// Applying records in two runs, one after the other, is applying them all
/// in one.
pub proof fn lemma_apply_all_concat(
    s: GameStateView,
    l1: Seq<Seq<char>>,
    st1: Seq<i64>,
    l2: Seq<Seq<char>>,
    st2: Seq<i64>,
)
    requires
        l1.len() == st1.len(),
        l2.len() == st2.len(),
    ensures
        apply_all(s, l1 + l2, st1 + st2) == apply_all(apply_all(s, l1, st1), l2, st2),
    decreases l2.len(),
{
    if l2.len() == 0 {
        assert(l1 + l2 =~= l1);
        assert(st1 + st2 =~= st1);
    } else {
        assert((l1 + l2).drop_last() =~= l1 + l2.drop_last());
        assert((st1 + st2).drop_last() =~= st1 + st2.drop_last());
        assert((l1 + l2).last() == l2.last());
        assert((st1 + st2).last() == st2.last());
        lemma_apply_all_concat(s, l1, st1, l2.drop_last(), st2.drop_last());
    }
}

/// Where a log's new bytes are split between two reads, even inside a line
/// or a code unit, does not matter: reading them in two chunks sees the same
/// records, in order, and leaves the follower as reading them in one does,
/// so the session comes out the same for the same record times. This holds
/// when the text has no surrogate pairs and the line left unfinished between
/// the chunks is not given up on for being over a megabyte.
pub proof fn lemma_split_feed(
    t: LogTailView,
    c1: Seq<u8>,
    c2: Seq<u8>,
    s: GameStateView,
    st1: Seq<i64>,
    st2: Seq<i64>,
)
    requires
        t.offset + c1.len() + c2.len() <= u64::MAX,
        forall|i: int|
            0 <= i < units_of(chunk_bytes(t, c1 + c2)).len() ==> !is_surrogate(
                #[trigger] units_of(chunk_bytes(t, c1 + c2))[i],
            ),
        vstd::utf8::encode_utf8(lines_from(chunk_text(t, c1), seq![]).1).len() <= MAX_PENDING,
        st1.len() == fed_lines(t, c1).len(),
        st2.len() == fed_lines(fed_tail(t, c1), c2).len(),
    ensures
        fed_tail(fed_tail(t, c1), c2) == fed_tail(t, c1 + c2),
        fed_lines(t, c1) + fed_lines(fed_tail(t, c1), c2) == fed_lines(t, c1 + c2),
        apply_all(apply_all(s, fed_lines(t, c1), st1), fed_lines(fed_tail(t, c1), c2), st2)
            == apply_all(s, fed_lines(t, c1 + c2), st1 + st2),
{
    let b = chunk_bytes(t, c1);
    let x = chunk_bytes(t, c1 + c2);
    assert(x =~= b + c2);
    let k: int = (b.len() / 2) as int;
    let t1 = fed_tail(t, c1);
    let b2 = chunk_bytes(t1, c2);
    assert(t1.carry == chunk_carry(t, c1));
    assert(b2 =~= x.skip(k + k)) by {
        if b.len() % 2 == 1 {
            assert(x[k + k] == b.last());
            assert(b2 =~= seq![b.last()] + c2);
        } else {
            assert(b2 =~= c2);
        }
    }
    let ub = units_of(b);
    let ub2 = units_of(b2);
    assert(ub =~= units_of(x.take(k + k))) by {
        assert forall|i: int| 0 <= i < ub.len() implies #[trigger] ub[i] == units_of(x.take(k + k))[i] by {
            assert(x.take(k + k)[2 * i] == b[2 * i]);
            assert(x.take(k + k)[2 * i + 1] == b[2 * i + 1]);
        }
    }
    lemma_units_split(x, k);
    assert(units_of(x) == ub + ub2);
    assert forall|i: int| 0 <= i < ub.len() implies !is_surrogate(#[trigger] ub[i]) by {
        assert(units_of(x)[i] == ub[i]);
    }
    lemma_utf16_concat(ub, ub2);
    let text1 = chunk_text(t, c1);
    assert(text1 == t.pending + utf16_lossy(ub));
    assert(chunk_text(t, c1 + c2) =~= text1 + utf16_lossy(ub2));
    let r1 = lines_from(text1, seq![]).1;
    lemma_lines_rest(text1, seq![]);
    assert(t1.pending == r1);
    assert(chunk_text(t1, c2) == r1 + utf16_lossy(ub2));
    lemma_lines_concat(text1, utf16_lossy(ub2), seq![]);
    lemma_lines_concat(r1, utf16_lossy(ub2), seq![]);
    lemma_lines_plain(r1, seq![]);
    assert(Seq::<char>::empty() + r1 =~= r1);
    assert(Seq::<Seq<char>>::empty() + lines_from(utf16_lossy(ub2), r1).0 =~= lines_from(utf16_lossy(ub2), r1).0);
    assert(fed_lines(t1, c2) == lines_from(utf16_lossy(ub2), r1).0);
    assert(lines_from(chunk_text(t1, c2), seq![]).1 == lines_from(chunk_text(t, c1 + c2), seq![]).1);
    assert(chunk_carry(t1, c2) == chunk_carry(t, c1 + c2)) by {
        assert(b2.len() == x.len() - (k + k));
        if b2.len() > 0 {
            assert(b2.last() == x.last());
        }
    }
    assert(fed_tail(t1, c2) =~= fed_tail(t, c1 + c2));
    lemma_apply_all_concat(s, fed_lines(t, c1), st1, fed_lines(t1, c2), st2);
}

fn trim_cr_chars(line: &Vec<char>) -> (r: String)
    ensures
        r@ == trim_cr(line@),
{
    let mut end = line.len();
    assert(line@.take(end as int) == line@);
    while end > 0 && line[end - 1] == '\r'
        invariant
            end <= line@.len(),
            trim_cr(line@) == trim_cr(line@.take(end as int)),
        decreases end,
    {
        assert(line@.take(end as int).drop_last() == line@.take(end - 1));
        end -= 1;
    }
    assert(line@.take(end as int) == line@.subrange(0, end as int));
    string_of_range(line.as_slice(), 0, end)
}

proof fn lemma_lines_step(text: Seq<char>, line: Seq<char>)
    requires
        text.len() > 0,
    ensures
        text[0] == '\n' ==> lines_from(text, line) == ({
            let (more, rest) = lines_from(text.drop_first(), seq![]);
            (seq![trim_cr(line)] + more, rest)
        }),
        text[0] != '\n' ==> lines_from(text, line) == lines_from(text.drop_first(), line.push(text[0])),
{
}

impl LogTail {
    /// A follower for the `Log` folder under the game's folder, not yet on
    /// any file, that ignores files last written before `not_before`.
    pub fn new(game_root: &str, not_before: Option<i128>) -> (r: LogTail)
        ensures
            r@.current is None,
            r@.current_name is None,
            r@.offset == 0,
            r@.pending == Seq::<char>::empty(),
            r@.carry is None,
            r@.last_scan is None,
            r@.not_before == not_before,
            !starts_with(game_root@, verbatim_prefix()) ==> joined_path(game_root@, "Log"@, r@.log_dir),
            game_root@.len() == 0 ==> r@.log_dir == "Log"@,
    {
        proof {
            reveal_strlit("Log");
        }
        LogTail {
            log_dir: join_path(game_root, "Log"),
            current: None,
            current_name: None,
            offset: 0,
            pending: Vec::new(),
            carry: None,
            last_scan: None,
            not_before,
        }
    }

    /// The folder it looks in.
    pub fn log_dir(&self) -> (r: String)
        ensures
            r@ == self@.log_dir,
    {
        self.log_dir.clone()
    }

    /// The name of the file it follows.
    pub fn file_name(&self) -> (r: Option<String>)
        ensures
            opt_seq(r) == self@.current_name,
    {
        match &self.current_name {
            Some(n) => Some(n.clone()),
            None => None,
        }
    }

    /// The path of the file it follows.
    pub fn current_path(&self) -> (r: Option<String>)
        ensures
            opt_seq(r) == self@.current,
    {
        match &self.current {
            Some(n) => Some(n.clone()),
            None => None,
        }
    }

    /// How far into the file it has read.
    pub fn offset(&self) -> (r: u64)
        ensures
            r == self@.offset,
    {
        self.offset
    }

    fn rewind(&mut self)
        ensures
            final(self)@ == rewound(old(self)@),
    {
        self.offset = 0;
        self.pending = Vec::new();
        self.carry = None;
    }

    /// Whether the folder is due a look at `now`, a monotonic clock in
    /// nanoseconds.
    pub fn scan_due(&self, now: u64) -> (r: bool)
        ensures
            r == scan_due_at(self@, now),
    {
        match (&self.current, self.last_scan) {
            (None, _) => true,
            (_, None) => true,
            (_, Some(last)) => last <= u64::MAX - RESCAN_NANOS && now >= last + RESCAN_NANOS,
        }
    }

    /// Takes a look at the folder at `now`, when one is due: `listing` is
    /// what it holds, or `None` when it could not be read.
    pub fn select_newest(&mut self, now: u64, listing: Option<&Vec<LogEntry>>)
        ensures
            final(self)@ == after_scan(
                old(self)@,
                now,
                match listing {
                    Some(es) => Some(es@),
                    None => None,
                },
            ),
    {
        if !self.scan_due(now) {
            return ;
        }
        self.last_scan = Some(now);
        let es = match listing {
            Some(es) => es,
            None => return ,
        };
        match newest_entry(es, self.not_before) {
            Some(i) => {
                let path = &es[i].path;
                let same = match &self.current {
                    Some(c) => crate::keymap::text_eq(c.as_str(), path.as_str()),
                    None => false,
                };
                if !same {
                    self.current = Some(path.clone());
                    self.current_name = match &es[i].name {
                        Some(n) => Some(n.clone()),
                        None => None,
                    };
                    self.rewind();
                }
            },
            None => {},
        }
    }

    /// Measures the file against what was read: a shorter file was started
    /// over, so it is read again from its start. Whether there is anything
    /// new to read.
    pub fn sync_size(&mut self, size: u64) -> (r: bool)
        ensures
            final(self)@ == if size < old(self)@.offset {
                rewound(old(self)@)
            } else {
                old(self)@
            },
            r == (size != final(self)@.offset),
    {
        if size < self.offset {
            self.rewind();
        }
        size != self.offset
    }

    /// Takes in the next chunk of the file, and applies each record it
    /// completes to `state`, in order. A half-read line over a megabyte is
    /// given up on.
    pub fn feed(&mut self, chunk: &[u8], state: &mut GameState)
        requires
            old(self)@.offset + chunk@.len() <= u64::MAX,
        ensures
            final(self)@ == fed_tail(old(self)@, chunk@),
            exists|stamps: Seq<i64>|
                stamps.len() == fed_lines(old(self)@, chunk@).len() && final(state)@ == #[trigger] apply_all(
                    old(state)@,
                    fed_lines(old(self)@, chunk@),
                    stamps,
                ),
    {
        let ghost t0 = self@;
        let ghost s0 = state@;
        self.offset = self.offset + chunk.len() as u64;
        let mut bytes: Vec<u8> = Vec::new();
        match self.carry {
            Some(b) => bytes.push(b),
            None => {},
        }
        let ghost lead = bytes@;
        let mut k: usize = 0;
        while k < chunk.len()
            invariant
                k <= chunk@.len(),
                bytes@ == lead + chunk@.take(k as int),
            decreases chunk@.len() - k,
        {
            bytes.push(chunk[k]);
            assert(chunk@.take(k + 1) == chunk@.take(k as int).push(chunk@[k as int]));
            k += 1;
        }
        assert(chunk@.take(chunk@.len() as int) == chunk@);
        assert(bytes@ == match t0.carry { Some(b) => seq![b] + chunk@, None => chunk@ });
        let ghost all_bytes = bytes@;
        self.carry = None;
        if bytes.len() % 2 == 1 {
            self.carry = bytes.pop();
        }
        let mut units: Vec<u16> = Vec::new();
        let mut u: usize = 0;
        while u < bytes.len() / 2
            invariant
                bytes@.len() == all_bytes.len() - all_bytes.len() % 2,
                forall|j: int| 0 <= j < bytes@.len() ==> bytes@[j] == all_bytes[j],
                u <= bytes@.len() / 2,
                units@ == units_of(all_bytes).take(u as int),
            decreases bytes@.len() / 2 - u,
        {
            let lo = bytes[2 * u] as u16;
            let hi = bytes[2 * u + 1] as u16;
            let unit = lo + 256 * hi;
            units.push(unit);
            assert(units_of(all_bytes).take(u + 1) == units_of(all_bytes).take(u as int).push(
                units_of(all_bytes)[u as int],
            ));
            u += 1;
        }
        assert(units@ == units_of(all_bytes));
        let decoded = decode_utf16_lossy(units.as_slice());
        let dchars = chars_of(decoded.as_str());
        let mut text: Vec<char> = Vec::new();
        let mut p: usize = 0;
        while p < self.pending.len()
            invariant
                p <= self.pending@.len(),
                self.pending@ == t0.pending,
                text@ == t0.pending.take(p as int),
            decreases self.pending@.len() - p,
        {
            text.push(self.pending[p]);
            assert(t0.pending.take(p + 1) == t0.pending.take(p as int).push(t0.pending[p as int]));
            p += 1;
        }
        let mut q: usize = 0;
        while q < dchars.len()
            invariant
                q <= dchars@.len(),
                text@ == t0.pending + dchars@.take(q as int),
            decreases dchars@.len() - q,
        {
            text.push(dchars[q]);
            assert(dchars@.take(q + 1) == dchars@.take(q as int).push(dchars@[q as int]));
            q += 1;
        }
        assert(t0.pending.take(t0.pending.len() as int) == t0.pending);
        assert(dchars@.take(dchars@.len() as int) == dchars@);
        assert(text@ == chunk_text(t0, chunk@));
        let ghost whole = lines_from(text@, seq![]);
        let mut line: Vec<char> = Vec::new();
        let ghost mut done: Seq<Seq<char>> = seq![];
        let ghost mut stamps: Seq<i64> = seq![];
        let mut i: usize = 0;
        assert(text@.skip(0) == text@);
        assert(Seq::<Seq<char>>::empty() + whole.0 == whole.0);
        while i < text.len()
            invariant
                i <= text@.len(),
                whole == lines_from(text@, seq![]),
                ({
                    let (more, rest) = lines_from(text@.skip(i as int), line@);
                    whole == (done + more, rest)
                }),
                stamps.len() == done.len(),
                state@ == apply_all(s0, done, stamps),
            decreases text@.len() - i,
        {
            let c = text[i];
            proof {
                lemma_lines_step(text@.skip(i as int), line@);
                assert(text@.skip(i as int)[0] == c);
                assert(text@.skip(i as int).drop_first() == text@.skip(i + 1));
            }
            if c == '\n' {
                let record = trim_cr_chars(&line);
                let ghost before = state@;
                apply_record(record.as_str(), state);
                proof {
                    let t = choose|t: i64| state@ == #[trigger] apply_view(before, record@, t);
                    let (more, rest) = lines_from(text@.skip(i + 1), seq![]);
                    assert(done + (seq![trim_cr(line@)] + more) == done.push(trim_cr(line@)) + more);
                    let nd = done.push(trim_cr(line@));
                    let ns = stamps.push(t);
                    assert(nd.drop_last() == done);
                    assert(ns.drop_last() == stamps);
                    assert(apply_all(s0, nd, ns) == apply_view(apply_all(s0, done, stamps), record@, t));
                    done = nd;
                    stamps = ns;
                }
                line = Vec::new();
            } else {
                line.push(c);
            }
            i += 1;
        }
        proof {
            assert(text@.skip(i as int).len() == 0);
            assert(done + Seq::<Seq<char>>::empty() == done);
        }
        let kept = string_of(line.as_slice());
        if kept.as_str().as_bytes().len() > MAX_PENDING {
            self.pending = Vec::new();
        } else {
            self.pending = line;
        }
        proof {
            let (lines, rest) = whole;
            assert(lines == done);
            assert(rest == line@);
            assert(apply_all(s0, lines, stamps) == state@);
            assert(self@.offset == (t0.offset + chunk@.len()) as u64);
            assert(self@.carry == chunk_carry(t0, chunk@));
            assert(self@.pending == if vstd::utf8::encode_utf8(rest).len() > MAX_PENDING { seq![] } else { rest });
            assert(fed_lines(t0, chunk@) == done);
            assert(stamps.len() == fed_lines(t0, chunk@).len() && state@ == apply_all(s0, fed_lines(t0, chunk@), stamps));
        }
    }
}


/// Once a session has started, no record moves its start; the first
/// record starts it.
pub proof fn lemma_session_start_kept(s: GameStateView, message: Seq<char>, stamp: i64)
    ensures
        step(s, message, stamp).session_start == if s.session_start is Some { s.session_start } else { Some(stamp) },
{
}

/// The time a phase began moves only with the phase, to the record's time.
pub proof fn lemma_phase_since_moves_with_phase(s: GameStateView, message: Seq<char>, stamp: i64)
    ensures
        step(s, message, stamp).phase == s.phase ==> step(s, message, stamp).phase_since == s.phase_since,
        step(s, message, stamp).phase != s.phase ==> step(s, message, stamp).phase_since == Some(stamp),
{
}

/// A record without a `Log` message tells nothing.
pub proof fn lemma_silent_record(s: GameStateView, record: Seq<char>, stamp: i64)
    requires
        extract_view(record, "Log"@) is None,
    ensures
        apply_view(s, record, stamp) == s,
{
}

/// A host of one or two labels is its own key.
pub proof fn lemma_short_host_key(host: Seq<char>)
    requires
        forall|i: int, j: int| 0 <= i < j < host.len() ==> !(host[i] == '.' && host[j] == '.'),
    ensures
        server_key_of(host) == host,
{
    if let Some(j) = last_dot(host) {
        let jj = choose|i: int| is_last_dot(host, i);
        assert(is_last_dot(host, jj));
        if let Some(k) = last_dot(host.take(j)) {
            let kk = choose|i: int| is_last_dot(host.take(j), i);
            assert(is_last_dot(host.take(j), kk));
            assert(host[kk] == '.' && host[jj] == '.');
        }
    }
}

} // verus!
