//! The log's lines: each carries its level at a fixed place.
use vstd::prelude::*;
use vstd::string::StringSliceAdditionalSpecFns;
use vstd::utf8::{encode_utf8, is_ascii_chars};

use crate::text::push_text;

verus! {

/// How serious a log line is.
#[derive(Debug, Clone, Copy, PartialEq, Eq, Structural)]
pub enum Level {
    Info,
    Warn,
    Error,
}

/// Where a line's message starts, after its time and level.
pub const MESSAGE_AT: usize = 26;

pub open spec fn tag_of(level: Level) -> Seq<char> {
    match level {
        Level::Info => "INFO "@,
        Level::Warn => "WARN "@,
        Level::Error => "ERROR"@,
    }
}

/// The bytes of a level's tag.
pub open spec fn tag_bytes(level: Level) -> Seq<u8> {
    match level {
        Level::Info => seq![73u8, 78u8, 70u8, 79u8, 32u8],
        Level::Warn => seq![87u8, 65u8, 82u8, 78u8, 32u8],
        Level::Error => seq![69u8, 82u8, 82u8, 79u8, 82u8],
    }
}

/// The level a line of the log file carries: the tag in its bytes 20 to 25,
/// when those bytes are whole characters.
pub open spec fn level_of_line(line: Seq<u8>) -> Option<Level> {
    if line.len() >= 25 && vstd::utf8::is_char_boundary(line, 20) && vstd::utf8::is_char_boundary(line, 25) {
        let tag = line.subrange(20, 25);
        if tag == tag_bytes(Level::Info) {
            Some(Level::Info)
        } else if tag == tag_bytes(Level::Warn) {
            Some(Level::Warn)
        } else if tag == tag_bytes(Level::Error) {
            Some(Level::Error)
        } else {
            None
        }
    } else {
        None
    }
}

impl Level {
    /// The five characters a line shows its level by.
    pub fn tag(self) -> (r: &'static str)
        ensures
            r@ == tag_of(self),
    {
        match self {
            Level::Info => "INFO ",
            Level::Warn => "WARN ",
            Level::Error => "ERROR",
        }
    }

    /// The level a line of the log file carries.
    pub fn of(line: &str) -> (r: Option<Level>)
        ensures
            r == level_of_line(line.spec_bytes()),
    {
        let bytes = line.as_bytes();
        if bytes.len() < 25 || !line.is_char_boundary(20) || !line.is_char_boundary(25) {
            return None;
        }
        let tag: [u8; 5] = [bytes[20], bytes[21], bytes[22], bytes[23], bytes[24]];
        let ghost t = line.spec_bytes().subrange(20, 25);
        assert(t =~= seq![bytes@[20], bytes@[21], bytes@[22], bytes@[23], bytes@[24]]);
        if tag[0] == 73 && tag[1] == 78 && tag[2] == 70 && tag[3] == 79 && tag[4] == 32 {
            assert(t =~= tag_bytes(Level::Info));
            Some(Level::Info)
        } else if tag[0] == 87 && tag[1] == 65 && tag[2] == 82 && tag[3] == 78 && tag[4] == 32 {
            assert(t =~= tag_bytes(Level::Warn));
            Some(Level::Warn)
        } else if tag[0] == 69 && tag[1] == 82 && tag[2] == 82 && tag[3] == 79 && tag[4] == 82 {
            assert(t =~= tag_bytes(Level::Error));
            Some(Level::Error)
        } else {
            assert(t != tag_bytes(Level::Info) && t != tag_bytes(Level::Warn) && t != tag_bytes(Level::Error)) by {
                if t == tag_bytes(Level::Info) { assert(t[0] == 73 && t[1] == 78 && t[2] == 70 && t[3] == 79 && t[4] == 32); }
                if t == tag_bytes(Level::Warn) { assert(t[0] == 87 && t[1] == 65 && t[2] == 82 && t[3] == 78 && t[4] == 32); }
                if t == tag_bytes(Level::Error) { assert(t[0] == 69 && t[1] == 82 && t[2] == 82 && t[3] == 79 && t[4] == 82); }
            }
            None
        }
    }
}

/// A line of the log: its time stamp, then its level's tag, then its message,
/// each after a space.
pub open spec fn line_of(stamp: Seq<char>, level: Level, message: Seq<char>) -> Seq<char> {
    stamp + seq![' '] + tag_of(level) + seq![' '] + message
}

/// The line a log entry is written as.
pub fn log_line(stamp: &str, level: Level, message: &str) -> (r: String)
    ensures
        r@ == line_of(stamp@, level, message@),
{
    let mut r = String::from_str(stamp);
    push_text(&mut r, " ");
    push_text(&mut r, level.tag());
    push_text(&mut r, " ");
    push_text(&mut r, message);
    proof {
        reveal_strlit(" ");
    }
    assert(r@ =~= line_of(stamp@, level, message@));
    r
}

/// The encoding of two texts one after the other is their encodings one
/// after the other.
proof fn lemma_encode_concat(a: Seq<char>, b: Seq<char>)
    ensures
        encode_utf8(a + b) == encode_utf8(a) + encode_utf8(b),
    decreases a.len(),
{
    if a.len() == 0 {
        assert(a + b =~= b);
        assert(encode_utf8(a) + encode_utf8(b) =~= encode_utf8(b));
    } else {
        assert((a + b).drop_first() =~= a.drop_first() + b);
        lemma_encode_concat(a.drop_first(), b);
        assert(encode_utf8(a + b) =~= encode_utf8(a) + encode_utf8(b));
    }
}

/// A line `log_line` writes with a time stamp of nineteen ASCII characters,
/// as a `%Y-%m-%d %H:%M:%S` date is, reads back through `Level::of` as the
/// level it was written with, and its message starts at byte `MESSAGE_AT`.
pub proof fn lemma_written_level_reads_back(stamp: Seq<char>, level: Level, message: Seq<char>)
    requires
        stamp.len() == 19,
        is_ascii_chars(stamp),
    ensures
        level_of_line(encode_utf8(line_of(stamp, level, message))) == Some(level),
        encode_utf8(line_of(stamp, level, message)).subrange(MESSAGE_AT as int, encode_utf8(line_of(stamp, level, message)).len() as int)
            == encode_utf8(message),
{
    reveal_strlit("INFO ");
    reveal_strlit("WARN ");
    reveal_strlit("ERROR");
    let head = stamp + seq![' '] + tag_of(level) + seq![' '];
    assert(head.len() == 26);
    let all = line_of(stamp, level, message);
    assert(all =~= head + message);
    assert(is_ascii_chars(head)) by {
        assert forall|i| 0 <= i < head.len() implies '\0' <= #[trigger] head[i] <= '\u{7f}' by {
            if i < 19 {
                assert(head[i] == stamp[i]);
            } else if i == 19 || i == 25 {
                assert(head[i] == ' ');
            } else {
                assert(head[i] == tag_of(level)[i - 20]);
            }
        }
    }
    vstd::utf8::is_ascii_chars_encode_utf8(head);
    lemma_encode_concat(head, message);
    let bytes = encode_utf8(all);
    let hb = encode_utf8(head);
    assert(bytes == hb + encode_utf8(message));
    assert(hb.len() == 26);
    assert(bytes.subrange(20, 25) =~= tag_bytes(level)) by {
        assert forall|i: int| 20 <= i < 25 implies bytes[i] == #[trigger] tag_bytes(level)[i - 20] by {
            assert(bytes[i] == hb[i]);
            assert(head[i] as u8 == hb[i]);
        }
    }
    vstd::utf8::encode_utf8_valid_utf8(all);
    vstd::utf8::is_char_boundary_iff_not_is_continuation_byte(bytes, 20);
    vstd::utf8::is_char_boundary_iff_not_is_continuation_byte(bytes, 25);
    assert(bytes[20] == hb[20] && head[20] as u8 == hb[20]);
    assert(bytes[25] == hb[25] && head[25] as u8 == hb[25]);
    assert(bytes.subrange(26, bytes.len() as int) =~= encode_utf8(message));
}

} // verus!
