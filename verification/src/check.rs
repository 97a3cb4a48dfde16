//! What the settings refuse, field by field. Each check says what is wrong
//! with a value, or nothing; the words a problem is shown in are the
//! program's to choose.
use vstd::prelude::*;
use vstd::string::StringSliceAdditionalSpecFns;
use crate::m3::{hex_of, parse_hex};
use crate::presence::{is_placeholder, is_placeholder_name, lemma_find_char_bounds, BUTTON_LABEL_MAX, BUTTON_URL_MAX};
use crate::text::{
    all_digits, chars_of, contains, eq_ignore_case, find_char, find_char_from, is_blank, is_digit,
    is_last_of, is_space, last_index, last_index_of, lemma_first_exists, lemma_trim_padded,
    lower_ascii, occurs_at, starts_with, string_of_range, text_contains, text_starts_with, trim,
    trimmed,
};

verus! {

/// What is wrong with a value.
pub enum Problem {
    /// Not a colour of six hex digits.
    Accent,
    /// No Discord application ID.
    AppIdNeeded,
    /// An application ID with more than digits.
    AppIdDigits,
    /// No folder there.
    NoFolder,
    /// The folder lacks what marks it as the right one.
    NoMarker(String),
    /// A web address that is neither http nor https.
    Https,
    /// An image address that is not https.
    ImageHttps,
    /// An image address that is no PNG, JPEG, WebP or GIF.
    ImageType,
    /// A `}` that closes nothing, with the text from it.
    ClosesNothing(String),
    /// A `{` that nothing closes, with the text from it.
    MissingClose(String),
    /// A `{name}` that is no placeholder.
    NoPlaceholder(String),
    /// Longer than the most it may be.
    AtMost(usize),
    /// A blank name.
    Blank,
    /// A blank character ID.
    IdBlank,
    /// A character ID with more than digits.
    IdDigits,
}

pub enum ProblemView {
    Accent,
    AppIdNeeded,
    AppIdDigits,
    NoFolder,
    NoMarker(Seq<char>),
    Https,
    ImageHttps,
    ImageType,
    ClosesNothing(Seq<char>),
    MissingClose(Seq<char>),
    NoPlaceholder(Seq<char>),
    AtMost(nat),
    Blank,
    IdBlank,
    IdDigits,
}

impl View for Problem {
    type V = ProblemView;

    open spec fn view(&self) -> ProblemView {
        match self {
            Problem::Accent => ProblemView::Accent,
            Problem::AppIdNeeded => ProblemView::AppIdNeeded,
            Problem::AppIdDigits => ProblemView::AppIdDigits,
            Problem::NoFolder => ProblemView::NoFolder,
            Problem::NoMarker(m) => ProblemView::NoMarker(m@),
            Problem::Https => ProblemView::Https,
            Problem::ImageHttps => ProblemView::ImageHttps,
            Problem::ImageType => ProblemView::ImageType,
            Problem::ClosesNothing(t) => ProblemView::ClosesNothing(t@),
            Problem::MissingClose(t) => ProblemView::MissingClose(t@),
            Problem::NoPlaceholder(n) => ProblemView::NoPlaceholder(n@),
            Problem::AtMost(n) => ProblemView::AtMost(*n as nat),
            Problem::Blank => ProblemView::Blank,
            Problem::IdBlank => ProblemView::IdBlank,
            Problem::IdDigits => ProblemView::IdDigits,
        }
    }
}

pub open spec fn opt_problem(p: Option<Problem>) -> Option<ProblemView> {
    match p {
        Some(x) => Some(x@),
        None => None,
    }
}

fn all_ascii_digits(s: &str) -> (r: bool)
    ensures
        r == all_digits(s@),
{
    let v = chars_of(s);
    let mut i: usize = 0;
    while i < v.len()
        invariant
            i <= v@.len(),
            v@ == s@,
            forall|j: int| 0 <= j < i ==> is_digit(#[trigger] v@[j]),
        decreases v@.len() - i,
    {
        if !('0' <= v[i] && v[i] <= '9') {
            assert(!is_digit(s@[i as int]));
            return false;
        }
        i += 1;
    }
    true
}

/// An accent colour must be six hex digits.
pub fn accent(value: &str) -> (r: Option<Problem>)
    ensures
        opt_problem(r) == if hex_of(value@) is None { Some(ProblemView::Accent) } else { None },
{
    if parse_hex(value).is_none() {
        Some(Problem::Accent)
    } else {
        None
    }
}

/// A Discord application ID: given, and digits only, once trimmed.
pub open spec fn app_id_problem(value: Seq<char>) -> Option<ProblemView> {
    let v = trim(value);
    if v.len() == 0 {
        Some(ProblemView::AppIdNeeded)
    } else if !all_digits(v) {
        Some(ProblemView::AppIdDigits)
    } else {
        None
    }
}

pub fn app_id(value: &str) -> (r: Option<Problem>)
    ensures
        opt_problem(r) == app_id_problem(value@),
{
    let v = trimmed(value);
    if v.as_str().is_empty() {
        return Some(Problem::AppIdNeeded);
    }
    if !all_ascii_digits(v.as_str()) {
        Some(Problem::AppIdDigits)
    } else {
        None
    }
}

/// A folder setting: blank is fine; else it must be a folder holding its
/// marker. Whether it is, the file system tells: `is_dir` and `has_marker`.
pub open spec fn folder_problem(value: Seq<char>, marker: Seq<char>, is_dir: bool, has_marker: bool) -> Option<ProblemView> {
    if trim(value).len() == 0 {
        None
    } else if !is_dir {
        Some(ProblemView::NoFolder)
    } else if !has_marker {
        Some(ProblemView::NoMarker(marker))
    } else {
        None
    }
}

fn folder(value: &str, marker: &str, is_dir: bool, has_marker: bool) -> (r: Option<Problem>)
    ensures
        opt_problem(r) == folder_problem(value@, marker@, is_dir, has_marker),
{
    let v = trimmed(value);
    if v.as_str().is_empty() {
        None
    } else if !is_dir {
        Some(Problem::NoFolder)
    } else if !has_marker {
        Some(Problem::NoMarker(String::from_str(marker)))
    } else {
        None
    }
}

/// The game folder holds `bin64`.
pub fn game_folder(value: &str, is_dir: bool, has_marker: bool) -> (r: Option<Problem>)
    ensures
        opt_problem(r) == folder_problem(value@, "bin64"@, is_dir, has_marker),
{
    folder(value, "bin64", is_dir, has_marker)
}

/// The user data folder holds `GameOption.txt`.
pub fn user_data(value: &str, is_dir: bool, has_marker: bool) -> (r: Option<Problem>)
    ensures
        opt_problem(r) == folder_problem(value@, "GameOption.txt"@, is_dir, has_marker),
{
    folder(value, "GameOption.txt", is_dir, has_marker)
}

/// A web address, trimmed: blank, or http or https.
pub open spec fn url_problem(value: Seq<char>) -> Option<ProblemView> {
    let v = trim(value);
    if v.len() > 0 && !starts_with(v, "http://"@) && !starts_with(v, "https://"@) {
        Some(ProblemView::Https)
    } else {
        None
    }
}

pub fn url(value: &str) -> (r: Option<Problem>)
    ensures
        opt_problem(r) == url_problem(value@),
{
    let v = trimmed(value);
    if !v.as_str().is_empty() && !text_starts_with(v.as_str(), "http://") && !text_starts_with(
        v.as_str(),
        "https://",
    ) {
        Some(Problem::Https)
    } else {
        None
    }
}

/// What comes before the first `?` or `#`.
pub open spec fn before_query(s: Seq<char>) -> Seq<char> {
    if exists|i: int| 0 <= i < s.len() && (s[i] == '?' || s[i] == '#') {
        s.take(choose|i: int| 0 <= i < s.len() && (s[i] == '?' || s[i] == '#') && forall|j: int| 0 <= j < i ==> !(s[j] == '?' || s[j] == '#'))
    } else {
        s
    }
}

pub open spec fn lower_all(s: Seq<char>) -> Seq<char> {
    Seq::new(s.len(), |i: int| lower_ascii(s[i]))
}

/// Whether an extension, lowered, is an image type Discord shows.
pub open spec fn image_extension(ext: Seq<char>) -> bool {
    ext == "png"@ || ext == "jpg"@ || ext == "jpeg"@ || ext == "webp"@ || ext == "gif"@
}

/// An image setting, trimmed: a key of an uploaded asset (no `://`), or an
/// https address of a PNG, JPEG, WebP or GIF, the type read from what
/// follows the last `.` before any query.
pub open spec fn image_problem(value: Seq<char>) -> Option<ProblemView> {
    let v = trim(value);
    if !contains(v, "://"@) {
        None
    } else if !starts_with(v, "https://"@) {
        Some(ProblemView::ImageHttps)
    } else {
        let path = before_query(v);
        match last_index(path, '.') {
            Some(k) => if image_extension(lower_all(path.skip(k + 1))) {
                None
            } else {
                Some(ProblemView::ImageType)
            },
            None => Some(ProblemView::ImageType),
        }
    }
}

/// Whether a text is, ASCII case aside, the extension of a PNG, JPEG, WebP
/// or GIF image.
pub open spec fn names_image_type(ext: Seq<char>) -> bool {
    ||| eq_ignore_case(ext, "png"@)
    ||| eq_ignore_case(ext, "jpg"@)
    ||| eq_ignore_case(ext, "jpeg"@)
    ||| eq_ignore_case(ext, "webp"@)
    ||| eq_ignore_case(ext, "gif"@)
}

proof fn lemma_image_type_letters(ext: Seq<char>)
    requires
        names_image_type(ext),
    ensures
        ext.len() > 0,
        forall|i: int| 0 <= i < ext.len() ==> ('a' <= #[trigger] ext[i] <= 'z' || 'A' <= ext[i] <= 'Z'),
        lower_all(ext) == "png"@ || lower_all(ext) == "jpg"@ || lower_all(ext) == "jpeg"@
            || lower_all(ext) == "webp"@ || lower_all(ext) == "gif"@,
{
    reveal_strlit("png");
    reveal_strlit("jpg");
    reveal_strlit("jpeg");
    reveal_strlit("webp");
    reveal_strlit("gif");
    let lit = if eq_ignore_case(ext, "png"@) {
        "png"@
    } else if eq_ignore_case(ext, "jpg"@) {
        "jpg"@
    } else if eq_ignore_case(ext, "jpeg"@) {
        "jpeg"@
    } else if eq_ignore_case(ext, "webp"@) {
        "webp"@
    } else {
        "gif"@
    };
    assert(eq_ignore_case(ext, lit));
    assert forall|i: int| 0 <= i < ext.len() implies ('a' <= #[trigger] ext[i] <= 'z' || 'A' <= ext[i] <= 'Z') && lower_ascii(ext[i]) == lit[i] by {
        assert(lower_ascii(ext[i]) == lower_ascii(lit[i]));
        assert('a' <= lit[i] <= 'z');
    }
    assert(lower_all(ext) =~= lit);
}

/// An https address whose path ends in the extension of a PNG, JPEG, WebP or
/// GIF image, in any ASCII case and whatever query or fragment follows, is
/// an image setting without a problem.
pub proof fn lemma_image_types_accepted(rest: Seq<char>, ext: Seq<char>, tail: Seq<char>)
    requires
        names_image_type(ext),
        forall|i: int| 0 <= i < rest.len() ==> #[trigger] rest[i] != '?' && rest[i] != '#',
        tail.len() > 0 ==> (tail[0] == '?' || tail[0] == '#') && !is_space(tail.last()),
    ensures
        image_problem("https://"@ + rest + seq!['.'] + ext + tail) is None,
{
    reveal_strlit("https://");
    reveal_strlit("://");
    lemma_image_type_letters(ext);
    let scheme = "https://"@;
    let path = scheme + rest + seq!['.'] + ext;
    let v = path + tail;
    let k: int = 8 + rest.len() as int;
    assert(path.len() == k + 1 + ext.len());
    assert forall|j: int| 0 <= j < path.len() implies !(#[trigger] path[j] == '?' || path[j] == '#') by {
        if j < 8 {
            assert(path[j] == scheme[j]);
        } else if j < k {
            assert(path[j] == rest[j - 8]);
        } else if j > k {
            assert(path[j] == ext[j - k - 1]);
        }
    }
    // No whitespace at either end.
    assert(!is_space(v[0])) by {
        assert(v[0] == 'h');
    }
    assert(!is_space(v.last())) by {
        if tail.len() == 0 {
            assert(v.last() == ext.last());
        } else {
            assert(v.last() == tail.last());
        }
    }
    let none = Seq::<char>::empty();
    assert(none + v + none =~= v);
    lemma_trim_padded(none, v, none);
    assert(trim(v) == v);
    // It holds `://` and starts with `https://`.
    assert(occurs_at(v, "://"@, 5)) by {
        assert(v.subrange(5, 8) =~= "://"@);
    }
    lemma_first_exists(v, "://"@, 5);
    assert(contains(v, "://"@));
    assert(v.take(8) =~= scheme);
    assert(starts_with(v, scheme));
    // The path is what comes before the query.
    assert(before_query(v) == path) by {
        if tail.len() > 0 {
            let q = path.len() as int;
            assert(v[q] == tail[0]);
            assert(0 <= q < v.len() && (v[q] == '?' || v[q] == '#'));
            let i = choose|i: int| 0 <= i < v.len() && (v[i] == '?' || v[i] == '#') && forall|j: int| 0 <= j < i ==> !(v[j] == '?' || v[j] == '#');
            if i < q {
                assert(v[i] == path[i]);
            } else if i > q {
                assert(!(v[q] == '?' || v[q] == '#'));
            }
            assert(v.take(q) =~= path);
        } else {
            assert(v =~= path);
            assert forall|i: int| 0 <= i < v.len() implies !(v[i] == '?' || v[i] == '#') by {
                assert(v[i] == path[i]);
            }
        }
    }
    // Its last `.` is the one before the extension.
    assert(is_last_of(path, '.', k)) by {
        assert forall|j: int| k < j < path.len() implies path[j] != '.' by {
            assert(path[j] == ext[j - k - 1]);
        }
    }
    let l = choose|i: int| is_last_of(path, '.', i);
    assert(l == k) by {
        if l < k {
            assert(path[k] != '.');
        } else if l > k {
            assert(path[l] != '.');
        }
    }
    assert(last_index(path, '.') == Some(k));
    assert(path.skip(k + 1) =~= ext);
}

fn lowered(v: &Vec<char>, from: usize) -> (r: Vec<char>)
    requires
        from <= v@.len(),
    ensures
        r@ == lower_all(v@.skip(from as int)),
{
    let mut out: Vec<char> = Vec::new();
    let mut i = from;
    while i < v.len()
        invariant
            from <= i <= v@.len(),
            out@ == lower_all(v@.skip(from as int)).take(i - from),
        decreases v@.len() - i,
    {
        let c = v[i];
        let l = if 'A' <= c && c <= 'Z' { ((c as u8) + 32) as char } else { c };
        assert(l == lower_ascii(c)) by {
            if 'A' <= c && c <= 'Z' {
                assert(((c as u8) + 32) as char == ((c as u32) + 32) as char);
            }
        }
        out.push(l);
        assert(lower_all(v@.skip(from as int)).take(i + 1 - from) == lower_all(v@.skip(from as int)).take(i - from).push(l));
        i += 1;
    }
    assert(lower_all(v@.skip(from as int)).take(v@.len() - from) == lower_all(v@.skip(from as int)));
    out
}

pub fn image(value: &str) -> (r: Option<Problem>)
    ensures
        opt_problem(r) == image_problem(value@),
{
    let v = trimmed(value);
    if !text_contains(v.as_str(), "://") {
        return None;
    }
    if !text_starts_with(v.as_str(), "https://") {
        return Some(Problem::ImageHttps);
    }
    let chars = chars_of(v.as_str());
    let mut end: usize = 0;
    while end < chars.len() && chars[end] != '?' && chars[end] != '#'
        invariant
            end <= chars@.len(),
            forall|j: int| 0 <= j < end ==> !(chars@[j] == '?' || chars@[j] == '#'),
        decreases chars@.len() - end,
    {
        end += 1;
    }
    let ghost path = chars@.take(end as int);
    proof {
        if end < chars@.len() {
            let k = choose|i: int| 0 <= i < chars@.len() && (chars@[i] == '?' || chars@[i] == '#') && forall|j: int| 0 <= j < i ==> !(chars@[j] == '?' || chars@[j] == '#');
            assert(0 <= (end as int) < chars@.len() && (chars@[end as int] == '?' || chars@[end as int] == '#'));
            if k < end {
                assert(!(chars@[k] == '?' || chars@[k] == '#'));
            } else if k > end {
                assert(!(chars@[end as int] == '?' || chars@[end as int] == '#'));
            }
            assert(before_query(chars@) == path);
        } else {
            assert(chars@.take(end as int) == chars@);
            assert(before_query(chars@) == path);
        }
    }
    let head: Vec<char> = chars_of(string_of_range(chars.as_slice(), 0, end).as_str());
    assert(head@ == path);
    match last_index_of(head.as_slice(), '.') {
        Some(k) => {
            let ext = lowered(&head, k + 1);
            let e = crate::text::string_of(ext.as_slice());
            let known = crate::keymap::text_eq(e.as_str(), "png") || crate::keymap::text_eq(e.as_str(), "jpg")
                || crate::keymap::text_eq(e.as_str(), "jpeg") || crate::keymap::text_eq(e.as_str(), "webp")
                || crate::keymap::text_eq(e.as_str(), "gif");
            if known {
                None
            } else {
                Some(Problem::ImageType)
            }
        },
        None => Some(Problem::ImageType),
    }
}

/// At most the first 24 characters of a text, to show where a problem is.
pub open spec fn snippet(s: Seq<char>) -> Seq<char> {
    if s.len() <= 24 {
        s
    } else {
        s.take(24)
    }
}

/// A template's first problem: a `}` that closes nothing, a `{` that nothing
/// closes, or a `{name}` that is no placeholder, read from the start.
pub open spec fn template_problem(rest: Seq<char>) -> Option<ProblemView>
    decreases rest.len(),
{
    match find_char(rest, '{') {
        None => match find_char(rest, '}') {
            Some(at) => Some(ProblemView::ClosesNothing(snippet(rest.skip(at)))),
            None => None,
        },
        Some(open) => match find_char(rest.take(open), '}') {
            Some(at) => Some(ProblemView::ClosesNothing(snippet(rest.take(open).skip(at)))),
            None => {
                let after = rest.skip(open);
                match find_char(after, '}') {
                    None => Some(ProblemView::MissingClose(snippet(after))),
                    Some(close) => if 1 <= close && close < after.len() && 0 <= open < rest.len() {
                        let name = after.subrange(1, close);
                        if !is_placeholder_name(name) {
                            Some(ProblemView::NoPlaceholder(name))
                        } else {
                            template_problem(after.skip(close + 1))
                        }
                    } else {
                        None
                    },
                }
            },
        },
    }
}

fn snippet_of(v: &Vec<char>, from: usize, to: usize) -> (r: String)
    requires
        from <= to <= v@.len(),
    ensures
        r@ == snippet(v@.subrange(from as int, to as int)),
{
    if to - from <= 24 {
        string_of_range(v.as_slice(), from, to)
    } else {
        assert(v@.subrange(from as int, to as int).take(24) == v@.subrange(from as int, from + 24));
        string_of_range(v.as_slice(), from, from + 24)
    }
}

/// A template's first problem.
pub fn template(value: &str) -> (r: Option<Problem>)
    ensures
        opt_problem(r) == template_problem(value@),
{
    let v = chars_of(value);
    let mut i: usize = 0;
    assert(v@.skip(0) == v@);
    loop
        invariant
            i <= v@.len(),
            v@ == value@,
            template_problem(value@) == template_problem(v@.skip(i as int)),
        decreases v@.len() - i,
    {
        let ghost rest = v@.skip(i as int);
        assert(v@.subrange(i as int, v@.len() as int) == rest);
        let open = find_char_from(v.as_slice(), i, '{');
        let head_end = match open {
            Some(o) => o,
            None => v.len(),
        };
        let close_in_head = find_char_from(v.as_slice(), i, '}');
        proof {
            lemma_find_char_bounds(rest, '{');
            lemma_find_char_bounds(rest, '}');
        }
        match close_in_head {
            Some(at) => {
                if at < head_end {
                    proof {
                        crate::text::lemma_find_char_in_prefix(rest, (head_end - i) as int, '}');
                        assert(rest.take(head_end - i).skip(at - i) == v@.subrange(at as int, head_end as int));
                        assert(rest.skip(at - i) == v@.subrange(at as int, v@.len() as int));
                    }
                    return Some(Problem::ClosesNothing(snippet_of(&v, at, head_end)));
                }
            },
            None => {},
        }
        proof {
            crate::text::lemma_find_char_past_prefix(rest, (head_end - i) as int, '}');
            if open is None {
                assert(rest.take(head_end - i) == rest);
            }
        }
        let o = match open {
            Some(o) => o,
            None => return None,
        };
        let close = match find_char_from(v.as_slice(), o, '}') {
            Some(c) => c,
            None => {
                proof {
                    assert(v@.subrange(o as int, v@.len() as int) == rest.skip(o - i));
                }
                return Some(Problem::MissingClose(snippet_of(&v, o, v.len())));
            },
        };
        proof {
            let after = rest.skip(o - i);
            assert(v@.subrange(o as int, v@.len() as int) == after);
            assert(after[0] == '{');
            lemma_find_char_bounds(after, '}');
        }
        let name = string_of_range(v.as_slice(), o + 1, close);
        proof {
            assert(rest.skip(o - i).subrange(1, close - o) == v@.subrange(o + 1, close as int));
            assert(rest.skip(o - i).skip(close - o + 1) == v@.skip(close + 1));
        }
        if !is_placeholder(name.as_str()) {
            return Some(Problem::NoPlaceholder(name));
        }
        let n = v.len();
        assert(close < n);
        i = close + 1;
    }
}

/// A button's label: at most 32 characters once trimmed, unless it holds
/// placeholders, whose values are not known yet.
pub open spec fn button_label_problem(value: Seq<char>) -> Option<ProblemView> {
    if !contains(value, seq!['{']) && trim(value).len() > BUTTON_LABEL_MAX {
        Some(ProblemView::AtMost(BUTTON_LABEL_MAX as nat))
    } else {
        None
    }
}

pub fn button_label(value: &str) -> (r: Option<Problem>)
    ensures
        opt_problem(r) == button_label_problem(value@),
{
    let has_open = text_contains(value, "{");
    proof { reveal_strlit("{"); assert("{"@ =~= seq!['{']); }
    let n = chars_of(trimmed(value).as_str()).len();
    if !has_open && n > BUTTON_LABEL_MAX {
        Some(Problem::AtMost(BUTTON_LABEL_MAX))
    } else {
        None
    }
}

/// A button's address, trimmed: blank or holding placeholders is fine;
/// else at most 512 bytes, and http or https.
pub open spec fn button_url_problem(value: Seq<char>) -> Option<ProblemView> {
    let v = trim(value);
    if v.len() == 0 || contains(v, seq!['{']) {
        None
    } else if vstd::utf8::encode_utf8(v).len() > BUTTON_URL_MAX {
        Some(ProblemView::AtMost(BUTTON_URL_MAX as nat))
    } else {
        url_problem(v)
    }
}

pub fn button_url(value: &str) -> (r: Option<Problem>)
    ensures
        opt_problem(r) == button_url_problem(value@),
{
    let v = trimmed(value);
    proof { reveal_strlit("{"); assert("{"@ =~= seq!['{']); }
    if v.as_str().is_empty() || text_contains(v.as_str(), "{") {
        return None;
    }
    if v.as_str().as_bytes().len() > BUTTON_URL_MAX {
        return Some(Problem::AtMost(BUTTON_URL_MAX));
    }
    url(v.as_str())
}

/// A name the user gives must not be blank.
pub fn name(value: &str) -> (r: Option<Problem>)
    ensures
        opt_problem(r) == if is_blank(value@) { Some(ProblemView::Blank) } else { None },
{
    if crate::text::blank(value) {
        Some(Problem::Blank)
    } else {
        None
    }
}

/// A character ID, trimmed: given, and digits only.
pub open spec fn character_id_problem(key: Seq<char>) -> Option<ProblemView> {
    let k = trim(key);
    if k.len() == 0 {
        Some(ProblemView::IdBlank)
    } else if !all_digits(k) {
        Some(ProblemView::IdDigits)
    } else {
        None
    }
}

pub fn character_id(key: &str) -> (r: Option<Problem>)
    ensures
        opt_problem(r) == character_id_problem(key@),
{
    let k = trimmed(key);
    if k.as_str().is_empty() {
        return Some(Problem::IdBlank);
    }
    if !all_ascii_digits(k.as_str()) {
        Some(Problem::IdDigits)
    } else {
        None
    }
}

} // verus!
