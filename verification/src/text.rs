//! Character-level text operations that the rest of the library is built on,
//! each stated over the `Seq<char>` view of a string.
use vstd::prelude::*;

verus! {

/// Unicode `White_Space`, the set that `char::is_whitespace` tests for.
pub open spec fn is_space(c: char) -> bool {
    ||| ('\u{9}' <= c && c <= '\u{d}')
    ||| c == ' '
    ||| c == '\u{85}'
    ||| c == '\u{a0}'
    ||| c == '\u{1680}'
    ||| ('\u{2000}' <= c && c <= '\u{200a}')
    ||| c == '\u{2028}'
    ||| c == '\u{2029}'
    ||| c == '\u{202f}'
    ||| c == '\u{205f}'
    ||| c == '\u{3000}'
}

pub open spec fn is_digit(c: char) -> bool {
    '0' <= c && c <= '9'
}

pub open spec fn all_digits(s: Seq<char>) -> bool {
    forall|i: int| 0 <= i < s.len() ==> is_digit(#[trigger] s[i])
}

/// `s` without its leading whitespace.
pub open spec fn trim_start(s: Seq<char>) -> Seq<char>
    decreases s.len(),
{
    if s.len() > 0 && is_space(s[0]) {
        trim_start(s.drop_first())
    } else {
        s
    }
}

/// `s` without its trailing whitespace.
pub open spec fn trim_end(s: Seq<char>) -> Seq<char>
    decreases s.len(),
{
    if s.len() > 0 && is_space(s.last()) {
        trim_end(s.drop_last())
    } else {
        s
    }
}

/// `s` without leading or trailing whitespace, as `str::trim` returns it.
pub open spec fn trim(s: Seq<char>) -> Seq<char> {
    trim_end(trim_start(s))
}

/// Whether `s` is empty or all whitespace.
pub open spec fn is_blank(s: Seq<char>) -> bool {
    forall|i: int| 0 <= i < s.len() ==> is_space(#[trigger] s[i])
}

/// The words of `s` joined by single spaces: `split_whitespace` then `join(" ")`.
/// A character that follows whitespace starts a new word.
pub open spec fn collapse(s: Seq<char>) -> Seq<char>
    decreases s.len(),
{
    if s.len() == 0 {
        seq![]
    } else {
        let before = collapse(s.drop_last());
        let c = s.last();
        if is_space(c) {
            before
        } else if s.len() >= 2 && !is_space(s[s.len() - 2]) {
            before.push(c)
        } else if before.len() == 0 {
            seq![c]
        } else {
            before.push(' ').push(c)
        }
    }
}

/// ASCII upper case letters lowered, everything else kept.
pub open spec fn lower_ascii(c: char) -> char {
    if 'A' <= c && c <= 'Z' {
        ((c as u32) + 32) as char
    } else {
        c
    }
}

/// `eq_ignore_ascii_case`.
pub open spec fn eq_ignore_case(a: Seq<char>, b: Seq<char>) -> bool {
    &&& a.len() == b.len()
    &&& forall|i: int| 0 <= i < a.len() ==> lower_ascii(#[trigger] a[i]) == lower_ascii(b[i])
}

/// Whether `pat` occurs in `s` at position `i`.
pub open spec fn occurs_at(s: Seq<char>, pat: Seq<char>, i: int) -> bool {
    0 <= i && i + pat.len() <= s.len() && s.subrange(i, i + pat.len()) == pat
}

/// Whether `i` is the first position at which `pat` occurs in `s`.
pub open spec fn first_at(s: Seq<char>, pat: Seq<char>, i: int) -> bool {
    occurs_at(s, pat, i) && forall|j: int| 0 <= j < i ==> !#[trigger] occurs_at(s, pat, j)
}

/// The first position of `pat` in `s`, as `str::find` gives it, counted in characters.
pub open spec fn find(s: Seq<char>, pat: Seq<char>) -> Option<int> {
    if exists|i: int| first_at(s, pat, i) {
        Some(choose|i: int| first_at(s, pat, i))
    } else {
        None
    }
}

/// The first position of `c` in `s`.
pub open spec fn find_char(s: Seq<char>, c: char) -> Option<int> {
    find(s, seq![c])
}

pub open spec fn contains(s: Seq<char>, pat: Seq<char>) -> bool {
    find(s, pat) is Some
}

pub open spec fn starts_with(s: Seq<char>, pat: Seq<char>) -> bool {
    pat.len() <= s.len() && s.take(pat.len() as int) == pat
}

pub open spec fn ends_with(s: Seq<char>, pat: Seq<char>) -> bool {
    pat.len() <= s.len() && s.skip(s.len() - pat.len()) == pat
}

pub proof fn lemma_first_at_unique(s: Seq<char>, pat: Seq<char>, i: int, j: int)
    requires
        first_at(s, pat, i),
        first_at(s, pat, j),
    ensures
        i == j,
{
    if i < j {
        assert(!occurs_at(s, pat, i));
    } else if j < i {
        assert(!occurs_at(s, pat, j));
    }
}

pub proof fn lemma_find_is(s: Seq<char>, pat: Seq<char>, i: int)
    requires
        first_at(s, pat, i),
    ensures
        find(s, pat) == Some(i),
{
    let k = choose|k: int| first_at(s, pat, k);
    lemma_first_at_unique(s, pat, i, k);
}

pub proof fn lemma_find_none(s: Seq<char>, pat: Seq<char>)
    requires
        forall|j: int| 0 <= j ==> !#[trigger] occurs_at(s, pat, j),
    ensures
        find(s, pat) is None,
{
}

/// Appends one character. `String::push`.
#[verifier::external_body]
pub(crate) fn push_char(s: &mut String, c: char)
    ensures
        final(s)@ == old(s)@.push(c),
{
    s.push(c);
}

/// Appends a string. `String::push_str`.
#[verifier::external_body]
pub(crate) fn push_text(s: &mut String, t: &str)
    ensures
        final(s)@ == old(s)@ + t@,
{
    s.push_str(t);
}

/// `a` followed by `b`.
pub fn concat(a: &str, b: &str) -> (r: String)
    ensures
        r@ == a@ + b@,
{
    let mut r = String::from_str(a);
    push_text(&mut r, b);
    r
}

/// The characters of a string, in order.
pub fn chars_of(s: &str) -> (v: Vec<char>)
    ensures
        v@ == s@,
{
    let mut v: Vec<char> = Vec::new();
    for c in it: s.chars()
        invariant
            v@ == it.seq().take(it.index()),
    {
        v.push(c);
    }
    v
}

/// A string of the characters `v[from..to]`.
pub fn string_of_range(v: &[char], from: usize, to: usize) -> (s: String)
    requires
        from <= to <= v@.len(),
    ensures
        s@ == v@.subrange(from as int, to as int),
{
    let mut s = String::new();
    let mut i = from;
    while i < to
        invariant
            from <= i <= to <= v@.len(),
            s@ == v@.subrange(from as int, i as int),
        decreases to - i,
    {
        push_char(&mut s, v[i]);
        assert(v@.subrange(from as int, i + 1) == v@.subrange(from as int, i as int).push(v@[i as int]));
        i += 1;
    }
    s
}

/// A string of the characters of `v`.
pub fn string_of(v: &[char]) -> (s: String)
    ensures
        s@ == v@,
{
    let s = string_of_range(v, 0, v.len());
    assert(v@.subrange(0, v@.len() as int) == v@);
    s
}

/// `char::is_whitespace`.
pub fn char_is_space(c: char) -> (r: bool)
    ensures
        r == is_space(c),
{
    ('\u{9}' <= c && c <= '\u{d}') || c == ' ' || c == '\u{85}' || c == '\u{a0}' || c
        == '\u{1680}' || ('\u{2000}' <= c && c <= '\u{200a}') || c == '\u{2028}' || c
        == '\u{2029}' || c == '\u{202f}' || c == '\u{205f}' || c == '\u{3000}'
}

pub proof fn lemma_trim_start_skip(s: Seq<char>, i: int)
    requires
        0 <= i < s.len(),
        is_space(s[i]),
    ensures
        trim_start(s.subrange(i, s.len() as int)) == trim_start(s.subrange(i + 1, s.len() as int)),
{
    let t = s.subrange(i, s.len() as int);
    assert(t.drop_first() == s.subrange(i + 1, s.len() as int));
}

pub proof fn lemma_trim_end_drop(s: Seq<char>, j: int)
    requires
        0 < j <= s.len(),
        is_space(s[j - 1]),
    ensures
        trim_end(s.take(j)) == trim_end(s.take(j - 1)),
{
    assert(s.take(j).drop_last() == s.take(j - 1));
}

/// Where the text of `v` starts and ends once leading and trailing
/// whitespace is cut off.
pub fn trim_bounds(v: &[char]) -> (r: (usize, usize))
    ensures
        r.0 <= r.1 <= v@.len(),
        v@.subrange(r.0 as int, r.1 as int) == trim(v@),
{
    let n = v.len();
    let mut i: usize = 0;
    assert(v@.subrange(0, n as int) == v@);
    while i < n && char_is_space(v[i])
        invariant
            0 <= i <= n == v@.len(),
            trim_start(v@) == trim_start(v@.subrange(i as int, n as int)),
        decreases n - i,
    {
        proof { lemma_trim_start_skip(v@, i as int); }
        i += 1;
    }
    let ghost t = v@.subrange(i as int, n as int);
    assert(trim_start(v@) == t) by {
        if i < n {
            assert(t[0] == v@[i as int]);
        }
    }
    let mut j: usize = n;
    assert(t.take(t.len() as int) == t);
    while j > i && char_is_space(v[j - 1])
        invariant
            i <= j <= n == v@.len(),
            t == v@.subrange(i as int, n as int),
            trim_end(t) == trim_end(t.take(j - i)),
        decreases j,
    {
        proof {
            assert(t[j - 1 - i] == v@[j - 1]);
            lemma_trim_end_drop(t, (j - i) as int);
        }
        j -= 1;
    }
    assert(t.take(j - i) == v@.subrange(i as int, j as int));
    proof {
        if j > i {
            assert(t.take(j - i).last() == v@[j - 1]);
        }
    }
    (i, j)
}

/// `str::trim`, as an owned string.
pub fn trimmed(s: &str) -> (r: String)
    ensures
        r@ == trim(s@),
{
    let v = chars_of(s);
    let (a, b) = trim_bounds(v.as_slice());
    string_of_range(v.as_slice(), a, b)
}

/// Whether a string is empty or all whitespace: `s.trim().is_empty()`.
pub fn blank(s: &str) -> (r: bool)
    ensures
        r == (trim(s@).len() == 0),
        r == is_blank(s@),
{
    let v = chars_of(s);
    let (a, b) = trim_bounds(v.as_slice());
    proof { lemma_blank_iff_trim_empty(s@); }
    a == b
}

pub proof fn lemma_trim_start_blank(s: Seq<char>)
    ensures
        (trim_start(s).len() == 0) == is_blank(s),
        trim_start(s).len() > 0 ==> !is_space(trim_start(s)[0]),
        trim_start(s).len() <= s.len(),
        s.len() > 0 && !is_space(s[0]) ==> trim_start(s) == s,
    decreases s.len(),
{
    if s.len() > 0 && is_space(s[0]) {
        lemma_trim_start_blank(s.drop_first());
        if is_blank(s.drop_first()) {
            assert forall|i: int| 0 <= i < s.len() implies is_space(#[trigger] s[i]) by {
                if i > 0 {
                    assert(s[i] == s.drop_first()[i - 1]);
                }
            }
        }
        if is_blank(s) {
            assert forall|i: int| 0 <= i < s.drop_first().len() implies is_space(
                #[trigger] s.drop_first()[i],
            ) by {
                assert(s.drop_first()[i] == s[i + 1]);
            }
        }
    } else if s.len() > 0 {
        assert(!is_blank(s));
    }
}

pub proof fn lemma_trim_end_len(s: Seq<char>)
    ensures
        trim_end(s).len() <= s.len(),
        trim_end(s).len() == 0 ==> is_blank(s),
        s.len() == 0 ==> trim_end(s).len() == 0,
    decreases s.len(),
{
    if s.len() > 0 && is_space(s.last()) {
        lemma_trim_end_len(s.drop_last());
        if trim_end(s).len() == 0 {
            assert forall|i: int| 0 <= i < s.len() implies is_space(#[trigger] s[i]) by {
                if i < s.len() - 1 {
                    assert(s[i] == s.drop_last()[i]);
                }
            }
        }
    }
}

/// Whitespace before a text that starts with none is cut off by
/// `trim_start`.
proof fn lemma_trim_start_pad(a: Seq<char>, y: Seq<char>)
    requires
        is_blank(a),
        y.len() > 0,
        !is_space(y[0]),
    ensures
        trim_start(a + y) == y,
    decreases a.len(),
{
    if a.len() == 0 {
        assert(a + y =~= y);
    } else {
        assert((a + y)[0] == a[0]);
        assert((a + y).drop_first() =~= a.drop_first() + y);
        lemma_trim_start_pad(a.drop_first(), y);
    }
}

/// Whitespace after a text that ends with none is cut off by `trim_end`.
proof fn lemma_trim_end_pad(y: Seq<char>, b: Seq<char>)
    requires
        is_blank(b),
        y.len() > 0,
        !is_space(y.last()),
    ensures
        trim_end(y + b) == y,
    decreases b.len(),
{
    if b.len() == 0 {
        assert(y + b =~= y);
    } else {
        assert((y + b).last() == b.last());
        assert((y + b).drop_last() =~= y + b.drop_last());
        lemma_trim_end_pad(y, b.drop_last());
    }
}

/// A text with no whitespace at either end, with whitespace put around it,
/// trims back to itself.
pub proof fn lemma_trim_padded(a: Seq<char>, x: Seq<char>, b: Seq<char>)
    requires
        is_blank(a),
        is_blank(b),
        x.len() > 0 ==> !is_space(x[0]) && !is_space(x.last()),
    ensures
        trim(a + x + b) == x,
{
    if x.len() == 0 {
        assert(is_blank(a + x + b));
        lemma_trim_start_blank(a + x + b);
        assert(trim_start(a + x + b).len() == 0);
        assert(trim(a + x + b) =~= x);
    } else {
        assert(a + x + b =~= a + (x + b));
        lemma_trim_start_pad(a, x + b);
        lemma_trim_end_pad(x, b);
    }
}

proof fn lemma_trim_end_prefix(t: Seq<char>)
    ensures
        trim_end(t) == t.take(trim_end(t).len() as int),
        trim_end(t).len() <= t.len(),
        trim_end(t).len() > 0 ==> !is_space(trim_end(t).last()),
    decreases t.len(),
{
    if t.len() > 0 && is_space(t.last()) {
        lemma_trim_end_prefix(t.drop_last());
        assert(t.drop_last().take(trim_end(t).len() as int) =~= t.take(trim_end(t).len() as int));
    } else {
        assert(t.take(t.len() as int) =~= t);
    }
}

/// A trimmed text, when not empty, starts and ends with a character that is
/// not whitespace.
pub proof fn lemma_trim_ends(s: Seq<char>)
    ensures
        trim(s).len() > 0 ==> !is_space(trim(s)[0]) && !is_space(trim(s).last()),
{
    lemma_trim_start_blank(s);
    let t = trim_start(s);
    lemma_trim_end_prefix(t);
    if trim(s).len() > 0 {
        assert(trim(s)[0] == t[0]);
    }
}

/// An ASCII lower case letter raised, everything else kept.
pub open spec fn upper_ascii(c: char) -> char {
    if 'a' <= c && c <= 'z' {
        ((c as u32) - 32) as char
    } else {
        c
    }
}

/// `to_ascii_uppercase`.
pub open spec fn to_upper(s: Seq<char>) -> Seq<char> {
    Seq::new(s.len(), |i: int| upper_ascii(s[i]))
}

/// Raising a text's case changes neither what it is, ASCII case aside, nor
/// where its whitespace is.
pub proof fn lemma_upper_same(s: Seq<char>)
    ensures
        eq_ignore_case(to_upper(s), s),
        forall|i: int| 0 <= i < s.len() ==> (is_space(#[trigger] to_upper(s)[i]) <==> is_space(s[i])),
{
    assert forall|i: int| 0 <= i < s.len() implies lower_ascii(#[trigger] to_upper(s)[i]) == lower_ascii(s[i]) by {
        let c = s[i];
        if 'a' <= c && c <= 'z' {
            assert(((c as u32) - 32) as char as u32 == c as u32 - 32);
        }
    }
}

pub proof fn lemma_blank_iff_trim_empty(s: Seq<char>)
    ensures
        (trim(s).len() == 0) == is_blank(s),
{
    lemma_trim_start_blank(s);
    let t = trim_start(s);
    lemma_trim_end_len(t);
    if t.len() > 0 {
        assert(!is_space(t[0]));
        if trim_end(t).len() == 0 {
            assert(is_space(t[0]));
        }
    }
}


/// Whether `pat` occurs in `v` at position `i`.
pub fn matches_at(v: &[char], i: usize, pat: &[char]) -> (r: bool)
    ensures
        r == occurs_at(v@, pat@, i as int),
{
    if i > v.len() || pat.len() > v.len() - i {
        return false;
    }
    let mut j: usize = 0;
    while j < pat.len()
        invariant
            i + pat@.len() <= v@.len(),
            i + pat.len() <= v.len(),
            j <= pat@.len(),
            forall|k: int| 0 <= k < j ==> v@[i + k] == pat@[k],
        decreases pat@.len() - j,
    {
        if v[i + j] != pat[j] {
            assert(v@.subrange(i as int, i + pat@.len())[j as int] != pat@[j as int]);
            return false;
        }
        j += 1;
    }
    assert(v@.subrange(i as int, i + pat@.len()) == pat@);
    true
}

pub proof fn lemma_occurs_shift(v: Seq<char>, pat: Seq<char>, from: int, j: int)
    requires
        0 <= from <= v.len(),
        0 <= j,
    ensures
        occurs_at(v.subrange(from, v.len() as int), pat, j) == occurs_at(v, pat, from + j),
{
    let sub = v.subrange(from, v.len() as int);
    if j + pat.len() <= sub.len() {
        assert(sub.subrange(j, j + pat.len()) == v.subrange(from + j, from + j + pat.len()));
    }
}

/// The first position at or after `from` where `pat` occurs in `v`.
pub fn find_from(v: &[char], from: usize, pat: &[char]) -> (r: Option<usize>)
    requires
        from <= v@.len(),
    ensures
        match r {
            Some(i) => from <= i && i + pat@.len() <= v@.len() && find(v@.subrange(from as int, v@.len() as int), pat@) == Some(i - from),
            None => find(v@.subrange(from as int, v@.len() as int), pat@) is None,
        },
{
    let ghost sub = v@.subrange(from as int, v@.len() as int);
    let mut i = from;
    while i < v.len()
        invariant
            from <= i <= v@.len(),
            sub == v@.subrange(from as int, v@.len() as int),
            forall|j: int| 0 <= j < i - from ==> !#[trigger] occurs_at(sub, pat@, j),
        decreases v@.len() - i,
    {
        if matches_at(v, i, pat) {
            proof {
                lemma_occurs_shift(v@, pat@, from as int, i - from);
                lemma_find_is(sub, pat@, i - from);
            }
            return Some(i);
        }
        proof { lemma_occurs_shift(v@, pat@, from as int, i - from); }
        i += 1;
    }
    if pat.len() == 0 && i == v.len() {
        proof {
            lemma_occurs_shift(v@, pat@, from as int, i - from);
            assert(occurs_at(sub, pat@, i - from)) by {
                assert(sub.subrange(i - from, i - from) == pat@);
            }
            lemma_find_is(sub, pat@, i - from);
        }
        return Some(i);
    }
    proof {
        assert forall|j: int| 0 <= j implies !#[trigger] occurs_at(sub, pat@, j) by {
            if j >= i - from {
                assert(j + pat@.len() > sub.len());
            }
        }
        lemma_find_none(sub, pat@);
    }
    None
}

/// The first position of `c` at or after `from` in `v`.
pub fn find_char_from(v: &[char], from: usize, c: char) -> (r: Option<usize>)
    requires
        from <= v@.len(),
    ensures
        match r {
            Some(i) => from <= i < v@.len() && v@[i as int] == c && find_char(v@.subrange(from as int, v@.len() as int), c) == Some(i - from),
            None => find_char(v@.subrange(from as int, v@.len() as int), c) is None,
        },
{
    let pat = vec![c];
    let r = find_from(v, from, pat.as_slice());
    assert(pat@ == seq![c]);
    if let Some(i) = r {
        proof {
            let sub = v@.subrange(from as int, v@.len() as int);
            let k = choose|k: int| first_at(sub, seq![c], k);
            lemma_first_at_unique(sub, seq![c], k, i - from);
            assert(sub.subrange(i - from, i - from + 1)[0] == v@[i as int]);
        }
    }
    r
}

/// `str::starts_with`.
pub fn text_starts_with(s: &str, pat: &str) -> (r: bool)
    ensures
        r == starts_with(s@, pat@),
{
    let v = chars_of(s);
    let p = chars_of(pat);
    let r = matches_at(v.as_slice(), 0, p.as_slice());
    proof {
        if p@.len() <= v@.len() {
            assert(v@.subrange(0, p@.len() as int) == v@.take(p@.len() as int));
        }
    }
    r
}

/// `str::ends_with`.
pub fn text_ends_with(s: &str, pat: &str) -> (r: bool)
    ensures
        r == ends_with(s@, pat@),
{
    let v = chars_of(s);
    let p = chars_of(pat);
    if p.len() > v.len() {
        return false;
    }
    let r = matches_at(v.as_slice(), v.len() - p.len(), p.as_slice());
    proof {
        assert(v@.subrange(v@.len() - p@.len(), v@.len() as int) == v@.skip(v@.len() - p@.len()));
    }
    r
}

/// `str::contains`.
pub fn text_contains(s: &str, pat: &str) -> (r: bool)
    ensures
        r == contains(s@, pat@),
{
    let v = chars_of(s);
    let p = chars_of(pat);
    let r = find_from(v.as_slice(), 0, p.as_slice());
    assert(v@.subrange(0, v@.len() as int) == v@);
    r.is_some()
}


pub open spec fn digit_char(d: nat) -> char {
    if d == 0 { '0' } else if d == 1 { '1' } else if d == 2 { '2' } else if d == 3 { '3' }
    else if d == 4 { '4' } else if d == 5 { '5' } else if d == 6 { '6' } else if d == 7 { '7' }
    else if d == 8 { '8' } else { '9' }
}

/// A number in decimal digits, as `to_string` writes it.
pub open spec fn decimal(n: nat) -> Seq<char>
    decreases n,
{
    if n < 10 {
        seq![digit_char(n)]
    } else {
        decimal(n / 10).push(digit_char(n % 10))
    }
}

fn digit_of(d: u64) -> (c: char)
    requires
        d < 10,
    ensures
        c == digit_char(d as nat),
{
    if d == 0 { '0' } else if d == 1 { '1' } else if d == 2 { '2' } else if d == 3 { '3' }
    else if d == 4 { '4' } else if d == 5 { '5' } else if d == 6 { '6' } else if d == 7 { '7' }
    else if d == 8 { '8' } else { '9' }
}

/// A number in decimal digits.
pub fn decimal_string(n: u64) -> (s: String)
    ensures
        s@ == decimal(n as nat),
{
    let mut digits: Vec<char> = Vec::new();
    let mut m = n;
    assert(digits@.reverse() == Seq::<char>::empty());
    assert(decimal(n as nat) + Seq::<char>::empty() == decimal(n as nat));
    // digits holds the lowest digits, last first, and decimal(n) is decimal(m) followed by them reversed.
    while m >= 10
        invariant
            decimal(n as nat) == decimal(m as nat) + digits@.reverse(),
        decreases m,
    {
        let d = digit_of(m % 10);
        proof {
            assert(decimal(m as nat) == decimal((m / 10) as nat).push(d));
            assert(digits@.push(d).reverse() == seq![d] + digits@.reverse());
            assert(decimal((m / 10) as nat).push(d) + digits@.reverse() == decimal((m / 10) as nat) + (seq![d] + digits@.reverse()));
        }
        digits.push(d);
        m = m / 10;
    }
    let mut out = String::new();
    push_char(&mut out, digit_of(m));
    let mut i = digits.len();
    assert(out@ == decimal(m as nat));
    assert(digits@.take(i as int) == digits@);
    while i > 0
        invariant
            i <= digits@.len(),
            out@ + digits@.take(i as int).reverse() == decimal(n as nat),
        decreases i,
    {
        i -= 1;
        proof {
            assert(digits@.take(i + 1).reverse() == seq![digits@[i as int]] + digits@.take(i as int).reverse());
            assert(out@.push(digits@[i as int]) + digits@.take(i as int).reverse() == out@ + (seq![digits@[i as int]] + digits@.take(i as int).reverse()));
        }
        push_char(&mut out, digits[i]);
    }
    assert(digits@.take(0).reverse() == Seq::<char>::empty());
    assert(out@ + Seq::<char>::empty() == out@);
    out
}


/// The code of `c` with an ASCII upper case letter lowered.
fn lower_code(c: char) -> (r: u32)
    ensures
        r == lower_ascii(c) as u32,
{
    if 'A' <= c && c <= 'Z' {
        (c as u32) + 32
    } else {
        c as u32
    }
}

/// `str::eq_ignore_ascii_case`.
pub fn text_eq_ignore_case(a: &str, b: &str) -> (r: bool)
    ensures
        r == eq_ignore_case(a@, b@),
{
    let x = chars_of(a);
    let y = chars_of(b);
    if x.len() != y.len() {
        return false;
    }
    let mut i: usize = 0;
    while i < x.len()
        invariant
            i <= x@.len() == y@.len(),
            x@ == a@,
            y@ == b@,
            forall|j: int| 0 <= j < i ==> lower_ascii(#[trigger] x@[j]) == lower_ascii(y@[j]),
        decreases x@.len() - i,
    {
        if lower_code(x[i]) != lower_code(y[i]) {
            return false;
        }
        i += 1;
    }
    true
}


/// `s` with every occurrence of `pat` replaced by `with`, found left to
/// right without overlap, as `str::replace` does; an empty `pat` leaves `s`
/// as it is.
pub open spec fn replace_all(s: Seq<char>, pat: Seq<char>, with: Seq<char>) -> Seq<char>
    decreases s.len(),
{
    if pat.len() == 0 {
        s
    } else {
        match find(s, pat) {
            Some(i) => if 0 <= i && i + pat.len() <= s.len() {
                s.take(i) + with + replace_all(s.skip(i + pat.len()), pat, with)
            } else {
                s
            },
            None => s,
        }
    }
}

proof fn lemma_find_occurs(s: Seq<char>, pat: Seq<char>)
    ensures
        find(s, pat) matches Some(i) ==> first_at(s, pat, i),
{
}

/// `s` with every `pat` replaced by `with`.
pub fn replace_text(s: &str, pat: &str, with: &str) -> (r: String)
    ensures
        r@ == replace_all(s@, pat@, with@),
{
    let v = chars_of(s);
    let p = chars_of(pat);
    if p.len() == 0 {
        return String::from_str(s);
    }
    let mut out = String::new();
    let mut i: usize = 0;
    assert(v@.skip(0) == v@);
    assert(out@ + replace_all(v@, pat@, with@) == replace_all(v@, pat@, with@));
    while i <= v.len()
        invariant
            i <= v@.len(),
            v@ == s@,
            p@ == pat@,
            p@.len() > 0,
            replace_all(s@, pat@, with@) == out@ + replace_all(v@.skip(i as int), pat@, with@),
        decreases v@.len() - i,
    {
        let found = find_from(v.as_slice(), i, p.as_slice());
        assert(v@.subrange(i as int, v@.len() as int) == v@.skip(i as int));
        match found {
            Some(at) => {
                proof {
                    lemma_find_occurs(v@.skip(i as int), pat@);
                }
                let head = string_of_range(v.as_slice(), i, at);
                let ghost before = out@;
                push_text(&mut out, head.as_str());
                push_text(&mut out, with);
                proof {
                    let rest = v@.skip(i as int);
                    let k = (at - i) as int;
                    assert(rest.take(k) == v@.subrange(i as int, at as int));
                    assert(rest.skip(k + pat@.len()) == v@.skip(at + p@.len()));
                    assert(before + (rest.take(k) + with@ + replace_all(rest.skip(k + pat@.len()), pat@, with@))
                        == before + rest.take(k) + with@ + replace_all(rest.skip(k + pat@.len()), pat@, with@));
                }
                i = at + p.len();
            },
            None => {
                let tail = string_of_range(v.as_slice(), i, v.len());
                push_text(&mut out, tail.as_str());
                assert(v@.subrange(i as int, v@.len() as int) == v@.skip(i as int));
                return out;
            },
        }
    }
    out
}

/// Whether `i` is the last position of `c` in `s`.
pub open spec fn is_last_of(s: Seq<char>, c: char, i: int) -> bool {
    0 <= i < s.len() && s[i] == c && forall|j: int| i < j < s.len() ==> s[j] != c
}

/// The last position of `c` in `s`.
pub open spec fn last_index(s: Seq<char>, c: char) -> Option<int> {
    if exists|i: int| is_last_of(s, c, i) {
        Some(choose|i: int| is_last_of(s, c, i))
    } else {
        None
    }
}

/// The last position of `c` in `v`.
pub fn last_index_of(v: &[char], c: char) -> (r: Option<usize>)
    ensures
        match r {
            Some(i) => i < v@.len() && is_last_of(v@, c, i as int) && last_index(v@, c) == Some(i as int),
            None => last_index(v@, c) is None,
        },
{
    let mut i = v.len();
    while i > 0
        invariant
            i <= v@.len(),
            forall|j: int| i <= j < v@.len() ==> v@[j] != c,
        decreases i,
    {
        if v[i - 1] == c {
            proof {
                assert(is_last_of(v@, c, i - 1));
                let k = choose|k: int| is_last_of(v@, c, k);
                if k < i - 1 {
                    assert(v@[i - 1] != c);
                } else if k > i - 1 {
                    assert(v@[k] != c);
                }
            }
            return Some(i - 1);
        }
        i -= 1;
    }
    None
}

/// `s` without the trailing copies of `c`, as `trim_end_matches(c)` leaves it.
pub open spec fn trim_end_char(s: Seq<char>, c: char) -> Seq<char>
    decreases s.len(),
{
    if s.len() > 0 && s.last() == c {
        trim_end_char(s.drop_last(), c)
    } else {
        s
    }
}

/// The length of `v` without its trailing copies of `c`.
pub fn trim_end_len(v: &[char], c: char) -> (r: usize)
    ensures
        r <= v@.len(),
        v@.take(r as int) == trim_end_char(v@, c),
{
    let mut end = v.len();
    assert(v@.take(end as int) == v@);
    while end > 0 && v[end - 1] == c
        invariant
            end <= v@.len(),
            trim_end_char(v@, c) == trim_end_char(v@.take(end as int), c),
        decreases end,
    {
        assert(v@.take(end as int).drop_last() == v@.take(end - 1));
        end -= 1;
    }
    end
}


/// `parts` joined by `sep`.
pub open spec fn join(parts: Seq<Seq<char>>, sep: Seq<char>) -> Seq<char>
    decreases parts.len(),
{
    if parts.len() == 0 {
        seq![]
    } else if parts.len() == 1 {
        parts[0]
    } else {
        join(parts.drop_last(), sep) + sep + parts.last()
    }
}

pub fn join_texts(parts: &Vec<String>, sep: &str) -> (r: String)
    ensures
        r@ == join(parts@.map_values(|s: String| s@), sep@),
{
    let ghost all = parts@.map_values(|s: String| s@);
    let mut out = String::new();
    let mut i: usize = 0;
    while i < parts.len()
        invariant
            i <= parts@.len(),
            all == parts@.map_values(|s: String| s@),
            out@ == join(all.take(i as int), sep@),
        decreases parts@.len() - i,
    {
        if i > 0 {
            push_text(&mut out, sep);
        }
        push_text(&mut out, parts[i].as_str());
        proof {
            assert(all.take(i + 1).drop_last() == all.take(i as int));
            assert(all.take(i + 1).last() == parts@[i as int]@);
            if i == 0 {
                assert(all.take(1)[0] == parts@[0]@);
                assert(Seq::<char>::empty() + parts@[0]@ == parts@[0]@);
            }
        }
        i += 1;
    }
    assert(all.take(parts@.len() as int) == all);
    out
}


/// Where a pattern occurs, it has a first occurrence.
pub proof fn lemma_first_exists(s: Seq<char>, pat: Seq<char>, j: int)
    requires
        occurs_at(s, pat, j),
    ensures
        exists|i: int| first_at(s, pat, i),
    decreases j,
{
    if forall|k: int| 0 <= k < j ==> !#[trigger] occurs_at(s, pat, k) {
        assert(first_at(s, pat, j));
    } else {
        let k = choose|k: int| 0 <= k < j && #[trigger] occurs_at(s, pat, k);
        lemma_first_exists(s, pat, k);
    }
}

/// The first `c` of `s`, when it lies before `n`, is the first of `s`'s
/// first `n` characters.
pub proof fn lemma_find_char_in_prefix(s: Seq<char>, n: int, c: char)
    requires
        0 <= n <= s.len(),
        find_char(s, c) matches Some(at) && at < n,
    ensures
        find_char(s.take(n), c) == find_char(s, c),
{
    let at = find_char(s, c)->0;
    let t = s.take(n);
    assert(first_at(s, seq![c], at));
    assert(t.subrange(at, at + 1) == s.subrange(at, at + 1));
    assert forall|j: int| 0 <= j < at implies !#[trigger] occurs_at(t, seq![c], j) by {
        if occurs_at(t, seq![c], j) {
            assert(t.subrange(j, j + 1) == s.subrange(j, j + 1));
            assert(occurs_at(s, seq![c], j));
        }
    }
    assert(first_at(t, seq![c], at));
    lemma_find_is(t, seq![c], at);
}

/// When `s` has no `c` before `n`, its first `n` characters have none.
pub proof fn lemma_find_char_past_prefix(s: Seq<char>, n: int, c: char)
    requires
        0 <= n <= s.len(),
        match find_char(s, c) {
            Some(at) => at >= n,
            None => true,
        },
    ensures
        find_char(s.take(n), c) is None,
{
    let t = s.take(n);
    assert forall|j: int| 0 <= j implies !#[trigger] occurs_at(t, seq![c], j) by {
        if occurs_at(t, seq![c], j) {
            assert(t.subrange(j, j + 1) == s.subrange(j, j + 1));
            assert(occurs_at(s, seq![c], j));
            lemma_first_exists(s, seq![c], j);
            let at = choose|i: int| first_at(s, seq![c], i);
            lemma_find_is(s, seq![c], at);
            if j < at {
                assert(!occurs_at(s, seq![c], j));
            }
        }
    }
    lemma_find_none(t, seq![c]);
}

} // verus!
