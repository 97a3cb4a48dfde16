//! The Adventurer Profile: the family's characters and public details, read
//! from the profile page.
use vstd::prelude::*;
use vstd::string::StringSliceAdditionalSpecFns;
use crate::keymap::{KeyMap, text_eq};
use crate::config::names_view;
use crate::presence::collapse_text;
use crate::text::{
    chars_of, collapse, concat, contains, decimal, decimal_string, eq_ignore_case, find,
    find_from, is_digit, is_space, join, last_index, last_index_of, push_char, push_text, replace_all,
    replace_text, starts_with, string_of_range, text_contains, text_eq_ignore_case,
    text_starts_with, trim, trim_end_char, trim_end_len, trimmed,
};

verus! {

pub struct Character {
    pub name: String,
    pub class: String,
    pub level: Option<u32>,
    pub is_main: bool,
    pub class_image: Option<String>,
}

pub struct Profile {
    pub family: Option<String>,
    pub guild: Option<String>,
    pub gear_score: Option<String>,
    pub energy: Option<String>,
    pub contribution: Option<String>,
    pub created: Option<String>,
    pub life_skills: KeyMap<String>,
    pub characters: Vec<Character>,
    pub url: Option<String>,
    pub fetched_at: i64,
    pub hidden: bool,
}

/// The first character marked as the main one.
pub open spec fn first_main(cs: Seq<Character>, i: int) -> bool {
    0 <= i < cs.len() && cs[i].is_main && forall|j: int| 0 <= j < i ==> !(#[trigger] cs[j]).is_main
}

/// The main character: the one marked main, else the first listed.
pub open spec fn main_of(cs: Seq<Character>) -> Option<Character> {
    if exists|i: int| first_main(cs, i) {
        Some(cs[choose|i: int| first_main(cs, i)])
    } else if cs.len() > 0 {
        Some(cs[0])
    } else {
        None
    }
}

pub open spec fn first_named(cs: Seq<Character>, name: Seq<char>, i: int) -> bool {
    0 <= i < cs.len() && cs[i].name@ == name && forall|j: int| 0 <= j < i ==> (#[trigger] cs[j]).name@ != name
}

/// The first character of that name.
pub open spec fn named_of(cs: Seq<Character>, name: Seq<char>) -> Option<Character> {
    if exists|i: int| first_named(cs, name, i) {
        Some(cs[choose|i: int| first_named(cs, name, i)])
    } else {
        None
    }
}

impl Profile {
    /// The main character: the one marked main, else the first listed.
    pub fn main(&self) -> (r: Option<&Character>)
        ensures
            r matches Some(c) ==> main_of(self.characters@) == Some(*c),
            r is None ==> main_of(self.characters@) is None,
    {
        let mut i: usize = 0;
        while i < self.characters.len()
            invariant
                i <= self.characters@.len(),
                forall|j: int| 0 <= j < i ==> !(#[trigger] self.characters@[j]).is_main,
            decreases self.characters@.len() - i,
        {
            if self.characters[i].is_main {
                proof {
                    let k = choose|k: int| first_main(self.characters@, k);
                    assert(first_main(self.characters@, i as int));
                    if k < i { assert(!self.characters@[k].is_main); }
                    if i < k { assert(!self.characters@[i as int].is_main); }
                }
                return Some(&self.characters[i]);
            }
            i += 1;
        }
        if self.characters.len() > 0 {
            Some(&self.characters[0])
        } else {
            None
        }
    }

    /// The first character of that name.
    pub fn character(&self, name: &str) -> (r: Option<&Character>)
        ensures
            r matches Some(c) ==> named_of(self.characters@, name@) == Some(*c),
            r is None ==> named_of(self.characters@, name@) is None,
    {
        let mut i: usize = 0;
        while i < self.characters.len()
            invariant
                i <= self.characters@.len(),
                forall|j: int| 0 <= j < i ==> (#[trigger] self.characters@[j]).name@ != name@,
            decreases self.characters@.len() - i,
        {
            if text_eq(self.characters[i].name.as_str(), name) {
                proof {
                    let k = choose|k: int| first_named(self.characters@, name@, k);
                    assert(first_named(self.characters@, name@, i as int));
                    if k < i { assert(self.characters@[k].name@ != name@); }
                    if i < k { assert(self.characters@[i as int].name@ != name@); }
                }
                return Some(&self.characters[i]);
            }
            i += 1;
        }
        None
    }
}


// ---------------------------------------------------------------------------
// A character's one-line summary, and the family's creation date.
// ---------------------------------------------------------------------------

pub open spec fn level_digits(level: Option<u32>) -> Seq<char> {
    match level {
        Some(l) => decimal(l as nat),
        None => seq![],
    }
}

impl Character {
    /// "Name (Class 61)", the level left out when unknown.
    pub fn summary(&self) -> (r: String)
        ensures
            r@ == self.name@ + " ("@ + self.class@ + " "@ + level_digits(self.level) + ")"@,
    {
        let mut out = self.name.clone();
        push_text(&mut out, " (");
        push_text(&mut out, self.class.as_str());
        push_text(&mut out, " ");
        match self.level {
            Some(l) => {
                let digits = decimal_string(l as u64);
                push_text(&mut out, digits.as_str());
            },
            None => {},
        }
        push_text(&mut out, ")");
        out
    }
}

/// What comes before the first " (".
pub open spec fn before_paren(s: Seq<char>) -> Seq<char> {
    match find(s, " ("@) {
        Some(i) => s.take(i),
        None => s,
    }
}

/// The date of a "created" text: what comes before " (", trimmed, without a
/// last word that holds a `:` (the time), and without trailing commas.
pub open spec fn created_date_of(created: Seq<char>) -> Seq<char> {
    let c = trim(before_paren(created));
    let date = match last_index(c, ' ') {
        Some(k) => if contains(c.skip(k + 1), ":"@) {
            c.take(k)
        } else {
            c
        },
        None => c,
    };
    trim_end_char(date, ',')
}

impl Profile {
    /// The day the family was created, without the time the page adds:
    /// "Nov 10, 2023, 18:53 (UTC+8)" reads as "Nov 10, 2023".
    pub fn created_date(&self) -> (r: Option<String>)
        ensures
            match self.created {
                Some(c) => r matches Some(d) && d@ == created_date_of(c@),
                None => r is None,
            },
    {
        let created = match &self.created {
            Some(c) => c,
            None => return None,
        };
        let v = chars_of(created.as_str());
        let paren = chars_of(" (");
        assert(v@.subrange(0, v@.len() as int) == v@);
        let head = match find_from(v.as_slice(), 0, paren.as_slice()) {
            Some(i) => string_of_range(v.as_slice(), 0, i),
            None => created.clone(),
        };
        proof {
            assert(v@.subrange(0, v@.len() as int) == v@);
            if let Some(i) = find(created@, " ("@) {
                assert(v@.subrange(0, i) == v@.take(i));
            }
        }
        let c = trimmed(head.as_str());
        let cv = chars_of(c.as_str());
        let end = match last_index_of(cv.as_slice(), ' ') {
            Some(k) => {
                let n = cv.len();
                assert(k < n);
                let after = string_of_range(cv.as_slice(), k + 1, n);
                assert(cv@.subrange(k + 1, cv@.len() as int) == cv@.skip(k + 1));
                if text_contains(after.as_str(), ":") {
                    k
                } else {
                    cv.len()
                }
            },
            None => cv.len(),
        };
        let dv = crate::text::string_of_range(cv.as_slice(), 0, end);
        let dchars = chars_of(dv.as_str());
        let keep = trim_end_len(dchars.as_slice(), ',');
        proof {
            assert(cv@.subrange(0, end as int) == cv@.take(end as int));
            assert(cv@.take(cv@.len() as int) == cv@);
            assert(dchars@.take(keep as int) == dchars@.subrange(0, keep as int));
        }
        Some(string_of_range(dchars.as_slice(), 0, keep))
    }
}


// ---------------------------------------------------------------------------
// Finding a family's page.
// ---------------------------------------------------------------------------

/// Bytes a URL carries as they are: letters, digits and `-_.~`.
pub open spec fn unreserved(b: u8) -> bool {
    (65 <= b <= 90) || (97 <= b <= 122) || (48 <= b <= 57) || b == 45 || b == 95 || b == 46 || b
        == 126
}

pub open spec fn hex_digit(n: int) -> char {
    seq!['0', '1', '2', '3', '4', '5', '6', '7', '8', '9', 'A', 'B', 'C', 'D', 'E', 'F'][n]
}

/// Bytes percent-encoded: each byte not unreserved as `%XX` in upper case hex.
pub open spec fn percent_encode(bs: Seq<u8>) -> Seq<char>
    decreases bs.len(),
{
    if bs.len() == 0 {
        seq![]
    } else {
        let b = bs.last();
        percent_encode(bs.drop_last()) + if unreserved(b) {
            seq![b as char]
        } else {
            seq!['%', hex_digit(b as int / 16), hex_digit(b as int % 16)]
        }
    }
}

/// A value made safe to put in a URL: its UTF-8 bytes percent-encoded.
pub fn encode(value: &str) -> (r: String)
    ensures
        r@ == percent_encode(vstd::utf8::encode_utf8(value@)),
{
    let bytes = value.as_bytes();
    let digits: Vec<char> = vec!['0', '1', '2', '3', '4', '5', '6', '7', '8', '9', 'A', 'B', 'C', 'D', 'E', 'F'];
    let mut out = String::new();
    let mut i: usize = 0;
    while i < bytes.len()
        invariant
            i <= bytes@.len(),
            bytes@ == value.spec_bytes(),
            digits@ == seq!['0', '1', '2', '3', '4', '5', '6', '7', '8', '9', 'A', 'B', 'C', 'D', 'E', 'F'],
            out@ == percent_encode(bytes@.take(i as int)),
        decreases bytes@.len() - i,
    {
        let b = bytes[i];
        if (65 <= b && b <= 90) || (97 <= b && b <= 122) || (48 <= b && b <= 57) || b == 45 || b
            == 95 || b == 46 || b == 126 {
            push_char(&mut out, b as char);
        } else {
            push_char(&mut out, '%');
            push_char(&mut out, digits[(b / 16) as usize]);
            push_char(&mut out, digits[(b % 16) as usize]);
        }
        proof {
            assert(bytes@.take(i + 1).drop_last() == bytes@.take(i as int));
            assert(bytes@.take(i + 1).last() == b);
        }
        i += 1;
    }
    assert(bytes@.take(bytes@.len() as int) == bytes@);
    out
}

/// The address that searches for a family: the search address with each
/// `{family}` replaced by the encoded name, or, for a bare address, the
/// family-name search appended. `None` when there is no search address.
pub open spec fn search_page_of(search: Seq<char>, family: Seq<char>) -> Option<Seq<char>> {
    let s = trim(search);
    let name = percent_encode(vstd::utf8::encode_utf8(family));
    if s.len() == 0 {
        None
    } else if contains(s, "{family}"@) {
        Some(replace_all(s, "{family}"@, name))
    } else {
        Some(s + "?_type=2&_keyword="@ + name)
    }
}

/// The address that searches `search` for a family's profile.
pub fn search_page_url(search: &str, family: &str) -> (r: Result<String, String>)
    ensures
        match r {
            Ok(u) => search_page_of(search@, family@) == Some(u@),
            Err(e) => search_page_of(search@, family@) is None && e@ == "No Search URL for this Region"@,
        },
{
    let s = trimmed(search);
    if s.as_str().is_empty() {
        return Err(String::from_str("No Search URL for this Region"));
    }
    let name = encode(family);
    if text_contains(s.as_str(), "{family}") {
        Ok(replace_text(s.as_str(), "{family}", name.as_str()))
    } else {
        let mut u = concat(s.as_str(), "?_type=2&_keyword=");
        push_text(&mut u, name.as_str());
        Ok(u)
    }
}

/// A link on a search results page: where it goes, and its text.
pub struct Anchor {
    pub href: Option<String>,
    pub text: String,
}

/// Whether `i` is the first link whose words are the family's name, ASCII
/// case aside.
pub open spec fn first_named_link(anchors: Seq<Anchor>, family: Seq<char>, i: int) -> bool {
    &&& 0 <= i < anchors.len()
    &&& anchors[i].href is Some
    &&& eq_ignore_case(collapse(anchors[i].text@), family)
    &&& forall|j: int|
        0 <= j < i ==> !((#[trigger] anchors[j]).href is Some && eq_ignore_case(
            collapse(anchors[j].text@),
            family,
        ))
}

/// Whether `i` is the first link that goes anywhere.
pub open spec fn first_link(anchors: Seq<Anchor>, i: int) -> bool {
    0 <= i < anchors.len() && anchors[i].href is Some && forall|j: int|
        0 <= j < i ==> (#[trigger] anchors[j]).href is None
}

/// The profile a search found: the link named like the family, or else the
/// first link.
pub open spec fn pick_link_of(anchors: Seq<Anchor>, family: Seq<char>) -> Option<Seq<char>> {
    if exists|i: int| first_named_link(anchors, family, i) {
        Some(anchors[choose|i: int| first_named_link(anchors, family, i)].href->0@)
    } else if exists|i: int| first_link(anchors, i) {
        Some(anchors[choose|i: int| first_link(anchors, i)].href->0@)
    } else {
        None
    }
}

/// Picks the family's profile among the links a search found.
pub fn pick_link(anchors: &Vec<Anchor>, family: &str) -> (r: Option<String>)
    ensures
        opt_text(r) == pick_link_of(anchors@, family@),
{
    let mut first: Option<usize> = None;
    let mut i: usize = 0;
    while i < anchors.len()
        invariant
            i <= anchors@.len(),
            forall|j: int|
                0 <= j < i ==> !((#[trigger] anchors@[j]).href is Some && eq_ignore_case(
                    collapse(anchors@[j].text@),
                    family@,
                )),
            match first {
                Some(f) => f < i && first_link(anchors@, f as int),
                None => forall|j: int| 0 <= j < i ==> (#[trigger] anchors@[j]).href is None,
            },
        decreases anchors@.len() - i,
    {
        let a = &anchors[i];
        match &a.href {
            Some(href) => {
                let words = collapse_text(a.text.as_str());
                if text_eq_ignore_case(words.as_str(), family) {
                    proof {
                        assert(first_named_link(anchors@, family@, i as int));
                        let k = choose|k: int| first_named_link(anchors@, family@, k);
                        if k < i {
                            assert(!(anchors@[k].href is Some && eq_ignore_case(collapse(anchors@[k].text@), family@)));
                        } else if k > i {
                            assert(!(anchors@[i as int].href is Some && eq_ignore_case(collapse(anchors@[i as int].text@), family@)));
                        }
                    }
                    return Some(href.clone());
                }
                if first.is_none() {
                    first = Some(i);
                }
            },
            None => {},
        }
        i += 1;
    }
    proof {
        assert(!exists|k: int| first_named_link(anchors@, family@, k));
    }
    match first {
        Some(f) => {
            proof {
                let k = choose|k: int| first_link(anchors@, k);
                if k < f {
                    assert(anchors@[k].href is None);
                } else if k > f {
                    assert(anchors@[f as int].href is None);
                }
            }
            match &anchors[f].href {
                Some(h) => Some(h.clone()),
                None => None,
            }
        },
        None => {
            proof {
                assert(!exists|k: int| first_link(anchors@, k));
            }
            None
        },
    }
}

pub open spec fn opt_text(o: Option<String>) -> Option<Seq<char>> {
    match o {
        Some(s) => Some(s@),
        None => None,
    }
}

// ---------------------------------------------------------------------------
// Reading the values a page shows.
// ---------------------------------------------------------------------------

/// An address without its query: what comes before the first `?`.
pub open spec fn strip_query_of(url: Seq<char>) -> Seq<char> {
    match find(url, seq!['?']) {
        Some(i) => url.take(i),
        None => url,
    }
}

pub fn strip_query(url: String) -> (r: String)
    ensures
        r@ == strip_query_of(url@),
{
    let v = chars_of(url.as_str());
    assert(v@.subrange(0, v@.len() as int) == v@);
    match crate::text::find_char_from(v.as_slice(), 0, '?') {
        Some(i) => {
            assert(v@.subrange(0, i as int) == v@.take(i as int));
            string_of_range(v.as_slice(), 0, i)
        },
        None => url,
    }
}

/// The digits of a text, in order.
pub open spec fn digits_in(s: Seq<char>) -> Seq<char>
    decreases s.len(),
{
    if s.len() == 0 {
        seq![]
    } else if is_digit(s.last()) {
        digits_in(s.drop_last()).push(s.last())
    } else {
        digits_in(s.drop_last())
    }
}

/// The number decimal digits spell.
pub open spec fn digits_value(d: Seq<char>) -> nat
    decreases d.len(),
{
    if d.len() == 0 {
        0
    } else {
        digits_value(d.drop_last()) * 10 + ((d.last() as u32) - 48) as nat
    }
}

/// A level read from a text: the number its digits spell, when it has any
/// and the number fits.
pub open spec fn level_of(text: Seq<char>) -> Option<u32> {
    let d = digits_in(text);
    if d.len() == 0 || digits_value(d) > u32::MAX {
        None
    } else {
        Some(digits_value(d) as u32)
    }
}

proof fn lemma_digits_value_grows(d: Seq<char>, c: char)
    requires
        is_digit(c),
    ensures
        digits_value(d.push(c)) >= digits_value(d) * 10,
{
    assert(d.push(c).drop_last() == d);
}

/// A level read from a text: its digits as one number.
pub fn parse_level(text: &str) -> (r: Option<u32>)
    ensures
        r == level_of(text@),
{
    let v = chars_of(text);
    let mut value: u64 = 0;
    let mut any = false;
    let mut over = false;
    let mut i: usize = 0;
    while i < v.len()
        invariant
            i <= v@.len(),
            v@ == text@,
            any == (digits_in(v@.take(i as int)).len() > 0),
            over == (digits_value(digits_in(v@.take(i as int))) > u32::MAX),
            !over ==> value == digits_value(digits_in(v@.take(i as int))),
        decreases v@.len() - i,
    {
        let c = v[i];
        proof {
            assert(v@.take(i + 1).drop_last() == v@.take(i as int));
            assert(v@.take(i + 1).last() == c);
        }
        if '0' <= c && c <= '9' {
            let ghost before = digits_in(v@.take(i as int));
            proof {
                assert(digits_in(v@.take(i + 1)) == before.push(c));
                assert(before.push(c).drop_last() == before);
                lemma_digits_value_grows(before, c);
            }
            any = true;
            if !over {
                let next = value * 10 + ((c as u32) - 48) as u64;
                if next > 4294967295 {
                    over = true;
                } else {
                    value = next;
                }
            }
        }
        i += 1;
    }
    assert(v@.take(v@.len() as int) == v@);
    if !any || over {
        None
    } else {
        Some(value as u32)
    }
}

/// The life skills, in the order of the page's `icn_spec01` to
/// `icn_spec11` icons.
pub open spec fn life_skill_names() -> Seq<Seq<char>> {
    seq![
        "Gathering"@, "Fishing"@, "Hunting"@, "Cooking"@, "Alchemy"@, "Processing"@,
        "Training"@, "Trading"@, "Farming"@, "Sailing"@, "Barter"@,
    ]
}

pub fn life_skills() -> (r: Vec<&'static str>)
    ensures
        r@.len() == 11,
        forall|i: int| 0 <= i < 11 ==> #[trigger] r@[i]@ == life_skill_names()[i],
{
    let r = vec![
        "Gathering", "Fishing", "Hunting", "Cooking", "Alchemy", "Processing", "Training",
        "Trading", "Farming", "Sailing", "Barter",
    ];
    r
}

/// The number a text spells as `usize::from_str` reads it: an optional `+`
/// then at least one digit and nothing else.
pub open spec fn number_of(s: Seq<char>) -> Option<nat> {
    let d = if s.len() > 0 && s[0] == '+' { s.drop_first() } else { s };
    if d.len() > 0 && crate::text::all_digits(d) {
        Some(digits_value(d))
    } else {
        None
    }
}

/// The life skill an icon's class names: `icn_spec01` is the first.
pub open spec fn skill_of_class(class: Seq<char>) -> Option<Seq<char>> {
    if starts_with(class, "icn_spec"@) {
        match number_of(class.skip(8)) {
            Some(n) => if 1 <= n <= 11 {
                Some(life_skill_names()[n - 1])
            } else {
                None
            },
            None => None,
        }
    } else {
        None
    }
}

proof fn lemma_digit_step(d: Seq<char>, i: int)
    requires
        0 <= i < d.len(),
    ensures
        digits_value(d.take(i + 1)) == digits_value(d.take(i)) * 10 + ((d[i] as u32) - 48) as nat,
{
    assert(d.take(i + 1).drop_last() == d.take(i));
}

/// The life skill an icon's class names.
pub fn skill_of(class: &str) -> (r: Option<&'static str>)
    ensures
        match r {
            Some(s) => skill_of_class(class@) == Some(s@),
            None => skill_of_class(class@) is None,
        },
{
    if !text_starts_with(class, "icn_spec") {
        return None;
    }
    proof { reveal_strlit("icn_spec"); }
    let v = chars_of(class);
    let mut i: usize = 8;
    if i < v.len() && v[i] == '+' {
        i = 9;
    }
    let ghost d = if v@.skip(8).len() > 0 && v@.skip(8)[0] == '+' { v@.skip(9) } else { v@.skip(8) };
    proof {
        assert(v@.len() >= 8);
        if v@.skip(8).len() > 0 && v@.skip(8)[0] == '+' {
            assert(v@.skip(8).drop_first() == v@.skip(9));
        }
        assert(d == v@.skip(i as int));
    }
    if i >= v.len() {
        assert(d.len() == 0);
        assert(class@.skip(8) == v@.skip(8));
        assert(number_of(class@.skip(8)) is None);
        return None;
    }
    let start = i;
    let mut n: u64 = 0;
    while i < v.len()
        invariant
            start <= i <= v@.len(),
            d == v@.skip(start as int),
            v@ == class@,
            starts_with(class@, "icn_spec"@),
            d == (if class@.skip(8).len() > 0 && class@.skip(8)[0] == '+' {
                class@.skip(8).drop_first()
            } else {
                class@.skip(8)
            }),
            forall|j: int| start <= j < i ==> is_digit(#[trigger] v@[j]),
            n <= 12,
            n == 12 ==> digits_value(d.take(i - start)) >= 12,
            n < 12 ==> n == digits_value(d.take(i - start)),
        decreases v@.len() - i,
    {
        let c = v[i];
        if !('0' <= c && c <= '9') {
            assert(!is_digit(d[i - start]));
            assert(!crate::text::all_digits(d));
            return None;
        }
        proof {
            lemma_digit_step(d, i - start);
        }
        let digit = ((c as u32) - 48) as u64;
        let next = n * 10 + digit;
        n = if n == 12 || next >= 12 { 12 } else { next };
        i += 1;
    }
    proof {
        assert(d.take(d.len() as int) == d);
        assert(crate::text::all_digits(d)) by {
            assert forall|j: int| 0 <= j < d.len() implies is_digit(#[trigger] d[j]) by {
                assert(d[j] == v@[start + j]);
            }
        }
    }
    if 1 <= n && n <= 11 {
        let names = life_skills();
        Some(names[(n - 1) as usize])
    } else {
        None
    }
}


// ---------------------------------------------------------------------------
// What a profile page holds.
// ---------------------------------------------------------------------------

/// One entry of the page's character list, as the page writes it: the text
/// of its name, of the "main" label inside the name when there is one, of
/// its class and level, and its class image's address.
pub struct CharacterItem {
    pub name: Option<String>,
    pub main_label: Option<String>,
    pub class: Option<String>,
    pub level: Option<String>,
    pub image: Option<String>,
}

/// One entry of the page's list of family details: the text of its lock,
/// shown in place of a value kept private, and of its value.
pub struct StatItem {
    pub lock: Option<String>,
    pub desc: Option<String>,
}

/// One entry of the page's life skills: the classes of its icon, and the
/// pieces of text of its grade.
pub struct SkillItem {
    pub icon_classes: Option<Vec<String>>,
    pub grade: Option<Vec<String>>,
}

/// What a profile page holds, as the page writes it.
pub struct PageFacts {
    pub characters: Vec<CharacterItem>,
    pub family: Option<String>,
    pub stats: Vec<StatItem>,
    pub hidden: bool,
    pub skills: Vec<SkillItem>,
}

pub struct CharacterView {
    pub name: Seq<char>,
    pub class: Seq<char>,
    pub level: Option<u32>,
    pub is_main: bool,
    pub class_image: Option<Seq<char>>,
}

pub open spec fn character_view(c: Character) -> CharacterView {
    CharacterView {
        name: c.name@,
        class: c.class@,
        level: c.level,
        is_main: c.is_main,
        class_image: opt_text(c.class_image),
    }
}

pub open spec fn characters_view(cs: Seq<Character>) -> Seq<CharacterView> {
    Seq::new(cs.len(), |i: int| character_view(cs[i]))
}

/// A text as the profile shows it: its words joined by single spaces, and
/// nothing when that is empty.
pub open spec fn text_view(raw: Option<Seq<char>>) -> Option<Seq<char>> {
    match raw {
        Some(t) => if collapse(t).len() > 0 {
            Some(collapse(t))
        } else {
            None
        },
        None => None,
    }
}

/// The character an entry of the list stands for: its name without the
/// "main" label and trimmed; an entry without a name is left out.
pub open spec fn character_of(item: CharacterItem) -> Option<CharacterView> {
    match text_view(opt_text(item.name)) {
        None => None,
        Some(name_text) => {
            let label = match text_view(opt_text(item.main_label)) {
                Some(l) => l,
                None => seq![],
            };
            let name = trim(replace_all(name_text, label, seq![]));
            if name.len() == 0 {
                None
            } else {
                Some(
                    CharacterView {
                        name,
                        class: match text_view(opt_text(item.class)) {
                            Some(c) => c,
                            None => seq![],
                        },
                        level: match text_view(opt_text(item.level)) {
                            Some(t) => level_of(t),
                            None => None,
                        },
                        is_main: item.main_label is Some,
                        class_image: match item.image {
                            Some(u) => Some(strip_query_of(u@)),
                            None => None,
                        },
                    },
                )
            }
        },
    }
}

/// The characters the list stands for, in order.
pub open spec fn characters_of(items: Seq<CharacterItem>) -> Seq<CharacterView>
    decreases items.len(),
{
    if items.len() == 0 {
        seq![]
    } else {
        let before = characters_of(items.drop_last());
        match character_of(items.last()) {
            Some(c) => before.push(c),
            None => before,
        }
    }
}

/// The `i`th family detail, by position since every label is in the site's
/// language: its value, unless it is locked.
pub open spec fn stat_of(stats: Seq<StatItem>, i: int) -> Option<Seq<char>> {
    if 0 <= i < stats.len() {
        if text_view(opt_text(stats[i].lock)) is None {
            text_view(opt_text(stats[i].desc))
        } else {
            None
        }
    } else {
        None
    }
}

/// The first life skill among an icon's classes.
pub open spec fn skill_in(classes: Seq<String>) -> Option<Seq<char>>
    decreases classes.len(),
{
    if classes.len() == 0 {
        None
    } else {
        match skill_of_class(classes[0]@) {
            Some(s) => Some(s),
            None => skill_in(classes.drop_first()),
        }
    }
}

/// A life skill's grade: the pieces of its text joined by spaces, then its
/// words joined by single spaces; nothing when that is empty.
pub open spec fn grade_of(pieces: Seq<String>) -> Option<Seq<char>> {
    let g = collapse(crate::text::join(pieces.map_values(|p: String| p@), " "@));
    if g.len() > 0 {
        Some(g)
    } else {
        None
    }
}

/// The skill and grade an entry of the life skills stands for.
pub open spec fn skill_entry(item: SkillItem) -> Option<(Seq<char>, Seq<char>)> {
    match item.icon_classes {
        Some(cs) => match skill_in(cs@) {
            Some(name) => match item.grade {
                Some(pieces) => match grade_of(pieces@) {
                    Some(g) => Some((name, g)),
                    None => None,
                },
                None => None,
            },
            None => None,
        },
        None => None,
    }
}

/// The life skills the page lists, each skill to its grade; a skill listed
/// twice keeps the later grade.
pub open spec fn skills_of(items: Seq<SkillItem>) -> Map<Seq<char>, Seq<char>>
    decreases items.len(),
{
    if items.len() == 0 {
        Map::empty()
    } else {
        let before = skills_of(items.drop_last());
        match skill_entry(items.last()) {
            Some((name, grade)) => before.insert(name, grade),
            None => before,
        }
    }
}

/// Whether `r` is the profile `page` holds, before where it came from and
/// when are added.
pub open spec fn read_from(r: Profile, page: PageFacts) -> bool {
    &&& characters_view(r.characters@) == characters_of(page.characters@)
    &&& opt_text(r.family) == text_view(opt_text(page.family))
    &&& opt_text(r.created) == stat_of(page.stats@, 0)
    &&& opt_text(r.guild) == stat_of(page.stats@, 1)
    &&& opt_text(r.gear_score) == stat_of(page.stats@, 2)
    &&& opt_text(r.energy) == stat_of(page.stats@, 3)
    &&& opt_text(r.contribution) == stat_of(page.stats@, 4)
    &&& r.hidden == page.hidden
    &&& names_view(r.life_skills) == skills_of(page.skills@)
}

/// A text as the profile shows it.
pub fn text_value(raw: &Option<String>) -> (r: Option<String>)
    ensures
        opt_text(r) == text_view(opt_text(*raw)),
{
    match raw {
        Some(t) => {
            let c = collapse_text(t.as_str());
            if c.as_str().is_empty() {
                None
            } else {
                Some(c)
            }
        },
        None => None,
    }
}

fn character_from(item: &CharacterItem) -> (r: Option<Character>)
    ensures
        match r {
            Some(c) => character_of(*item) == Some(character_view(c)),
            None => character_of(*item) is None,
        },
{
    let name_text = match text_value(&item.name) {
        Some(t) => t,
        None => return None,
    };
    let label = match text_value(&item.main_label) {
        Some(l) => l,
        None => String::new(),
    };
    let stripped = crate::text::replace_text(name_text.as_str(), label.as_str(), "");
    proof {
        reveal_strlit("");
        assert(""@ =~= Seq::<char>::empty());
        let label_v = match text_view(opt_text(item.main_label)) {
            Some(l) => l,
            None => seq![],
        };
        assert(label@ == label_v);
        assert(stripped@ == replace_all(name_text@, label_v, seq![]));
    }
    let name = trimmed(stripped.as_str());
    if name.as_str().is_empty() {
        return None;
    }
    let class = match text_value(&item.class) {
        Some(c) => c,
        None => String::new(),
    };
    let level = match text_value(&item.level) {
        Some(t) => parse_level(t.as_str()),
        None => None,
    };
    let class_image = match &item.image {
        Some(u) => Some(strip_query(u.clone())),
        None => None,
    };
    Some(Character { name, class, level, is_main: item.main_label.is_some(), class_image })
}

fn stat_value(stats: &Vec<StatItem>, i: usize) -> (r: Option<String>)
    ensures
        opt_text(r) == stat_of(stats@, i as int),
{
    if i >= stats.len() {
        return None;
    }
    if text_value(&stats[i].lock).is_none() {
        text_value(&stats[i].desc)
    } else {
        None
    }
}

fn skill_in_classes(classes: &Vec<String>) -> (r: Option<&'static str>)
    ensures
        match r {
            Some(s) => skill_in(classes@) == Some(s@),
            None => skill_in(classes@) is None,
        },
{
    let mut i: usize = 0;
    assert(classes@.skip(0) == classes@);
    while i < classes.len()
        invariant
            i <= classes@.len(),
            skill_in(classes@) == skill_in(classes@.skip(i as int)),
        decreases classes@.len() - i,
    {
        let found = skill_of(classes[i].as_str());
        proof {
            assert(classes@.skip(i as int)[0] == classes@[i as int]);
            assert(classes@.skip(i as int).drop_first() == classes@.skip(i + 1));
        }
        if found.is_some() {
            return found;
        }
        i += 1;
    }
    None
}

fn skill_from(item: &SkillItem) -> (r: Option<(&'static str, String)>)
    ensures
        match r {
            Some(e) => skill_entry(*item) == Some((e.0@, e.1@)),
            None => skill_entry(*item) is None,
        },
{
    let name = match &item.icon_classes {
        Some(cs) => match skill_in_classes(cs) {
            Some(n) => n,
            None => return None,
        },
        None => return None,
    };
    let pieces = match &item.grade {
        Some(p) => p,
        None => return None,
    };
    let joined = crate::text::join_texts(pieces, " ");
    let g = collapse_text(joined.as_str());
    if g.as_str().is_empty() {
        None
    } else {
        Some((name, g))
    }
}

/// The profile a page holds: its characters, the family's name and
/// details, whether it keeps any private, and the life skills' grades.
/// Where it came from and when are not on the page.
pub fn profile_from(page: &PageFacts) -> (r: Profile)
    ensures
        read_from(r, *page),
        characters_view(r.characters@) == characters_of(page.characters@),
        opt_text(r.family) == text_view(opt_text(page.family)),
        opt_text(r.created) == stat_of(page.stats@, 0),
        opt_text(r.guild) == stat_of(page.stats@, 1),
        opt_text(r.gear_score) == stat_of(page.stats@, 2),
        opt_text(r.energy) == stat_of(page.stats@, 3),
        opt_text(r.contribution) == stat_of(page.stats@, 4),
        r.hidden == page.hidden,
        names_view(r.life_skills) == skills_of(page.skills@),
        r.url is None,
        r.fetched_at == 0,
{
    let mut characters: Vec<Character> = Vec::new();
    let mut i: usize = 0;
    while i < page.characters.len()
        invariant
            i <= page.characters@.len(),
            characters_view(characters@) == characters_of(page.characters@.take(i as int)),
        decreases page.characters@.len() - i,
    {
        let ghost before = characters@;
        let found = character_from(&page.characters[i]);
        proof {
            assert(page.characters@.take(i + 1).drop_last() == page.characters@.take(i as int));
            assert(page.characters@.take(i + 1).last() == page.characters@[i as int]);
        }
        match found {
            Some(c) => {
                characters.push(c);
                proof {
                    assert(characters_view(characters@) =~= characters_view(before).push(
                        character_view(characters@.last()),
                    ));
                }
            },
            None => {},
        }
        i += 1;
    }
    assert(page.characters@.take(page.characters@.len() as int) == page.characters@);
    let mut life_skills: KeyMap<String> = KeyMap::new();
    assert(names_view(life_skills) =~= Map::<Seq<char>, Seq<char>>::empty());
    let mut k: usize = 0;
    while k < page.skills.len()
        invariant
            k <= page.skills@.len(),
            names_view(life_skills) == skills_of(page.skills@.take(k as int)),
        decreases page.skills@.len() - k,
    {
        let ghost before = names_view(life_skills);
        let entry = skill_from(&page.skills[k]);
        proof {
            assert(page.skills@.take(k + 1).drop_last() == page.skills@.take(k as int));
            assert(page.skills@.take(k + 1).last() == page.skills@[k as int]);
        }
        match entry {
            Some((name, grade)) => {
                let ghost g = grade@;
                life_skills.insert(String::from_str(name), grade);
                proof {
                    assert(names_view(life_skills) =~= before.insert(name@, g));
                }
            },
            None => {},
        }
        k += 1;
    }
    assert(page.skills@.take(page.skills@.len() as int) == page.skills@);
    Profile {
        family: text_value(&page.family),
        guild: stat_value(&page.stats, 1),
        gear_score: stat_value(&page.stats, 2),
        energy: stat_value(&page.stats, 3),
        contribution: stat_value(&page.stats, 4),
        created: stat_value(&page.stats, 0),
        life_skills,
        characters,
        url: None,
        fetched_at: 0,
        hidden: page.hidden,
    }
}


// ---------------------------------------------------------------------------
// Reading the page's HTML.
// ---------------------------------------------------------------------------

#[verifier::external_type_specification]
#[verifier::external_body]
pub struct ExHtml(scraper::Html);

#[verifier::external_type_specification]
#[verifier::external_body]
pub struct ExSelector(scraper::Selector);

#[verifier::external_type_specification]
#[verifier::external_body]
pub struct ExElementRef<'a>(scraper::ElementRef<'a>);

/// The document tree `Html::parse_document` builds from a page. The parse
/// is a function of the text alone; the tree itself stays opaque.
pub uninterp spec fn parsed_document(html: Seq<char>) -> scraper::Html;

/// The selector `Selector::parse` reads from CSS text, when it reads one.
pub uninterp spec fn parsed_selector(css: Seq<char>) -> Option<scraper::Selector>;

/// The elements of a document that `Html::select` yields for a selector.
pub uninterp spec fn document_matches(doc: &scraper::Html, sel: scraper::Selector) -> Seq<scraper::ElementRef>;

/// The descendants of an element that `ElementRef::select` yields.
pub uninterp spec fn element_matches(el: scraper::ElementRef, sel: scraper::Selector) -> Seq<scraper::ElementRef>;

/// The text pieces `ElementRef::text` yields for an element.
pub uninterp spec fn element_text(el: scraper::ElementRef) -> Seq<Seq<char>>;

/// The value `ElementRef::attr` gives of an attribute.
pub uninterp spec fn element_attr(el: scraper::ElementRef, name: Seq<char>) -> Option<Seq<char>>;

/// The classes `Element::classes` yields for an element.
pub uninterp spec fn element_classes(el: scraper::ElementRef) -> Seq<Seq<char>>;

/// The texts of a list of strings.
pub open spec fn texts(v: Seq<String>) -> Seq<Seq<char>> {
    v.map_values(|t: String| t@)
}

/// `Html::parse_document`: the document tree of a page, as named by
/// `parsed_document`. What the tree holds is left to the names below.
#[verifier::external_body]
fn parse_document(html: &str) -> (r: scraper::Html)
    ensures
        r == parsed_document(html@),
{
    scraper::Html::parse_document(html)
}

/// `Selector::parse`: a CSS selector, when `css` is one, as named by
/// `parsed_selector`. Which texts parse is not stated.
#[verifier::external_body]
fn parse_selector(css: &str) -> (r: Option<scraper::Selector>)
    ensures
        r == parsed_selector(css@),
{
    scraper::Selector::parse(css).ok()
}

/// `Html::select`: the document's elements that match, in the order the
/// parser added them to the tree, as named by `document_matches`.
#[verifier::external_body]
fn select_doc<'a>(doc: &'a scraper::Html, sel: &scraper::Selector) -> (r: Vec<scraper::ElementRef<'a>>)
    ensures
        r@ == document_matches(doc, *sel),
{
    doc.select(sel).collect()
}

/// `ElementRef::select`: an element's descendants that match, in document
/// order, as named by `element_matches`.
#[verifier::external_body]
fn select_in<'a>(el: &scraper::ElementRef<'a>, sel: &scraper::Selector) -> (r: Vec<scraper::ElementRef<'a>>)
    ensures
        r@ == element_matches(*el, *sel),
{
    el.select(sel).collect()
}

/// `ElementRef::text`: the text pieces inside an element, in order, as named
/// by `element_text`.
#[verifier::external_body]
fn text_pieces(el: &scraper::ElementRef) -> (r: Vec<String>)
    ensures
        texts(r@) == element_text(*el),
{
    el.text().map(|piece| piece.to_string()).collect()
}

/// `ElementRef::attr`: the value of an attribute, as named by `element_attr`.
#[verifier::external_body]
fn attr_value(el: &scraper::ElementRef, name: &str) -> (r: Option<String>)
    ensures
        opt_text(r) == element_attr(*el, name@),
{
    el.attr(name).map(|v| v.to_string())
}

/// `Element::classes`: an element's classes, as the crate orders them, as
/// named by `element_classes`.
#[verifier::external_body]
fn class_names(el: &scraper::ElementRef) -> (r: Vec<String>)
    ensures
        texts(r@) == element_classes(*el),
{
    el.value().classes().map(|c| c.to_string()).collect()
}

/// All the text inside an element: its pieces one after another.
pub open spec fn whole_text_of(el: scraper::ElementRef) -> Seq<char> {
    join(element_text(el), seq![])
}

/// The whole text of the first element inside `el` that `sel` matches.
pub open spec fn first_text_of(el: scraper::ElementRef, sel: Option<scraper::Selector>) -> Option<Seq<char>> {
    match sel {
        Some(s) => if element_matches(el, s).len() == 0 {
            None
        } else {
            Some(whole_text_of(element_matches(el, s)[0]))
        },
        None => None,
    }
}

/// The value of `attr` on the first element inside `el` that `sel` matches.
pub open spec fn first_attr_of(el: scraper::ElementRef, sel: Option<scraper::Selector>, attr: Seq<char>) -> Option<Seq<char>> {
    match sel {
        Some(s) => if element_matches(el, s).len() == 0 {
            None
        } else {
            element_attr(element_matches(el, s)[0], attr)
        },
        None => None,
    }
}

/// All the text inside an element, its pieces put together.
fn whole_text(el: &scraper::ElementRef) -> (r: String)
    ensures
        r@ == whole_text_of(*el),
{
    let pieces = text_pieces(el);
    let ghost all = texts(pieces@);
    let mut out = String::new();
    let mut i: usize = 0;
    while i < pieces.len()
        invariant
            i <= pieces@.len(),
            all == texts(pieces@),
            out@ == join(all.take(i as int), seq![]),
        decreases pieces@.len() - i,
    {
        proof {
            let next = all.take(i + 1);
            assert(next.drop_last() =~= all.take(i as int));
            assert(next.last() == pieces@[i as int]@);
            if i == 0 {
                assert(next.len() == 1);
                assert(join(next, seq![]) == next[0]);
                assert(join(all.take(0), seq![]) == Seq::<char>::empty());
            }
        }
        push_text(&mut out, pieces[i].as_str());
        proof {
            assert(out@ =~= join(all.take(i + 1), seq![]));
        }
        i += 1;
    }
    assert(all.take(pieces@.len() as int) =~= all);
    out
}

/// The whole text of the first element inside `el` that `sel` matches.
fn first_text(el: &scraper::ElementRef, sel: &Option<scraper::Selector>) -> (r: Option<String>)
    ensures
        opt_text(r) == first_text_of(*el, *sel),
{
    let sel = match sel {
        Some(s) => s,
        None => return None,
    };
    let found = select_in(el, sel);
    if found.len() == 0 {
        None
    } else {
        Some(whole_text(&found[0]))
    }
}

/// The value of `attr` on the first element inside `el` that `sel` matches.
fn first_attr(el: &scraper::ElementRef, sel: &Option<scraper::Selector>, attr: &str) -> (r: Option<String>)
    ensures
        opt_text(r) == first_attr_of(*el, *sel, attr@),
{
    let sel = match sel {
        Some(s) => s,
        None => return None,
    };
    let found = select_in(el, sel);
    if found.len() == 0 {
        None
    } else {
        attr_value(&found[0], attr)
    }
}

/// Whether `item` is what the character list's entry `el` shows, the entry's
/// "main" label found by `main_label`.
pub open spec fn character_item_read(item: CharacterItem, el: scraper::ElementRef, main_label: Option<scraper::Selector>) -> bool {
    &&& opt_text(item.name) == first_text_of(el, parsed_selector("p.character_name"@))
    &&& opt_text(item.main_label) == first_text_of(el, main_label)
    &&& opt_text(item.class) == first_text_of(el, parsed_selector("p.character_info em:not(.icon_symbol)"@))
    &&& opt_text(item.level) == first_text_of(el, parsed_selector("p.character_info span:last-child"@))
    &&& opt_text(item.image) == first_attr_of(el, parsed_selector("img.icon_character_image"@), "src"@)
}

/// Whether `item` is what the family details' entry `el` shows.
pub open spec fn stat_item_read(item: StatItem, el: scraper::ElementRef) -> bool {
    &&& opt_text(item.lock) == first_text_of(el, parsed_selector("em.lock"@))
    &&& opt_text(item.desc) == first_text_of(el, parsed_selector("span.desc"@))
}

pub open spec fn opt_texts(o: Option<Vec<String>>) -> Option<Seq<Seq<char>>> {
    match o {
        Some(v) => Some(texts(v@)),
        None => None,
    }
}

/// Whether `item` is what the life skills' entry `el` shows: the classes of
/// its first icon and the text pieces of its first grade.
pub open spec fn skill_item_read(item: SkillItem, el: scraper::ElementRef, grade: scraper::Selector, icon: scraper::Selector) -> bool {
    &&& opt_texts(item.icon_classes) == if element_matches(el, icon).len() == 0 {
        None
    } else {
        Some(element_classes(element_matches(el, icon)[0]))
    }
    &&& opt_texts(item.grade) == if element_matches(el, grade).len() == 0 {
        None
    } else {
        Some(element_text(element_matches(el, grade)[0]))
    }
}

/// Whether `r` is what the page `html` holds: the entries of its character
/// list (read only when the list's and the main label's selectors parse),
/// its family name, the entries of its family details, whether anything is
/// locked, and the entries of its life skills, each list in the order the parser added them.
pub open spec fn page_read(r: PageFacts, html: Seq<char>) -> bool {
    let doc = parsed_document(html);
    let list = parsed_selector("ul.character_list > li"@);
    let main_label = parsed_selector("span.selected_label"@);
    let lock = parsed_selector("em.lock"@);
    let nick = parsed_selector("p.nick"@);
    let lines = parsed_selector("ul.line_list > li"@);
    let skill = parsed_selector("ul.character_spec > li"@);
    let grade = parsed_selector("span.spec_level"@);
    let icon = parsed_selector("span.icon_spec"@);
    &&& if list is Some && main_label is Some {
        let items = document_matches(&doc, list->0);
        &&& r.characters@.len() == items.len()
        &&& forall|i: int| 0 <= i < items.len() ==> #[trigger] character_item_read(r.characters@[i], items[i], main_label)
    } else {
        r.characters@.len() == 0
    }
    &&& opt_text(r.family) == match nick {
        Some(n) => if document_matches(&doc, n).len() == 0 {
            None
        } else {
            Some(whole_text_of(document_matches(&doc, n)[0]))
        },
        None => None,
    }
    &&& match lines {
        Some(l) => {
            &&& r.stats@.len() == document_matches(&doc, l).len()
            &&& forall|i: int| 0 <= i < r.stats@.len() ==> #[trigger] stat_item_read(r.stats@[i], document_matches(&doc, l)[i])
        },
        None => r.stats@.len() == 0,
    }
    &&& r.hidden == match lock {
        Some(l) => document_matches(&doc, l).len() > 0,
        None => false,
    }
    &&& if skill is Some && grade is Some && icon is Some {
        let items = document_matches(&doc, skill->0);
        &&& r.skills@.len() == items.len()
        &&& forall|i: int| 0 <= i < items.len() ==> #[trigger] skill_item_read(r.skills@[i], items[i], grade->0, icon->0)
    } else {
        r.skills@.len() == 0
    }
}

/// What a profile page holds, read from its HTML.
fn page_facts(html: &str) -> (r: PageFacts)
    ensures
        page_read(r, html@),
{
    let doc = parse_document(html);
    let mut characters: Vec<CharacterItem> = Vec::new();
    let list = parse_selector("ul.character_list > li");
    let main_label = parse_selector("span.selected_label");
    if list.is_some() && main_label.is_some() {
        let name_sel = parse_selector("p.character_name");
        let class_sel = parse_selector("p.character_info em:not(.icon_symbol)");
        let level_sel = parse_selector("p.character_info span:last-child");
        let image_sel = parse_selector("img.icon_character_image");
        let items = match &list {
            Some(l) => select_doc(&doc, l),
            None => Vec::new(),
        };
        let mut i: usize = 0;
        while i < items.len()
            invariant
                i <= items@.len(),
                characters@.len() == i,
                name_sel == parsed_selector("p.character_name"@),
                class_sel == parsed_selector("p.character_info em:not(.icon_symbol)"@),
                level_sel == parsed_selector("p.character_info span:last-child"@),
                image_sel == parsed_selector("img.icon_character_image"@),
                forall|j: int| 0 <= j < i ==> #[trigger] character_item_read(characters@[j], items@[j], main_label),
            decreases items@.len() - i,
        {
            let item = &items[i];
            characters.push(
                CharacterItem {
                    name: first_text(item, &name_sel),
                    main_label: first_text(item, &main_label),
                    class: first_text(item, &class_sel),
                    level: first_text(item, &level_sel),
                    image: first_attr(item, &image_sel, "src"),
                },
            );
            i += 1;
        }
    }
    let lock = parse_selector("em.lock");
    let family = match parse_selector("p.nick") {
        Some(nick) => {
            let found = select_doc(&doc, &nick);
            if found.len() == 0 {
                None
            } else {
                Some(whole_text(&found[0]))
            }
        },
        None => None,
    };
    let mut stats: Vec<StatItem> = Vec::new();
    match parse_selector("ul.line_list > li") {
        Some(line_sel) => {
            let desc_sel = parse_selector("span.desc");
            let items = select_doc(&doc, &line_sel);
            let mut i: usize = 0;
            while i < items.len()
                invariant
                    i <= items@.len(),
                    stats@.len() == i,
                    lock == parsed_selector("em.lock"@),
                    desc_sel == parsed_selector("span.desc"@),
                    forall|j: int| 0 <= j < i ==> #[trigger] stat_item_read(stats@[j], items@[j]),
                decreases items@.len() - i,
            {
                stats.push(StatItem { lock: first_text(&items[i], &lock), desc: first_text(&items[i], &desc_sel) });
                i += 1;
            }
        },
        None => {},
    }
    let hidden = match &lock {
        Some(l) => select_doc(&doc, l).len() > 0,
        None => false,
    };
    let mut skills: Vec<SkillItem> = Vec::new();
    let skill_sel = parse_selector("ul.character_spec > li");
    let level_sel = parse_selector("span.spec_level");
    let icon_sel = parse_selector("span.icon_spec");
    match (&skill_sel, &level_sel, &icon_sel) {
        (Some(sk), Some(lv), Some(ic)) => {
            let items = select_doc(&doc, sk);
            let mut i: usize = 0;
            while i < items.len()
                invariant
                    i <= items@.len(),
                    skills@.len() == i,
                    forall|j: int| 0 <= j < i ==> #[trigger] skill_item_read(skills@[j], items@[j], *lv, *ic),
                decreases items@.len() - i,
            {
                let icons = select_in(&items[i], ic);
                let grades = select_in(&items[i], lv);
                skills.push(
                    SkillItem {
                        icon_classes: if icons.len() == 0 {
                            None
                        } else {
                            Some(class_names(&icons[0]))
                        },
                        grade: if grades.len() == 0 {
                            None
                        } else {
                            Some(text_pieces(&grades[0]))
                        },
                    },
                );
                i += 1;
            }
        },
        _ => {},
    }
    PageFacts { characters, family, stats, hidden, skills }
}

/// The profile a page's HTML holds: what `profile_from` reads from what
/// the page shows, as `page_read` says the page is read from the HTML.
pub fn parse(html: &str) -> (r: Profile)
    ensures
        exists|page: PageFacts| page_read(page, html@) && #[trigger] read_from(r, page),
        r.url is None,
        r.fetched_at == 0,
{
    let page = page_facts(html);
    profile_from(&page)
}

/// Whether the profile a page holds has anything in it: a character or the
/// family's name.
pub open spec fn page_has_data(page: PageFacts) -> bool {
    characters_of(page.characters@).len() > 0 || text_view(opt_text(page.family)) is Some
}

/// Whether `anchors` are the profile links of the search results page
/// `html`: each element the selector for profile links matches, in order,
/// with its `href` and its whole text.
pub open spec fn anchors_read(anchors: Seq<Anchor>, html: Seq<char>) -> bool {
    match parsed_selector("a[href*='Profile/Adventure']"@) {
        Some(sel) => {
            let doc = parsed_document(html);
            let found = document_matches(&doc, sel);
            &&& anchors.len() == found.len()
            &&& forall|i: int| 0 <= i < found.len() ==> {
                &&& opt_text(#[trigger] anchors[i].href) == element_attr(found[i], "href"@)
                &&& anchors[i].text@ == whole_text_of(found[i])
            }
        },
        None => anchors.len() == 0,
    }
}

/// The profile a search results page links to for `family`: among the
/// page's profile links, the one named like the family, or else the first.
pub fn pick_profile_link(html: &str, family: &str) -> (r: Option<String>)
    ensures
        exists|anchors: Seq<Anchor>| anchors_read(anchors, html@) && opt_text(r) == #[trigger] pick_link_of(anchors, family@),
{
    let doc = parse_document(html);
    let mut anchors: Vec<Anchor> = Vec::new();
    match parse_selector("a[href*='Profile/Adventure']") {
        Some(sel) => {
            let found = select_doc(&doc, &sel);
            let mut i: usize = 0;
            while i < found.len()
                invariant
                    i <= found@.len(),
                    anchors@.len() == i,
                    forall|j: int| 0 <= j < i ==> {
                        &&& opt_text(#[trigger] anchors@[j].href) == element_attr(found@[j], "href"@)
                        &&& anchors@[j].text@ == whole_text_of(found@[j])
                    },
                decreases found@.len() - i,
            {
                anchors.push(Anchor { href: attr_value(&found[i], "href"), text: whole_text(&found[i]) });
                i += 1;
            }
        },
        None => {},
    }
    assert(anchors_read(anchors@, html@));
    pick_link(&anchors, family)
}

/// The profile page a search found for `family`, from the search results'
/// HTML.
pub fn resolve_from_results(html: &str, family: &str) -> (r: Result<String, String>)
    ensures
        exists|anchors: Seq<Anchor>| anchors_read(anchors, html@) && #[trigger] pick_link_of(anchors, family@) == match r {
            Ok(u) => Some(u@),
            Err(_) => None::<Seq<char>>,
        },
        r matches Err(e) ==> e@ == "No Profile found for "@ + family@ + ", is it public?"@,
{
    match pick_profile_link(html, family) {
        Some(u) => Ok(u),
        None => {
            let mut e = concat("No Profile found for ", family);
            push_text(&mut e, ", is it public?");
            Err(e)
        },
    }
}

/// What the log says of a profile that keeps details private: that they are
/// hidden, how to show them, and the profile's address; nothing when none
/// are hidden.
pub open spec fn hidden_note_of(p: Profile) -> Option<Seq<char>> {
    if p.hidden {
        Some(
            "Profile: Some Details are hidden, turn on Show Additional Info in the Privacy Settings of "@
                + match p.url {
                Some(u) => u@,
                None => "your Adventurer Profile"@,
            },
        )
    } else {
        None
    }
}

pub fn hidden_note(p: &Profile) -> (r: Option<String>)
    ensures
        opt_text(r) == hidden_note_of(*p),
{
    if !p.hidden {
        return None;
    }
    let lead = "Profile: Some Details are hidden, turn on Show Additional Info in the Privacy Settings of ";
    match &p.url {
        Some(u) => Some(concat(lead, u.as_str())),
        None => Some(concat(lead, "your Adventurer Profile")),
    }
}

/// Why a profile address cannot be fetched: it is blank.
pub fn check_profile_url(url: &str) -> (r: Result<(), String>)
    ensures
        r is Ok == !crate::text::is_blank(url@),
        r matches Err(e) ==> e@ == "No Profile URL set in the Config"@,
{
    if crate::text::blank(url) {
        Err(String::from_str("No Profile URL set in the Config"))
    } else {
        Ok(())
    }
}

/// The profile fetched from `url` at `now`, in Unix seconds, from the
/// page's HTML; a page with neither characters nor a family name is
/// refused, as it is likely not public.
pub fn profile_from_page(url: &str, html: &str, now: i64) -> (r: Result<Profile, String>)
    ensures
        match r {
            Ok(p) => {
                &&& exists|page: PageFacts| page_read(page, html@) && #[trigger] read_from(p, page)
                &&& opt_text(p.url) == Some(url@)
                &&& p.fetched_at == now
                &&& (p.characters@.len() > 0 || p.family is Some)
            },
            Err(e) => {
                &&& e@ == "The Profile Page had no readable Data, is it public?"@
                &&& exists|page: PageFacts| #![trigger page_read(page, html@)] page_read(page, html@)
                    && !page_has_data(page)
            },
        },
{
    let mut profile = parse(html);
    let ghost page = choose|page: PageFacts| page_read(page, html@) && read_from(profile, page);
    profile.url = Some(String::from_str(url));
    profile.fetched_at = now;
    assert(read_from(profile, page));
    if profile.characters.len() == 0 && profile.family.is_none() {
        return Err(String::from_str("The Profile Page had no readable Data, is it public?"));
    }
    Ok(profile)
}


/// An encoded value holds only what a URL carries as it is: unreserved
/// characters and `%` escapes.
pub proof fn lemma_encoded_safe(bs: Seq<u8>)
    ensures
        forall|i: int| 0 <= i < percent_encode(bs).len() ==> {
            let c = #[trigger] percent_encode(bs)[i];
            c == '%' || ('0' <= c && c <= '9') || ('A' <= c && c <= 'Z') || ('a' <= c && c <= 'z') || c == '-' || c == '_' || c == '.' || c == '~'
        },
    decreases bs.len(),
{
    if bs.len() > 0 {
        lemma_encoded_safe(bs.drop_last());
        let b = bs.last();
        let tail = if unreserved(b) { seq![b as char] } else { seq!['%', hex_digit(b as int / 16), hex_digit(b as int % 16)] };
        assert forall|i: int| 0 <= i < percent_encode(bs).len() implies {
            let c = #[trigger] percent_encode(bs)[i];
            c == '%' || ('0' <= c && c <= '9') || ('A' <= c && c <= 'Z') || ('a' <= c && c <= 'z') || c == '-' || c == '_' || c == '.' || c == '~'
        } by {
            let head = percent_encode(bs.drop_last());
            if i >= head.len() {
                let k = i - head.len();
                assert(percent_encode(bs)[i] == tail[k]);
                if unreserved(b) {
                    assert(tail[k] == b as char);
                } else {
                    assert(0 <= b as int / 16 < 16);
                    assert(0 <= b as int % 16 < 16);
                }
            } else {
                assert(percent_encode(bs)[i] == head[i]);
            }
        }
    }
}

} // verus!
