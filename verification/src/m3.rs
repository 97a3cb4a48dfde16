//! The theme's choices: the accent colour the scheme is seeded from,
//! light or dark, and the palette style.
use vstd::prelude::*;
use crate::config::Config;
use crate::text::{
    chars_of, eq_ignore_case, is_blank, is_space, lemma_trim_padded, lemma_upper_same, lower_ascii,
    text_eq_ignore_case, to_upper, trim, trimmed,
};

verus! {

/// The accent used when the configured one does not read: light coral.
pub const FALLBACK_SEED: u32 = 0xF08080;

pub open spec fn is_hex_digit(c: char) -> bool {
    ('0' <= c && c <= '9') || ('a' <= c && c <= 'f') || ('A' <= c && c <= 'F')
}

pub open spec fn hex_value(c: char) -> nat {
    if '0' <= c && c <= '9' {
        (c as nat - 48) as nat
    } else if 'a' <= c && c <= 'f' {
        (c as nat - 87) as nat
    } else {
        (c as nat - 55) as nat
    }
}

/// The number hex digits spell.
pub open spec fn hex_number(d: Seq<char>) -> nat
    decreases d.len(),
{
    if d.len() == 0 {
        0
    } else {
        hex_number(d.drop_last()) * 16 + hex_value(d.last())
    }
}

/// `s` without its leading `#`s.
pub open spec fn skip_hashes(s: Seq<char>) -> Seq<char>
    decreases s.len(),
{
    if s.len() > 0 && s[0] == '#' {
        skip_hashes(s.drop_first())
    } else {
        s
    }
}

/// A colour written as six hex digits, trimmed and with or without `#`s
/// before them.
pub open spec fn hex_of(text: Seq<char>) -> Option<u32> {
    let body = skip_hashes(trim(text));
    if body.len() == 6 && forall|i: int| 0 <= i < 6 ==> is_hex_digit(#[trigger] body[i]) {
        Some(hex_number(body) as u32)
    } else {
        None
    }
}

fn hex_digit_value(c: char) -> (r: u32)
    requires
        is_hex_digit(c),
    ensures
        r == hex_value(c),
        r < 16,
{
    if '0' <= c && c <= '9' {
        (c as u32) - 48
    } else if 'a' <= c && c <= 'f' {
        (c as u32) - 87
    } else {
        (c as u32) - 55
    }
}

/// Sixteen to the power `i`, for `i` up to six.
pub open spec fn hex_bound(i: int) -> int {
    if i == 0 {
        1
    } else if i == 1 {
        16
    } else if i == 2 {
        256
    } else if i == 3 {
        4096
    } else if i == 4 {
        65536
    } else if i == 5 {
        1048576
    } else {
        16777216
    }
}

/// A colour written as six hex digits, with or without `#`.
pub fn parse_hex(text: &str) -> (r: Option<u32>)
    ensures
        r == hex_of(text@),
{
    let t = trimmed(text);
    let v = chars_of(t.as_str());
    let mut start: usize = 0;
    assert(v@.skip(0) == v@);
    while start < v.len() && v[start] == '#'
        invariant
            start <= v@.len(),
            skip_hashes(trim(text@)) == skip_hashes(v@.skip(start as int)),
            v@ == trim(text@),
        decreases v@.len() - start,
    {
        assert(v@.skip(start as int).drop_first() == v@.skip(start + 1));
        start += 1;
    }
    let ghost body = v@.skip(start as int);
    assert(skip_hashes(body) == body);
    if v.len() - start != 6 {
        return None;
    }
    let mut value: u32 = 0;
    let mut i: usize = 0;
    while i < 6
        invariant
            i <= 6,
            body.len() == 6,
            v@.len() == start + 6,
            v.len() == start + 6,
            body == skip_hashes(trim(text@)),
            body == v@.skip(start as int),
            forall|j: int| 0 <= j < i ==> is_hex_digit(#[trigger] body[j]),
            value == hex_number(body.take(i as int)),
            value < hex_bound(i as int),
        decreases 6 - i,
    {
        let c = v[start + i];
        assert(body[i as int] == c);
        if !(('0' <= c && c <= '9') || ('a' <= c && c <= 'f') || ('A' <= c && c <= 'F')) {
            assert(!is_hex_digit(body[i as int]));
            return None;
        }
        let d = hex_digit_value(c);
        proof {
            assert(body.take(i + 1).drop_last() == body.take(i as int));
            assert(body.take(i + 1).last() == c);
        }
        value = value * 16 + d;
        i += 1;
    }
    assert(body.take(6) == body);
    Some(value)
}

/// The colour the scheme is seeded from: the configured accent, or the
/// fallback when it does not read.
pub fn seed(config: &Config) -> (r: u32)
    ensures
        r == match hex_of(config.theme.accent@) {
            Some(v) => v,
            None => FALLBACK_SEED,
        },
{
    match parse_hex(config.theme.accent.as_str()) {
        Some(v) => v,
        None => FALLBACK_SEED,
    }
}

/// Whether the windows are dark: unless the mode is `light`, ASCII case aside.
pub fn dark(config: &Config) -> (r: bool)
    ensures
        r == !eq_ignore_case(config.theme.mode@, "light"@),
{
    !text_eq_ignore_case(config.theme.mode.as_str(), "light")
}

/// How the scheme's colours spread from the seed.
#[derive(Debug, Clone, Copy, PartialEq, Eq, Structural)]
pub enum Palette {
    TonalSpot,
    Neutral,
    Monochrome,
    Vibrant,
    Expressive,
    Rainbow,
    FruitSalad,
}

/// Every palette, in the order they are offered.
pub open spec fn all_palettes() -> Seq<Palette> {
    seq![
        Palette::TonalSpot,
        Palette::Neutral,
        Palette::Monochrome,
        Palette::Vibrant,
        Palette::Expressive,
        Palette::Rainbow,
        Palette::FruitSalad,
    ]
}

pub open spec fn palette_key(p: Palette) -> Seq<char> {
    match p {
        Palette::TonalSpot => "tonal_spot"@,
        Palette::Neutral => "neutral"@,
        Palette::Monochrome => "monochrome"@,
        Palette::Vibrant => "vibrant"@,
        Palette::Expressive => "expressive"@,
        Palette::Rainbow => "rainbow"@,
        Palette::FruitSalad => "fruit_salad"@,
    }
}

/// Whether `i` is the first palette whose key is `key`, ASCII case aside.
pub open spec fn first_palette(key: Seq<char>, i: int) -> bool {
    &&& 0 <= i < 7
    &&& eq_ignore_case(palette_key(all_palettes()[i]), key)
    &&& forall|j: int| 0 <= j < i ==> !eq_ignore_case(palette_key(#[trigger] all_palettes()[j]), key)
}

/// The palette a setting names: the first whose key is the trimmed text,
/// ASCII case aside.
pub open spec fn palette_of(text: Seq<char>) -> Option<Palette> {
    if exists|i: int| first_palette(trim(text), i) {
        Some(all_palettes()[choose|i: int| first_palette(trim(text), i)])
    } else {
        None
    }
}

/// Where a palette stands among all of them.
pub open spec fn palette_index(p: Palette) -> int {
    match p {
        Palette::TonalSpot => 0,
        Palette::Neutral => 1,
        Palette::Monochrome => 2,
        Palette::Vibrant => 3,
        Palette::Expressive => 4,
        Palette::Rainbow => 5,
        Palette::FruitSalad => 6,
    }
}

/// A setting that is a palette's own key, in any ASCII case and with spaces
/// around it, names that palette.
pub proof fn lemma_palette_key_reads_back(p: Palette, text: Seq<char>)
    requires
        eq_ignore_case(trim(text), palette_key(p)),
    ensures
        palette_of(text) == Some(p),
{
    reveal_strlit("tonal_spot");
    reveal_strlit("neutral");
    reveal_strlit("monochrome");
    reveal_strlit("vibrant");
    reveal_strlit("expressive");
    reveal_strlit("rainbow");
    reveal_strlit("fruit_salad");
    let t = trim(text);
    let k = palette_index(p);
    assert(all_palettes()[k] == p);
    assert forall|j: int| 0 <= j < 7 && j != k implies !eq_ignore_case(palette_key(#[trigger] all_palettes()[j]), t) by {
        let q = all_palettes()[j];
        if eq_ignore_case(palette_key(q), t) {
            assert(lower_ascii(palette_key(q)[0]) == lower_ascii(t[0]));
            assert(lower_ascii(palette_key(p)[0]) == lower_ascii(t[0]));
            assert(lower_ascii(palette_key(q)[1]) == lower_ascii(t[1]));
            assert(lower_ascii(palette_key(p)[1]) == lower_ascii(t[1]));
        }
    }
    assert(first_palette(t, k));
    let c = choose|i: int| first_palette(t, i);
    assert(c == k) by {
        if c != k {
            assert(first_palette(t, c));
        }
    }
}

/// Each palette's key names it, as written and also raised to upper case
/// between spaces; a name that is no palette's key names none.
pub proof fn lemma_palette_keys_read_back(p: Palette)
    ensures
        palette_of(palette_key(p)) == Some(p),
        palette_of(seq![' ', ' '] + to_upper(palette_key(p)) + seq![' ', ' ']) == Some(p),
        palette_of("no_such_palette"@) is None,
{
    reveal_strlit("tonal_spot");
    reveal_strlit("neutral");
    reveal_strlit("monochrome");
    reveal_strlit("vibrant");
    reveal_strlit("expressive");
    reveal_strlit("rainbow");
    reveal_strlit("fruit_salad");
    reveal_strlit("no_such_palette");
    let k = palette_key(p);
    let none = Seq::<char>::empty();
    assert(is_blank(none));
    assert(none + k + none =~= k);
    lemma_trim_padded(none, k, none);
    lemma_palette_key_reads_back(p, k);
    let u = to_upper(k);
    lemma_upper_same(k);
    assert(is_space(u[0]) <==> is_space(k[0]));
    assert(is_space(u.last()) <==> is_space(k.last()));
    let two = seq![' ', ' '];
    assert(is_blank(two));
    lemma_trim_padded(two, u, two);
    lemma_palette_key_reads_back(p, two + u + two);
    let n = "no_such_palette"@;
    assert(none + n + none =~= n);
    lemma_trim_padded(none, n, none);
    assert(!exists|i: int| first_palette(trim(n), i)) by {
        if exists|i: int| first_palette(trim(n), i) {
            let i = choose|i: int| first_palette(trim(n), i);
            assert(palette_key(all_palettes()[i]).len() != n.len());
        }
    }
}

impl Palette {
    /// Every palette, in the order they are offered.
    pub fn all() -> (r: Vec<Palette>)
        ensures
            r@ == all_palettes(),
    {
        let r = vec![
            Palette::TonalSpot,
            Palette::Neutral,
            Palette::Monochrome,
            Palette::Vibrant,
            Palette::Expressive,
            Palette::Rainbow,
            Palette::FruitSalad,
        ];
        assert(r@ == all_palettes());
        r
    }

    /// The palette's name in the config.
    pub fn key(self) -> (r: &'static str)
        ensures
            r@ == palette_key(self),
    {
        match self {
            Palette::TonalSpot => "tonal_spot",
            Palette::Neutral => "neutral",
            Palette::Monochrome => "monochrome",
            Palette::Vibrant => "vibrant",
            Palette::Expressive => "expressive",
            Palette::Rainbow => "rainbow",
            Palette::FruitSalad => "fruit_salad",
        }
    }

    /// The palette's name on screen.
    pub fn label(self) -> (r: &'static str)
        ensures
            r@ == match self {
                Palette::TonalSpot => "Tonal Spot"@,
                Palette::Neutral => "Neutral"@,
                Palette::Monochrome => "Monochrome"@,
                Palette::Vibrant => "Vibrant"@,
                Palette::Expressive => "Expressive"@,
                Palette::Rainbow => "Rainbow"@,
                Palette::FruitSalad => "Fruit Salad"@,
            },
    {
        match self {
            Palette::TonalSpot => "Tonal Spot",
            Palette::Neutral => "Neutral",
            Palette::Monochrome => "Monochrome",
            Palette::Vibrant => "Vibrant",
            Palette::Expressive => "Expressive",
            Palette::Rainbow => "Rainbow",
            Palette::FruitSalad => "Fruit Salad",
        }
    }

    /// The palette a setting names.
    pub fn parse(text: &str) -> (r: Option<Palette>)
        ensures
            r == palette_of(text@),
    {
        let key = trimmed(text);
        let all = Palette::all();
        let mut i: usize = 0;
        while i < all.len()
            invariant
                i <= 7,
                all@ == all_palettes(),
                key@ == trim(text@),
                forall|j: int| 0 <= j < i ==> !eq_ignore_case(palette_key(#[trigger] all_palettes()[j]), trim(text@)),
            decreases 7 - i,
        {
            if text_eq_ignore_case(all[i].key(), key.as_str()) {
                proof {
                    assert(first_palette(trim(text@), i as int));
                    let k = choose|k: int| first_palette(trim(text@), k);
                    if k < i {
                        assert(!eq_ignore_case(palette_key(all_palettes()[k]), trim(text@)));
                    } else if k > i {
                        assert(!eq_ignore_case(palette_key(all_palettes()[i as int]), trim(text@)));
                    }
                }
                return Some(all[i]);
            }
            i += 1;
        }
        None
    }
}

/// The palette the config names, or Tonal Spot.
pub fn palette(config: &Config) -> (r: Palette)
    ensures
        r == match palette_of(config.theme.palette@) {
            Some(p) => p,
            None => Palette::TonalSpot,
        },
{
    match Palette::parse(config.theme.palette.as_str()) {
        Some(p) => p,
        None => Palette::TonalSpot,
    }
}

} // verus!
