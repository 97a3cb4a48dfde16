//! Which of the shipped languages the windows speak.
use vstd::prelude::*;
use crate::keymap::text_eq;
use crate::text::{chars_of, eq_ignore_case, string_of_range, text_eq_ignore_case, trim, trimmed};

verus! {

/// The language setting that follows the system's.
pub open spec fn auto_setting() -> Seq<char> {
    "auto"@
}

/// The language used when none of the wanted ones is shipped.
pub open spec fn fallback_locale() -> Seq<char> {
    "en"@
}

/// A language tag's base: what comes before its first `-` or `_`.
pub open spec fn base_of(tag: Seq<char>) -> Seq<char> {
    if exists|i: int| 0 <= i < tag.len() && (tag[i] == '-' || tag[i] == '_') {
        tag.take(choose|i: int| 0 <= i < tag.len() && (tag[i] == '-' || tag[i] == '_') && forall|j: int| 0 <= j < i ==> !(tag[j] == '-' || tag[j] == '_'))
    } else {
        tag
    }
}

/// The first shipped locale that is `candidate`, ASCII case aside.
pub open spec fn locale_matching(locales: Seq<String>, candidate: Seq<char>) -> Option<Seq<char>> {
    if exists|i: int| 0 <= i < locales.len() && eq_ignore_case(locales[i]@, candidate) {
        Some(locales[choose|i: int| 0 <= i < locales.len() && eq_ignore_case(locales[i]@, candidate) && forall|j: int| 0 <= j < i ==> !eq_ignore_case(#[trigger] locales[j]@, candidate)]@)
    } else {
        None
    }
}

/// The shipped locale a tag asks for: the tag itself, or its base, so
/// `en-US` falls back to `en`.
pub open spec fn supported_of(locales: Seq<String>, tag: Seq<char>) -> Option<Seq<char>> {
    match locale_matching(locales, tag) {
        Some(l) => Some(l),
        None => locale_matching(locales, base_of(tag)),
    }
}

fn matching(locales: &Vec<String>, candidate: &str) -> (r: Option<String>)
    ensures
        match r {
            Some(l) => locale_matching(locales@, candidate@) == Some(l@),
            None => locale_matching(locales@, candidate@) is None,
        },
{
    let mut i: usize = 0;
    while i < locales.len()
        invariant
            i <= locales@.len(),
            forall|j: int| 0 <= j < i ==> !eq_ignore_case(#[trigger] locales@[j]@, candidate@),
        decreases locales@.len() - i,
    {
        if text_eq_ignore_case(locales[i].as_str(), candidate) {
            proof {
                let k = choose|k: int| 0 <= k < locales@.len() && eq_ignore_case(locales@[k]@, candidate@) && forall|j: int| 0 <= j < k ==> !eq_ignore_case(#[trigger] locales@[j]@, candidate@);
                if k < i {
                    assert(!eq_ignore_case(locales@[k]@, candidate@));
                } else if k > i {
                    assert(!eq_ignore_case(locales@[i as int]@, candidate@));
                }
            }
            return Some(locales[i].clone());
        }
        i += 1;
    }
    None
}

/// The shipped locale a language tag asks for, if any.
pub fn supported(tag: &str, locales: &Vec<String>) -> (r: Option<String>)
    ensures
        match r {
            Some(l) => supported_of(locales@, tag@) == Some(l@),
            None => supported_of(locales@, tag@) is None,
        },
{
    match matching(locales, tag) {
        Some(l) => return Some(l),
        None => {},
    }
    let v = chars_of(tag);
    let mut end: usize = 0;
    while end < v.len() && v[end] != '-' && v[end] != '_'
        invariant
            end <= v@.len(),
            forall|j: int| 0 <= j < end ==> !(v@[j] == '-' || v@[j] == '_'),
        decreases v@.len() - end,
    {
        end += 1;
    }
    let base = string_of_range(v.as_slice(), 0, end);
    proof {
        if end < v@.len() {
            let k = choose|i: int| 0 <= i < tag@.len() && (tag@[i] == '-' || tag@[i] == '_') && forall|j: int| 0 <= j < i ==> !(tag@[j] == '-' || tag@[j] == '_');
            assert(0 <= (end as int) < tag@.len() && (tag@[end as int] == '-' || tag@[end as int] == '_'));
            if k < end {
                assert(!(tag@[k] == '-' || tag@[k] == '_'));
            } else if k > end {
                assert(!(tag@[end as int] == '-' || tag@[end as int] == '_'));
            }
        } else {
            assert(v@.subrange(0, end as int) == v@);
        }
        assert(base@ == base_of(tag@));
    }
    matching(locales, base.as_str())
}

/// The languages wanted: the system's, when the setting is blank or
/// `auto`, else the setting, trimmed.
pub open spec fn wanted_of(language: Seq<char>, system: Seq<String>) -> Seq<Seq<char>> {
    let chosen = trim(language);
    if chosen.len() == 0 || chosen == auto_setting() {
        Seq::new(system.len(), |i: int| system[i]@)
    } else {
        seq![chosen]
    }
}

/// The locale used: the first wanted language that is shipped, or English.
pub open spec fn locale_from(wanted: Seq<Seq<char>>, locales: Seq<String>) -> Seq<char>
    decreases wanted.len(),
{
    if wanted.len() == 0 {
        fallback_locale()
    } else {
        match supported_of(locales, wanted[0]) {
            Some(l) => l,
            None => locale_from(wanted.drop_first(), locales),
        }
    }
}

/// The locale the windows speak, from the language setting, the system's
/// preferred languages and the shipped locales.
pub fn choose_locale(language: &str, system: &Vec<String>, locales: &Vec<String>) -> (r: String)
    ensures
        r@ == locale_from(wanted_of(language@, system@), locales@),
{
    let chosen = trimmed(language);
    proof { reveal_strlit("auto"); reveal_strlit("en"); }
    let follow = chosen.as_str().is_empty() || text_eq(chosen.as_str(), "auto");
    if !follow {
        assert(wanted_of(language@, system@) == seq![chosen@]);
        assert(wanted_of(language@, system@).drop_first() =~= Seq::<Seq<char>>::empty());
        assert(locale_from(Seq::<Seq<char>>::empty(), locales@) == fallback_locale());
        assert(seq![chosen@][0] == chosen@);
        return match supported(chosen.as_str(), locales) {
            Some(l) => l,
            None => String::from_str("en"),
        };
    }
    let ghost wanted = wanted_of(language@, system@);
    assert(wanted == Seq::new(system@.len(), |k: int| system@[k]@));
    let mut i: usize = 0;
    assert(wanted.skip(0) == wanted);
    while i < system.len()
        invariant
            i <= system@.len(),
            wanted == Seq::new(system@.len(), |k: int| system@[k]@),
            wanted == wanted_of(language@, system@),
            locale_from(wanted, locales@) == locale_from(wanted.skip(i as int), locales@),
        decreases system@.len() - i,
    {
        proof {
            assert(wanted.skip(i as int)[0] == system@[i as int]@);
            assert(wanted.skip(i as int).drop_first() == wanted.skip(i + 1));
        }
        match supported(system[i].as_str(), locales) {
            Some(l) => return l,
            None => {},
        }
        i += 1;
    }
    assert(wanted.skip(i as int).len() == 0);
    String::from_str("en")
}

} // verus!
