//! The game's regions, keyed by the code that `service.ini` names them by.
use vstd::prelude::*;
use crate::keymap::{KeyMap, text_eq};
use crate::text::{
    eq_ignore_case, is_blank, is_space, lemma_trim_ends, lemma_trim_padded, lemma_upper_same, lower_ascii,
    text_eq_ignore_case, to_upper, trim, trimmed,
};

verus! {

/// A region: its name, the address its profiles are searched at, and the
/// names of its servers.
pub struct Region {
    pub name: String,
    pub search: String,
    pub servers: Vec<String>,
}

/// Strings as text.
pub open spec fn texts(v: Seq<String>) -> Seq<Seq<char>> {
    Seq::new(v.len(), |i: int| v[i]@)
}

/// The servers of a region, as text.
pub open spec fn servers_view(r: Region) -> Seq<Seq<char>> {
    texts(r.servers@)
}

/// Every known region, by code, in code order.
pub struct Regions {
    pub table: KeyMap<Region>,
}

/// Whether `i` is the first region whose code is `code`, ASCII case aside.
pub open spec fn first_code(regions: Regions, code: Seq<char>, i: int) -> bool {
    &&& 0 <= i < regions.table.items().len()
    &&& eq_ignore_case(regions.table.key(i), code)
    &&& forall|j: int| 0 <= j < i ==> !eq_ignore_case(#[trigger] regions.table.key(j), code)
}

/// The region a code stands for: the first, in code order, whose code is
/// `code` trimmed, ASCII case aside.
pub open spec fn region_of(regions: Regions, code: Seq<char>) -> Option<Region> {
    if exists|i: int| first_code(regions, trim(code), i) {
        Some(regions.table.value(choose|i: int| first_code(regions, trim(code), i)))
    } else {
        None
    }
}

/// Looking a code up goes by the code alone, trimmed and ASCII case aside:
/// two codes that are the same that way find the same region, and a region
/// found is one whose code is the trimmed code, ASCII case aside.
pub proof fn lemma_lookup_ignores_space_and_case(regions: Regions, a: Seq<char>, b: Seq<char>)
    requires
        eq_ignore_case(trim(a), trim(b)),
    ensures
        region_of(regions, a) == region_of(regions, b),
        region_of(regions, a) matches Some(g) ==> exists|i: int|
            0 <= i < regions.table.items().len() && eq_ignore_case(#[trigger] regions.table.key(i), trim(a))
                && regions.table.value(i) == g,
{
    let ta = trim(a);
    let tb = trim(b);
    assert forall|k: Seq<char>| eq_ignore_case(k, ta) <==> eq_ignore_case(k, tb) by {
        if eq_ignore_case(k, ta) {
            assert forall|i: int| 0 <= i < k.len() implies lower_ascii(#[trigger] k[i]) == lower_ascii(tb[i]) by {
                assert(lower_ascii(k[i]) == lower_ascii(ta[i]));
                assert(lower_ascii(ta[i]) == lower_ascii(tb[i]));
            }
        }
        if eq_ignore_case(k, tb) {
            assert forall|i: int| 0 <= i < k.len() implies lower_ascii(#[trigger] k[i]) == lower_ascii(ta[i]) by {
                assert(lower_ascii(k[i]) == lower_ascii(tb[i]));
                assert(lower_ascii(ta[i]) == lower_ascii(tb[i]));
            }
        }
    }
    assert forall|i: int| first_code(regions, ta, i) <==> first_code(regions, tb, i) by {
        assert(eq_ignore_case(regions.table.key(i), ta) <==> eq_ignore_case(regions.table.key(i), tb));
    }
    if exists|i: int| first_code(regions, ta, i) {
        let ca = choose|i: int| first_code(regions, ta, i);
        assert(first_code(regions, tb, ca));
        let cb = choose|i: int| first_code(regions, tb, i);
        assert(ca == cb) by {
            if ca < cb {
                assert(!eq_ignore_case(regions.table.key(ca), tb));
            } else if cb < ca {
                assert(!eq_ignore_case(regions.table.key(cb), ta));
                assert(first_code(regions, ta, cb));
            }
        }
    } else {
        assert(!exists|i: int| first_code(regions, tb, i)) by {
            if exists|i: int| first_code(regions, tb, i) {
                let cb = choose|i: int| first_code(regions, tb, i);
                assert(first_code(regions, ta, cb));
            }
        }
    }
}

/// A code finds the same region as the code trimmed, raised to upper case
/// and put between spaces.
pub proof fn lemma_padded_upper_code(regions: Regions, code: Seq<char>)
    ensures
        region_of(regions, code) == region_of(regions, seq![' '] + to_upper(trim(code)) + seq![' ']),
{
    let t = trim(code);
    let u = to_upper(t);
    let padded = seq![' '] + u + seq![' '];
    lemma_trim_ends(code);
    lemma_upper_same(t);
    if u.len() > 0 {
        assert(is_space(u[0]) <==> is_space(t[0]));
        assert(is_space(u.last()) <==> is_space(t.last()));
    }
    assert(is_blank(seq![' ']));
    lemma_trim_padded(seq![' '], u, seq![' ']);
    assert(eq_ignore_case(t, u)) by {
        assert forall|i: int| 0 <= i < t.len() implies lower_ascii(#[trigger] t[i]) == lower_ascii(u[i]) by {
            assert(lower_ascii(u[i]) == lower_ascii(t[i]));
        }
    }
    lemma_lookup_ignores_space_and_case(regions, code, padded);
}

/// The name a code is shown by: its region's name, or the code itself.
pub open spec fn region_name_of(regions: Regions, code: Seq<char>) -> Seq<char> {
    match region_of(regions, code) {
        Some(r) => r.name@,
        None => code,
    }
}

/// The server names of all regions in code order, each region's in order.
pub open spec fn all_servers(items: Seq<(String, Region)>) -> Seq<Seq<char>>
    decreases items.len(),
{
    if items.len() == 0 {
        seq![]
    } else {
        all_servers(items.drop_last()) + servers_view(items.last().1)
    }
}

/// `s` with each entry kept only where it first occurs.
pub open spec fn first_each(s: Seq<Seq<char>>) -> Seq<Seq<char>>
    decreases s.len(),
{
    if s.len() == 0 {
        seq![]
    } else {
        let before = first_each(s.drop_last());
        if before.contains(s.last()) {
            before
        } else {
            before.push(s.last())
        }
    }
}

/// The server names to offer for a region code: the region's own, or,
/// without a known region, every region's, each once.
pub open spec fn servers_of(regions: Regions, code: Option<Seq<char>>) -> Seq<Seq<char>> {
    match code {
        Some(c) => match region_of(regions, c) {
            Some(r) => servers_view(r),
            None => first_each(all_servers(regions.table.items())),
        },
        None => first_each(all_servers(regions.table.items())),
    }
}

fn copy_names(names: &Vec<String>) -> (r: Vec<String>)
    ensures
        texts(r@) == texts(names@),
{
    let mut out: Vec<String> = Vec::new();
    let mut i: usize = 0;
    while i < names.len()
        invariant
            i <= names@.len(),
            texts(out@) == texts(names@.take(i as int)),
        decreases names@.len() - i,
    {
        let ghost prev = out@;
        assert(texts(prev).len() == prev.len());
        assert(prev.len() == i);
        let item = names[i].clone();
        out.push(item);
        proof {
            assert(out@.len() == i + 1);
            assert(out@[i as int] == names@[i as int]);
            assert forall|j: int| 0 <= j < i + 1 implies #[trigger] texts(out@)[j] == texts(
                names@.take(i + 1),
            )[j] by {
                if j < i {
                    assert(texts(prev)[j] == texts(names@.take(i as int))[j]);
                }
            }
            assert(texts(out@) =~= texts(names@.take(i + 1)));
        }
        i += 1;
    }
    assert(names@.take(names@.len() as int) == names@);
    out
}

impl Regions {
    /// No regions.
    pub fn new() -> (r: Regions)
        ensures
            r.table.items().len() == 0,
    {
        Regions { table: KeyMap::new() }
    }

    /// The region a code stands for, with the code trimmed and ASCII case
    /// aside; the first in code order when several match.
    pub fn get(&self, code: &str) -> (r: Option<&Region>)
        ensures
            match r {
                Some(reg) => region_of(*self, code@) == Some(*reg),
                None => region_of(*self, code@) is None,
            },
    {
        let wanted = trimmed(code);
        let n = self.table.len();
        let mut i: usize = 0;
        while i < n
            invariant
                i <= n == self.table.items().len(),
                wanted@ == trim(code@),
                forall|j: int| 0 <= j < i ==> !eq_ignore_case(#[trigger] self.table.key(j), trim(code@)),
            decreases n - i,
        {
            if text_eq_ignore_case(self.table.key_at(i).as_str(), wanted.as_str()) {
                proof {
                    assert(first_code(*self, trim(code@), i as int));
                    let k = choose|k: int| first_code(*self, trim(code@), k);
                    if k < i {
                        assert(!eq_ignore_case(self.table.key(k), trim(code@)));
                    } else if k > i {
                        assert(!eq_ignore_case(self.table.key(i as int), trim(code@)));
                    }
                }
                return Some(self.table.value_at(i));
            }
            i += 1;
        }
        None
    }

    /// The name a code is shown by: its region's name, or, for a code not
    /// known here, the code itself.
    pub fn name(&self, code: &str) -> (r: String)
        ensures
            r@ == region_name_of(*self, code@),
    {
        match self.get(code) {
            Some(region) => region.name.clone(),
            None => String::from_str(code),
        }
    }

    /// The server names to offer: the region's own, or, without a known
    /// region, every region's names, each once.
    pub fn servers(&self, code: Option<&str>) -> (r: Vec<String>)
        ensures
            texts(r@) == servers_of(
                *self,
                match code {
                    Some(c) => Some(c@),
                    None => None,
                },
            ),
    {
        let found = match code {
            Some(c) => self.get(c),
            None => None,
        };
        match found {
            Some(region) => copy_names(&region.servers),
            None => {
                let mut seen: Vec<String> = Vec::new();
                let n = self.table.len();
                let mut i: usize = 0;
                while i < n
                    invariant
                        i <= n == self.table.items().len(),
                        texts(seen@) == first_each(
                            all_servers(self.table.items().take(i as int)),
                        ),
                    decreases n - i,
                {
                    let names = &self.table.value_at(i).servers;
                    let ghost base = all_servers(self.table.items().take(i as int));
                    let mut j: usize = 0;
                    while j < names.len()
                        invariant
                            j <= names@.len(),
                            *names == self.table.items()[i as int].1.servers,
                            base == all_servers(self.table.items().take(i as int)),
                            texts(seen@) == first_each(
                                base + servers_view(self.table.items()[i as int].1).take(j as int),
                            ),
                        decreases names@.len() - j,
                    {
                        let name = &names[j];
                        let ghost sv = servers_view(self.table.items()[i as int].1);
                        let ghost before = base + sv.take(j as int);
                        proof {
                            assert(before + seq![sv[j as int]] == base + sv.take(j + 1));
                            assert((base + sv.take(j + 1)).drop_last() == before);
                            assert((base + sv.take(j + 1)).last() == name@);
                        }
                        let mut present = false;
                        let mut k: usize = 0;
                        while k < seen.len()
                            invariant
                                k <= seen@.len(),
                                present == exists|m: int| 0 <= m < k && #[trigger] seen@[m]@ == name@,
                            decreases seen@.len() - k,
                        {
                            if text_eq(seen[k].as_str(), name.as_str()) {
                                present = true;
                            }
                            k += 1;
                        }
                        proof {
                            let sv2 = texts(seen@);
                            if present {
                                let m = choose|m: int| 0 <= m < seen@.len() && #[trigger] seen@[m]@ == name@;
                                assert(sv2[m] == name@);
                                assert(sv2.contains(name@));
                            } else {
                                assert(!sv2.contains(name@)) by {
                                    if sv2.contains(name@) {
                                        let m = choose|m: int| 0 <= m < sv2.len() && sv2[m] == name@;
                                        assert(seen@[m]@ == name@);
                                    }
                                }
                            }
                        }
                        if !present {
                            seen.push(name.clone());
                            proof {
                                assert(texts(seen@) =~= first_each(before).push(name@));
                            }
                        }
                        j += 1;
                    }
                    proof {
                        let items = self.table.items();
                        assert(servers_view(items[i as int].1).take(names@.len() as int) == servers_view(items[i as int].1));
                        assert(items.take(i + 1).drop_last() == items.take(i as int));
                        assert(items.take(i + 1).last() == items[i as int]);
                    }
                    i += 1;
                }
                assert(self.table.items().take(n as int) == self.table.items());
                seen
            },
        }
    }
}


/// Each server name is offered once.
pub proof fn lemma_first_each_distinct(s: Seq<Seq<char>>)
    ensures
        forall|i: int, j: int| 0 <= i < j < first_each(s).len() ==> first_each(s)[i] != first_each(s)[j],
        forall|x: Seq<char>| s.contains(x) <==> first_each(s).contains(x),
    decreases s.len(),
{
    if s.len() > 0 {
        lemma_first_each_distinct(s.drop_last());
        let before = first_each(s.drop_last());
        let last = s.last();
        let out = first_each(s);
        assert forall|x: Seq<char>| s.contains(x) <==> out.contains(x) by {
            if s.contains(x) {
                let i = choose|i: int| 0 <= i < s.len() && s[i] == x;
                if i < s.len() - 1 {
                    assert(s.drop_last()[i] == x);
                    assert(s.drop_last().contains(x));
                    assert(before.contains(x));
                    let j = choose|j: int| 0 <= j < before.len() && before[j] == x;
                    assert(out[j] == x);
                } else if before.contains(x) {
                    assert(out == before);
                } else {
                    assert(out[before.len() as int] == x);
                }
            }
            if out.contains(x) {
                let i = choose|i: int| 0 <= i < out.len() && out[i] == x;
                if i < before.len() {
                    assert(before[i] == x);
                    assert(before.contains(x));
                    assert(s.drop_last().contains(x));
                    let j = choose|j: int| 0 <= j < s.drop_last().len() && s.drop_last()[j] == x;
                    assert(s[j] == x);
                } else {
                    assert(s[s.len() - 1] == x);
                }
            }
        }
    }
}

} // verus!
