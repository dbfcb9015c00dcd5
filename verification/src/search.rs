use vstd::prelude::*;

use crate::db::LocalDatabase;
use crate::logs::{contains_ci, lower_char, lower_spec, str_contains_ci};
use crate::mods::UnsafeLocalMod;
use vstd::string::StrSliceExecFns;

verus! {

/// Case-insensitive equality of two texts.
pub open spec fn eq_ci(a: Seq<char>, b: Seq<char>) -> bool {
    lower_spec(a) == lower_spec(b)
}

/// Whether `p` is a case-insensitive prefix of `s`.
pub open spec fn prefix_ci(s: Seq<char>, p: Seq<char>) -> bool {
    s.len() >= p.len() && lower_spec(s).take(p.len() as int) == lower_spec(p)
}

/// Case-insensitive string equality.
pub fn str_eq_ci(a: &str, b: &str) -> (r: bool)
    ensures
        r == eq_ci(a@, b@),
{
    let alen = a.unicode_len();
    let blen = b.unicode_len();
    if alen != blen {
        proof {
            assert(lower_spec(a@).len() != lower_spec(b@).len());
        }
        return false;
    }
    let mut i: usize = 0;
    while i < alen
        invariant
            alen == a@.len(),
            alen == b@.len(),
            0 <= i <= alen,
            forall|j: int| 0 <= j < i ==> lower_spec(a@)[j] == lower_spec(b@)[j],
        decreases alen - i,
    {
        if lower_char(a.get_char(i)) != lower_char(b.get_char(i)) {
            proof {
                assert(lower_spec(a@)[i as int] != lower_spec(b@)[i as int]);
            }
            return false;
        }
        proof {
            assert(lower_spec(a@)[i as int] == lower_spec(b@)[i as int]);
        }
        i = i + 1;
    }
    proof {
        assert(lower_spec(a@) =~= lower_spec(b@));
    }
    true
}

/// Case-insensitive prefix test.
pub fn str_prefix_ci(s: &str, p: &str) -> (r: bool)
    ensures
        r == prefix_ci(s@, p@),
{
    let slen = s.unicode_len();
    let plen = p.unicode_len();
    if plen > slen {
        return false;
    }
    let mut i: usize = 0;
    while i < plen
        invariant
            slen == s@.len(),
            plen == p@.len(),
            plen <= slen,
            0 <= i <= plen,
            forall|j: int|
                0 <= j < i ==> lower_spec(s@).take(p@.len() as int)[j] == lower_spec(p@)[j],
        decreases plen - i,
    {
        if lower_char(s.get_char(i)) != lower_char(p.get_char(i)) {
            proof {
                assert(lower_spec(s@).take(p@.len() as int)[i as int] != lower_spec(
                    p@,
                )[i as int]);
            }
            return false;
        }
        proof {
            assert(lower_spec(s@).take(p@.len() as int)[i as int] == lower_spec(p@)[i as int]);
        }
        i = i + 1;
    }
    proof {
        assert(lower_spec(s@).take(p@.len() as int) =~= lower_spec(p@));
    }
    true
}

/// The display name a search matches against.
pub open spec fn display_of(e: UnsafeLocalMod) -> Seq<char> {
    match e {
        UnsafeLocalMod::Valid(m) => m.manifest.name@,
        UnsafeLocalMod::Invalid(f) => f.display_path@,
    }
}

/// The fixed tie-break of a search hit: an exact unique-name match ranks
/// before a display-name prefix match, which ranks before any other
/// substring match over either name; three means no match at all.
pub open spec fn search_rank(e: UnsafeLocalMod, q: Seq<char>) -> int {
    if eq_ci(e.key(), q) {
        0
    } else if prefix_ci(display_of(e), q) {
        1
    } else if contains_ci(e.key(), q) || contains_ci(display_of(e), q) {
        2
    } else {
        3
    }
}

/// The rank of one entry against the query.
fn entry_rank(e: &UnsafeLocalMod, query: &str) -> (r: u8)
    ensures
        r as int == search_rank(*e, query@),
{
    let unique = e.get_unique_name();
    let name = e.get_name();
    if str_eq_ci(unique.as_str(), query) {
        0
    } else if str_prefix_ci(name.as_str(), query) {
        1
    } else if str_contains_ci(unique.as_str(), query) || str_contains_ci(name.as_str(), query) {
        2
    } else {
        3
    }
}

impl LocalDatabase {
    /// Appends, in database order, the indices of the entries whose rank is
    /// exactly `t`.
    fn collect_rank(&self, query: &str, t: u8, acc: &mut Vec<usize>)
        requires
            t < 3,
            forall|k: int| 0 <= k < old(acc)@.len() ==> (#[trigger] old(acc)@[k]) < self.mods@.len(),
            forall|k: int|
                0 <= k < old(acc)@.len() ==> search_rank(
                    self.mods@[old(acc)@[k] as int],
                    query@,
                ) < t as int,
            forall|a: int, b: int|
                0 <= a < b < old(acc)@.len() ==> (#[trigger] old(acc)@[a]) != (#[trigger] old(acc)@[b]),
            forall|i: int|
                0 <= i < self.mods@.len() ==> (old(acc)@.contains(i as usize) <==> search_rank(
                    #[trigger] self.mods@[i],
                    query@,
                ) < t as int),
            forall|a: int, b: int|
                0 <= a < b < old(acc)@.len() && search_rank(
                    self.mods@[old(acc)@[a] as int],
                    query@,
                ) == search_rank(self.mods@[old(acc)@[b] as int], query@) ==> (#[trigger] old(
                    acc,
                )@[a]) < (#[trigger] old(acc)@[b]),
            forall|a: int, b: int|
                0 <= a < b < old(acc)@.len() ==> search_rank(
                    self.mods@[(#[trigger] old(acc)@[a]) as int],
                    query@,
                ) <= search_rank(self.mods@[(#[trigger] old(acc)@[b]) as int], query@),
        ensures
            forall|k: int| 0 <= k < final(acc)@.len() ==> (#[trigger] final(acc)@[k])
                < self.mods@.len(),
            forall|k: int|
                0 <= k < final(acc)@.len() ==> search_rank(
                    self.mods@[final(acc)@[k] as int],
                    query@,
                ) < t as int + 1,
            forall|a: int, b: int|
                0 <= a < b < final(acc)@.len() ==> (#[trigger] final(acc)@[a]) != (#[trigger] final(acc)@[b]),
            forall|i: int|
                0 <= i < self.mods@.len() ==> (final(acc)@.contains(i as usize) <==> search_rank(
                    #[trigger] self.mods@[i],
                    query@,
                ) < t as int + 1),
            forall|a: int, b: int|
                0 <= a < b < final(acc)@.len() && search_rank(
                    self.mods@[final(acc)@[a] as int],
                    query@,
                ) == search_rank(self.mods@[final(acc)@[b] as int], query@) ==> (
                #[trigger] final(acc)@[a]) < (#[trigger] final(acc)@[b]),
            forall|a: int, b: int|
                0 <= a < b < final(acc)@.len() ==> search_rank(
                    self.mods@[final(acc)@[a] as int],
                    query@,
                ) <= search_rank(self.mods@[final(acc)@[b] as int], query@),
            old(acc)@.len() <= final(acc)@.len(),
            forall|k: int| 0 <= k < old(acc)@.len() ==> final(acc)@[k] == old(acc)@[k],
    {
        let n = self.mods.len();
        let mut i: usize = 0;
        while i < n
            invariant
                t < 3,
                n == self.mods@.len(),
                0 <= i <= n,
                forall|k: int| 0 <= k < acc@.len() ==> (#[trigger] acc@[k]) < n,
                forall|k: int|
                    0 <= k < acc@.len() ==> (search_rank(self.mods@[acc@[k] as int], query@)
                        < t as int || (search_rank(self.mods@[acc@[k] as int], query@) == t as int
                        && (#[trigger] acc@[k]) < i)),
                forall|a: int, b: int| 0 <= a < b < acc@.len() ==> (#[trigger] acc@[a]) != (#[trigger] acc@[b]),
                forall|i0: int|
                    0 <= i0 < n ==> (acc@.contains(i0 as usize) <==> (search_rank(
                        #[trigger] self.mods@[i0],
                        query@,
                    ) < t as int || (search_rank(self.mods@[i0], query@) == t as int && i0
                        < i))),
                forall|a: int, b: int|
                    0 <= a < b < acc@.len() && search_rank(self.mods@[acc@[a] as int], query@)
                        == search_rank(self.mods@[acc@[b] as int], query@) ==> (#[trigger] acc@[a])
                        < (#[trigger] acc@[b]),
                forall|a: int, b: int|
                    0 <= a < b < acc@.len() ==> search_rank(self.mods@[acc@[a] as int], query@)
                        <= search_rank(self.mods@[acc@[b] as int], query@),
                old(acc)@.len() <= acc@.len(),
                forall|k: int| 0 <= k < old(acc)@.len() ==> acc@[k] == old(acc)@[k],
            decreases n - i,
        {
            let r = entry_rank(&self.mods[i], query);
            let ghost a0 = acc@;
            if r == t {
                acc.push(i);
                proof {
                    assert(acc@ =~= a0.push(i));
                    assert(!a0.contains(i as usize)) by {
                        if a0.contains(i as usize) {
                            let k = choose|k: int| 0 <= k < a0.len() && a0[k] == i as usize;
                        }
                    }
                }
            }
            proof {
                assert forall|i0: int|
                    0 <= i0 < n implies (acc@.contains(i0 as usize) <==> (search_rank(
                    #[trigger] self.mods@[i0],
                    query@,
                ) < t as int || (search_rank(self.mods@[i0], query@) == t as int && i0 < i
                    + 1))) by {
                    if r == t {
                        assert(acc@[acc@.len() - 1] == i);
                        if a0.contains(i0 as usize) {
                            let k = choose|k: int| 0 <= k < a0.len() && a0[k] == i0 as usize;
                            assert(acc@[k] == i0 as usize);
                        }
                        if acc@.contains(i0 as usize) && i0 != i {
                            let k = choose|k: int| 0 <= k < acc@.len() && acc@[k] == i0 as usize;
                            assert(k < acc@.len() - 1);
                            assert(a0[k] == i0 as usize);
                            assert(a0.contains(i0 as usize));
                        }
                    } else {
                        if i0 == i && acc@.contains(i0 as usize) {
                            let k = choose|k: int| 0 <= k < acc@.len() && acc@[k] == i0 as usize;
                        }
                    }
                }
            }
            i = i + 1;
        }
    }

    /// Case-insensitive search over display name and unique name. The hits
    /// come ranked by a fixed tie-break — exact unique-name match, then
    /// display-name prefix match, then any other substring match — and in
    /// database order inside each rank, so results are deterministic.
    pub fn search(&self, query: &str) -> (r: Vec<usize>)
        ensures
            forall|k: int| 0 <= k < r@.len() ==> (#[trigger] r@[k]) < self.mods@.len(),
            forall|i: int|
                0 <= i < self.mods@.len() ==> (r@.contains(i as usize) <==> search_rank(
                    #[trigger] self.mods@[i],
                    query@,
                ) < 3),
            forall|a: int, b: int|
                0 <= a < b < r@.len() ==> search_rank(self.mods@[r@[a] as int], query@)
                    <= search_rank(self.mods@[r@[b] as int], query@),
            forall|a: int, b: int|
                0 <= a < b < r@.len() && search_rank(self.mods@[r@[a] as int], query@)
                    == search_rank(self.mods@[r@[b] as int], query@) ==> (#[trigger] r@[a]) < (
                #[trigger] r@[b]),
            forall|a: int, b: int| 0 <= a < b < r@.len() ==> (#[trigger] r@[a]) != (#[trigger] r@[b]),
    {
        let mut acc: Vec<usize> = Vec::new();
        proof {
            assert forall|i: int|
                0 <= i < self.mods@.len() implies !acc@.contains(#[trigger] (i as usize)) by {
                if acc@.contains(i as usize) {
                    let k = choose|k: int| 0 <= k < acc@.len() && (#[trigger] acc@[k]) == i as usize;
                }
            }
        }
        self.collect_rank(query, 0, &mut acc);
        self.collect_rank(query, 1, &mut acc);
        self.collect_rank(query, 2, &mut acc);
        acc
    }

    /// Whether any enabled mod carries accumulated warnings.
    pub fn has_issues(&self) -> (r: bool)
        ensures
            r == exists|i: int|
                0 <= i < self.mods@.len() && (#[trigger] self.mods@[i]) is Valid
                    && self.mods@[i].valid_mod().enabled && self.mods@[i].valid_mod().errors@.len()
                    > 0,
    {
        let n = self.mods.len();
        let mut i: usize = 0;
        while i < n
            invariant
                n == self.mods@.len(),
                0 <= i <= n,
                forall|j: int|
                    0 <= j < i ==> !((#[trigger] self.mods@[j]) is Valid
                        && self.mods@[j].valid_mod().enabled
                        && self.mods@[j].valid_mod().errors@.len() > 0),
            decreases n - i,
        {
            match &self.mods[i] {
                UnsafeLocalMod::Valid(m) => {
                    if m.enabled && m.errors.len() > 0 {
                        return true;
                    }
                },
                UnsafeLocalMod::Invalid(_) => {},
            }
            i = i + 1;
        }
        false
    }
}

} // verus!
