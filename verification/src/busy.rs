use vstd::prelude::*;

use crate::text::{char_seq_eq, vec_contains_str};

verus! {

/// The set of unique names currently undergoing an install, update or remove
/// operation. Every read-modify-write cycle on the shared instance runs
/// under one critical section, which the surrounding runtime provides; the
/// contracts here describe what each cycle does.
pub struct BusySet {
    pub names: Vec<String>,
}

/// Dropping one index keeps exactly the other members of a duplicate-free
/// sequence.
proof fn lemma_remove_contains(s: Seq<Seq<char>>, i: int)
    requires
        0 <= i < s.len(),
        s.no_duplicates(),
    ensures
        s.remove(i).no_duplicates(),
        forall|y: Seq<char>| #[trigger] s.remove(i).contains(y) <==> (s.contains(y) && y != s[i]),
{
    let r = s.remove(i);
    assert forall|y: Seq<char>| #[trigger] r.contains(y) implies (s.contains(y) && y != s[i]) by {
        let j = choose|j: int| 0 <= j < r.len() && r[j] == y;
        if j < i {
            assert(s[j] == y);
        } else {
            assert(s[j + 1] == y);
        }
    }
    assert forall|y: Seq<char>| s.contains(y) && y != s[i] implies #[trigger] r.contains(y) by {
        let j = choose|j: int| 0 <= j < s.len() && s[j] == y;
        if j < i {
            assert(r[j] == y);
        } else {
            assert(r[j - 1] == y);
        }
    }
}

/// One claim step on the busy set: `r` says whether the claim succeeded, and
/// the set gains the name exactly when it did.
pub open spec fn claim_step(pre: Seq<Seq<char>>, post: Seq<Seq<char>>, x: Seq<char>, r: bool) -> bool {
    &&& r == !pre.contains(x)
    &&& (r ==> post == pre.push(x))
    &&& (!r ==> post == pre)
}

impl BusySet {
    /// No name is tracked twice.
    pub open spec fn wf(&self) -> bool {
        self.names.deep_view().no_duplicates()
    }

    /// The names currently busy.
    pub open spec fn view_names(&self) -> Seq<Seq<char>> {
        self.names.deep_view()
    }

    /// An empty busy set: the state at startup.
    pub fn new() -> (r: Self)
        ensures
            r.wf(),
            r.view_names().len() == 0,
    {
        BusySet { names: Vec::new() }
    }

    /// Whether an operation on this name is in flight.
    pub fn get_mod_busy(&self, unique_name: &str) -> (r: bool)
        ensures
            r == self.view_names().contains(unique_name@),
    {
        vec_contains_str(&self.names, unique_name)
    }

    /// Claims a slot for one operation: refused — a silent no-op, not an
    /// error — when the name is already busy, so a second concurrent request
    /// for the same mod starts nothing.
    pub fn try_claim(&mut self, unique_name: &str) -> (r: bool)
        requires
            old(self).wf(),
        ensures
            final(self).wf(),
            claim_step(old(self).view_names(), final(self).view_names(), unique_name@, r),
    {
        if vec_contains_str(&self.names, unique_name) {
            false
        } else {
            let ghost pre = self.names.deep_view();
            self.names.push(unique_name.to_owned());
            proof {
                assert(self.names.deep_view() =~= pre.push(unique_name@));
                assert forall|i: int, j: int|
                    0 <= i < j < self.names.deep_view().len() implies self.names.deep_view()[i]
                    != self.names.deep_view()[j] by {
                    if j == self.names.deep_view().len() - 1 {
                        assert(pre.contains(pre[i]));
                    }
                }
            }
            true
        }
    }

    /// Marks a name busy or idle. Marking busy is a claim whose refusal is
    /// ignored; marking idle releases the slot on every exit path.
    pub fn mark_mod_busy(&mut self, unique_name: &str, busy: bool)
        requires
            old(self).wf(),
        ensures
            final(self).wf(),
            forall|y: Seq<char>|
                #[trigger] final(self).view_names().contains(y) <==> if busy {
                    old(self).view_names().contains(y) || y == unique_name@
                } else {
                    old(self).view_names().contains(y) && y != unique_name@
                },
    {
        if busy {
            let claimed = self.try_claim(unique_name);
            proof {
                if claimed {
                    crate::toggle::lemma_push_contains(
                        old(self).view_names(),
                        unique_name@,
                    );
                }
            }
        } else {
            let n = self.names.len();
            let mut i: usize = 0;
            while i < n
                invariant
                    !busy,
                    self.wf(),
                    self.names.deep_view() == old(self).view_names(),
                    n == self.names.deep_view().len(),
                    0 <= i <= n,
                    forall|j: int| 0 <= j < i ==> self.names.deep_view()[j] != unique_name@,
                decreases n - i,
            {
                if char_seq_eq(self.names[i].as_str(), unique_name) {
                    let ghost pre = self.names.deep_view();
                    proof {
                        assert(pre[i as int] == unique_name@);
                    }
                    let _ = self.names.remove(i);
                    proof {
                        assert(self.names.deep_view() =~= pre.remove(i as int));
                        lemma_remove_contains(pre, i as int);
                        assert(pre == old(self).view_names());
                        assert forall|y: Seq<char>|
                            #[trigger] self.view_names().contains(y) <==> (old(
                            self,
                        ).view_names().contains(y) && y != unique_name@) by {
                            assert(self.view_names() == pre.remove(i as int));
                            assert(pre.remove(i as int).contains(y) <==> (pre.contains(y) && y
                                != pre[i as int]));
                            assert(old(self).view_names().contains(y) == pre.contains(y));
                        }
                    }
                    return ;
                }
                i = i + 1;
            }
            proof {
                assert forall|y: Seq<char>| #[trigger] self.names.deep_view().contains(y) implies y
                    != unique_name@ by {
                    let j = choose|j: int|
                        0 <= j < self.names.deep_view().len() && self.names.deep_view()[j] == y;
                }
            }
        }
    }

    /// Filters out the names already busy and claims the remainder as one
    /// atomic step; hands back exactly the names claimed, each once, in
    /// request order.
    pub fn claim_batch(&mut self, requested: &Vec<String>) -> (claimed: Vec<String>)
        requires
            old(self).wf(),
        ensures
            final(self).wf(),
            claimed.deep_view().no_duplicates(),
            forall|y: Seq<char>|
                #[trigger] claimed.deep_view().contains(y) <==> (requested.deep_view().contains(y)
                    && !old(self).view_names().contains(y)),
            forall|y: Seq<char>|
                #[trigger] final(self).view_names().contains(y) <==> (old(
                    self,
                ).view_names().contains(y) || claimed.deep_view().contains(y)),
    {
        let ghost pre = self.names.deep_view();
        let mut claimed: Vec<String> = Vec::new();
        let n = requested.len();
        let mut i: usize = 0;
        while i < n
            invariant
                self.wf(),
                n == requested.deep_view().len(),
                0 <= i <= n,
                claimed.deep_view().no_duplicates(),
                forall|y: Seq<char>|
                    #[trigger] claimed.deep_view().contains(y) <==> (requested.deep_view().take(
                        i as int,
                    ).contains(y) && !pre.contains(y)),
                forall|y: Seq<char>|
                    #[trigger] self.names.deep_view().contains(y) <==> (pre.contains(y)
                        || claimed.deep_view().contains(y)),
            decreases n - i,
        {
            let name = &requested[i];
            proof {
                assert(requested.deep_view()[i as int] == name@);
            }
            let ghost c0 = claimed.deep_view();
            let ghost s0 = self.names.deep_view();
            let was_claimed = self.try_claim(name.as_str());
            if was_claimed {
                claimed.push(name.clone());
                proof {
                    assert(claimed.deep_view() =~= c0.push(name@));
                    crate::toggle::lemma_push_contains(c0, name@);
                    crate::toggle::lemma_push_contains(s0, name@);
                    assert(!c0.contains(name@));
                    assert forall|i0: int, j0: int|
                        0 <= i0 < j0 < claimed.deep_view().len() implies claimed.deep_view()[i0]
                        != claimed.deep_view()[j0] by {
                        if j0 == claimed.deep_view().len() - 1 {
                            assert(c0.contains(c0[i0]));
                        }
                    }
                }
            }
            proof {
                let ghost tk0 = requested.deep_view().take(i as int);
                let ghost tk1 = requested.deep_view().take(i as int + 1);
                assert forall|y: Seq<char>|
                    #[trigger] claimed.deep_view().contains(y) implies (tk1.contains(y)
                        && !pre.contains(y)) by {
                    if c0.contains(y) {
                        let j = choose|j: int| 0 <= j < tk0.len() && (#[trigger] tk0[j]) == y;
                        assert(tk1[j] == y);
                    } else {
                        assert(y == name@);
                        assert(tk1[i as int] == y);
                    }
                }
                assert forall|y: Seq<char>|
                    tk1.contains(y) && !pre.contains(y) implies
                        #[trigger] claimed.deep_view().contains(y) by {
                    let j = choose|j: int| 0 <= j < tk1.len() && (#[trigger] tk1[j]) == y;
                    if j < i {
                        assert(tk0[j] == y);
                        assert(c0.contains(y));
                    } else {
                        assert(y == name@);
                        if !was_claimed {
                            assert(s0.contains(y));
                        }
                    }
                }
            }
            i = i + 1;
        }
        proof {
            assert(requested.deep_view().take(n as int) =~= requested.deep_view());
        }
        claimed
    }

    /// Releases every slot in the list, regardless of how each operation
    /// ended.
    pub fn release_batch(&mut self, finished: &Vec<String>)
        requires
            old(self).wf(),
        ensures
            final(self).wf(),
            forall|y: Seq<char>|
                #[trigger] final(self).view_names().contains(y) <==> (old(
                    self,
                ).view_names().contains(y) && !finished.deep_view().contains(y)),
    {
        let n = finished.len();
        let mut i: usize = 0;
        while i < n
            invariant
                self.wf(),
                n == finished.deep_view().len(),
                0 <= i <= n,
                forall|y: Seq<char>|
                    #[trigger] self.names.deep_view().contains(y) <==> (old(
                        self,
                    ).view_names().contains(y) && !finished.deep_view().take(i as int).contains(
                        y,
                    )),
            decreases n - i,
        {
            let name = &finished[i];
            proof {
                assert(finished.deep_view()[i as int] == name@);
            }
            let ghost before = self.names.deep_view();
            self.mark_mod_busy(name.as_str(), false);
            proof {
                let ftk0 = finished.deep_view().take(i as int);
                let ftk1 = finished.deep_view().take(i as int + 1);
                assert(ftk1 =~= ftk0.push(name@));
                crate::toggle::lemma_push_contains(ftk0, name@);
                assert forall|y: Seq<char>|
                    #[trigger] self.names.deep_view().contains(y) <==> (old(
                        self,
                    ).view_names().contains(y) && !ftk1.contains(y)) by {
                    assert(self.view_names().contains(y) == self.names.deep_view().contains(y));
                    assert(before.contains(y) <==> (old(self).view_names().contains(y)
                        && !ftk0.contains(y)));
                    assert(ftk1.contains(y) <==> (ftk0.contains(y) || y == name@));
                }
            }
            i = i + 1;
        }
        proof {
            assert(finished.deep_view().take(n as int) =~= finished.deep_view());
        }
    }
}

/// Busy-set exclusion: of two claims for the same name against a set that
/// does not yet hold it, the first succeeds and the second is refused, so at
/// most one operation for that name ever starts.
pub proof fn lemma_busy_exclusion(
    s0: Seq<Seq<char>>,
    s1: Seq<Seq<char>>,
    s2: Seq<Seq<char>>,
    x: Seq<char>,
    r1: bool,
    r2: bool,
)
    requires
        claim_step(s0, s1, x, r1),
        claim_step(s1, s2, x, r2),
    ensures
        !(r1 && r2),
        !s0.contains(x) ==> r1 && !r2,
        s0.contains(x) ==> !r1 && !r2,
{
    if r1 {
        assert(s1 == s0.push(x));
        assert(s1[s1.len() - 1] == x);
        assert(s1.contains(x));
    }
}

} // verus!
