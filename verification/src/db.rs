use vstd::prelude::*;
use vstd::pervasive::arbitrary;

use crate::mods::{LocalMod, UnsafeLocalMod, RemoteMod};
use crate::text::char_seq_eq;

verus! {

impl UnsafeLocalMod {
    /// The parsed mod a valid entry carries.
    pub open spec fn valid_mod(&self) -> LocalMod {
        match self {
            UnsafeLocalMod::Valid(m) => *m,
            UnsafeLocalMod::Invalid(_) => arbitrary(),
        }
    }

    /// Whether the entry is a valid (parsed) mod with this unique name.
    pub open spec fn is_valid_named(&self, k: Seq<char>) -> bool {
        self is Valid && self.valid_mod().manifest.unique_name@ == k
    }
}

/// No two entries share a key.
pub open spec fn keys_unique(s: Seq<UnsafeLocalMod>) -> bool {
    forall|i: int, j: int| 0 <= i < j < s.len() ==> s[i].key() != s[j].key()
}

/// Every entry is well formed.
pub open spec fn entries_wf(s: Seq<UnsafeLocalMod>) -> bool {
    forall|i: int| 0 <= i < s.len() ==> (#[trigger] s[i]).wf()
}

/// A valid mod with this unique name is present.
pub open spec fn valid_named(s: Seq<UnsafeLocalMod>, k: Seq<char>) -> bool {
    exists|i: int| 0 <= i < s.len() && (#[trigger] s[i]).is_valid_named(k)
}

/// The index of the valid mod with this unique name.
pub open spec fn idx_of_valid(s: Seq<UnsafeLocalMod>, k: Seq<char>) -> int {
    choose|i: int| 0 <= i < s.len() && (#[trigger] s[i]).is_valid_named(k)
}

/// The valid mod with this unique name.
pub open spec fn mod_named(s: Seq<UnsafeLocalMod>, k: Seq<char>) -> LocalMod {
    s[idx_of_valid(s, k)].valid_mod()
}

/// The dependency names the valid mod with this unique name declares.
pub open spec fn deps_of(s: Seq<UnsafeLocalMod>, k: Seq<char>) -> Seq<Seq<char>> {
    mod_named(s, k).manifest.dependencies.deep_view()
}

/// A set of unique names closed under the dependency edges that resolve to
/// valid local mods.
pub open spec fn dep_closed(s: Seq<UnsafeLocalMod>, t: Set<Seq<char>>) -> bool {
    forall|a: Seq<char>, b: Seq<char>|
        t.contains(a) && valid_named(s, a) && #[trigger] deps_of(s, a).contains(b) && valid_named(
            s,
            b,
        ) ==> #[trigger] t.contains(b)
}

/// A candidate over-approximation of the mods a recursive toggle rooted at
/// `root` touches.
pub open spec fn covers(s: Seq<UnsafeLocalMod>, root: Seq<char>, t: Set<Seq<char>>) -> bool {
    t.contains(root) && dep_closed(s, t)
}

/// The set of unique names a recursive toggle rooted at `root` touches: the
/// least set that contains the root and is closed under resolvable
/// dependency edges.
pub open spec fn touched_set(s: Seq<UnsafeLocalMod>, root: Seq<char>) -> Set<Seq<char>> {
    Set::new(
        |x: Seq<char>|
            forall|t: Set<Seq<char>>| #[trigger] covers(s, root, t) ==> t.contains(x),
    )
}

pub proof fn lemma_touched_contains_root(s: Seq<UnsafeLocalMod>, root: Seq<char>)
    ensures
        touched_set(s, root).contains(root),
{
}

pub proof fn lemma_touched_minimal(s: Seq<UnsafeLocalMod>, root: Seq<char>, t: Set<Seq<char>>)
    requires
        covers(s, root, t),
    ensures
        forall|x: Seq<char>| touched_set(s, root).contains(x) ==> t.contains(x),
{
}

pub proof fn lemma_touched_closed(s: Seq<UnsafeLocalMod>, root: Seq<char>)
    ensures
        dep_closed(s, touched_set(s, root)),
{
    let tt = touched_set(s, root);
    assert forall|a: Seq<char>, b: Seq<char>|
        tt.contains(a) && valid_named(s, a) && #[trigger] deps_of(s, a).contains(b) && valid_named(
            s,
            b,
        ) implies #[trigger] tt.contains(b) by {
        assert forall|t: Set<Seq<char>>| #[trigger] covers(s, root, t) implies t.contains(b) by {
            assert(t.contains(a));
        }
    }
}

/// With unique keys, a valid entry is the one its unique name looks up.
pub proof fn lemma_mod_named_at(s: Seq<UnsafeLocalMod>, i: int)
    requires
        keys_unique(s),
        0 <= i < s.len(),
        s[i] is Valid,
    ensures
        valid_named(s, s[i].valid_mod().manifest.unique_name@),
        idx_of_valid(s, s[i].valid_mod().manifest.unique_name@) == i,
        mod_named(s, s[i].valid_mod().manifest.unique_name@) == s[i].valid_mod(),
{
    let k = s[i].valid_mod().manifest.unique_name@;
    assert(s[i].is_valid_named(k));
    let j = idx_of_valid(s, k);
    if j != i {
        assert(s[j].key() == s[i].key());
    }
}

/// In-memory snapshot of the installed mods: one entry per install
/// directory, keyed by unique name (valid entries) or install path (failed
/// ones).
pub struct LocalDatabase {
    pub mods: Vec<UnsafeLocalMod>,
}

/// In-memory snapshot of the registry, replaced wholesale on refresh.
pub struct RemoteDatabase {
    pub mods: Vec<RemoteMod>,
}

/// No two registry entries share a unique name.
pub open spec fn remote_keys_unique(s: Seq<RemoteMod>) -> bool {
    forall|i: int, j: int|
        0 <= i < j < s.len() ==> (#[trigger] s[i]).unique_name@ != (#[trigger] s[j]).unique_name@
}

/// A registry entry with this unique name is present.
pub open spec fn remote_named(s: Seq<RemoteMod>, k: Seq<char>) -> bool {
    exists|i: int| 0 <= i < s.len() && (#[trigger] s[i]).unique_name@ == k
}

/// The registry entry with this unique name.
pub open spec fn remote_mod_named(s: Seq<RemoteMod>, k: Seq<char>) -> RemoteMod {
    s[choose|i: int| 0 <= i < s.len() && (#[trigger] s[i]).unique_name@ == k]
}

impl LocalDatabase {
    /// Keys are unique and every entry's cached state is consistent.
    pub open spec fn wf(&self) -> bool {
        keys_unique(self.mods@) && entries_wf(self.mods@)
    }

    /// An empty database, the state before any scan.
    pub fn new() -> (r: Self)
        ensures
            r.wf(),
            r.mods@.len() == 0,
    {
        LocalDatabase { mods: Vec::new() }
    }

    /// Looks a valid mod up by unique name; never panics on unknown names.
    pub fn get_mod(&self, unique_name: &str) -> (r: Option<&LocalMod>)
        requires
            self.wf(),
        ensures
            match r {
                Some(m) => valid_named(self.mods@, unique_name@) && *m == mod_named(
                    self.mods@,
                    unique_name@,
                ),
                None => !valid_named(self.mods@, unique_name@),
            },
    {
        let n = self.mods.len();
        let mut i: usize = 0;
        while i < n
            invariant
                self.wf(),
                n == self.mods@.len(),
                0 <= i <= n,
                forall|j: int| 0 <= j < i ==> !(#[trigger] self.mods@[j]).is_valid_named(
                    unique_name@,
                ),
            decreases n - i,
        {
            match &self.mods[i] {
                UnsafeLocalMod::Valid(m) => {
                    if char_seq_eq(m.manifest.unique_name.as_str(), unique_name) {
                        proof {
                            assert(self.mods@[i as int].is_valid_named(unique_name@));
                            let j = idx_of_valid(self.mods@, unique_name@);
                            if j != i {
                                assert(self.mods@[j].key() == self.mods@[i as int].key());
                            }
                        }
                        return Some(m);
                    }
                },
                UnsafeLocalMod::Invalid(_) => {},
            }
            i = i + 1;
        }
        None
    }

    /// Looks any entry up by its key (unique name or install path).
    pub fn get_mod_unsafe(&self, key: &str) -> (r: Option<&UnsafeLocalMod>)
        requires
            self.wf(),
        ensures
            match r {
                Some(e) => exists|i: int|
                    0 <= i < self.mods@.len() && *e == self.mods@[i] && (#[trigger] self.mods@[i]).key()
                        == key@,
                None => forall|i: int|
                    0 <= i < self.mods@.len() ==> (#[trigger] self.mods@[i]).key() != key@,
            },
    {
        let n = self.mods.len();
        let mut i: usize = 0;
        while i < n
            invariant
                self.wf(),
                n == self.mods@.len(),
                0 <= i <= n,
                forall|j: int| 0 <= j < i ==> (#[trigger] self.mods@[j]).key() != key@,
            decreases n - i,
        {
            let e = &self.mods[i];
            if char_seq_eq(e.get_unique_name().as_str(), key) {
                return Some(e);
            }
            i = i + 1;
        }
        None
    }
}

impl RemoteDatabase {
    pub open spec fn wf(&self) -> bool {
        remote_keys_unique(self.mods@)
    }

    /// An empty registry snapshot, the state before any fetch.
    pub fn new() -> (r: Self)
        ensures
            r.wf(),
            r.mods@.len() == 0,
    {
        RemoteDatabase { mods: Vec::new() }
    }

    /// Looks a registry mod up by unique name; never panics on unknown names.
    pub fn get_mod(&self, unique_name: &str) -> (r: Option<&RemoteMod>)
        requires
            self.wf(),
        ensures
            match r {
                Some(m) => remote_named(self.mods@, unique_name@) && *m == remote_mod_named(
                    self.mods@,
                    unique_name@,
                ),
                None => !remote_named(self.mods@, unique_name@),
            },
    {
        let n = self.mods.len();
        let mut i: usize = 0;
        while i < n
            invariant
                self.wf(),
                n == self.mods@.len(),
                0 <= i <= n,
                forall|j: int| 0 <= j < i ==> (#[trigger] self.mods@[j]).unique_name@
                    != unique_name@,
            decreases n - i,
        {
            let m = &self.mods[i];
            if char_seq_eq(m.unique_name.as_str(), unique_name) {
                proof {
                    let j = choose|j: int|
                        0 <= j < self.mods@.len() && (#[trigger] self.mods@[j]).unique_name@
                            == unique_name@;
                    if j != i {
                        assert(self.mods@[j].unique_name@ == self.mods@[i as int].unique_name@);
                    }
                }
                return Some(m);
            }
            i = i + 1;
        }
        None
    }
}

} // verus!
