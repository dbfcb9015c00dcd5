use vstd::prelude::*;

use crate::db::{idx_of_valid, keys_unique, lemma_mod_named_at, mod_named, valid_named, LocalDatabase};
use crate::mods::{local_mod_wf, LocalMod, UnsafeLocalMod};
use crate::text::{char_seq_eq, vec_contains_str};
use crate::Error;

verus! {

/// The database after one successful install is registered: the entry under
/// the mod's unique name is replaced, or a new one is appended. This is the
/// write-then-swap step — the database only ever holds the result of a
/// completed re-scan, never a half-installed entry.
pub open spec fn apply_register(s: Seq<UnsafeLocalMod>, m: LocalMod) -> Seq<UnsafeLocalMod> {
    if exists|i: int|
        0 <= i < s.len() && (#[trigger] s[i]).key() == m.manifest.unique_name@ {
        s.update(
            choose|i: int|
                0 <= i < s.len() && (#[trigger] s[i]).key() == m.manifest.unique_name@,
            UnsafeLocalMod::Valid(m),
        )
    } else {
        s.push(UnsafeLocalMod::Valid(m))
    }
}

/// Registers one completed install: swaps the re-scanned entry in under its
/// unique name, or appends it when the mod is new.
pub fn register_install(db: &mut LocalDatabase, installed: LocalMod)
    requires
        old(db).wf(),
        local_mod_wf(installed),
    ensures
        final(db).wf(),
        final(db).mods@ == apply_register(old(db).mods@, installed),
        valid_named(final(db).mods@, installed.manifest.unique_name@),
        mod_named(final(db).mods@, installed.manifest.unique_name@) == installed,
{
    let ghost s = db.mods@;
    let ghost key = installed.manifest.unique_name@;
    let n = db.mods.len();
    let mut i: usize = 0;
    while i < n
        invariant
            db.wf(),
            s == db.mods@,
            s == old(db).mods@,
            n == s.len(),
            0 <= i <= n,
            local_mod_wf(installed),
            key == installed.manifest.unique_name@,
            forall|j: int| 0 <= j < i ==> (#[trigger] s[j]).key() != key,
        decreases n - i,
    {
        let e = &db.mods[i];
        if char_seq_eq(e.get_unique_name().as_str(), installed.manifest.unique_name.as_str()) {
            proof {
                assert(s[i as int].key() == key);
                let j = choose|j: int| 0 <= j < s.len() && (#[trigger] s[j]).key() == key;
                if j != i {
                    assert(s[j].key() == s[i as int].key());
                }
            }
            let _ = db.mods.remove(i);
            db.mods.insert(i, UnsafeLocalMod::Valid(installed));
            proof {
                assert(db.mods@ =~= s.update(i as int, UnsafeLocalMod::Valid(installed)));
                assert(db.mods@ == apply_register(s, installed));
                assert(db.mods@[i as int].is_valid_named(key));
                assert forall|a: int, b: int| 0 <= a < b < db.mods@.len() implies db.mods@[a].key()
                    != db.mods@[b].key() by {
                    assert(db.mods@[a].key() == s[a].key() || a == i);
                    assert(db.mods@[b].key() == s[b].key() || b == i);
                }
                assert(db.wf());
                lemma_mod_named_at(db.mods@, i as int);
            }
            return ;
        }
        i = i + 1;
    }
    proof {
        assert forall|j: int| 0 <= j < s.len() implies (#[trigger] s[j]).key() != key by {}
        if exists|j: int| 0 <= j < s.len() && (#[trigger] s[j]).key() == key {
            let j = choose|j: int| 0 <= j < s.len() && (#[trigger] s[j]).key() == key;
            assert(false);
        }
    }
    db.mods.push(UnsafeLocalMod::Valid(installed));
    proof {
        assert(db.mods@ =~= s.push(UnsafeLocalMod::Valid(installed)));
        assert(db.mods@ == apply_register(s, installed));
        assert(db.mods@[s.len() as int].is_valid_named(key));
        assert forall|a: int, b: int| 0 <= a < b < db.mods@.len() implies db.mods@[a].key()
            != db.mods@[b].key() by {
            if b == s.len() {
                assert(db.mods@[a].key() == s[a].key());
            }
        }
        assert(db.wf());
        lemma_mod_named_at(db.mods@, s.len() as int);
    }
}

/// The database after the first `n` batch outcomes are applied: each
/// successful install is registered in order, each failure leaves the
/// database exactly as it was.
pub open spec fn batch_db(
    pre: Seq<UnsafeLocalMod>,
    outcomes: Seq<(String, Result<LocalMod, Error>)>,
    n: int,
) -> Seq<UnsafeLocalMod>
    decreases n,
{
    if n <= 0 {
        pre
    } else {
        let prev = batch_db(pre, outcomes, n - 1);
        match outcomes[n - 1].1 {
            Ok(m) => apply_register(prev, m),
            Err(_) => prev,
        }
    }
}

/// The names of the first `n` outcomes that failed, in batch order.
pub open spec fn batch_failures(
    outcomes: Seq<(String, Result<LocalMod, Error>)>,
    n: int,
) -> Seq<Seq<char>>
    decreases n,
{
    if n <= 0 {
        Seq::empty()
    } else {
        let pre = batch_failures(outcomes, n - 1);
        match outcomes[n - 1].1 {
            Ok(_) => pre,
            Err(_) => pre.push(outcomes[n - 1].0@),
        }
    }
}

/// Applies a batch's per-mod outcomes: every success is registered, every
/// failure is reported by name, and one mod's failure never cancels or
/// corrupts the others — the batch result is the full list of failures.
pub fn apply_install_outcomes(
    db: &mut LocalDatabase,
    outcomes: Vec<(String, Result<LocalMod, Error>)>,
) -> (failed: Vec<String>)
    requires
        old(db).wf(),
        forall|i: int|
            0 <= i < outcomes@.len() ==> ((#[trigger] outcomes@[i].1) matches Ok(m) ==> (
            local_mod_wf(m) && m.manifest.unique_name@ == outcomes@[i].0@)),
    ensures
        final(db).wf(),
        final(db).mods@ == batch_db(old(db).mods@, outcomes@, outcomes@.len() as int),
        failed.deep_view() == batch_failures(outcomes@, outcomes@.len() as int),
{
    let ghost pre = db.mods@;
    let ghost all = outcomes@;
    let mut failed: Vec<String> = Vec::new();
    let mut rest = outcomes;
    let n = rest.len();
    let mut i: usize = 0;
    proof {
        assert(rest@ =~= all.skip(0));
    }
    while i < n
        invariant
            db.wf(),
            n == all.len(),
            0 <= i <= n,
            rest@ == all.skip(i as int),
            db.mods@ == batch_db(pre, all, i as int),
            failed.deep_view() == batch_failures(all, i as int),
            forall|j: int|
                0 <= j < all.len() ==> ((#[trigger] all[j].1) matches Ok(m) ==> (local_mod_wf(m)
                    && m.manifest.unique_name@ == all[j].0@)),
        decreases n - i,
    {
        let ghost rest0 = rest@;
        let (name, outcome) = rest.remove(0);
        proof {
            assert(rest@ =~= all.skip(i as int + 1));
            assert(rest0[0] == all[i as int]);
        }
        let ghost fpre = failed.deep_view();
        match outcome {
            Ok(m) => {
                register_install(db, m);
            },
            Err(_) => {
                failed.push(name);
                proof {
                    assert(failed.deep_view() =~= fpre.push(all[i as int].0@));
                }
            },
        }
        proof {
            assert(db.mods@ == batch_db(pre, all, i as int + 1));
            assert(failed.deep_view() == batch_failures(all, i as int + 1));
        }
        i = i + 1;
    }
    failed
}

/// The names of the valid, enabled mods among the first `n` entries that
/// list `name` as a dependency, in database order.
pub open spec fn dependents_upto(s: Seq<UnsafeLocalMod>, name: Seq<char>, n: int) -> Seq<Seq<char>>
    decreases n,
{
    if n <= 0 {
        Seq::empty()
    } else {
        let pre = dependents_upto(s, name, n - 1);
        let e = s[n - 1];
        if e is Valid && e.valid_mod().enabled
            && e.valid_mod().manifest.dependencies.deep_view().contains(name) {
            pre.push(e.valid_mod().manifest.unique_name@)
        } else {
            pre
        }
    }
}

/// Uninstalls a mod from the database: the entry leaves under its unique
/// name, and the names of the enabled mods that still list it as a
/// dependency come back as non-blocking warnings. The directory deletion is
/// the caller's edge work; this is the swap that keeps readers from ever
/// seeing a half-removed entry.
pub fn remove_mod(db: &mut LocalDatabase, unique_name: &str) -> (r: Result<Vec<String>, Error>)
    requires
        old(db).wf(),
    ensures
        final(db).wf(),
        match r {
            Ok(warnings) => valid_named(old(db).mods@, unique_name@) && final(db).mods@ == old(
                db,
            ).mods@.remove(idx_of_valid(old(db).mods@, unique_name@))
                && warnings.deep_view() == dependents_upto(
                final(db).mods@,
                unique_name@,
                final(db).mods@.len() as int,
            ),
            Err(e) => final(db).mods@ == old(db).mods@ && !valid_named(old(db).mods@, unique_name@)
                && (e matches Error::NotFound(n) && n@ == unique_name@),
        },
{
    let ghost s = db.mods@;
    let n = db.mods.len();
    let mut i: usize = 0;
    let mut found: Option<usize> = None;
    while i < n
        invariant
            db.wf(),
            s == db.mods@,
            s == old(db).mods@,
            n == s.len(),
            0 <= i <= n,
            match found {
                Some(j) => j < n && s[j as int].is_valid_named(unique_name@) && idx_of_valid(
                    s,
                    unique_name@,
                ) == j as int,
                None => forall|j: int| 0 <= j < i ==> !(#[trigger] s[j]).is_valid_named(
                    unique_name@,
                ),
            },
            found is Some ==> i == n,
        decreases n - i,
    {
        match &db.mods[i] {
            UnsafeLocalMod::Valid(m) => {
                if char_seq_eq(m.manifest.unique_name.as_str(), unique_name) {
                    proof {
                        assert(s[i as int].is_valid_named(unique_name@));
                        let j = idx_of_valid(s, unique_name@);
                        if j != i {
                            assert(s[j].key() == s[i as int].key());
                        }
                    }
                    found = Some(i);
                    i = n;
                } else {
                    i = i + 1;
                }
            },
            UnsafeLocalMod::Invalid(_) => {
                i = i + 1;
            },
        }
    }
    let idx = match found {
        None => {
            proof {
                if valid_named(s, unique_name@) {
                    let j = choose|j: int|
                        0 <= j < s.len() && (#[trigger] s[j]).is_valid_named(unique_name@);
                }
            }
            return Err(Error::NotFound(unique_name.to_owned()));
        },
        Some(idx) => idx,
    };
    let _ = db.mods.remove(idx);
    let ghost post = db.mods@;
    proof {
        assert(post == s.remove(idx as int));
        assert forall|a: int, b: int| 0 <= a < b < post.len() implies post[a].key()
            != post[b].key() by {
            if a < idx {
                assert(post[a] == s[a]);
            } else {
                assert(post[a] == s[a + 1]);
            }
            if b < idx {
                assert(post[b] == s[b]);
            } else {
                assert(post[b] == s[b + 1]);
            }
        }
        assert forall|j: int| 0 <= j < post.len() implies (#[trigger] post[j]).wf() by {
            if j < idx {
                assert(post[j] == s[j]);
            } else {
                assert(post[j] == s[j + 1]);
            }
        }
        assert(db.wf());
    }
    let mut warnings: Vec<String> = Vec::new();
    let m = db.mods.len();
    let mut k: usize = 0;
    proof {
        assert(warnings.deep_view() =~= dependents_upto(post, unique_name@, 0));
    }
    while k < m
        invariant
            db.wf(),
            post == db.mods@,
            m == post.len(),
            0 <= k <= m,
            warnings.deep_view() == dependents_upto(post, unique_name@, k as int),
        decreases m - k,
    {
        let ghost wpre = warnings.deep_view();
        match &db.mods[k] {
            UnsafeLocalMod::Valid(p) => {
                if p.enabled && vec_contains_str(&p.manifest.dependencies, unique_name) {
                    warnings.push(p.manifest.unique_name.clone());
                    proof {
                        assert(warnings.deep_view() =~= wpre.push(p.manifest.unique_name@));
                    }
                }
            },
            UnsafeLocalMod::Invalid(_) => {},
        }
        k = k + 1;
    }
    Ok(warnings)
}

} // verus!
