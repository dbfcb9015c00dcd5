use vstd::prelude::*;
use vstd::set_lib::{lemma_int_range, lemma_len_subset, set_int_range};

use crate::db::{
    covers, dep_closed, deps_of, idx_of_valid, keys_unique, lemma_mod_named_at,
    lemma_touched_closed, lemma_touched_contains_root, lemma_touched_minimal, mod_named,
    touched_set, valid_named, LocalDatabase,
};
use crate::mods::{config_enabled, LocalMod, ModConfig, UnsafeLocalMod};
use crate::text::vec_contains_str;
use crate::Error;

verus! {

/// Distinct unique names that each resolve to a valid entry cannot outnumber
/// the entries.
proof fn lemma_distinct_valid_names_bound(s: Seq<UnsafeLocalMod>, names: Seq<Seq<char>>)
    requires
        keys_unique(s),
        names.no_duplicates(),
        forall|i: int| 0 <= i < names.len() ==> valid_named(s, #[trigger] names[i]),
    ensures
        names.len() <= s.len(),
{
    let idxs = Seq::new(names.len(), |i: int| idx_of_valid(s, names[i]));
    assert forall|i: int| 0 <= i < names.len() implies 0 <= idxs[i] < s.len() && s[idxs[i]].is_valid_named(
        names[i],
    ) by {
        assert(valid_named(s, names[i]));
    }
    assert forall|i: int, j: int| 0 <= i < j < idxs.len() implies idxs[i] != idxs[j] by {
        if idxs[i] == idxs[j] {
            assert(s[idxs[i]].is_valid_named(names[i]));
            assert(s[idxs[j]].is_valid_named(names[j]));
            assert(names[i] == names[j]);
        }
    }
    idxs.unique_seq_to_set();
    lemma_int_range(0, s.len() as int);
    assert(idxs.to_set().subset_of(set_int_range(0, s.len() as int)));
    lemma_len_subset(idxs.to_set(), set_int_range(0, s.len() as int));
}

/// Pushing keeps the old members and adds the new one, and nothing else.
pub(crate) proof fn lemma_push_contains(s: Seq<Seq<char>>, x: Seq<char>)
    ensures
        forall|y: Seq<char>| s.contains(y) ==> #[trigger] s.push(x).contains(y),
        s.push(x).contains(x),
        forall|y: Seq<char>| #[trigger] s.push(x).contains(y) ==> y == x || s.contains(y),
{
    assert(s.push(x)[s.len() as int] == x);
    assert forall|y: Seq<char>| s.contains(y) implies #[trigger] s.push(x).contains(y) by {
        let j = choose|j: int| 0 <= j < s.len() && s[j] == y;
        assert(s.push(x)[j] == y);
    }
    assert forall|y: Seq<char>| #[trigger] s.push(x).contains(y) implies y == x || s.contains(
        y,
    ) by {
        let j = choose|j: int| 0 <= j < s.push(x).len() && s.push(x)[j] == y;
        if j < s.len() {
            assert(s[j] == y);
        }
    }
}

/// Dropping the last element keeps exactly the other members.
proof fn lemma_drop_last_contains(s: Seq<Seq<char>>)
    requires
        s.len() > 0,
    ensures
        forall|y: Seq<char>| #[trigger] s.drop_last().contains(y) ==> s.contains(y),
        forall|y: Seq<char>| s.contains(y) ==> y == s.last() || #[trigger] s.drop_last().contains(
            y,
        ),
{
    assert forall|y: Seq<char>| #[trigger] s.drop_last().contains(y) implies s.contains(y) by {
        let j = choose|j: int| 0 <= j < s.drop_last().len() && s.drop_last()[j] == y;
        assert(s[j] == y);
    }
    assert forall|y: Seq<char>| s.contains(y) implies y == s.last()
        || #[trigger] s.drop_last().contains(y) by {
        let j = choose|j: int| 0 <= j < s.len() && s[j] == y;
        if j < s.len() - 1 {
            assert(s.drop_last()[j] == y);
        }
    }
}

/// Collects the dependency closure of `root` over the valid entries: exactly
/// the names a recursive toggle touches, each once.
fn collect_touched(db: &LocalDatabase, root: &str) -> (r: Vec<String>)
    requires
        db.wf(),
        valid_named(db.mods@, root@),
    ensures
        r.deep_view().to_set() == touched_set(db.mods@, root@),
        r.deep_view().no_duplicates(),
        forall|i: int| 0 <= i < r.deep_view().len() ==> valid_named(
            db.mods@,
            #[trigger] r.deep_view()[i],
        ),
{
    let ghost s = db.mods@;
    let ghost tt = touched_set(s, root@);
    let mut visited: Vec<String> = Vec::new();
    let mut stack: Vec<String> = Vec::new();
    visited.push(root.to_owned());
    stack.push(root.to_owned());
    proof {
        lemma_touched_contains_root(s, root@);
        lemma_touched_closed(s, root@);
        assert(visited.deep_view() =~= seq![root@]);
        assert(stack.deep_view() =~= seq![root@]);
        assert(visited.deep_view()[0] == root@);
        assert(visited.deep_view().contains(root@));
        lemma_distinct_valid_names_bound(s, visited.deep_view());
    }
    while stack.len() > 0
        invariant
            db.wf(),
            s == db.mods@,
            tt == touched_set(s, root@),
            dep_closed(s, tt),
            visited.deep_view().no_duplicates(),
            stack.deep_view().no_duplicates(),
            visited.deep_view().len() <= s.len(),
            visited.deep_view().contains(root@),
            forall|i: int| 0 <= i < visited.deep_view().len() ==> valid_named(
                s,
                #[trigger] visited.deep_view()[i],
            ),
            forall|i: int| 0 <= i < stack.deep_view().len() ==> visited.deep_view().contains(
                #[trigger] stack.deep_view()[i],
            ),
            forall|i: int| 0 <= i < visited.deep_view().len() ==> tt.contains(
                #[trigger] visited.deep_view()[i],
            ),
            forall|n: Seq<char>, d: Seq<char>|
                visited.deep_view().contains(n) && !stack.deep_view().contains(n) && valid_named(
                    s,
                    n,
                ) && #[trigger] deps_of(s, n).contains(d) && valid_named(s, d)
                    ==> #[trigger] visited.deep_view().contains(d),
        decreases s.len() + 1 - visited.deep_view().len(), stack.deep_view().len(),
    {
        let ghost stack_pre = stack.deep_view();
        let x = match stack.pop() {
            Some(x) => x,
            None => {
                proof {
                    assert(false);
                }
                return visited;
            },
        };
        proof {
            assert(stack.deep_view() =~= stack_pre.drop_last());
            assert(x@ == stack_pre.last());
            assert(stack_pre.contains(x@));
            lemma_drop_last_contains(stack_pre);
        }
        let ghost stack_before = stack.deep_view();
        let ghost visited_before = visited.deep_view();
        let m = match db.get_mod(x.as_str()) {
            Some(m) => m,
            None => {
                proof {
                    assert(visited.deep_view().contains(x@));
                    assert(false);
                }
                return visited;
            },
        };
        let deps = &m.manifest.dependencies;
        let ghost dx = deps_of(s, x@);
        proof {
            assert(dx == deps.deep_view());
        }
        let num_deps = deps.len();
        let mut k: usize = 0;
        while k < num_deps
            invariant
                db.wf(),
                s == db.mods@,
                tt == touched_set(s, root@),
                dep_closed(s, tt),
                num_deps == dx.len(),
                0 <= k <= num_deps,
                dx == deps.deep_view(),
                dx == deps_of(s, x@),
                valid_named(s, x@),
                visited.deep_view().contains(x@),
                tt.contains(x@),
                visited.deep_view().no_duplicates(),
                stack.deep_view().no_duplicates(),
                visited.deep_view().len() <= s.len(),
                visited.deep_view().contains(root@),
                visited_before.len() <= visited.deep_view().len(),
                forall|i: int| 0 <= i < visited.deep_view().len() ==> valid_named(
                    s,
                    #[trigger] visited.deep_view()[i],
                ),
                forall|i: int| 0 <= i < stack.deep_view().len() ==> visited.deep_view().contains(
                    #[trigger] stack.deep_view()[i],
                ),
                forall|i: int| 0 <= i < visited.deep_view().len() ==> tt.contains(
                    #[trigger] visited.deep_view()[i],
                ),
                visited.deep_view().len() - visited_before.len() >= stack.deep_view().len()
                    - stack_before.len(),
                forall|n: Seq<char>, d: Seq<char>|
                    visited.deep_view().contains(n) && n != x@ && !stack.deep_view().contains(n)
                        && valid_named(s, n) && #[trigger] deps_of(s, n).contains(d) && valid_named(
                        s,
                        d,
                    ) ==> #[trigger] visited.deep_view().contains(d),
                forall|j: int|
                    0 <= j < k && valid_named(s, #[trigger] dx[j]) ==> visited.deep_view().contains(
                        dx[j],
                    ),
            decreases num_deps - k,
        {
            let dep = &deps[k];
            proof {
                assert(deps.deep_view()[k as int] == dep@);
            }
            let dep_is_local = match db.get_mod(dep.as_str()) {
                Some(_) => true,
                None => false,
            };
            if dep_is_local {
                if !vec_contains_str(&visited, dep.as_str()) {
                    let ghost vis0 = visited.deep_view();
                    let ghost stk0 = stack.deep_view();
                    visited.push(dep.clone());
                    stack.push(dep.clone());
                    proof {
                        assert(visited.deep_view() =~= vis0.push(dep@));
                        assert(stack.deep_view() =~= stk0.push(dep@));
                        lemma_push_contains(vis0, dep@);
                        lemma_push_contains(stk0, dep@);
                        assert(tt.contains(dep@)) by {
                            assert(tt.contains(x@));
                            assert(deps_of(s, x@).contains(dep@));
                        }
                        lemma_distinct_valid_names_bound(s, visited.deep_view());
                        assert forall|i: int|
                            0 <= i < stack.deep_view().len() implies visited.deep_view().contains(
                            #[trigger] stack.deep_view()[i],
                        ) by {
                            if i < stk0.len() {
                                assert(vis0.contains(stk0[i]));
                            } else {
                                assert(stack.deep_view()[i] == dep@);
                            }
                        }
                        assert forall|n: Seq<char>, d: Seq<char>|
                            visited.deep_view().contains(n) && n != x@
                                && !stack.deep_view().contains(n) && valid_named(s, n)
                                && #[trigger] deps_of(s, n).contains(d) && valid_named(s, d)
                                implies #[trigger] visited.deep_view().contains(d) by {
                            assert(n != dep@);
                            assert(vis0.contains(n));
                            assert(!stk0.contains(n));
                            assert(vis0.contains(d));
                        }
                    }
                }
            }
            k = k + 1;
        }
        proof {
            assert forall|n: Seq<char>, d: Seq<char>|
                visited.deep_view().contains(n) && !stack.deep_view().contains(n) && valid_named(
                    s,
                    n,
                ) && #[trigger] deps_of(s, n).contains(d) && valid_named(s, d)
                    implies #[trigger] visited.deep_view().contains(d) by {
                if n == x@ {
                    let j = choose|j: int| 0 <= j < dx.len() && dx[j] == d;
                }
            }
        }
    }
    proof {
        let vset = visited.deep_view().to_set();
        assert(covers(s, root@, vset)) by {
            assert(vset.contains(root@));
            assert forall|a: Seq<char>, b: Seq<char>|
                vset.contains(a) && valid_named(s, a) && #[trigger] deps_of(s, a).contains(b)
                    && valid_named(s, b) implies #[trigger] vset.contains(b) by {
                assert(visited.deep_view().contains(a));
                assert(!stack.deep_view().contains(a));
                assert(visited.deep_view().contains(b));
            }
        }
        lemma_touched_minimal(s, root@, vset);
        assert forall|x: Seq<char>| #[trigger] vset.contains(x) implies tt.contains(x) by {
            assert(visited.deep_view().contains(x));
            let i = choose|i: int|
                0 <= i < visited.deep_view().len() && visited.deep_view()[i] == x;
            assert(tt.contains(visited.deep_view()[i]));
        }
        assert(vset =~= tt);
    }
    visited
}

/// Whether a mod's enabled state can be persisted at all: it has a live
/// configuration or a default template to copy.
pub open spec fn can_configure(m: LocalMod) -> bool {
    m.config is Some || m.default_config is Some
}

/// The configuration a toggle starts from: the live one, else the default
/// template (materializing it the first time a toggle is requested).
pub open spec fn base_config(m: LocalMod) -> ModConfig {
    match m.config {
        Some(c) => c,
        None => match m.default_config {
            Some(d) => d,
            None => vstd::pervasive::arbitrary(),
        },
    }
}

/// A mod after its enabled flag is set and persisted: the settings of its
/// base configuration are kept verbatim, everything else is untouched.
pub open spec fn set_enabled_mod(m: LocalMod, enabled: bool) -> LocalMod {
    LocalMod {
        manifest: m.manifest,
        mod_path: m.mod_path,
        config: Some(ModConfig { enabled, settings: base_config(m).settings }),
        default_config: m.default_config,
        enabled,
        errors: m.errors,
    }
}

/// The names a toggle writes: the dependency closure of the root when
/// recursive, the root alone otherwise.
pub open spec fn toggle_targets(s: Seq<UnsafeLocalMod>, root: Seq<char>, recursive: bool) -> Set<
    Seq<char>,
> {
    if recursive {
        touched_set(s, root)
    } else {
        Set::empty().insert(root)
    }
}

/// One entry after a toggle: rewritten when it is a valid target, untouched
/// otherwise.
pub open spec fn toggle_entry(e: UnsafeLocalMod, tg: Set<Seq<char>>, enabled: bool) -> UnsafeLocalMod {
    if e is Valid && tg.contains(e.valid_mod().manifest.unique_name@) {
        UnsafeLocalMod::Valid(set_enabled_mod(e.valid_mod(), enabled))
    } else {
        e
    }
}

/// How a successful toggle transforms the database: every valid target has
/// its configuration's enabled flag set and persisted; every other entry is
/// untouched.
pub open spec fn toggle_rel(
    pre: Seq<UnsafeLocalMod>,
    post: Seq<UnsafeLocalMod>,
    root: Seq<char>,
    enabled: bool,
    recursive: bool,
) -> bool {
    &&& post.len() == pre.len()
    &&& forall|i: int|
        0 <= i < pre.len() ==> post[i] == toggle_entry(
            #[trigger] pre[i],
            toggle_targets(pre, root, recursive),
            enabled,
        )
}

/// A mod in an inconsistent state: enabled while one of its locally present
/// dependencies is disabled, or disabled while some enabled mod depends on
/// it.
pub open spec fn dep_violation(s: Seq<UnsafeLocalMod>, u: Seq<char>) -> bool {
    valid_named(s, u) && {
        ||| (mod_named(s, u).enabled && exists|d: Seq<char>|
            #[trigger] deps_of(s, u).contains(d) && valid_named(s, d) && !mod_named(s, d).enabled)
        ||| (!mod_named(s, u).enabled && exists|i: int|
            0 <= i < s.len() && (#[trigger] s[i]) is Valid && s[i].valid_mod().enabled
                && s[i].valid_mod().manifest.dependencies.deep_view().contains(u))
    }
}

impl LocalDatabase {
    /// Whether the named mod's state is inconsistent with its neighbours.
    fn check_violation(&self, u: &str) -> (r: bool)
        requires
            self.wf(),
        ensures
            r == dep_violation(self.mods@, u@),
    {
        let ghost s = self.mods@;
        let m = match self.get_mod(u) {
            None => {
                return false;
            },
            Some(m) => m,
        };
        if m.enabled {
            let deps = &m.manifest.dependencies;
            let num_deps = deps.len();
            let mut k: usize = 0;
            while k < num_deps
                invariant
                    self.wf(),
                    s == self.mods@,
                    valid_named(s, u@),
                    *m == mod_named(s, u@),
                    m.enabled,
                    deps == &m.manifest.dependencies,
                    num_deps == deps.deep_view().len(),
                    0 <= k <= num_deps,
                    forall|j: int|
                        0 <= j < k ==> !(valid_named(s, #[trigger] deps.deep_view()[j])
                            && !mod_named(s, deps.deep_view()[j]).enabled),
                decreases num_deps - k,
            {
                let dep = &deps[k];
                proof {
                    assert(deps.deep_view()[k as int] == dep@);
                }
                match self.get_mod(dep.as_str()) {
                    Some(d) => {
                        if !d.enabled {
                            proof {
                                assert(deps_of(s, u@).contains(dep@));
                            }
                            return true;
                        }
                    },
                    None => {},
                }
                k = k + 1;
            }
            proof {
                if dep_violation(s, u@) {
                    let d = choose|d: Seq<char>|
                        #[trigger] deps_of(s, u@).contains(d) && valid_named(s, d) && !mod_named(
                            s,
                            d,
                        ).enabled;
                    let j = choose|j: int|
                        0 <= j < deps_of(s, u@).len() && deps_of(s, u@)[j] == d;
                    assert(deps.deep_view()[j] == d);
                }
            }
            false
        } else {
            let n = self.mods.len();
            let mut i: usize = 0;
            while i < n
                invariant
                    self.wf(),
                    s == self.mods@,
                    valid_named(s, u@),
                    !mod_named(s, u@).enabled,
                    n == s.len(),
                    0 <= i <= n,
                    forall|j: int|
                        0 <= j < i ==> !((#[trigger] s[j]) is Valid && s[j].valid_mod().enabled
                            && s[j].valid_mod().manifest.dependencies.deep_view().contains(u@)),
                decreases n - i,
            {
                match &self.mods[i] {
                    UnsafeLocalMod::Valid(p) => {
                        if p.enabled {
                            if vec_contains_str(&p.manifest.dependencies, u) {
                                return true;
                            }
                        }
                    },
                    UnsafeLocalMod::Invalid(_) => {},
                }
                i = i + 1;
            }
            false
        }
    }
}

/// Reads a mod's persisted enabled state: absent configuration means
/// disabled.
pub fn get_mod_enabled(local_mod: &LocalMod) -> (r: bool)
    ensures
        r == config_enabled(local_mod.config),
{
    match &local_mod.config {
        Some(c) => c.enabled,
        None => false,
    }
}

/// Materializes a mod's live configuration from its bundled default
/// template, replacing any existing one; fails exactly when no template is
/// bundled.
pub fn copy_default_config(local_mod: &mut LocalMod) -> (r: Result<(), Error>)
    ensures
        match r {
            Ok(()) => old(local_mod).default_config is Some && *final(local_mod) == (LocalMod {
                config: old(local_mod).default_config,
                enabled: config_enabled(old(local_mod).default_config),
                manifest: old(local_mod).manifest,
                mod_path: old(local_mod).mod_path,
                default_config: old(local_mod).default_config,
                errors: old(local_mod).errors,
            }),
            Err(e) => old(local_mod).default_config is None && *final(local_mod) == *old(local_mod)
                && (e matches Error::MissingDefaultConfig(p) && p@ == old(local_mod).mod_path@),
        },
{
    let (de, dsettings) = match &local_mod.default_config {
        Some(d) => (
            d.enabled,
            match &d.settings {
                Some(sstr) => Some(sstr.clone()),
                None => None,
            },
        ),
        None => {
            return Err(Error::MissingDefaultConfig(local_mod.mod_path.clone()));
        },
    };
    local_mod.config = Some(ModConfig { enabled: de, settings: dsettings });
    local_mod.enabled = de;
    Ok(())
}

/// The warnings a toggle reports: exactly the targets left inconsistent.
pub open spec fn warnings_ok(
    post: Seq<UnsafeLocalMod>,
    tg: Set<Seq<char>>,
    warnings: Seq<Seq<char>>,
) -> bool {
    &&& warnings.no_duplicates()
    &&& forall|x: Seq<char>|
        #[trigger] warnings.contains(x) <==> (tg.contains(x) && dep_violation(post, x))
}

/// Sets a mod's enabled flag, persists it, and — when `recursive` — does the
/// same for every dependency in its closure that resolves to a valid local
/// mod, skipping unresolvable names. A mod with no configuration gets one
/// materialized from its default template first. Returns the unique names
/// whose resulting state is inconsistent, for the caller to surface as a
/// non-blocking warning. On any error the database is left untouched.
pub fn toggle_mod(
    unique_name: &str,
    local_db: &mut LocalDatabase,
    enabled: bool,
    recursive: bool,
) -> (r: Result<Vec<String>, Error>)
    requires
        old(local_db).wf(),
    ensures
        final(local_db).wf(),
        match r {
            Ok(warnings) => {
                &&& valid_named(old(local_db).mods@, unique_name@)
                &&& forall|x: Seq<char>|
                    toggle_targets(old(local_db).mods@, unique_name@, recursive).contains(x)
                        && valid_named(old(local_db).mods@, x) ==> can_configure(
                        mod_named(old(local_db).mods@, x),
                    )
                &&& toggle_rel(
                    old(local_db).mods@,
                    final(local_db).mods@,
                    unique_name@,
                    enabled,
                    recursive,
                )
                &&& warnings_ok(
                    final(local_db).mods@,
                    toggle_targets(old(local_db).mods@, unique_name@, recursive),
                    warnings.deep_view(),
                )
            },
            Err(e) => final(local_db).mods@ == old(local_db).mods@ && match e {
                Error::NotFound(n) => n@ == unique_name@ && !valid_named(
                    old(local_db).mods@,
                    unique_name@,
                ),
                Error::MissingDefaultConfig(n) => valid_named(old(local_db).mods@, unique_name@)
                    && toggle_targets(old(local_db).mods@, unique_name@, recursive).contains(n@)
                    && valid_named(old(local_db).mods@, n@) && !can_configure(
                    mod_named(old(local_db).mods@, n@),
                ),
                _ => false,
            },
        },
{
    let ghost pre = local_db.mods@;
    let ghost tg = toggle_targets(pre, unique_name@, recursive);
    let found = match local_db.get_mod(unique_name) {
        Some(_) => true,
        None => false,
    };
    if !found {
        return Err(Error::NotFound(unique_name.to_owned()));
    }
    let targets: Vec<String> = if recursive {
        collect_touched(local_db, unique_name)
    } else {
        let mut v: Vec<String> = Vec::new();
        v.push(unique_name.to_owned());
        proof {
            assert(v.deep_view() =~= seq![unique_name@]);
            assert(v.deep_view()[0] == unique_name@);
            assert forall|x: Seq<char>| #[trigger] v.deep_view().to_set().contains(x) implies tg.contains(
                x,
            ) by {
                let j = choose|j: int| 0 <= j < v.deep_view().len() && v.deep_view()[j] == x;
            }
            assert(v.deep_view().to_set() =~= tg);
        }
        v
    };
    let ghost tnames = targets.deep_view();
    proof {
        assert(tnames.to_set() == tg);
        assert forall|j: int| 0 <= j < tnames.len() implies tg.contains(#[trigger] tnames[j]) by {
            assert(tnames.contains(tnames[j]));
        }
    }
    let num_targets = targets.len();
    let mut t: usize = 0;
    while t < num_targets
        invariant
            local_db.wf(),
            local_db.mods@ == pre,
            pre == old(local_db).mods@,
            valid_named(pre, unique_name@),
            tg == toggle_targets(pre, unique_name@, recursive),
            num_targets == tnames.len(),
            tnames == targets.deep_view(),
            0 <= t <= num_targets,
            forall|j: int| 0 <= j < tnames.len() ==> valid_named(pre, #[trigger] tnames[j]),
            forall|j: int| 0 <= j < tnames.len() ==> tg.contains(#[trigger] tnames[j]),
            forall|j: int|
                0 <= j < t ==> can_configure(mod_named(pre, #[trigger] tnames[j])),
        decreases num_targets - t,
    {
        let name = &targets[t];
        proof {
            assert(tnames[t as int] == name@);
        }
        match local_db.get_mod(name.as_str()) {
            Some(m) => {
                let no_config = match &m.config {
                    Some(_) => false,
                    None => true,
                };
                let no_default = match &m.default_config {
                    Some(_) => false,
                    None => true,
                };
                if no_config && no_default {
                    proof {
                        assert(local_db.mods@ == pre);
                        assert(*m == mod_named(pre, name@));
                        assert(!can_configure(mod_named(pre, name@)));
                        assert(tg.contains(name@));
                        assert(valid_named(pre, name@));
                        assert(valid_named(pre, unique_name@));
                    }
                    return Err(Error::MissingDefaultConfig(name.clone()));
                }
            },
            None => {
                proof {
                    assert(false);
                }
            },
        }
        t = t + 1;
    }
    proof {
        assert forall|x: Seq<char>| tg.contains(x) && valid_named(pre, x) implies can_configure(
            mod_named(pre, x),
        ) by {
            assert(tnames.to_set().contains(x));
            let j = choose|j: int| 0 <= j < tnames.len() && tnames[j] == x;
        }
    }
    let n = local_db.mods.len();
    let mut i: usize = 0;
    while i < n
        invariant
            n == pre.len(),
            local_db.mods@.len() == pre.len(),
            pre == old(local_db).mods@,
            valid_named(pre, unique_name@),
            tg == toggle_targets(pre, unique_name@, recursive),
            0 <= i <= n,
            keys_unique(pre),
            forall|j: int| 0 <= j < pre.len() ==> (#[trigger] pre[j]).wf(),
            forall|x: Seq<char>| tg.contains(x) && valid_named(pre, x) ==> can_configure(
                mod_named(pre, x),
            ),
            tnames == targets.deep_view(),
            tnames.to_set() == tg,
            forall|j: int| i <= j < n ==> local_db.mods@[j] == pre[j],
            forall|j: int|
                0 <= j < i ==> local_db.mods@[j] == toggle_entry(#[trigger] pre[j], tg, enabled),
            forall|j: int| 0 <= j < n ==> (#[trigger] local_db.mods@[j]).key() == pre[j].key(),
            forall|j: int| 0 <= j < i ==> (#[trigger] local_db.mods@[j]).wf(),
        decreases n - i,
    {
        let is_target = match &local_db.mods[i] {
            UnsafeLocalMod::Valid(m) => vec_contains_str(&targets, m.manifest.unique_name.as_str()),
            UnsafeLocalMod::Invalid(_) => false,
        };
        if is_target {
            let ghost mods0 = local_db.mods@;
            let e = local_db.mods.remove(i);
            proof {
                assert(e == pre[i as int]);
                assert(e is Valid);
                assert(tnames.contains(e.valid_mod().manifest.unique_name@));
                assert(tg.contains(e.valid_mod().manifest.unique_name@));
                lemma_mod_named_at(pre, i as int);
                assert(can_configure(e.valid_mod()));
            }
            match e {
                UnsafeLocalMod::Valid(m) => {
                    let ghost m0 = m;
                    let LocalMod { manifest, mod_path, config, default_config, enabled: _, errors } =
                        m;
                    let (settings, default_config2): (Option<String>, Option<ModConfig>) =
                        match config {
                        Some(c) => (c.settings, default_config),
                        None => match default_config {
                            Some(d) => {
                                let ModConfig { enabled: de, settings: ds } = d;
                                let (ds1, ds2): (Option<String>, Option<String>) = match ds {
                                    Some(sstr) => {
                                        let c = sstr.clone();
                                        (Some(c), Some(sstr))
                                    },
                                    None => (None, None),
                                };
                                (ds1, Some(ModConfig { enabled: de, settings: ds2 }))
                            },
                            None => {
                                proof {
                                    assert(false);
                                }
                                (None, None)
                            },
                        },
                    };
                    let new_m = LocalMod {
                        manifest,
                        mod_path,
                        config: Some(ModConfig { enabled, settings }),
                        default_config: default_config2,
                        enabled,
                        errors,
                    };
                    proof {
                        assert(new_m == set_enabled_mod(m0, enabled));
                    }
                    local_db.mods.insert(i, UnsafeLocalMod::Valid(new_m));
                    proof {
                        assert(local_db.mods@ =~= mods0.update(
                            i as int,
                            UnsafeLocalMod::Valid(new_m),
                        ));
                    }
                },
                UnsafeLocalMod::Invalid(f) => {
                    proof {
                        assert(false);
                    }
                    local_db.mods.insert(i, UnsafeLocalMod::Invalid(f));
                },
            }
        } else {
            proof {
                let ej = local_db.mods@[i as int];
                if ej is Valid {
                    assert(!tnames.contains(ej.valid_mod().manifest.unique_name@));
                    assert(!tg.contains(ej.valid_mod().manifest.unique_name@));
                }
            }
        }
        i = i + 1;
    }
    proof {
        assert(local_db.wf());
        assert(toggle_rel(pre, local_db.mods@, unique_name@, enabled, recursive));
    }
    let ghost post = local_db.mods@;
    let mut warnings: Vec<String> = Vec::new();
    let mut t2: usize = 0;
    while t2 < num_targets
        invariant
            local_db.wf(),
            local_db.mods@ == post,
            pre == old(local_db).mods@,
            valid_named(pre, unique_name@),
            tg == toggle_targets(pre, unique_name@, recursive),
            toggle_rel(pre, post, unique_name@, enabled, recursive),
            forall|x: Seq<char>| tg.contains(x) && valid_named(pre, x) ==> can_configure(
                mod_named(pre, x),
            ),
            num_targets == tnames.len(),
            tnames == targets.deep_view(),
            tnames.no_duplicates(),
            tnames.to_set() == tg,
            0 <= t2 <= num_targets,
            warnings.deep_view().no_duplicates(),
            forall|x: Seq<char>|
                #[trigger] warnings.deep_view().contains(x) ==> tnames.take(t2 as int).contains(x)
                    && dep_violation(post, x),
            forall|j: int|
                0 <= j < t2 && dep_violation(post, #[trigger] tnames[j])
                    ==> warnings.deep_view().contains(tnames[j]),
        decreases num_targets - t2,
    {
        let name = &targets[t2];
        proof {
            assert(tnames[t2 as int] == name@);
        }
        if local_db.check_violation(name.as_str()) {
            let ghost w0 = warnings.deep_view();
            warnings.push(name.clone());
            proof {
                assert(warnings.deep_view() =~= w0.push(name@));
                lemma_push_contains(w0, name@);
                assert(!w0.contains(name@)) by {
                    if w0.contains(name@) {
                        let j = choose|j: int|
                            0 <= j < tnames.take(t2 as int).len() && tnames.take(t2 as int)[j]
                                == name@;
                        assert(tnames[j] == tnames[t2 as int]);
                    }
                }
                assert forall|x: Seq<char>| #[trigger] warnings.deep_view().contains(x) implies tnames.take(
                    t2 as int + 1,
                ).contains(x) && dep_violation(post, x) by {
                    if w0.contains(x) {
                        let j = choose|j: int|
                            0 <= j < tnames.take(t2 as int).len() && tnames.take(t2 as int)[j]
                                == x;
                        assert(tnames.take(t2 as int + 1)[j] == x);
                    } else {
                        assert(x == name@);
                        assert(tnames.take(t2 as int + 1)[t2 as int] == x);
                    }
                }
            }
        } else {
            proof {
                assert forall|x: Seq<char>| #[trigger] warnings.deep_view().contains(x) implies tnames.take(
                    t2 as int + 1,
                ).contains(x) && dep_violation(post, x) by {
                    let j = choose|j: int|
                        0 <= j < tnames.take(t2 as int).len() && tnames.take(t2 as int)[j] == x;
                    assert(tnames.take(t2 as int + 1)[j] == x);
                }
            }
        }
        t2 = t2 + 1;
    }
    proof {
        assert forall|x: Seq<char>|
            #[trigger] warnings.deep_view().contains(x) implies (tg.contains(x) && dep_violation(
            post,
            x,
        )) by {
            assert(tnames.take(num_targets as int).contains(x));
            let j = choose|j: int|
                0 <= j < tnames.take(num_targets as int).len() && tnames.take(num_targets as int)[j]
                    == x;
            assert(tnames[j] == x);
            assert(tnames.contains(x));
        }
        assert forall|x: Seq<char>| tg.contains(x) && dep_violation(post, x) implies #[trigger] warnings.deep_view().contains(
            x,
        ) by {
            assert(tnames.to_set().contains(x));
            let j = choose|j: int| 0 <= j < tnames.len() && tnames[j] == x;
        }
    }
    Ok(warnings)
}

/// A toggle rewrites configurations only: which entries are valid, their
/// keys, manifests and dependency edges — and with them the target set of
/// any further toggle — are exactly as before.
pub proof fn lemma_toggle_preserves_structure(
    pre: Seq<UnsafeLocalMod>,
    post: Seq<UnsafeLocalMod>,
    root: Seq<char>,
    enabled: bool,
    recursive: bool,
)
    requires
        keys_unique(pre),
        toggle_rel(pre, post, root, enabled, recursive),
    ensures
        post.len() == pre.len(),
        keys_unique(post),
        forall|k: Seq<char>| valid_named(post, k) <==> valid_named(pre, k),
        forall|k: Seq<char>|
            valid_named(pre, k) ==> idx_of_valid(post, k) == idx_of_valid(pre, k)
                && #[trigger] mod_named(post, k).manifest == mod_named(pre, k).manifest,
        forall|k: Seq<char>| valid_named(pre, k) ==> #[trigger] deps_of(post, k) == deps_of(pre, k),
        forall|r2: Seq<char>, rec2: bool|
            #[trigger] toggle_targets(post, r2, rec2) == toggle_targets(pre, r2, rec2),
{
    let tg = toggle_targets(pre, root, recursive);
    assert forall|i: int| 0 <= i < pre.len() implies ((#[trigger] post[i]) is Valid <==> pre[i] is Valid)
        && post[i].key() == pre[i].key() && (pre[i] is Valid ==> post[i].valid_mod().manifest
        == pre[i].valid_mod().manifest) by {
        assert(post[i] == toggle_entry(pre[i], tg, enabled));
    }
    assert forall|k: Seq<char>| valid_named(post, k) implies valid_named(pre, k) by {
        let i = choose|i: int| 0 <= i < post.len() && (#[trigger] post[i]).is_valid_named(k);
        assert(pre[i].is_valid_named(k));
    }
    assert forall|k: Seq<char>| valid_named(pre, k) implies valid_named(post, k) by {
        let i = choose|i: int| 0 <= i < pre.len() && (#[trigger] pre[i]).is_valid_named(k);
        assert(post[i].is_valid_named(k));
    }
    assert forall|k: Seq<char>| valid_named(pre, k) implies idx_of_valid(post, k) == idx_of_valid(
        pre,
        k,
    ) && #[trigger] mod_named(post, k).manifest == mod_named(pre, k).manifest by {
        let i = idx_of_valid(pre, k);
        assert(pre[i].is_valid_named(k));
        assert(post[i].is_valid_named(k));
        let j = idx_of_valid(post, k);
        assert(post[j].is_valid_named(k));
        if j != i {
            assert(post[j].key() == post[i].key());
        }
    }
    assert forall|k: Seq<char>| valid_named(pre, k) implies #[trigger] deps_of(post, k) == deps_of(
        pre,
        k,
    ) by {
        assert(mod_named(post, k).manifest == mod_named(pre, k).manifest);
    }
    assert forall|r2: Seq<char>, rec2: bool| #[trigger] toggle_targets(post, r2, rec2)
        == toggle_targets(pre, r2, rec2) by {
        assert forall|t: Set<Seq<char>>| #[trigger] dep_closed(post, t) <==> dep_closed(
            pre,
            t,
        ) by {
            if dep_closed(pre, t) {
                assert forall|a: Seq<char>, b: Seq<char>|
                    t.contains(a) && valid_named(post, a) && #[trigger] deps_of(post, a).contains(b)
                        && valid_named(post, b) implies #[trigger] t.contains(b) by {
                    assert(deps_of(pre, a).contains(b));
                }
            }
            if dep_closed(post, t) {
                assert forall|a: Seq<char>, b: Seq<char>|
                    t.contains(a) && valid_named(pre, a) && #[trigger] deps_of(pre, a).contains(b)
                        && valid_named(pre, b) implies #[trigger] t.contains(b) by {
                    assert(deps_of(post, a).contains(b));
                }
            }
        }
        assert forall|x: Seq<char>| touched_set(post, r2).contains(x) implies touched_set(
            pre,
            r2,
        ).contains(x) by {
            assert forall|t: Set<Seq<char>>| #[trigger] covers(pre, r2, t) implies t.contains(
                x,
            ) by {
                assert(dep_closed(pre, t));
                assert(dep_closed(post, t));
                assert(covers(post, r2, t));
            }
        }
        assert forall|x: Seq<char>| touched_set(pre, r2).contains(x) implies touched_set(
            post,
            r2,
        ).contains(x) by {
            assert forall|t: Set<Seq<char>>| #[trigger] covers(post, r2, t) implies t.contains(
                x,
            ) by {
                assert(dep_closed(post, t));
                assert(dep_closed(pre, t));
                assert(covers(pre, r2, t));
            }
        }
        assert(touched_set(post, r2) =~= touched_set(pre, r2));
        assert(toggle_targets(post, r2, rec2) =~= toggle_targets(pre, r2, rec2));
    }
}

/// Idempotence: toggling twice with the same arguments leaves exactly the
/// state the first toggle wrote; the second write changes nothing.
pub proof fn lemma_toggle_idempotent(
    pre: Seq<UnsafeLocalMod>,
    mid: Seq<UnsafeLocalMod>,
    post: Seq<UnsafeLocalMod>,
    root: Seq<char>,
    enabled: bool,
    recursive: bool,
)
    requires
        keys_unique(pre),
        toggle_rel(pre, mid, root, enabled, recursive),
        toggle_rel(mid, post, root, enabled, recursive),
    ensures
        post == mid,
{
    lemma_toggle_preserves_structure(pre, mid, root, enabled, recursive);
    let tg = toggle_targets(pre, root, recursive);
    assert(toggle_targets(mid, root, recursive) == tg);
    assert forall|i: int| 0 <= i < mid.len() implies post[i] == mid[i] by {
        assert(mid[i] == toggle_entry(pre[i], tg, enabled));
        assert(post[i] == toggle_entry(mid[i], tg, enabled));
        if pre[i] is Valid && tg.contains(pre[i].valid_mod().manifest.unique_name@) {
            let m = pre[i].valid_mod();
            let m1 = set_enabled_mod(m, enabled);
            assert(base_config(m1) == ModConfig {
                enabled,
                settings: base_config(m).settings,
            });
            assert(set_enabled_mod(m1, enabled) == m1);
        }
    }
    assert(post =~= mid);
}

/// Round trip: the enabled state a toggle writes is exactly what a
/// subsequent read of the mod's configuration returns, whether or not the
/// mod had a configuration before.
pub proof fn lemma_toggle_round_trip(
    pre: Seq<UnsafeLocalMod>,
    post: Seq<UnsafeLocalMod>,
    root: Seq<char>,
    enabled: bool,
    recursive: bool,
)
    requires
        keys_unique(pre),
        valid_named(pre, root),
        toggle_rel(pre, post, root, enabled, recursive),
    ensures
        valid_named(post, root),
        mod_named(post, root).enabled == enabled,
        config_enabled(mod_named(post, root).config) == enabled,
{
    lemma_toggle_preserves_structure(pre, post, root, enabled, recursive);
    let tg = toggle_targets(pre, root, recursive);
    assert(tg.contains(root)) by {
        if recursive {
            lemma_touched_contains_root(pre, root);
        }
    }
    let i = idx_of_valid(pre, root);
    assert(pre[i].is_valid_named(root));
    assert(post[i] == toggle_entry(pre[i], tg, enabled));
    assert(idx_of_valid(post, root) == i);
}

/// Recursive propagation: with `a` depending on `b`, `b` on `c`, and `c` on
/// nothing, a recursive toggle of `a` rewrites `a`, `b` and `c` but leaves a
/// sibling `d` with no dependency relation to them untouched.
pub proof fn lemma_recursive_propagation(
    pre: Seq<UnsafeLocalMod>,
    post: Seq<UnsafeLocalMod>,
    a: Seq<char>,
    b: Seq<char>,
    c: Seq<char>,
    d: Seq<char>,
    enabled: bool,
)
    requires
        keys_unique(pre),
        valid_named(pre, a),
        valid_named(pre, b),
        valid_named(pre, c),
        valid_named(pre, d),
        deps_of(pre, a) == seq![b],
        deps_of(pre, b) == seq![c],
        deps_of(pre, c).len() == 0,
        d != a,
        d != b,
        d != c,
        toggle_rel(pre, post, a, enabled, true),
    ensures
        mod_named(post, a).enabled == enabled,
        mod_named(post, b).enabled == enabled,
        mod_named(post, c).enabled == enabled,
        post[idx_of_valid(pre, d)] == pre[idx_of_valid(pre, d)],
        mod_named(post, d) == mod_named(pre, d),
{
    lemma_toggle_preserves_structure(pre, post, a, enabled, true);
    let tg = touched_set(pre, a);
    lemma_touched_contains_root(pre, a);
    lemma_touched_closed(pre, a);
    assert(tg.contains(b)) by {
        assert(deps_of(pre, a)[0] == b);
        assert(deps_of(pre, a).contains(b));
    }
    assert(tg.contains(c)) by {
        assert(deps_of(pre, b)[0] == c);
        assert(deps_of(pre, b).contains(c));
    }
    let small = Set::empty().insert(a).insert(b).insert(c);
    assert(covers(pre, a, small)) by {
        assert(small.contains(a));
        assert forall|x: Seq<char>, y: Seq<char>|
            small.contains(x) && valid_named(pre, x) && #[trigger] deps_of(pre, x).contains(y)
                && valid_named(pre, y) implies #[trigger] small.contains(y) by {
            if x == a {
                let j = choose|j: int| 0 <= j < deps_of(pre, a).len() && deps_of(pre, a)[j] == y;
                assert(y == b);
            } else if x == b {
                let j = choose|j: int| 0 <= j < deps_of(pre, b).len() && deps_of(pre, b)[j] == y;
                assert(y == c);
            } else {
                let j = choose|j: int| 0 <= j < deps_of(pre, c).len() && deps_of(pre, c)[j] == y;
            }
        }
    }
    lemma_touched_minimal(pre, a, small);
    assert(!tg.contains(d));
    let i = idx_of_valid(pre, d);
    assert(pre[i].is_valid_named(d));
    assert(post[i] == toggle_entry(pre[i], toggle_targets(pre, a, true), enabled));
    assert(post[i] == pre[i]);
    assert(idx_of_valid(post, d) == i);
    lemma_toggle_round_trip(pre, post, a, enabled, true);
    let ib = idx_of_valid(pre, b);
    assert(pre[ib].is_valid_named(b));
    assert(post[ib] == toggle_entry(pre[ib], toggle_targets(pre, a, true), enabled));
    assert(idx_of_valid(post, b) == ib);
    let ic = idx_of_valid(pre, c);
    assert(pre[ic].is_valid_named(c));
    assert(post[ic] == toggle_entry(pre[ic], toggle_targets(pre, a, true), enabled));
    assert(idx_of_valid(post, c) == ic);
}

} // verus!
