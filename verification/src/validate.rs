use vstd::prelude::*;

use crate::db::{deps_of, idx_of_valid, keys_unique, mod_named, valid_named, LocalDatabase};
use crate::mods::UnsafeLocalMod;
use crate::Error;

verus! {

/// One problem `validate` reports about a mod.
pub enum ModValidationError {
    /// A declared dependency resolves to no installed mod.
    MissingDep(String),
    /// A declared dependency is installed but disabled.
    DisabledDep(String),
    /// A declared conflict is installed and enabled.
    ConflictingMod(String),
}

/// Mathematical model of one validation problem.
pub enum IssueModel {
    MissingDep(Seq<char>),
    DisabledDep(Seq<char>),
    ConflictingMod(Seq<char>),
}

impl View for ModValidationError {
    type V = IssueModel;

    open spec fn view(&self) -> IssueModel {
        match self {
            ModValidationError::MissingDep(d) => IssueModel::MissingDep(d@),
            ModValidationError::DisabledDep(d) => IssueModel::DisabledDep(d@),
            ModValidationError::ConflictingMod(c) => IssueModel::ConflictingMod(c@),
        }
    }
}

/// The model of one reported (mod, problem) pair.
pub open spec fn issue_view(p: (String, ModValidationError)) -> (Seq<char>, IssueModel) {
    (p.0@, p.1@)
}

/// The model of a whole report.
pub open spec fn report_view(v: Seq<(String, ModValidationError)>) -> Seq<
    (Seq<char>, IssueModel),
> {
    Seq::new(v.len(), |i: int| issue_view(v[i]))
}

/// What one dependency name of an enabled mod `u` contributes to the report.
pub open spec fn dep_issue_one(s: Seq<UnsafeLocalMod>, u: Seq<char>, d: Seq<char>) -> Seq<
    (Seq<char>, IssueModel),
> {
    if !valid_named(s, d) {
        seq![(u, IssueModel::MissingDep(d))]
    } else if !mod_named(s, d).enabled {
        seq![(u, IssueModel::DisabledDep(d))]
    } else {
        Seq::empty()
    }
}

/// What a prefix of a dependency list contributes, in order.
pub open spec fn dep_issues(s: Seq<UnsafeLocalMod>, u: Seq<char>, deps: Seq<Seq<char>>) -> Seq<
    (Seq<char>, IssueModel),
>
    decreases deps.len(),
{
    if deps.len() == 0 {
        Seq::empty()
    } else {
        dep_issues(s, u, deps.drop_last()) + dep_issue_one(s, u, deps.last())
    }
}

/// What one conflict name of an enabled mod `u` contributes.
pub open spec fn conflict_issue_one(s: Seq<UnsafeLocalMod>, u: Seq<char>, c: Seq<char>) -> Seq<
    (Seq<char>, IssueModel),
> {
    if valid_named(s, c) && mod_named(s, c).enabled {
        seq![(u, IssueModel::ConflictingMod(c))]
    } else {
        Seq::empty()
    }
}

pub open spec fn conflict_issues(s: Seq<UnsafeLocalMod>, u: Seq<char>, cs: Seq<Seq<char>>) -> Seq<
    (Seq<char>, IssueModel),
>
    decreases cs.len(),
{
    if cs.len() == 0 {
        Seq::empty()
    } else {
        conflict_issues(s, u, cs.drop_last()) + conflict_issue_one(s, u, cs.last())
    }
}

/// What one database entry contributes: nothing unless it is a valid,
/// enabled mod.
pub open spec fn entry_report(s: Seq<UnsafeLocalMod>, e: UnsafeLocalMod) -> Seq<
    (Seq<char>, IssueModel),
> {
    if e is Valid && e.valid_mod().enabled {
        dep_issues(
            s,
            e.valid_mod().manifest.unique_name@,
            e.valid_mod().manifest.dependencies.deep_view(),
        ) + conflict_issues(
            s,
            e.valid_mod().manifest.unique_name@,
            e.valid_mod().manifest.conflicts.deep_view(),
        )
    } else {
        Seq::empty()
    }
}

/// The report over the first `n` entries, in entry order.
pub open spec fn report_upto(s: Seq<UnsafeLocalMod>, n: int) -> Seq<(Seq<char>, IssueModel)>
    decreases n,
{
    if n <= 0 {
        Seq::empty()
    } else {
        report_upto(s, n - 1) + entry_report(s, s[n - 1])
    }
}

/// The whole validation report: for every enabled mod, each dependency that
/// is absent or disabled and each declared conflict that is present and
/// enabled, in database order.
pub open spec fn validation_report(s: Seq<UnsafeLocalMod>) -> Seq<(Seq<char>, IssueModel)> {
    report_upto(s, s.len() as int)
}

proof fn lemma_report_push(
    v0: Seq<(String, ModValidationError)>,
    v1: Seq<(String, ModValidationError)>,
    p: (String, ModValidationError),
)
    requires
        v1 == v0.push(p),
    ensures
        report_view(v1) == report_view(v0) + seq![issue_view(p)],
{
    assert(report_view(v1) =~= report_view(v0) + seq![issue_view(p)]);
}

proof fn lemma_dep_issues_step(s: Seq<UnsafeLocalMod>, u: Seq<char>, deps: Seq<Seq<char>>, k: int)
    requires
        0 <= k < deps.len(),
    ensures
        dep_issues(s, u, deps.take(k + 1)) == dep_issues(s, u, deps.take(k)) + dep_issue_one(
            s,
            u,
            deps[k],
        ),
{
    assert(deps.take(k + 1).drop_last() =~= deps.take(k));
    assert(deps.take(k + 1).last() == deps[k]);
}

proof fn lemma_conflict_issues_step(
    s: Seq<UnsafeLocalMod>,
    u: Seq<char>,
    cs: Seq<Seq<char>>,
    k: int,
)
    requires
        0 <= k < cs.len(),
    ensures
        conflict_issues(s, u, cs.take(k + 1)) == conflict_issues(s, u, cs.take(k))
            + conflict_issue_one(s, u, cs[k]),
{
    assert(cs.take(k + 1).drop_last() =~= cs.take(k));
    assert(cs.take(k + 1).last() == cs[k]);
}

/// Reports every dependency and conflict problem of every enabled mod.
/// Purely read-only.
pub fn validate(db: &LocalDatabase) -> (r: Vec<(String, ModValidationError)>)
    requires
        db.wf(),
    ensures
        report_view(r@) == validation_report(db.mods@),
{
    let ghost s = db.mods@;
    let mut out: Vec<(String, ModValidationError)> = Vec::new();
    let n = db.mods.len();
    let mut i: usize = 0;
    proof {
        assert(report_view(out@) =~= report_upto(s, 0));
    }
    while i < n
        invariant
            db.wf(),
            s == db.mods@,
            n == s.len(),
            0 <= i <= n,
            report_view(out@) == report_upto(s, i as int),
        decreases n - i,
    {
        let ghost base = report_upto(s, i as int);
        match &db.mods[i] {
            UnsafeLocalMod::Valid(m) => {
                if m.enabled {
                    let ghost u = m.manifest.unique_name@;
                    let deps = &m.manifest.dependencies;
                    let num_deps = deps.len();
                    let mut k: usize = 0;
                    while k < num_deps
                        invariant
                            db.wf(),
                            s == db.mods@,
                            0 <= k <= num_deps,
                            num_deps == deps.deep_view().len(),
                            u == m.manifest.unique_name@,
                            deps == &m.manifest.dependencies,
                            report_view(out@) == base + dep_issues(s, u, deps.deep_view().take(
                                k as int,
                            )),
                        decreases num_deps - k,
                    {
                        let ghost dpre = deps.deep_view().take(k as int);
                        let dep = &deps[k];
                        proof {
                            assert(deps.deep_view().take(k as int + 1).drop_last() =~= dpre);
                            assert(deps.deep_view().take(k as int + 1).last() == dep@);
                        }
                        let ghost out0 = out@;
                        proof {
                            lemma_dep_issues_step(s, u, deps.deep_view(), k as int);
                        }
                        match db.get_mod(dep.as_str()) {
                            None => {
                                out.push(
                                    (
                                        m.manifest.unique_name.clone(),
                                        ModValidationError::MissingDep(dep.clone()),
                                    ),
                                );
                                proof {
                                    lemma_report_push(out0, out@, out@[out@.len() - 1]);
                                    assert(dep_issue_one(s, u, dep@) =~= seq![
                                        (u, IssueModel::MissingDep(dep@)),
                                    ]);
                                    assert(report_view(out@) =~= base + dep_issues(
                                        s,
                                        u,
                                        deps.deep_view().take(k as int + 1),
                                    ));
                                }
                            },
                            Some(d) => {
                                if !d.enabled {
                                    out.push(
                                        (
                                            m.manifest.unique_name.clone(),
                                            ModValidationError::DisabledDep(dep.clone()),
                                        ),
                                    );
                                    proof {
                                        lemma_report_push(out0, out@, out@[out@.len() - 1]);
                                        assert(dep_issue_one(s, u, dep@) =~= seq![
                                            (u, IssueModel::DisabledDep(dep@)),
                                        ]);
                                        assert(report_view(out@) =~= base + dep_issues(
                                            s,
                                            u,
                                            deps.deep_view().take(k as int + 1),
                                        ));
                                    }
                                } else {
                                    proof {
                                        assert(dep_issue_one(s, u, dep@) =~= Seq::empty());
                                        assert(report_view(out@) =~= base + dep_issues(
                                            s,
                                            u,
                                            deps.deep_view().take(k as int + 1),
                                        ));
                                    }
                                }
                            },
                        }
                        k = k + 1;
                    }
                    proof {
                        assert(deps.deep_view().take(num_deps as int) =~= deps.deep_view());
                    }
                    let ghost base2 = base + dep_issues(s, u, deps.deep_view());
                    let conflicts = &m.manifest.conflicts;
                    let num_cs = conflicts.len();
                    let mut k2: usize = 0;
                    while k2 < num_cs
                        invariant
                            db.wf(),
                            s == db.mods@,
                            0 <= k2 <= num_cs,
                            num_cs == conflicts.deep_view().len(),
                            u == m.manifest.unique_name@,
                            conflicts == &m.manifest.conflicts,
                            report_view(out@) == base2 + conflict_issues(
                                s,
                                u,
                                conflicts.deep_view().take(k2 as int),
                            ),
                        decreases num_cs - k2,
                    {
                        let c = &conflicts[k2];
                        proof {
                            assert(conflicts.deep_view().take(k2 as int + 1).drop_last()
                                =~= conflicts.deep_view().take(k2 as int));
                            assert(conflicts.deep_view().take(k2 as int + 1).last() == c@);
                        }
                        let ghost out0 = out@;
                        proof {
                            lemma_conflict_issues_step(s, u, conflicts.deep_view(), k2 as int);
                        }
                        match db.get_mod(c.as_str()) {
                            Some(cm) => {
                                if cm.enabled {
                                    out.push(
                                        (
                                            m.manifest.unique_name.clone(),
                                            ModValidationError::ConflictingMod(c.clone()),
                                        ),
                                    );
                                    proof {
                                        lemma_report_push(out0, out@, out@[out@.len() - 1]);
                                        assert(conflict_issue_one(s, u, c@) =~= seq![
                                            (u, IssueModel::ConflictingMod(c@)),
                                        ]);
                                    }
                                } else {
                                    proof {
                                        assert(conflict_issue_one(s, u, c@) =~= Seq::empty());
                                    }
                                }
                            },
                            None => {
                                proof {
                                    assert(conflict_issue_one(s, u, c@) =~= Seq::empty());
                                }
                            },
                        }
                        proof {
                            assert(report_view(out@) =~= base2 + conflict_issues(
                                s,
                                u,
                                conflicts.deep_view().take(k2 as int + 1),
                            ));
                        }
                        k2 = k2 + 1;
                    }
                    proof {
                        assert(conflicts.deep_view().take(num_cs as int)
                            =~= conflicts.deep_view());
                        assert(s[i as int] is Valid && s[i as int].valid_mod().enabled);
                        assert(entry_report(s, s[i as int]) == dep_issues(s, u, deps.deep_view())
                            + conflict_issues(s, u, conflicts.deep_view()));
                        assert(report_view(out@) =~= base + entry_report(s, s[i as int]));
                    }
                } else {
                    proof {
                        assert(entry_report(s, s[i as int]) =~= Seq::empty());
                        assert(report_view(out@) =~= base + entry_report(s, s[i as int]));
                    }
                }
            },
            UnsafeLocalMod::Invalid(_) => {
                proof {
                    assert(entry_report(s, s[i as int]) =~= Seq::empty());
                    assert(report_view(out@) =~= base + entry_report(s, s[i as int]));
                }
            },
        }
        i = i + 1;
    }
    out
}

/// The reports that say mod `u` is missing its dependency `d`.
pub open spec fn is_missing_report(u: Seq<char>, d: Seq<char>) -> spec_fn(
    (Seq<char>, IssueModel),
) -> bool {
    |p: (Seq<char>, IssueModel)| p == (u, IssueModel::MissingDep(d))
}

proof fn lemma_filter_all_fail<A>(s: Seq<A>, pred: spec_fn(A) -> bool)
    requires
        forall|j: int| 0 <= j < s.len() ==> !pred(#[trigger] s[j]),
    ensures
        s.filter(pred).len() == 0,
    decreases s.len(),
{
    reveal(Seq::filter);
    if s.len() > 0 {
        lemma_filter_all_fail(s.drop_last(), pred);
    }
}

proof fn lemma_filter_singleton<A>(p: A, pred: spec_fn(A) -> bool)
    ensures
        seq![p].filter(pred) == if pred(p) {
            seq![p]
        } else {
            Seq::<A>::empty()
        },
{
    reveal(Seq::filter);
    let s = seq![p];
    assert(s.drop_last() =~= Seq::<A>::empty());
    assert(Seq::<A>::empty().filter(pred) =~= Seq::<A>::empty());
    assert(s.last() == p);
    if pred(p) {
        assert(s.filter(pred) =~= seq![p]);
    }
}

proof fn lemma_dep_issues_first(s: Seq<UnsafeLocalMod>, u0: Seq<char>, deps: Seq<Seq<char>>)
    ensures
        forall|j: int|
            0 <= j < dep_issues(s, u0, deps).len() ==> (#[trigger] dep_issues(s, u0, deps)[j]).0
                == u0,
    decreases deps.len(),
{
    if deps.len() > 0 {
        lemma_dep_issues_first(s, u0, deps.drop_last());
        let rest = dep_issues(s, u0, deps.drop_last());
        let one = dep_issue_one(s, u0, deps.last());
        assert forall|j: int| 0 <= j < dep_issues(s, u0, deps).len() implies (#[trigger] dep_issues(
            s,
            u0,
            deps,
        )[j]).0 == u0 by {
            if j < rest.len() {
                assert(dep_issues(s, u0, deps)[j] == rest[j]);
            } else {
                assert(dep_issues(s, u0, deps)[j] == one[j - rest.len()]);
                assert(one[0].0 == u0);
            }
        }
    }
}

proof fn lemma_conflict_issues_first(s: Seq<UnsafeLocalMod>, u0: Seq<char>, cs: Seq<Seq<char>>)
    ensures
        forall|j: int|
            0 <= j < conflict_issues(s, u0, cs).len() ==> (#[trigger] conflict_issues(
                s,
                u0,
                cs,
            )[j]).0 == u0,
    decreases cs.len(),
{
    if cs.len() > 0 {
        lemma_conflict_issues_first(s, u0, cs.drop_last());
        let rest = conflict_issues(s, u0, cs.drop_last());
        let one = conflict_issue_one(s, u0, cs.last());
        assert forall|j: int| 0 <= j < conflict_issues(s, u0, cs).len() implies (
        #[trigger] conflict_issues(s, u0, cs)[j]).0 == u0 by {
            if j < rest.len() {
                assert(conflict_issues(s, u0, cs)[j] == rest[j]);
            } else {
                assert(conflict_issues(s, u0, cs)[j] == one[j - rest.len()]);
                assert(one[0].0 == u0);
            }
        }
    }
}

proof fn lemma_conflict_issues_no_missing(
    s: Seq<UnsafeLocalMod>,
    u0: Seq<char>,
    cs: Seq<Seq<char>>,
    u: Seq<char>,
    d: Seq<char>,
)
    ensures
        conflict_issues(s, u0, cs).filter(is_missing_report(u, d)).len() == 0,
    decreases cs.len(),
{
    reveal(Seq::filter);
    let pred = is_missing_report(u, d);
    if cs.len() == 0 {
        assert(conflict_issues(s, u0, cs).filter(pred).len() == 0);
    } else {
        lemma_conflict_issues_no_missing(s, u0, cs.drop_last(), u, d);
        Seq::filter_distributes_over_add(
            conflict_issues(s, u0, cs.drop_last()),
            conflict_issue_one(s, u0, cs.last()),
            pred,
        );
        let one = conflict_issue_one(s, u0, cs.last());
        if one.len() > 0 {
            lemma_filter_singleton(one[0], pred);
            assert(one =~= seq![one[0]]);
            assert(!pred(one[0]));
            assert(one.filter(pred).len() == 0);
        } else {
            assert(one =~= Seq::<(Seq<char>, IssueModel)>::empty());
            assert(one.filter(pred).len() == 0);
        }
    }
}

proof fn lemma_dep_issues_count(
    s: Seq<UnsafeLocalMod>,
    u: Seq<char>,
    deps: Seq<Seq<char>>,
    d: Seq<char>,
)
    requires
        deps.no_duplicates(),
        !valid_named(s, d),
    ensures
        dep_issues(s, u, deps).filter(is_missing_report(u, d)).len() == if deps.contains(d) {
            1int
        } else {
            0int
        },
    decreases deps.len(),
{
    reveal(Seq::filter);
    let pred = is_missing_report(u, d);
    if deps.len() == 0 {
        assert(!deps.contains(d)) by {
            if deps.contains(d) {
                let j = choose|j: int| 0 <= j < deps.len() && deps[j] == d;
            }
        }
        assert(dep_issues(s, u, deps).filter(pred).len() == 0);
    } else {
        let rest = deps.drop_last();
        assert(rest.no_duplicates());
        lemma_dep_issues_count(s, u, rest, d);
        Seq::filter_distributes_over_add(
            dep_issues(s, u, rest),
            dep_issue_one(s, u, deps.last()),
            pred,
        );
        let one = dep_issue_one(s, u, deps.last());
        if deps.last() == d {
            assert(one =~= seq![(u, IssueModel::MissingDep(d))]);
            lemma_filter_singleton((u, IssueModel::MissingDep(d)), pred);
            assert(pred((u, IssueModel::MissingDep(d))));
            assert(one.filter(pred) =~= seq![(u, IssueModel::MissingDep(d))]);
            assert(!rest.contains(d)) by {
                if rest.contains(d) {
                    let j = choose|j: int| 0 <= j < rest.len() && rest[j] == d;
                    assert(deps[j] == deps[deps.len() - 1]);
                }
            }
            assert(deps.contains(d)) by {
                assert(deps[deps.len() - 1] == d);
            }
        } else {
            if one.len() > 0 {
                lemma_filter_singleton(one[0], pred);
                assert(one =~= seq![one[0]]);
                assert(!pred(one[0]));
                assert(one.filter(pred).len() == 0);
            } else {
                assert(one =~= Seq::<(Seq<char>, IssueModel)>::empty());
                assert(one.filter(pred).len() == 0);
            }
            assert(deps.contains(d) <==> rest.contains(d)) by {
                if deps.contains(d) {
                    let j = choose|j: int| 0 <= j < deps.len() && deps[j] == d;
                    assert(rest[j] == d);
                }
                if rest.contains(d) {
                    let j = choose|j: int| 0 <= j < rest.len() && rest[j] == d;
                    assert(deps[j] == d);
                }
            }
        }
    }
}

proof fn lemma_report_upto_count(
    s: Seq<UnsafeLocalMod>,
    n: int,
    u: Seq<char>,
    d: Seq<char>,
)
    requires
        keys_unique(s),
        0 <= n <= s.len(),
        valid_named(s, u),
        mod_named(s, u).enabled,
        deps_of(s, u).no_duplicates(),
        deps_of(s, u).contains(d),
        !valid_named(s, d),
    ensures
        report_upto(s, n).filter(is_missing_report(u, d)).len() == if idx_of_valid(s, u) < n {
            1int
        } else {
            0int
        },
    decreases n,
{
    reveal(Seq::filter);
    let pred = is_missing_report(u, d);
    let iu = idx_of_valid(s, u);
    assert(s[iu].is_valid_named(u));
    if n == 0 {
        assert(report_upto(s, n).filter(pred).len() == 0);
    } else {
        lemma_report_upto_count(s, n - 1, u, d);
        Seq::filter_distributes_over_add(report_upto(s, n - 1), entry_report(s, s[n - 1]), pred);
        let e = s[n - 1];
        if n - 1 == iu {
            assert(e.valid_mod() == mod_named(s, u));
            lemma_dep_issues_count(s, u, deps_of(s, u), d);
            lemma_conflict_issues_no_missing(
                s,
                u,
                e.valid_mod().manifest.conflicts.deep_view(),
                u,
                d,
            );
            Seq::filter_distributes_over_add(
                dep_issues(s, u, deps_of(s, u)),
                conflict_issues(s, u, e.valid_mod().manifest.conflicts.deep_view()),
                pred,
            );
        } else {
            if e is Valid && e.valid_mod().enabled {
                let u0 = e.valid_mod().manifest.unique_name@;
                assert(u0 != u) by {
                    if u0 == u {
                        assert(s[n - 1].is_valid_named(u));
                        assert(s[n - 1].key() == s[iu].key());
                    }
                }
                lemma_dep_issues_first(s, u0, e.valid_mod().manifest.dependencies.deep_view());
                lemma_conflict_issues_first(s, u0, e.valid_mod().manifest.conflicts.deep_view());
                assert forall|j: int| 0 <= j < entry_report(s, e).len() implies !pred(
                    #[trigger] entry_report(s, e)[j],
                ) by {
                    let der = dep_issues(s, u0, e.valid_mod().manifest.dependencies.deep_view());
                    let cer = conflict_issues(
                        s,
                        u0,
                        e.valid_mod().manifest.conflicts.deep_view(),
                    );
                    if j < der.len() {
                        assert(entry_report(s, e)[j] == der[j]);
                    } else {
                        assert(entry_report(s, e)[j] == cer[j - der.len()]);
                    }
                }
                lemma_filter_all_fail(entry_report(s, e), pred);
            } else {
                assert(entry_report(s, e) =~= Seq::empty());
                assert(entry_report(s, e).filter(pred).len() == 0);
            }
        }
    }
}

/// Validation reports a mod's missing dependency exactly once, however many
/// other mods share that same missing dependency.
pub proof fn lemma_missing_dep_reported_once(s: Seq<UnsafeLocalMod>, u: Seq<char>, d: Seq<char>)
    requires
        keys_unique(s),
        valid_named(s, u),
        mod_named(s, u).enabled,
        deps_of(s, u).no_duplicates(),
        deps_of(s, u).contains(d),
        !valid_named(s, d),
    ensures
        validation_report(s).filter(is_missing_report(u, d)).len() == 1,
{
    assert(s[idx_of_valid(s, u)].is_valid_named(u));
    lemma_report_upto_count(s, s.len() as int, u, d);
}

/// Whether the named mod has a locally present dependency that is disabled.
pub fn has_disabled_deps(db: &LocalDatabase, unique_name: &str) -> (r: Result<bool, Error>)
    requires
        db.wf(),
    ensures
        match r {
            Ok(b) => valid_named(db.mods@, unique_name@) && (b == exists|d: Seq<char>|
                #[trigger] deps_of(db.mods@, unique_name@).contains(d) && valid_named(db.mods@, d)
                    && !mod_named(db.mods@, d).enabled),
            Err(e) => !valid_named(db.mods@, unique_name@) && (e matches Error::NotFound(n)
                && n@ == unique_name@),
        },
{
    let ghost s = db.mods@;
    let m = match db.get_mod(unique_name) {
        None => {
            return Err(Error::NotFound(unique_name.to_owned()));
        },
        Some(m) => m,
    };
    let deps = &m.manifest.dependencies;
    let num_deps = deps.len();
    let mut k: usize = 0;
    while k < num_deps
        invariant
            db.wf(),
            s == db.mods@,
            valid_named(s, unique_name@),
            *m == mod_named(s, unique_name@),
            deps == &m.manifest.dependencies,
            num_deps == deps.deep_view().len(),
            0 <= k <= num_deps,
            forall|j: int|
                0 <= j < k ==> !(valid_named(s, #[trigger] deps.deep_view()[j]) && !mod_named(
                    s,
                    deps.deep_view()[j],
                ).enabled),
        decreases num_deps - k,
    {
        let dep = &deps[k];
        proof {
            assert(deps.deep_view()[k as int] == dep@);
        }
        match db.get_mod(dep.as_str()) {
            Some(d) => {
                if !d.enabled {
                    proof {
                        assert(deps_of(s, unique_name@).contains(dep@));
                    }
                    return Ok(true);
                }
            },
            None => {},
        }
        k = k + 1;
    }
    proof {
        if exists|d: Seq<char>|
            #[trigger] deps_of(s, unique_name@).contains(d) && valid_named(s, d) && !mod_named(
                s,
                d,
            ).enabled {
            let d = choose|d: Seq<char>|
                #[trigger] deps_of(s, unique_name@).contains(d) && valid_named(s, d) && !mod_named(
                    s,
                    d,
                ).enabled;
            let j = choose|j: int| 0 <= j < deps_of(s, unique_name@).len() && deps_of(
                s,
                unique_name@,
            )[j] == d;
            assert(deps.deep_view()[j] == d);
        }
    }
    Ok(false)
}

} // verus!
