use vstd::prelude::*;

use crate::db::{remote_mod_named, remote_named, LocalDatabase, RemoteDatabase};
use crate::mods::{LocalMod, RemoteMod, UnsafeLocalMod};
use crate::text::char_seq_eq;

verus! {

/// Whether the registry holds a different version string for this mod.
/// Inequality, not ordering: downgrade and upgrade are indistinguishable
/// here, by design.
pub open spec fn needs_update_spec(m: LocalMod, remote: Seq<RemoteMod>) -> bool {
    remote_named(remote, m.manifest.unique_name@) && remote_mod_named(
        remote,
        m.manifest.unique_name@,
    ).version@ != m.manifest.version@
}

/// Compares a local mod's recorded version against the registry's entry;
/// hands back the registry entry when an update is flagged.
pub fn check_mod_needs_update<'a>(
    local_mod: &LocalMod,
    remote_db: &'a RemoteDatabase,
) -> (r: (bool, Option<&'a RemoteMod>))
    requires
        remote_db.wf(),
    ensures
        r.0 == needs_update_spec(*local_mod, remote_db.mods@),
        r.0 ==> (r.1 matches Some(rm) && *rm == remote_mod_named(
            remote_db.mods@,
            local_mod.manifest.unique_name@,
        )),
        !r.0 ==> r.1 is None,
{
    match remote_db.get_mod(local_mod.manifest.unique_name.as_str()) {
        Some(rm) => {
            if !char_seq_eq(rm.version.as_str(), local_mod.manifest.version.as_str()) {
                (true, Some(rm))
            } else {
                (false, None)
            }
        },
        None => (false, None),
    }
}

/// The unique names of the first `n` local entries that are valid and need
/// an update, in database order.
pub open spec fn updatable_upto(
    local: Seq<UnsafeLocalMod>,
    remote: Seq<RemoteMod>,
    n: int,
) -> Seq<Seq<char>>
    decreases n,
{
    if n <= 0 {
        Seq::empty()
    } else {
        let pre = updatable_upto(local, remote, n - 1);
        let e = local[n - 1];
        if e is Valid && needs_update_spec(e.valid_mod(), remote) {
            pre.push(e.valid_mod().manifest.unique_name@)
        } else {
            pre
        }
    }
}

/// Every valid local mod whose registry version differs, in database order.
pub fn get_updatable_mods(local_db: &LocalDatabase, remote_db: &RemoteDatabase) -> (r: Vec<String>)
    requires
        local_db.wf(),
        remote_db.wf(),
    ensures
        r.deep_view() == updatable_upto(
            local_db.mods@,
            remote_db.mods@,
            local_db.mods@.len() as int,
        ),
{
    let mut out: Vec<String> = Vec::new();
    let n = local_db.mods.len();
    let mut i: usize = 0;
    proof {
        assert(out.deep_view() =~= updatable_upto(local_db.mods@, remote_db.mods@, 0));
    }
    while i < n
        invariant
            local_db.wf(),
            remote_db.wf(),
            n == local_db.mods@.len(),
            0 <= i <= n,
            out.deep_view() == updatable_upto(local_db.mods@, remote_db.mods@, i as int),
        decreases n - i,
    {
        let ghost pre = out.deep_view();
        match &local_db.mods[i] {
            UnsafeLocalMod::Valid(m) => {
                let (needs, _) = check_mod_needs_update(m, remote_db);
                if needs {
                    out.push(m.manifest.unique_name.clone());
                    proof {
                        assert(out.deep_view() =~= pre.push(m.manifest.unique_name@));
                    }
                }
            },
            UnsafeLocalMod::Invalid(_) => {},
        }
        i = i + 1;
    }
    out
}

} // verus!
