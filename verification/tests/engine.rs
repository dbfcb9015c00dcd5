use owmods_core::busy::BusySet;
use owmods_core::db::{LocalDatabase, RemoteDatabase};
use owmods_core::install::{apply_install_outcomes, register_install, remove_mod};
use owmods_core::logs::{plan_session_launch, GameMessage, LogSession, SessionLaunchPlan, SocketMessage, SocketMessageType};
use owmods_core::mods::{FailedMod, LocalMod, ModConfig, ModManifest, RemoteMod, UnsafeLocalMod};
use owmods_core::toggle::{copy_default_config, get_mod_enabled, toggle_mod};
use owmods_core::updates::{check_mod_needs_update, get_updatable_mods};
use owmods_core::validate::{has_disabled_deps, validate, ModValidationError};
use owmods_core::Error;

fn mk_mod(unique_name: &str, deps: &[&str], enabled: bool) -> LocalMod {
    LocalMod {
        manifest: ModManifest {
            unique_name: unique_name.to_string(),
            name: unique_name.to_string(),
            author: "Author".to_string(),
            version: "1.0.0".to_string(),
            dependencies: deps.iter().map(|d| d.to_string()).collect(),
            conflicts: Vec::new(),
        },
        mod_path: format!("/mods/{}", unique_name),
        config: Some(ModConfig {
            enabled,
            settings: None,
        }),
        default_config: Some(ModConfig {
            enabled: false,
            settings: None,
        }),
        enabled,
        errors: Vec::new(),
    }
}

fn mk_db(mods: Vec<LocalMod>) -> LocalDatabase {
    let mut db = LocalDatabase::new();
    for m in mods {
        db.mods.push(UnsafeLocalMod::Valid(m));
    }
    db
}

fn mk_remote(unique_name: &str, version: &str) -> RemoteMod {
    RemoteMod {
        unique_name: unique_name.to_string(),
        name: unique_name.to_string(),
        version: version.to_string(),
        download_url: format!("https://example.com/{}.zip", unique_name),
        download_count: 0,
        dependencies: Vec::new(),
        required: false,
        prerelease: false,
    }
}

#[test]
fn test_toggle_round_trip_existing_and_fresh() {
    let mut db = mk_db(vec![mk_mod("A.One", &[], false)]);
    let warnings = toggle_mod("A.One", &mut db, true, false).unwrap();
    assert!(warnings.is_empty());
    assert!(get_mod_enabled(db.get_mod("A.One").unwrap()));

    // fresh: no live configuration, only a default template
    let mut fresh = mk_mod("B.Two", &[], false);
    fresh.config = None;
    let mut db2 = mk_db(vec![fresh]);
    let warnings2 = toggle_mod("B.Two", &mut db2, true, false).unwrap();
    assert!(warnings2.is_empty());
    assert!(get_mod_enabled(db2.get_mod("B.Two").unwrap()));
}

#[test]
fn test_toggle_idempotent_on_disk_state() {
    let mut db = mk_db(vec![mk_mod("A.One", &[], true)]);
    // give the mod some settings text so preservation is observable
    db.mods.clear();
    let mut m = mk_mod("A.One", &[], true);
    m.config = Some(ModConfig {
        enabled: true,
        settings: Some("{\"volume\":3}".to_string()),
    });
    db.mods.push(UnsafeLocalMod::Valid(m));

    toggle_mod("A.One", &mut db, false, false).unwrap();
    let after_first = match &db.mods[0] {
        UnsafeLocalMod::Valid(m) => (
            m.enabled,
            m.config.as_ref().unwrap().enabled,
            m.config.as_ref().unwrap().settings.clone(),
        ),
        _ => panic!("entry should be valid"),
    };
    toggle_mod("A.One", &mut db, false, false).unwrap();
    let after_second = match &db.mods[0] {
        UnsafeLocalMod::Valid(m) => (
            m.enabled,
            m.config.as_ref().unwrap().enabled,
            m.config.as_ref().unwrap().settings.clone(),
        ),
        _ => panic!("entry should be valid"),
    };
    assert_eq!(after_first, after_second);
    assert_eq!(after_first.2, Some("{\"volume\":3}".to_string()));
    assert!(!after_first.0);
}

#[test]
fn test_toggle_recursive_propagation() {
    let mut db = mk_db(vec![
        mk_mod("A", &["B"], true),
        mk_mod("B", &["C"], true),
        mk_mod("C", &[], true),
        mk_mod("D", &[], true),
    ]);
    toggle_mod("A", &mut db, false, true).unwrap();
    assert!(!get_mod_enabled(db.get_mod("A").unwrap()));
    assert!(!get_mod_enabled(db.get_mod("B").unwrap()));
    assert!(!get_mod_enabled(db.get_mod("C").unwrap()));
    assert!(get_mod_enabled(db.get_mod("D").unwrap()));
}

#[test]
fn test_toggle_survives_dependency_cycle() {
    let mut db = mk_db(vec![mk_mod("A", &["B"], true), mk_mod("B", &["A"], true)]);
    toggle_mod("A", &mut db, false, true).unwrap();
    assert!(!get_mod_enabled(db.get_mod("A").unwrap()));
    assert!(!get_mod_enabled(db.get_mod("B").unwrap()));
}

#[test]
fn test_toggle_reports_inconsistency_without_failing() {
    // disabling a dependency others still need is reported, not refused
    let mut db = mk_db(vec![mk_mod("Top", &["Lib"], true), mk_mod("Lib", &[], true)]);
    let warnings = toggle_mod("Lib", &mut db, false, false).unwrap();
    assert_eq!(warnings, vec!["Lib".to_string()]);
}

#[test]
fn test_toggle_errors() {
    let mut db = mk_db(vec![mk_mod("A", &[], true)]);
    match toggle_mod("Missing", &mut db, true, false) {
        Err(Error::NotFound(n)) => assert_eq!(n, "Missing"),
        _ => panic!("expected a not-found error"),
    }
    let mut bare = mk_mod("Bare", &[], false);
    bare.config = None;
    bare.default_config = None;
    bare.enabled = false;
    let mut db2 = mk_db(vec![bare]);
    match toggle_mod("Bare", &mut db2, true, false) {
        Err(Error::MissingDefaultConfig(n)) => assert_eq!(n, "Bare"),
        _ => panic!("expected a missing-default-config error"),
    }
    // the failed toggle left the mod untouched
    assert!(!get_mod_enabled(db2.get_mod("Bare").unwrap()));
}

#[test]
fn test_copy_default_config() {
    let mut m = mk_mod("A", &[], true);
    m.default_config = Some(ModConfig {
        enabled: false,
        settings: Some("{}".to_string()),
    });
    copy_default_config(&mut m).unwrap();
    assert!(!m.enabled);
    assert_eq!(m.config.as_ref().unwrap().settings, Some("{}".to_string()));

    let mut bare = mk_mod("B", &[], false);
    bare.default_config = None;
    assert!(matches!(
        copy_default_config(&mut bare),
        Err(Error::MissingDefaultConfig(_))
    ));
}

#[test]
fn test_validate_reports_each_problem() {
    let mut needs_missing = mk_mod("NeedsMissing", &["Gone"], true);
    needs_missing.manifest.conflicts = vec!["Rival".to_string()];
    let db = mk_db(vec![
        needs_missing,
        mk_mod("AlsoNeedsGone", &["Gone"], true),
        mk_mod("NeedsOff", &["Off"], true),
        mk_mod("Off", &[], false),
        mk_mod("Rival", &[], true),
        mk_mod("Sleeping", &["Gone"], false),
    ]);
    let report = validate(&db);
    let missing: Vec<&str> = report
        .iter()
        .filter(|(_, e)| matches!(e, ModValidationError::MissingDep(d) if d == "Gone"))
        .map(|(u, _)| u.as_str())
        .collect();
    // one report per depending enabled mod; the disabled one stays silent
    assert_eq!(missing, vec!["NeedsMissing", "AlsoNeedsGone"]);
    assert!(report
        .iter()
        .any(|(u, e)| u == "NeedsOff" && matches!(e, ModValidationError::DisabledDep(d) if d == "Off")));
    assert!(report
        .iter()
        .any(|(u, e)| u == "NeedsMissing"
            && matches!(e, ModValidationError::ConflictingMod(c) if c == "Rival")));
    assert_eq!(
        report
            .iter()
            .filter(|(u, _)| u == "NeedsMissing")
            .count(),
        2
    );
}

#[test]
fn test_has_disabled_deps() {
    let db = mk_db(vec![
        mk_mod("Top", &["Off", "Gone"], true),
        mk_mod("Off", &[], false),
        mk_mod("Fine", &[], true),
    ]);
    assert!(has_disabled_deps(&db, "Top").unwrap());
    assert!(!has_disabled_deps(&db, "Fine").unwrap());
    assert!(matches!(
        has_disabled_deps(&db, "Nope"),
        Err(Error::NotFound(_))
    ));
}

#[test]
fn test_busy_set_exclusion() {
    let mut busy = BusySet::new();
    assert!(!busy.get_mod_busy("A.Mod"));
    assert!(busy.try_claim("A.Mod"));
    // a second request for the same name is a silent no-op
    assert!(!busy.try_claim("A.Mod"));
    assert!(busy.get_mod_busy("A.Mod"));
    busy.mark_mod_busy("A.Mod", false);
    assert!(!busy.get_mod_busy("A.Mod"));
    assert!(busy.try_claim("A.Mod"));
}

#[test]
fn test_busy_batch_claim_and_release() {
    let mut busy = BusySet::new();
    busy.mark_mod_busy("B", true);
    let requested = vec!["A".to_string(), "B".to_string(), "C".to_string()];
    let claimed = busy.claim_batch(&requested);
    assert_eq!(claimed, vec!["A".to_string(), "C".to_string()]);
    assert!(busy.get_mod_busy("A"));
    assert!(busy.get_mod_busy("B"));
    assert!(busy.get_mod_busy("C"));
    busy.release_batch(&claimed);
    assert!(!busy.get_mod_busy("A"));
    assert!(busy.get_mod_busy("B"));
    assert!(!busy.get_mod_busy("C"));
}

#[test]
fn test_log_query_determinism() {
    let mut session = LogSession::new(1234);
    for (ty, text) in [
        (SocketMessageType::Info, "a"),
        (SocketMessageType::Error, "boom"),
        (SocketMessageType::Info, "also boom"),
    ] {
        session.push_message(GameMessage {
            port: 1234,
            message: SocketMessage {
                message_type: ty,
                message: text.to_string(),
            },
        });
    }
    let hits = session.get_logs_indices(None, "boom");
    assert_eq!(hits, vec![1, 2]);
    let errors_only = session.get_logs_indices(Some(SocketMessageType::Error), "");
    assert_eq!(errors_only, vec![1]);
    let ci = session.get_logs_indices(None, "BOOM");
    assert_eq!(ci, vec![1, 2]);
}

#[test]
fn test_log_session_lifecycle() {
    let mut session = LogSession::new(7);
    let fatal = session.push_message(GameMessage {
        port: 7,
        message: SocketMessage {
            message_type: SocketMessageType::Fatal,
            message: "game crashed".to_string(),
        },
    });
    assert!(fatal);
    let msg = session.get_game_message(0).unwrap();
    assert_eq!(msg.message.message, "game crashed");
    assert!(matches!(
        session.get_game_message(5),
        Err(Error::NotFound(_))
    ));
    session.clear();
    assert!(matches!(
        session.get_game_message(0),
        Err(Error::NotFound(_))
    ));
}

#[test]
fn test_update_check_is_version_inequality() {
    let mut remote_db = RemoteDatabase::new();
    remote_db.mods.push(mk_remote("A", "2.0.0"));
    remote_db.mods.push(mk_remote("B", "1.0.0"));
    let a = mk_mod("A", &[], true);
    let b = mk_mod("B", &[], true);
    let c = mk_mod("C", &[], true);
    let (a_needs, a_remote) = check_mod_needs_update(&a, &remote_db);
    assert!(a_needs);
    assert_eq!(a_remote.unwrap().version, "2.0.0");
    let (b_needs, _) = check_mod_needs_update(&b, &remote_db);
    assert!(!b_needs);
    let (c_needs, _) = check_mod_needs_update(&c, &remote_db);
    assert!(!c_needs);

    let local_db = mk_db(vec![a, b, c]);
    assert_eq!(
        get_updatable_mods(&local_db, &remote_db),
        vec!["A".to_string()]
    );
}

#[test]
fn test_batch_partial_failure() {
    let mut db = LocalDatabase::new();
    let outcomes: Vec<(String, Result<LocalMod, Error>)> = vec![
        ("X".to_string(), Ok(mk_mod("X", &[], true))),
        (
            "Y".to_string(),
            Err(Error::MalformedData("Y".to_string())),
        ),
    ];
    let failed = apply_install_outcomes(&mut db, outcomes);
    assert!(db.get_mod("X").is_some());
    assert!(db.get_mod("Y").is_none());
    assert_eq!(failed, vec!["Y".to_string()]);
}

#[test]
fn test_register_install_replaces_by_unique_name() {
    let mut db = mk_db(vec![mk_mod("A", &[], false)]);
    let mut newer = mk_mod("A", &[], true);
    newer.manifest.version = "2.0.0".to_string();
    register_install(&mut db, newer);
    assert_eq!(db.mods.len(), 1);
    let m = db.get_mod("A").unwrap();
    assert_eq!(m.manifest.version, "2.0.0");
    assert!(m.enabled);
}

#[test]
fn test_failed_entries_are_enumerable_but_inert() {
    let mut db = mk_db(vec![mk_mod("Good", &["Broken.Path"], true)]);
    db.mods.push(UnsafeLocalMod::Invalid(FailedMod {
        mod_path: "Broken.Path".to_string(),
        display_path: "mods/broken".to_string(),
        error: "manifest did not parse".to_string(),
    }));
    // the failed entry is addressable by its key
    let entry = db.get_mod_unsafe("Broken.Path").unwrap();
    assert_eq!(entry.get_name(), "mods/broken");
    assert_eq!(entry.num_errs(), 1);
    // but it does not resolve as a dependency
    assert!(db.get_mod("Broken.Path").is_none());
    let report = validate(&db);
    assert!(report
        .iter()
        .any(|(u, e)| u == "Good" && matches!(e, ModValidationError::MissingDep(_))));
}

#[test]
fn test_error_messages_name_their_subject() {
    assert_eq!(
        Error::NotFound("A.Mod".to_string()).message(),
        "not found: A.Mod"
    );
    assert_eq!(
        Error::MissingDefaultConfig("A.Mod".to_string()).message(),
        "no default configuration available: A.Mod"
    );
    assert_eq!(
        Error::MalformedData("mod.zip".to_string()).message(),
        "malformed data: mod.zip"
    );
    assert_eq!(
        Error::NetworkFailure("https://example.com".to_string()).message(),
        "network failure: https://example.com"
    );
    assert_eq!(
        Error::FilesystemFailure("/mods".to_string()).message(),
        "filesystem failure: /mods"
    );
    assert_eq!(
        Error::AlreadyInProgress("A.Mod".to_string()).message(),
        "operation already in progress: A.Mod"
    );
}

#[test]
fn test_search_ranking() {
    let db = mk_db(vec![
        mk_mod("Author.TimeSaver", &[], true),
        mk_mod("Author.Clock", &[], true),
        mk_mod("clock", &[], true),
        mk_mod("Other.Thing", &[], true),
    ]);
    // exact unique-name match first, then name-prefix, then substring
    let hits = db.search("clock");
    assert_eq!(hits, vec![2, 1]);
    let all = db.search("o");
    assert_eq!(all, vec![3, 0, 1, 2]);
    let none = db.search("zzz");
    assert!(none.is_empty());
    // case-insensitive throughout
    let upper = db.search("CLOCK");
    assert_eq!(upper, vec![2, 1]);
}

#[test]
fn test_has_issues() {
    let mut db = mk_db(vec![mk_mod("Fine", &[], true)]);
    assert!(!db.has_issues());
    let mut warned = mk_mod("Warned", &[], true);
    warned.errors.push("missing optional dependency".to_string());
    db.mods.push(UnsafeLocalMod::Valid(warned));
    assert!(db.has_issues());
}

#[test]
fn test_session_launch_plan() {
    assert!(matches!(
        plan_session_launch(true, false, &vec![5000]),
        SessionLaunchPlan::LaunchWithoutServer
    ));
    assert!(matches!(
        plan_session_launch(false, true, &vec![5000]),
        SessionLaunchPlan::OpenLogWindow
    ));
    assert!(matches!(
        plan_session_launch(false, false, &vec![]),
        SessionLaunchPlan::OpenLogWindow
    ));
    assert!(matches!(
        plan_session_launch(false, false, &vec![5000, 5001]),
        SessionLaunchPlan::LaunchOnPort(5000)
    ));
}

#[test]
fn test_remove_mod_reports_dependents() {
    let mut db = mk_db(vec![
        mk_mod("Lib", &[], true),
        mk_mod("Top", &["Lib"], true),
        mk_mod("Idle", &["Lib"], false),
    ]);
    let warnings = remove_mod(&mut db, "Lib").unwrap();
    assert!(db.get_mod("Lib").is_none());
    assert_eq!(db.mods.len(), 2);
    // only the still-enabled dependent is warned about
    assert_eq!(warnings, vec!["Top".to_string()]);
    assert!(matches!(remove_mod(&mut db, "Lib"), Err(Error::NotFound(_))));
}
