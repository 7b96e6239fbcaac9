use jb_reset::{
    BackupManager, JetBrainsProduct, ProductInstall, ResetAction, ResetEvent, ResetOperation,
    ResetRun, TrialStatus,
};

fn install(product: JetBrainsProduct, version: &str) -> ProductInstall {
    ProductInstall {
        product,
        version: version.to_string(),
        config_path: format!("/cfg/JetBrains/{:?}{}", product, version),
        data_path: format!("/data/JetBrains/{:?}{}", product, version),
        trial_status: TrialStatus::Unknown,
    }
}

fn operation(backup_enabled: bool, dry_run: bool) -> ResetOperation {
    ResetOperation {
        backup_enabled,
        dry_run,
        backup_manager: BackupManager {
            backup_root: "/home/u/.jetbrains-trial-backups".to_string(),
        },
    }
}

/// Drive one run to completion, answering every action with a success.
fn drive_happy(run: &mut ResetRun) {
    loop {
        let ev = match run.next_action() {
            ResetAction::CreateBackup { .. } => ResetEvent::BackupDone {
                path: "/home/u/.jetbrains-trial-backups/x_20250101_000000".to_string(),
            },
            ResetAction::SanitizeConfig { .. } => ResetEvent::SanitizeDone { existed: true },
            ResetAction::RemoveEvalDir { .. } => ResetEvent::EvalRemoved { existed: true },
            ResetAction::RemoveCacheArtifact { .. } => ResetEvent::CacheChecked { present: false },
            ResetAction::CleanPreferences => ResetEvent::PreferencesCleaned,
            ResetAction::Finish => return,
        };
        run.handle(ev);
    }
}

#[test]
fn happy_path_records_everything() {
    let op = operation(true, false);
    let inst = install(JetBrainsProduct::PyCharm, "2024.3");
    let mut run = op.begin(inst);

    match run.next_action() {
        ResetAction::CreateBackup { config_path, label } => {
            assert_eq!(config_path, "/cfg/JetBrains/PyCharm2024.3");
            assert_eq!(label, "PyCharm_2024.3");
        }
        _ => panic!("expected a backup request first"),
    }
    run.handle(ResetEvent::BackupDone { path: "/b/p".to_string() });

    match run.next_action() {
        ResetAction::SanitizeConfig { path } => {
            assert_eq!(path, "/cfg/JetBrains/PyCharm2024.3/options/other.xml");
        }
        _ => panic!("expected the sanitize step"),
    }
    run.handle(ResetEvent::SanitizeDone { existed: true });

    match run.next_action() {
        ResetAction::RemoveEvalDir { path } => {
            assert_eq!(path, "/cfg/JetBrains/PyCharm2024.3/eval");
        }
        _ => panic!("expected the eval removal step"),
    }
    run.handle(ResetEvent::EvalRemoved { existed: true });

    let mut cache_paths = Vec::new();
    for _ in 0..3 {
        match run.next_action() {
            ResetAction::RemoveCacheArtifact { data_path, path } => {
                assert_eq!(data_path, "/data/JetBrains/PyCharm2024.3");
                cache_paths.push(path);
            }
            _ => panic!("expected a cache sweep step"),
        }
        run.handle(ResetEvent::CacheChecked { present: true });
    }
    assert_eq!(
        cache_paths,
        vec![
            "/data/JetBrains/PyCharm2024.3/eval",
            "/data/JetBrains/PyCharm2024.3/port",
            "/data/JetBrains/PyCharm2024.3/port.lock",
        ]
    );

    assert!(matches!(run.next_action(), ResetAction::CleanPreferences));
    run.handle(ResetEvent::PreferencesCleaned);
    assert!(run.is_done());

    let report = run.into_report();
    assert!(report.success);
    assert!(report.backup_created);
    assert_eq!(report.backup_path.as_deref(), Some("/b/p"));
    assert_eq!(
        report.files_modified,
        vec!["/cfg/JetBrains/PyCharm2024.3/options/other.xml"]
    );
    assert_eq!(
        report.dirs_removed,
        vec![
            "/cfg/JetBrains/PyCharm2024.3/eval",
            "/data/JetBrains/PyCharm2024.3/eval",
            "/data/JetBrains/PyCharm2024.3/port",
            "/data/JetBrains/PyCharm2024.3/port.lock",
        ]
    );
    assert!(report.error.is_none());
}

#[test]
fn backup_failure_stops_that_install_only() {
    let op = operation(true, false);
    let a = install(JetBrainsProduct::IntelliJIdea, "2025.2");
    let b = install(JetBrainsProduct::PyCharm, "2024.3");
    let c = install(JetBrainsProduct::CLion, "2024.1");

    let mut run_a = op.begin(a);
    drive_happy(&mut run_a);

    let mut run_b = op.begin(b);
    assert!(matches!(run_b.next_action(), ResetAction::CreateBackup { .. }));
    run_b.handle(ResetEvent::BackupFailed { message: "disk full".to_string() });
    assert!(run_b.is_done());

    let mut run_c = op.begin(c);
    drive_happy(&mut run_c);

    let reports = op.reset_all(vec![run_a, run_b, run_c]);
    assert_eq!(reports.len(), 3);
    assert_eq!(reports[0].product.product, JetBrainsProduct::IntelliJIdea);
    assert_eq!(reports[1].product.product, JetBrainsProduct::PyCharm);
    assert_eq!(reports[2].product.product, JetBrainsProduct::CLion);
    assert!(reports[0].success);
    assert!(!reports[1].success);
    assert_eq!(reports[1].error.as_deref(), Some("Backup failed: disk full"));
    assert!(reports[2].success);
}

#[test]
fn sanitize_failure_records_its_message() {
    let op = operation(false, false);
    let mut run = op.begin(install(JetBrainsProduct::GoLand, "2024.1"));
    assert!(matches!(run.next_action(), ResetAction::SanitizeConfig { .. }));
    run.handle(ResetEvent::SanitizeFailed { message: "permission denied".to_string() });
    assert!(run.is_done());
    let report = run.into_report();
    assert!(!report.success);
    assert_eq!(
        report.error.as_deref(),
        Some("Failed to clean XML: permission denied")
    );
    assert!(report.files_modified.is_empty());
}

#[test]
fn eval_removal_failure_is_fatal_to_the_install() {
    let op = operation(false, false);
    let mut run = op.begin(install(JetBrainsProduct::Rider, "2024.2"));
    run.handle(ResetEvent::SanitizeDone { existed: false });
    assert!(matches!(run.next_action(), ResetAction::RemoveEvalDir { .. }));
    run.handle(ResetEvent::EvalRemoveFailed { message: "busy".to_string() });
    let report = run.into_report();
    assert!(!report.success);
    assert_eq!(report.error.as_deref(), Some("Failed to remove eval dir: busy"));
    assert!(report.files_modified.is_empty());
    assert!(report.dirs_removed.is_empty());
}

#[test]
fn missing_paths_are_skipped_silently() {
    let op = operation(false, false);
    let mut run = op.begin(install(JetBrainsProduct::WebStorm, "2024.2"));
    run.handle(ResetEvent::SanitizeDone { existed: false });
    run.handle(ResetEvent::EvalRemoved { existed: false });
    for _ in 0..3 {
        run.handle(ResetEvent::CacheChecked { present: false });
    }
    run.handle(ResetEvent::PreferencesCleaned);
    let report = run.into_report();
    assert!(report.success);
    assert!(report.files_modified.is_empty());
    assert!(report.dirs_removed.is_empty());
    assert!(report.error.is_none());
}

#[test]
fn dry_run_finishes_at_once_with_success() {
    let op = operation(true, true);
    let installs = vec![
        install(JetBrainsProduct::IntelliJIdea, "2025.2"),
        install(JetBrainsProduct::PyCharm, "2024.3"),
        install(JetBrainsProduct::Fleet, ""),
    ];
    let mut runs = Vec::new();
    for inst in installs {
        let run = op.begin(inst);
        // a dry run asks for nothing: the first action is already Finish
        assert!(matches!(run.next_action(), ResetAction::Finish));
        assert!(run.is_done());
        runs.push(run);
    }
    let reports = op.reset_all(runs);
    assert_eq!(reports.len(), 3);
    for report in &reports {
        assert!(report.success);
        assert!(!report.backup_created);
        assert!(report.backup_path.is_none());
        assert!(report.files_modified.is_empty());
        assert!(report.dirs_removed.is_empty());
        assert!(report.error.is_none());
    }
}

#[test]
fn disabled_backup_starts_at_sanitize() {
    let op = operation(false, false);
    let run = op.begin(install(JetBrainsProduct::DataGrip, "2024.1"));
    assert!(matches!(run.next_action(), ResetAction::SanitizeConfig { .. }));
    let report = run.into_report();
    assert!(!report.backup_created);
}
