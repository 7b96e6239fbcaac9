use jb_reset::{
    create_backup_plan, restore_plan, sort_backups_newest_first, BackupInfo, BackupManager,
    ConfigError, FileEntry,
};

#[test]
fn config_errors_carry_their_messages() {
    assert_eq!(
        ConfigError::NoConfigDir.message(),
        "Could not determine config directory"
    );
    assert_eq!(
        ConfigError::NoDataDir.message(),
        "Could not determine data directory"
    );
    assert_eq!(
        ConfigError::NoHomeDir.message(),
        "Could not determine home directory"
    );
}

#[test]
fn manager_root_is_under_home() {
    let m = BackupManager::from_home("/home/u");
    assert_eq!(m.backup_root, "/home/u/.jetbrains-trial-backups");
}

#[test]
fn backup_path_is_root_label_timestamp() {
    let m = BackupManager::from_home("/home/u");
    let p = m.backup_path_for("PyCharm_2024.3", "20250101_120000");
    assert_eq!(
        p,
        "/home/u/.jetbrains-trial-backups/PyCharm_2024.3_20250101_120000"
    );
}

fn info(name: &str, created: u64) -> BackupInfo {
    BackupInfo {
        path: format!("/home/u/.jetbrains-trial-backups/{}", name),
        name: name.to_string(),
        created,
    }
}

#[test]
fn backups_list_newest_first() {
    let v = vec![
        info("a_20240101_000000", 100),
        info("b_20250101_000000", 300),
        info("c_20240601_000000", 200),
    ];
    let sorted = sort_backups_newest_first(v);
    let names: Vec<&str> = sorted.iter().map(|b| b.name.as_str()).collect();
    assert_eq!(
        names,
        vec!["b_20250101_000000", "c_20240601_000000", "a_20240101_000000"]
    );
    assert!(sort_backups_newest_first(Vec::new()).is_empty());
}

fn entry(rel_path: &str, content: &[u8]) -> FileEntry {
    FileEntry { rel_path: rel_path.to_string(), content: content.to_vec() }
}

#[test]
fn snapshot_takes_options_and_eval_only() {
    let tree = vec![
        entry("options/other.xml", b"<application/>"),
        entry("eval/key.dat", b"\x01\x02"),
        entry("settings.zip", b"zip"),
        entry("options/ide.general.xml", b"<g/>"),
    ];
    let snap = create_backup_plan(&tree);
    let names: Vec<&str> = snap.iter().map(|e| e.rel_path.as_str()).collect();
    assert_eq!(
        names,
        vec!["options/other.xml", "eval/key.dat", "options/ide.general.xml"]
    );
    assert_eq!(snap[0].content, b"<application/>".to_vec());
}

#[test]
fn backup_then_restore_reproduces_options_files() {
    let tree = vec![
        entry("options/other.xml", b"<application>bytes</application>"),
        entry("eval/key.dat", b"\x01\x02\x03"),
        entry("workspace.xml", b"<w/>"),
    ];
    let snapshot = create_backup_plan(&tree);
    let fresh_target: Vec<FileEntry> = Vec::new();
    let restored = restore_plan(&snapshot, &fresh_target);
    assert_eq!(restored.len(), 1);
    assert_eq!(restored[0].rel_path, "options/other.xml");
    assert_eq!(
        restored[0].content,
        b"<application>bytes</application>".to_vec()
    );
}

#[test]
fn restore_replaces_target_options_wholesale() {
    let snapshot = vec![entry("options/other.xml", b"old")];
    let target = vec![
        entry("options/other.xml", b"new"),
        entry("options/extra.xml", b"extra"),
        entry("scratches/a.txt", b"keep"),
    ];
    let restored = restore_plan(&snapshot, &target);
    let names: Vec<&str> = restored.iter().map(|e| e.rel_path.as_str()).collect();
    assert_eq!(names, vec!["scratches/a.txt", "options/other.xml"]);
    assert_eq!(restored[1].content, b"old".to_vec());
}
