mod backup;
mod cleaner;
mod platform;
mod product;
mod sanitizer;
mod scanner;
mod text;
mod trial;

pub use backup::{
    create_backup_plan, lemma_backup_restore_round_trip, restore_plan, sort_backups_newest_first,
    BackupInfo, BackupManager, FileEntry, FileEntryView,
};
pub use cleaner::is_vendor_pref_dir;
pub use cleaner::{ResetAction, ResetEvent, ResetOperation, ResetPhase, ResetRun};
pub use platform::{resolve_home, resolve_scan_roots, ConfigError, ScanRoots};
pub use product::{
    filter_products, JetBrainsProduct, ProductInstall, ProductInstallView, ResetReport,
    ResetReportView, TrialStatus,
};
pub use sanitizer::{
    check_has_eval_keys, clean_xml_content, lemma_sanitize_idempotent, lemma_sanitizer_no_markers,
    lemma_sanitizer_selection,
};
pub use scanner::{build_install, extract_version};
pub use trial::{detect_trial_status, extract_trial_days, lemma_license_precedence};
