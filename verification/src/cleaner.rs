//! The reset operation. Each install's reset is a fixed sequence of
//! filesystem steps with early exit on failure; the decisions live here as a
//! state machine, while the caller performs each requested action on disk
//! and hands the outcome back. A dry run finishes immediately, requesting
//! nothing.

use crate::backup::BackupManager;
use crate::platform::ConfigError;
use crate::product::{empty_report, spec_name, ProductInstall, ResetReport};
use vstd::prelude::*;
use vstd::string::StringExecFns;

verus! {

/// Where an install's reset stands.
#[derive(Debug, Clone, Copy, PartialEq, Eq, Structural)]
pub enum ResetPhase {
    Backup,
    Sanitize,
    RemoveEval,
    Cache { index: usize },
    Prefs,
    Done,
}

/// What the driver is asked to do next on disk.
pub enum ResetAction {
    CreateBackup { config_path: String, label: String },
    SanitizeConfig { path: String },
    RemoveEvalDir { path: String },
    RemoveCacheArtifact { data_path: String, path: String },
    CleanPreferences,
    Finish,
}

/// What the driver observed on disk for the step it was asked to perform.
pub enum ResetEvent {
    BackupDone { path: String },
    BackupFailed { message: String },
    SanitizeDone { existed: bool },
    SanitizeFailed { message: String },
    EvalRemoved { existed: bool },
    EvalRemoveFailed { message: String },
    CacheChecked { present: bool },
    PreferencesCleaned,
}

/// The names of the cache artifacts swept under the data directory, as path
/// suffixes, in the order they are visited.
pub open spec fn cache_sub(i: int) -> Seq<char> {
    if i == 0 {
        "/eval"@
    } else if i == 1 {
        "/port"@
    } else {
        "/port.lock"@
    }
}

/// Which events answer which phase.
pub open spec fn event_fits(phase: ResetPhase, ev: ResetEvent) -> bool {
    match phase {
        ResetPhase::Backup => ev is BackupDone || ev is BackupFailed,
        ResetPhase::Sanitize => ev is SanitizeDone || ev is SanitizeFailed,
        ResetPhase::RemoveEval => ev is EvalRemoved || ev is EvalRemoveFailed,
        ResetPhase::Cache { .. } => ev is CacheChecked,
        ResetPhase::Prefs => ev is PreferencesCleaned,
        ResetPhase::Done => false,
    }
}

/// One install's reset in progress: the report grows as events arrive.
pub struct ResetRun {
    pub backup_enabled: bool,
    pub dry_run: bool,
    pub phase: ResetPhase,
    pub report: ResetReport,
}

impl ResetRun {
    /// What every reachable state satisfies: a claimed success is a finished
    /// run with no recorded error, and an unfinished run has no error yet.
    pub open spec fn wf(self) -> bool {
        &&& (self.report.success ==> self.report.error is None)
        &&& (self.report.success ==> self.phase is Done)
        &&& (!(self.phase is Done) ==> self.report.error is None)
        &&& (match self.phase {
            ResetPhase::Cache { index } => index < 3,
            _ => true,
        })
    }

    /// Whether the run needs no further action.
    pub fn is_done(&self) -> (r: bool)
        ensures
            r == (self.phase is Done),
    {
        match self.phase {
            ResetPhase::Done => true,
            _ => false,
        }
    }

    /// The next action the driver should perform for this run.
    pub fn next_action(&self) -> (r: ResetAction)
        ensures
            match self.phase {
                ResetPhase::Backup => r matches ResetAction::CreateBackup { config_path, label }
                    && config_path@ == self.report.product.config_path@ && label@ == spec_name(
                    self.report.product.product,
                ) + "_"@ + self.report.product.version@,
                ResetPhase::Sanitize => r matches ResetAction::SanitizeConfig { path } && path@
                    == self.report.product.config_path@ + "/options/other.xml"@,
                ResetPhase::RemoveEval => r matches ResetAction::RemoveEvalDir { path } && path@
                    == self.report.product.config_path@ + "/eval"@,
                ResetPhase::Cache { index } => r matches ResetAction::RemoveCacheArtifact {
                    data_path,
                    path,
                } && data_path@ == self.report.product.data_path@ && path@
                    == self.report.product.data_path@ + cache_sub(index as int),
                ResetPhase::Prefs => r is CleanPreferences,
                ResetPhase::Done => r is Finish,
            },
    {
        match self.phase {
            ResetPhase::Backup => {
                let mut label = self.report.product.product.name().to_owned();
                label.append("_");
                label.append(self.report.product.version.as_str());
                ResetAction::CreateBackup {
                    config_path: self.report.product.config_path.clone(),
                    label,
                }
            },
            ResetPhase::Sanitize => {
                let mut path = self.report.product.config_path.clone();
                path.append("/options/other.xml");
                ResetAction::SanitizeConfig { path }
            },
            ResetPhase::RemoveEval => {
                let mut path = self.report.product.config_path.clone();
                path.append("/eval");
                ResetAction::RemoveEvalDir { path }
            },
            ResetPhase::Cache { index } => {
                let mut path = self.report.product.data_path.clone();
                if index == 0 {
                    path.append("/eval");
                } else if index == 1 {
                    path.append("/port");
                } else {
                    path.append("/port.lock");
                }
                ResetAction::RemoveCacheArtifact {
                    data_path: self.report.product.data_path.clone(),
                    path,
                }
            },
            ResetPhase::Prefs => ResetAction::CleanPreferences,
            ResetPhase::Done => ResetAction::Finish,
        }
    }

    /// Fold the outcome of the last action into the run: record what was
    /// backed up, modified or removed, stop the run on a fatal failure with
    /// its message, and mark success only when the final step has answered.
    pub fn handle(&mut self, ev: ResetEvent)
        requires
            old(self).wf(),
            event_fits(old(self).phase, ev),
        ensures
            final(self).wf(),
            final(self).backup_enabled == old(self).backup_enabled,
            final(self).dry_run == old(self).dry_run,
            final(self).report.product == old(self).report.product,
            match ev {
                ResetEvent::BackupDone { path } => {
                    &&& final(self).phase is Sanitize
                    &&& final(self).report.backup_created
                    &&& final(self).report.backup_path == Some(path)
                    &&& final(self).report.success == old(self).report.success
                    &&& final(self).report.files_modified@ == old(self).report.files_modified@
                    &&& final(self).report.dirs_removed@ == old(self).report.dirs_removed@
                    &&& final(self).report.error is None
                },
                ResetEvent::BackupFailed { message } => {
                    &&& final(self).phase is Done
                    &&& !final(self).report.success
                    &&& final(self).report.error matches Some(e) && e@ == "Backup failed: "@
                        + message@
                    &&& final(self).report.backup_created == old(self).report.backup_created
                    &&& final(self).report.backup_path == old(self).report.backup_path
                    &&& final(self).report.files_modified@ == old(self).report.files_modified@
                    &&& final(self).report.dirs_removed@ == old(self).report.dirs_removed@
                },
                ResetEvent::SanitizeDone { existed } => {
                    &&& final(self).phase is RemoveEval
                    &&& (if existed {
                        final(self).report.files_modified@.len() == old(self).report.files_modified@.len() + 1 && final(self).report.files_modified@.last()@ == old(self).report.product.config_path@
                            + "/options/other.xml"@ && final(self).report.files_modified@.drop_last() == old(self).report.files_modified@
                    } else {
                        final(self).report.files_modified@ == old(self).report.files_modified@
                    })
                    &&& final(self).report.dirs_removed@ == old(self).report.dirs_removed@
                    &&& final(self).report.backup_created == old(self).report.backup_created
                    &&& final(self).report.backup_path == old(self).report.backup_path
                    &&& final(self).report.success == old(self).report.success
                    &&& final(self).report.error is None
                },
                ResetEvent::SanitizeFailed { message } => {
                    &&& final(self).phase is Done
                    &&& !final(self).report.success
                    &&& final(self).report.error matches Some(e) && e@ == "Failed to clean XML: "@
                        + message@
                    &&& final(self).report.files_modified@ == old(self).report.files_modified@
                    &&& final(self).report.dirs_removed@ == old(self).report.dirs_removed@
                    &&& final(self).report.backup_created == old(self).report.backup_created
                    &&& final(self).report.backup_path == old(self).report.backup_path
                },
                ResetEvent::EvalRemoved { existed } => {
                    &&& final(self).phase == (ResetPhase::Cache { index: 0usize })
                    &&& (if existed {
                        final(self).report.dirs_removed@.len() == old(self).report.dirs_removed@.len() + 1 && final(self).report.dirs_removed@.last()@
                            == old(self).report.product.config_path@ + "/eval"@ && final(self).report.dirs_removed@.drop_last() == old(self).report.dirs_removed@
                    } else {
                        final(self).report.dirs_removed@ == old(self).report.dirs_removed@
                    })
                    &&& final(self).report.files_modified@ == old(self).report.files_modified@
                    &&& final(self).report.backup_created == old(self).report.backup_created
                    &&& final(self).report.backup_path == old(self).report.backup_path
                    &&& final(self).report.success == old(self).report.success
                    &&& final(self).report.error is None
                },
                ResetEvent::EvalRemoveFailed { message } => {
                    &&& final(self).phase is Done
                    &&& !final(self).report.success
                    &&& final(self).report.error matches Some(e) && e@
                        == "Failed to remove eval dir: "@ + message@
                    &&& final(self).report.files_modified@ == old(self).report.files_modified@
                    &&& final(self).report.dirs_removed@ == old(self).report.dirs_removed@
                    &&& final(self).report.backup_created == old(self).report.backup_created
                    &&& final(self).report.backup_path == old(self).report.backup_path
                },
                ResetEvent::CacheChecked { present } => {
                    &&& (match old(self).phase {
                        ResetPhase::Cache { index } => {
                            &&& final(self).phase == (if index == 2 {
                                ResetPhase::Prefs
                            } else {
                                ResetPhase::Cache { index: (index + 1) as usize }
                            })
                            &&& (if present {
                                final(self).report.dirs_removed@.len() == old(self).report.dirs_removed@.len() + 1 && final(self).report.dirs_removed@.last()@ == old(self).report.product.data_path@ + cache_sub(index as int) && final(self).report.dirs_removed@.drop_last() == old(self).report.dirs_removed@
                            } else {
                                final(self).report.dirs_removed@ == old(self).report.dirs_removed@
                            })
                        },
                        _ => false,
                    })
                    &&& final(self).report.files_modified@ == old(self).report.files_modified@
                    &&& final(self).report.backup_created == old(self).report.backup_created
                    &&& final(self).report.backup_path == old(self).report.backup_path
                    &&& final(self).report.success == old(self).report.success
                    &&& final(self).report.error is None
                },
                ResetEvent::PreferencesCleaned => {
                    &&& final(self).phase is Done
                    &&& final(self).report.success
                    &&& final(self).report.error is None
                    &&& final(self).report.files_modified@ == old(self).report.files_modified@
                    &&& final(self).report.dirs_removed@ == old(self).report.dirs_removed@
                    &&& final(self).report.backup_created == old(self).report.backup_created
                    &&& final(self).report.backup_path == old(self).report.backup_path
                },
            },
    {
        match ev {
            ResetEvent::BackupDone { path } => {
                self.report.backup_created = true;
                self.report.backup_path = Some(path);
                self.phase = ResetPhase::Sanitize;
            },
            ResetEvent::BackupFailed { message } => {
                let mut e = "Backup failed: ".to_owned();
                e.append(message.as_str());
                self.report.error = Some(e);
                self.phase = ResetPhase::Done;
            },
            ResetEvent::SanitizeDone { existed } => {
                if existed {
                    let mut p = self.report.product.config_path.clone();
                    p.append("/options/other.xml");
                    self.report.files_modified.push(p);
                }
                self.phase = ResetPhase::RemoveEval;
            },
            ResetEvent::SanitizeFailed { message } => {
                let mut e = "Failed to clean XML: ".to_owned();
                e.append(message.as_str());
                self.report.error = Some(e);
                self.phase = ResetPhase::Done;
            },
            ResetEvent::EvalRemoved { existed } => {
                if existed {
                    let mut p = self.report.product.config_path.clone();
                    p.append("/eval");
                    self.report.dirs_removed.push(p);
                }
                self.phase = ResetPhase::Cache { index: 0 };
            },
            ResetEvent::EvalRemoveFailed { message } => {
                let mut e = "Failed to remove eval dir: ".to_owned();
                e.append(message.as_str());
                self.report.error = Some(e);
                self.phase = ResetPhase::Done;
            },
            ResetEvent::CacheChecked { present } => {
                let index = match self.phase {
                    ResetPhase::Cache { index } => index,
                    _ => 0,
                };
                if present {
                    let mut p = self.report.product.data_path.clone();
                    if index == 0 {
                        p.append("/eval");
                    } else if index == 1 {
                        p.append("/port");
                    } else {
                        p.append("/port.lock");
                    }
                    self.report.dirs_removed.push(p);
                }
                if index == 2 {
                    self.phase = ResetPhase::Prefs;
                } else {
                    self.phase = ResetPhase::Cache { index: index + 1 };
                }
            },
            ResetEvent::PreferencesCleaned => {
                self.report.success = true;
                self.phase = ResetPhase::Done;
            },
        }
    }

    /// Give up the run and keep its report.
    pub fn into_report(self) -> (r: ResetReport)
        ensures
            r == self.report,
    {
        let ResetRun { report, .. } = self;
        report
    }
}

/// Whether a preference-store directory name belongs to the vendor or the
/// flagship product, and so falls to the best-effort secondary cleanup.
pub fn is_vendor_pref_dir(name: &str) -> (r: bool)
    ensures
        r == (crate::text::contains_seq(name@, "jetbrains"@) || crate::text::contains_seq(
            name@,
            "intellij"@,
        )),
{
    let chars = crate::text::str_to_chars(name);
    crate::text::contains_sub(chars.as_slice(), crate::text::str_to_chars("jetbrains").as_slice())
        || crate::text::contains_sub(
        chars.as_slice(),
        crate::text::str_to_chars("intellij").as_slice(),
    )
}

/// The reset operation's run-wide switches, fixed at construction.
pub struct ResetOperation {
    pub backup_enabled: bool,
    pub dry_run: bool,
    pub backup_manager: BackupManager,
}

impl ResetOperation {
    /// Resolve the backup root and fix the switches for this run.
    pub fn new(backup_enabled: bool, dry_run: bool) -> (r: Result<Self, ConfigError>)
        ensures
            r matches Ok(op) ==> op.backup_enabled == backup_enabled && op.dry_run == dry_run
                && exists|h: Seq<char>|
                op.backup_manager.backup_root@ == h + "/"@ + ".jetbrains-trial-backups"@,
            r matches Err(e) ==> e == ConfigError::NoHomeDir,
    {
        match BackupManager::new() {
            Ok(m) => Ok(
                ResetOperation { backup_enabled, dry_run, backup_manager: m },
            ),
            Err(e) => Err(e),
        }
    }

    /// Start one install's reset. A dry run is born finished and successful,
    /// with nothing recorded in its report, and so never asks for any
    /// filesystem action; otherwise the run starts at the backup step when
    /// backups are enabled, and at the sanitize step when not.
    pub fn begin(&self, install: ProductInstall) -> (r: ResetRun)
        ensures
            r.wf(),
            r.backup_enabled == self.backup_enabled,
            r.dry_run == self.dry_run,
            r.report.product == install,
            r.report.backup_created == false,
            r.report.backup_path is None,
            r.report.files_modified@.len() == 0,
            r.report.dirs_removed@.len() == 0,
            r.report.error is None,
            r.report.success == self.dry_run,
            r.phase == (if self.dry_run {
                ResetPhase::Done
            } else if self.backup_enabled {
                ResetPhase::Backup
            } else {
                ResetPhase::Sanitize
            }),
    {
        let mut report = ResetReport::new(install);
        let phase: ResetPhase;
        if self.dry_run {
            report.success = true;
            phase = ResetPhase::Done;
        } else if self.backup_enabled {
            phase = ResetPhase::Backup;
        } else {
            phase = ResetPhase::Sanitize;
        }
        ResetRun { backup_enabled: self.backup_enabled, dry_run: self.dry_run, phase, report }
    }

    /// Collect the reports of a batch of runs, one per run, index-aligned
    /// with the input: no run's outcome can displace or drop another's.
    pub fn reset_all(&self, runs: Vec<ResetRun>) -> (r: Vec<ResetReport>)
        ensures
            r@.len() == runs@.len(),
            forall|i: int| 0 <= i < runs@.len() ==> r@[i] == runs@[i].report,
    {
        let ghost all = runs@;
        let mut rest = runs;
        let mut reports: Vec<ResetReport> = Vec::new();
        while rest.len() > 0
            invariant
                reports@.len() + rest@.len() == all.len(),
                forall|i: int| 0 <= i < reports@.len() ==> reports@[i] == all[i].report,
                forall|j: int|
                    0 <= j < rest@.len() ==> rest@[j] == all[reports@.len() + j],
            decreases rest@.len(),
        {
            let run = rest.remove(0);
            proof {
                assert(run == all[reports@.len() as int]);
            }
            reports.push(run.into_report());
        }
        reports
    }
}

} // verus!
