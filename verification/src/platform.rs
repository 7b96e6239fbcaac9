//! Resolution of the per-user filesystem roots that every run needs. The
//! lookups themselves come from the `dirs` crate and depend on the
//! environment, so nothing is promised about the strings they return; the
//! code around them turns an unresolvable root into the run-fatal
//! configuration error.

use crate::text::join_path;
use vstd::prelude::*;

verus! {

/// A required platform directory could not be resolved. Fatal to the whole
/// run, as opposed to the per-install errors a reset records.
#[derive(Debug, Clone, Copy, PartialEq, Eq, Structural)]
pub enum ConfigError {
    NoConfigDir,
    NoDataDir,
    NoHomeDir,
}

impl ConfigError {
    pub fn message(&self) -> (r: &'static str)
        ensures
            r@ == match *self {
                ConfigError::NoConfigDir => "Could not determine config directory"@,
                ConfigError::NoDataDir => "Could not determine data directory"@,
                ConfigError::NoHomeDir => "Could not determine home directory"@,
            },
    {
        match self {
            ConfigError::NoConfigDir => "Could not determine config directory",
            ConfigError::NoDataDir => "Could not determine data directory",
            ConfigError::NoHomeDir => "Could not determine home directory",
        }
    }
}

/// Relies on dirs::config_dir: the platform user configuration root, if the
/// environment defines one, as a string.
#[verifier::external_body]
fn config_dir_string() -> (r: Option<String>) {
    dirs::config_dir().and_then(|p| p.into_os_string().into_string().ok())
}

/// Relies on dirs::data_local_dir: the platform user data root, if the
/// environment defines one, as a string.
#[verifier::external_body]
fn data_local_dir_string() -> (r: Option<String>) {
    dirs::data_local_dir().and_then(|p| p.into_os_string().into_string().ok())
}

/// Relies on dirs::home_dir: the user's home directory, if the environment
/// defines one, as a string.
#[verifier::external_body]
fn home_dir_string() -> (r: Option<String>) {
    dirs::home_dir().and_then(|p| p.into_os_string().into_string().ok())
}

/// The vendor directories under the configuration and data roots, resolved
/// once per run and passed into the components that need them.
pub struct ScanRoots {
    pub config_base: String,
    pub data_base: String,
}

/// Resolve the two vendor directories a scan works under. Whatever roots the
/// environment yields, each base is that root with the vendor directory name
/// joined on; an unresolvable root is the run-fatal configuration error.
pub fn resolve_scan_roots() -> (r: Result<ScanRoots, ConfigError>)
    ensures
        r matches Ok(roots) ==> exists|c: Seq<char>|
            roots.config_base@ == c + "/"@ + "JetBrains"@,
        r matches Ok(roots) ==> exists|d: Seq<char>| roots.data_base@ == d + "/"@ + "JetBrains"@,
        r matches Err(e) ==> (e == ConfigError::NoConfigDir || e == ConfigError::NoDataDir),
{
    let config_root = match config_dir_string() {
        Some(c) => c,
        None => {
            return Err(ConfigError::NoConfigDir);
        },
    };
    let data_root = match data_local_dir_string() {
        Some(d) => d,
        None => {
            return Err(ConfigError::NoDataDir);
        },
    };
    let config_base = join_path(config_root.as_str(), "JetBrains");
    let data_base = join_path(data_root.as_str(), "JetBrains");
    Ok(ScanRoots { config_base, data_base })
}

/// The user's home directory, or the run-fatal configuration error.
pub fn resolve_home() -> (r: Result<String, ConfigError>)
    ensures
        r matches Err(e) ==> e == ConfigError::NoHomeDir,
{
    match home_dir_string() {
        Some(h) => Ok(h),
        None => Err(ConfigError::NoHomeDir),
    }
}

} // verus!
