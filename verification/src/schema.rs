//! Shared benchmark result types, so measurement runs from different
//! toolchains can be compared field for field.

use vstd::prelude::*;

verus! {

/// Hardware information recorded for reproducibility.
#[derive(Debug, Clone)]
pub struct HardwareInfo {
    /// CPU model string.
    pub cpu: String,
    /// Number of logical cores.
    pub cores: usize,
    /// Total RAM in GB.
    pub ram_gb: u64,
    /// Operating system.
    pub os: String,
    /// CPU architecture.
    pub arch: String,
}

/// Metadata captured at the start of a measurement run.
#[derive(Debug, Clone)]
pub struct RunMetadata {
    /// ISO 8601 timestamp of the run start.
    pub timestamp: String,
    /// Short revision hash, if the sources live in a repository.
    pub git_commit: Option<String>,
    /// Source branch name, if known.
    pub git_branch: Option<String>,
    /// Whether the working tree had uncommitted changes.
    pub git_dirty: Option<bool>,
    /// Toolchain identifier.
    pub sdk: String,
    /// Toolchain version.
    pub sdk_version: String,
    /// Hardware information.
    pub hardware: HardwareInfo,
}

} // verus!
