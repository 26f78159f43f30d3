//! Progress and change events of version operations.
use vstd::prelude::*;

use crate::version::types::NodeVersion;

verus! {

/// What a version operation reports while it runs.
pub enum VersionEvent {
    /// The version list changed.
    VersionsUpdated(Vec<NodeVersion>),
    /// An installation advanced: `done` of `total` units of the stage (bytes
    /// downloaded, archive entries extracted); the percentage is
    /// `done * 100 / total`.
    InstallProgress { version: String, stage: String, done: u64, total: u64 },
    /// A version became the active one.
    VersionActivated { version: String },
}

/// The progress event of an installation: `done` of `total` units of
/// `stage` for `version`.
pub fn install_progress(version: &str, stage: &str, done: u64, total: u64) -> (e: VersionEvent)
    ensures
        e matches VersionEvent::InstallProgress { version: v, stage: s, done: d, total: t }
            && v@ == version@ && s@ == stage@ && d == done && t == total,
{
    VersionEvent::InstallProgress {
        version: String::from_str(version),
        stage: String::from_str(stage),
        done,
        total,
    }
}

} // verus!
