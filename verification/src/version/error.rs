//! Errors of the version-management operations.
use vstd::prelude::*;

use crate::text::concat_str;

verus! {

/// Why a version operation failed.
pub enum VersionManagerError {
    Network(String),
    Parse(String),
    AlreadyInstalled(String),
    NotFound(String),
    Active(String),
    Io(String),
}

impl VersionManagerError {
    /// The text of the error.
    pub open spec fn message_spec(&self) -> Seq<char> {
        match self {
            VersionManagerError::Network(x) => "network error: "@ + x@,
            VersionManagerError::Parse(x) => "parse error: "@ + x@,
            VersionManagerError::AlreadyInstalled(x) => "version already installed: "@ + x@,
            VersionManagerError::NotFound(x) => "version not found: "@ + x@,
            VersionManagerError::Active(x) => "cannot delete active version: "@ + x@,
            VersionManagerError::Io(x) => "I/O error: "@ + x@,
        }
    }

    /// The text of the error.
    pub fn message(&self) -> (m: String)
        ensures
            m@ == self.message_spec(),
    {
        match self {
            VersionManagerError::Network(x) => concat_str("network error: ", x.as_str()),
            VersionManagerError::Parse(x) => concat_str("parse error: ", x.as_str()),
            VersionManagerError::AlreadyInstalled(x) => concat_str(
                "version already installed: ",
                x.as_str(),
            ),
            VersionManagerError::NotFound(x) => concat_str("version not found: ", x.as_str()),
            VersionManagerError::Active(x) => concat_str(
                "cannot delete active version: ",
                x.as_str(),
            ),
            VersionManagerError::Io(x) => concat_str("I/O error: ", x.as_str()),
        }
    }
}

} // verus!
