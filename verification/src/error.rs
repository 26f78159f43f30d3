//! The error the application's commands report.
use vstd::prelude::*;

use crate::text::concat_str;
use crate::version::error::VersionManagerError;

verus! {

/// A command's error, by kind, with its message.
pub enum AppError {
    Network(String),
    Parse(String),
    AlreadyInstalled(String),
    NotFound(String),
    Active(String),
    Io(String),
    Config(String),
    Setup(String),
}

impl AppError {
    /// The text of the error.
    pub open spec fn message_spec(&self) -> Seq<char> {
        match self {
            AppError::Network(x) => "network error: "@ + x@,
            AppError::Parse(x) => "parse error: "@ + x@,
            AppError::AlreadyInstalled(x) => "version already installed: "@ + x@,
            AppError::NotFound(x) => "version not found: "@ + x@,
            AppError::Active(x) => "cannot delete active version: "@ + x@,
            AppError::Io(x) => "I/O error: "@ + x@,
            AppError::Config(x) => "config error: "@ + x@,
            AppError::Setup(x) => "setup error: "@ + x@,
        }
    }

    /// The text of the error.
    pub fn message(&self) -> (m: String)
        ensures
            m@ == self.message_spec(),
    {
        match self {
            AppError::Network(x) => concat_str("network error: ", x.as_str()),
            AppError::Parse(x) => concat_str("parse error: ", x.as_str()),
            AppError::AlreadyInstalled(x) => concat_str("version already installed: ", x.as_str()),
            AppError::NotFound(x) => concat_str("version not found: ", x.as_str()),
            AppError::Active(x) => concat_str("cannot delete active version: ", x.as_str()),
            AppError::Io(x) => concat_str("I/O error: ", x.as_str()),
            AppError::Config(x) => concat_str("config error: ", x.as_str()),
            AppError::Setup(x) => concat_str("setup error: ", x.as_str()),
        }
    }
}

/// The command error for a version-management error: same kind, same
/// message text.
pub open spec fn app_error_of(e: VersionManagerError) -> AppError {
    match e {
        VersionManagerError::Network(m) => AppError::Network(m),
        VersionManagerError::Parse(m) => AppError::Parse(m),
        VersionManagerError::AlreadyInstalled(v) => AppError::AlreadyInstalled(v),
        VersionManagerError::NotFound(v) => AppError::NotFound(v),
        VersionManagerError::Active(v) => AppError::Active(v),
        VersionManagerError::Io(m) => AppError::Io(m),
    }
}

impl From<VersionManagerError> for AppError {
    fn from(e: VersionManagerError) -> (r: AppError)
        ensures
            r == app_error_of(e),
    {
        match e {
            VersionManagerError::Network(m) => AppError::Network(m),
            VersionManagerError::Parse(m) => AppError::Parse(m),
            VersionManagerError::AlreadyInstalled(v) => AppError::AlreadyInstalled(v),
            VersionManagerError::NotFound(v) => AppError::NotFound(v),
            VersionManagerError::Active(v) => AppError::Active(v),
            VersionManagerError::Io(m) => AppError::Io(m),
        }
    }
}

impl vstd::std_specs::convert::FromSpecImpl<VersionManagerError> for AppError {
    open spec fn obeys_from_spec() -> bool {
        true
    }

    open spec fn from_spec(e: VersionManagerError) -> AppError {
        app_error_of(e)
    }
}

/// Converting an error keeps its message.
pub proof fn lemma_app_error_keeps_message(e: VersionManagerError)
    ensures
        app_error_of(e).message_spec() == e.message_spec(),
{
}

} // verus!
