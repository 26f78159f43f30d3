//! The version-management domain.
pub mod activator;
pub mod archive;
pub mod deleter;
pub mod error;
pub mod event;
pub mod fetcher;
pub mod installer;
pub mod manager;
pub mod types;

pub use manager::{ExecuteOutput, VersionCommand, VersionManager};
