//! Deleting an installed version.
use vstd::prelude::*;

use crate::paths::{file_name, join_path, path_file_name, path_join, paths_equal, same_path};
use crate::text::str_eq;
use crate::version::error::VersionManagerError;

verus! {

/// Deletes installed versions, never the active one.
pub struct VersionDeleter {
    pub versions_dir: String,
    pub current_symlink: String,
}

impl VersionDeleter {
    /// A deleter for the versions under `versions_dir`, whose `current` link
    /// lies in `nodepilot_dir`.
    pub fn new(versions_dir: String, nodepilot_dir: &str) -> (d: VersionDeleter)
        ensures
            d.versions_dir == versions_dir,
            d.current_symlink@ == path_join(nodepilot_dir@, "current"@),
    {
        VersionDeleter { versions_dir, current_symlink: join_path(nodepilot_dir, "current") }
    }

    /// Whether the `current` link target `t` points at `version`: it is the
    /// version's directory as a path, or its file name is the version (as
    /// the active version is read from the link, a relative target too).
    pub open spec fn targets_version(&self, t: Seq<char>, version: Seq<char>) -> bool {
        same_path(t, path_join(self.versions_dir@, version)) || file_name(t) == Some(version)
    }

    /// The directory to remove to delete `version`, given whether it exists
    /// and the target of the `current` link: a missing version is not found,
    /// and the version the link points at is active and stays.
    pub fn plan_delete(&self, version: &str, version_dir_exists: bool, current_target: Option<&str>) -> (r:
        Result<String, VersionManagerError>)
        ensures
            !version_dir_exists ==> (r matches Err(VersionManagerError::NotFound(v)) && v@
                == version@),
            version_dir_exists && (current_target matches Some(t) && self.targets_version(
                t@,
                version@,
            )) ==> (r matches Err(VersionManagerError::Active(v)) && v@ == version@),
            version_dir_exists && !(current_target matches Some(t) && self.targets_version(
                t@,
                version@,
            )) ==> (r matches Ok(d) && d@ == path_join(self.versions_dir@, version@)),
    {
        let dir = join_path(self.versions_dir.as_str(), version);
        if !version_dir_exists {
            return Err(VersionManagerError::NotFound(String::from_str(version)));
        }
        match current_target {
            Some(t) => {
                let named = match path_file_name(t) {
                    Some(n) => str_eq(n.as_str(), version),
                    None => false,
                };
                if paths_equal(t, dir.as_str()) || named {
                    return Err(VersionManagerError::Active(String::from_str(version)));
                }
            },
            None => {},
        }
        Ok(dir)
    }
}

} // verus!
