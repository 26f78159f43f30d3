//! The application's state and the small decisions made about it.
use vstd::prelude::*;

use crate::commands::dev_server::{LogBuffers, ServerRegistry};
use crate::paths::{join_path, path_join};
use crate::version::manager::{dist_url_spec, VersionManager};

verus! {

/// Everything the commands share.
pub struct AppState {
    pub nodepilot_dir: String,
    pub manager: VersionManager,
    pub config_path: String,
    pub projects_path: String,
    pub servers: ServerRegistry,
    pub log_buffers: LogBuffers,
}

impl AppState {
    /// The state for the data directory `nodepilot_dir` (`~/.nodepilot`),
    /// downloading from `source_url`: versions, cache, config and project
    /// files live under it, and no server runs yet.
    pub fn new(nodepilot_dir: String, source_url: String) -> (s: AppState)
        ensures
            s.nodepilot_dir@ == nodepilot_dir@,
            s.manager.index_url_spec() == source_url@,
            s.manager.dist_url_spec() == dist_url_spec(source_url@),
            s.manager.versions_dir@ == path_join(nodepilot_dir@, "versions"@),
            s.manager.cache_dir@ == path_join(nodepilot_dir@, "cache"@),
            s.manager.activator.nodepilot_dir@ == nodepilot_dir@,
            s.manager.activator.versions_dir@ == path_join(nodepilot_dir@, "versions"@),
            s.manager.deleter.versions_dir@ == path_join(nodepilot_dir@, "versions"@),
            s.manager.deleter.current_symlink@ == path_join(nodepilot_dir@, "current"@),
            s.config_path@ == path_join(nodepilot_dir@, "config.json"@),
            s.projects_path@ == path_join(nodepilot_dir@, "projects.json"@),
            s.servers.view() == Map::<Seq<char>, u32>::empty(),
            s.log_buffers.view() == Map::<Seq<char>, Seq<Seq<char>>>::empty(),
    {
        let versions_dir = join_path(nodepilot_dir.as_str(), "versions");
        let cache_dir = join_path(nodepilot_dir.as_str(), "cache");
        let config_path = join_path(nodepilot_dir.as_str(), "config.json");
        let projects_path = join_path(nodepilot_dir.as_str(), "projects.json");
        let manager = VersionManager::new(nodepilot_dir.clone(), versions_dir, cache_dir, source_url);
        AppState {
            nodepilot_dir,
            manager,
            config_path,
            projects_path,
            servers: ServerRegistry::new(),
            log_buffers: LogBuffers::new(),
        }
    }
}

/// Stops tracking every dev server and returns their process ids, one per
/// tracked path, so that their process trees can be ended; nothing else in
/// the state changes.
pub fn cleanup_all_servers(state: &mut AppState) -> (pids: Vec<u32>)
    ensures
        final(state).servers.view() == Map::<Seq<char>, u32>::empty(),
        exists|ks: Seq<Seq<char>>|
            crate::commands::dev_server::is_key_order(ks, old(state).servers.view()) && pids@
                == #[trigger] crate::commands::dev_server::values_along(
                ks,
                old(state).servers.view(),
            ),
        final(state).nodepilot_dir == old(state).nodepilot_dir,
        final(state).manager == old(state).manager,
        final(state).config_path == old(state).config_path,
        final(state).projects_path == old(state).projects_path,
        final(state).log_buffers == old(state).log_buffers,
        pids@.len() == old(state).servers.view().dom().len(),
        forall|i: int|
            0 <= i < pids@.len() ==> crate::commands::dev_server::is_pid_of(
                old(state).servers.view(),
                #[trigger] pids@[i],
            ),
        forall|p: Seq<char>| #[trigger]
            old(state).servers.view().contains_key(p) ==> pids@.contains(
                old(state).servers.view()[p],
            ),
{
    state.servers.take_all()
}

/// The flag file that records a finished (or skipped) environment setup.
pub fn setup_flag_path(nodepilot_dir: &str) -> (p: String)
    ensures
        p@ == path_join(nodepilot_dir@, ".auto-setup-done"@),
{
    join_path(nodepilot_dir, ".auto-setup-done")
}

/// The file that holds the last environment-setup error.
pub fn setup_error_path(nodepilot_dir: &str) -> (p: String)
    ensures
        p@ == path_join(nodepilot_dir@, ".auto-setup-error"@),
{
    join_path(nodepilot_dir, ".auto-setup-error")
}

/// The package manager a project uses, from its lock files: pnpm, then
/// yarn, else npm.
pub open spec fn package_manager_spec(has_pnpm_lock: bool, has_yarn_lock: bool) -> Seq<char> {
    if has_pnpm_lock {
        "pnpm"@
    } else if has_yarn_lock {
        "yarn"@
    } else {
        "npm"@
    }
}

/// The package manager a project uses, given whether `pnpm-lock.yaml` and
/// `yarn.lock` exist in it.
pub fn detect_package_manager(has_pnpm_lock: bool, has_yarn_lock: bool) -> (pm: String)
    ensures
        pm@ == package_manager_spec(has_pnpm_lock, has_yarn_lock),
{
    if has_pnpm_lock {
        String::from_str("pnpm")
    } else if has_yarn_lock {
        String::from_str("yarn")
    } else {
        String::from_str("npm")
    }
}

/// The lock files that decide the package manager, under a project.
pub fn lock_file_paths(project_dir: &str) -> (p: (String, String))
    ensures
        p.0@ == path_join(project_dir@, "pnpm-lock.yaml"@),
        p.1@ == path_join(project_dir@, "yarn.lock"@),
{
    (join_path(project_dir, "pnpm-lock.yaml"), join_path(project_dir, "yarn.lock"))
}

/// The scripts section of a project's `package.json`.
pub struct PackageJson {
    pub scripts: Option<Vec<(String, String)>>,
}

} // verus!
