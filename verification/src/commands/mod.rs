//! The operations behind the application's commands.
pub mod ansi;
pub mod app_update;
pub mod dev_server;
pub mod git;
pub mod process_tree;
pub mod projects;
pub mod state;

pub use ansi::strip_ansi;
pub use app_update::{parse_version, AppUpdateInfo};
pub use git::{GitBranch, GitBranches};
pub use projects::{
    bind_project, unbind_project, update_project_config, update_project_name, AppConfig,
    ProjectBinding,
};
pub use state::{cleanup_all_servers, detect_package_manager, AppState, PackageJson};
