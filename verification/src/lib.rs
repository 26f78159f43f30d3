//! A Node.js version manager: the logic behind listing, installing,
//! activating and deleting Node.js versions, project bindings, dev-server
//! bookkeeping and automatic shell environment setup.
pub mod client;
pub mod commands;
pub mod env_setup;
pub mod error;
pub mod keyed;
pub mod paths;
pub mod setup_steps;
pub mod text;
pub mod tray;
pub mod version;
