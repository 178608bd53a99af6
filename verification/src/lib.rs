//! Per-worktree virtual machines.
pub mod cache;
pub mod cli;
pub mod context;
pub mod creds;
pub mod gitiso;
pub mod golden;
pub mod inspect;
pub mod json;
pub mod launchd;
pub mod lima;
pub mod mirror;
pub mod path;
pub mod plan;
pub mod port;
pub mod remove;
pub mod repo;
pub mod screen;
pub mod sim;
pub mod sshx;
pub mod sweep;
pub mod table;
pub mod text;
pub mod tui;
pub mod up;
pub mod update;
pub mod util;
