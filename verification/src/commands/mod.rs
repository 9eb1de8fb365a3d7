//! The command-line commands: their names and the decisions they take.
pub mod board;
pub mod config;
pub mod fetch;
pub mod github;
pub mod google;
pub mod init;
pub mod issue;
pub mod log;
pub mod meeting;
pub mod sprint;
pub mod tui;
pub mod update;
pub mod worklog;
