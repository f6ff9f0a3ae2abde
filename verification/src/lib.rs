//! Session layouts for tmux, built from a project's layered configuration.

pub mod text;
pub mod json;
pub mod config;
pub mod tmux;
pub mod paths;
pub mod session;
pub mod prompts;
pub mod workspace;
pub mod files;
pub mod git;
pub mod cli;
pub mod runner;
pub mod launch;
pub mod decode;
