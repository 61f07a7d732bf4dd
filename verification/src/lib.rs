//! Interactive git branch and worktree navigator: the decision logic.

pub mod cli;
pub mod text;
pub mod git;
pub mod selector;
pub mod app;
pub mod session;
pub mod shell;
