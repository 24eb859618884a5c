//! Verified logic of a terminal coding assistant: the tools an agent calls
//! (files, shell, git, web, tasks, memory) and the terminal interface that
//! shows a conversation.

pub mod agent;
pub mod arithmetic;
pub mod fs;
pub mod git;
pub mod ids;
pub mod memory;
pub mod path;
pub mod patterns;
pub mod plan;
pub mod shell;
pub mod skills;
pub mod task;
pub mod text;
pub mod tool;
pub mod tui;
pub mod ui;
pub mod util;
pub mod web;
pub mod worktree;
