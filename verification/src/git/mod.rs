//! Applying patches and showing differences with git.

pub mod apply;
pub mod diff;
