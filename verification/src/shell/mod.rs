//! Running shell commands.

pub mod background;
pub mod redact;
pub mod run;
