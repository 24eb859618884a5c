//! The terminal interface: what it shows and how it reacts.

pub mod app;
pub mod commands;
pub mod event;
pub mod input;
pub mod markdown;
pub mod style;
pub mod time;
pub mod view;
