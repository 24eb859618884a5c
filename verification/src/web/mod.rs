//! Fetching pages and searching the web.

pub mod fetch;
pub mod ip;
pub mod search;
pub mod ssrf;
