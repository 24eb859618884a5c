//! Reading, searching and changing files.

pub mod change;
pub mod edit;
pub mod grep;
pub mod listing;
pub mod read;
pub mod sensitive;
