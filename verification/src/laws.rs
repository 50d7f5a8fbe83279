//! What the connector is for: its results in terms of what it was given.

pub mod answers;
pub mod mappings;
pub mod options;
pub mod tables;
pub mod texts;
pub mod values;
