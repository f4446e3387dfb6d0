//! What the tools promise, stated of their inputs and results.

pub mod command;
pub mod details;
pub mod diagnosis;
pub mod drops;
pub mod hosts;
pub mod listing;
pub mod suggestions;
pub mod survey;
pub mod text;
pub mod tools;
pub mod traffic;
pub mod wording;
