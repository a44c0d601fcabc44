//! The commands of the spreadsheet and what they are made of.

pub mod dependencies;
pub mod get;
pub mod set;
pub mod variables;
