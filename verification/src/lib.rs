//! A spreadsheet engine: a store of cells, a dependency graph between them,
//! and the commands that read and write cells and recompute their dependants.

pub mod cells;
pub mod commands;
pub mod connection;
pub mod invariants;
pub mod runner;
pub mod spreadsheet;
pub mod utils;
pub mod values;
