//! A movie table under version control.
//!
//! The crate models a single relational table of movies whose rows are
//! tracked by git-like operations: changes are made to a working set, staged,
//! committed, branched, compared and merged. Every operation carries a
//! contract over a mathematical view of the state.

pub mod diff;
pub mod error;
pub mod history;
pub mod laws;
pub mod merge;
pub mod models;
pub mod report;
pub mod session;
pub mod state;
pub mod statements;
pub mod table;
pub mod text;
