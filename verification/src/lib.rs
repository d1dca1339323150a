//! Core of a workspace manager for version-controlled projects: finding the
//! repository roots below a directory, and applying one operation to all of
//! them with a bound on how many run at once.

pub mod error;
pub mod workspace;
pub mod git;
pub mod text;
pub mod operations;
pub mod discovery;
pub mod executor;
pub mod cli;
