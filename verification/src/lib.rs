//! Reconciles the schema migrations that a database has applied with the
//! migration files that differ between two branches.
//!
//! The library works on plain values: the names of the files of the
//! migrations directory, the applied versions, and the output of a diff
//! against another branch.  From these it derives the status of every
//! migration, the applied migrations that the other branch does not have, and
//! the argument of the rollback that takes them back, the latest first.

pub mod text;
pub mod pattern;
pub mod catalog;
pub mod migration;
pub mod diff;
pub mod reconcile;
pub mod report;
pub mod cli;
pub mod config;
