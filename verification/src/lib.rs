//! Core engine of a declarative machine-provisioning tool.
//!
//! A provisioning document yields an ordered list of steps (scripts to run,
//! packages to install, guarded by boolean selection expressions).  This crate
//! holds the verified heart of the tool: the selection-expression language,
//! the step-filtering pipeline, the package/alias resolver, the script
//! validation cache, the dry-run planner and the execution engine.  File and
//! process I/O stay outside, behind narrow trusted wrappers or caller-supplied
//! capabilities.

pub mod alias;
pub mod cli;
pub mod config;
pub mod error;
pub mod filter;
pub mod host;
pub mod runner;
pub mod script_checker;
pub mod state;
pub mod expr;
pub mod osinfo;
pub mod query;
pub mod seqs;
