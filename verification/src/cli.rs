//! The run requests the command-line front end hands the engine.
//!
//! These are plain values; argument parsing itself lives with the front
//! end, which converts into these structs.

use vstd::prelude::*;

verus! {

/// A request to execute (or dry-run) steps from a document.
pub struct RunArgs {
    /// Path of the document to load.
    pub file: String,
    /// Optional tag filter expression, e.g. `!(tag1 || tag2) && tag3`.
    pub tags_expr: Option<String>,
    /// Explicit step ids to run, in the requested order; empty means all.
    pub steps: Vec<String>,
    /// Resume start point; set only by the resume entry point.
    pub start_step_id: Option<String>,
    /// Ask for confirmation before each step.
    pub interactive: bool,
    /// Plan only; run guards but neither scripts nor installs.
    pub dry_run: bool,
}

/// A request to resume the last interrupted run.
pub struct ResumeArgs {
    pub interactive: bool,
    pub dry_run: bool,
}

/// A request to list steps.
pub struct ListStepsArgs {
    pub file: String,
    pub tags_expr: Option<String>,
    pub plain: bool,
    pub all: bool,
}

/// A request to list tags.
pub struct ListTagsArgs {
    pub file: String,
}

} // verus!
