//! The persisted resumability checkpoint.
//!
//! The engine saves a `RunState` before each step and clears it on full
//! success; the resume entry point reconstructs an equivalent run request
//! from the persisted `RunInfo`.  Reading and writing the state file is
//! host work outside this crate.

use vstd::prelude::*;
use crate::cli::RunArgs;
use crate::runner::RunState;

verus! {

/// What the run-state file holds: the original request plus the last
/// attempted step id, or none after a fully successful run.
pub struct RunInfo {
    pub file: String,
    pub tags_expr: Option<String>,
    pub steps: Vec<String>,
    pub interactive: bool,
    pub last_step_id: Option<String>,
}

/// Remembers the original request so each checkpoint carries enough to
/// resume: the document path, the tag expression and the explicit ids.
pub struct RunStateSaver {
    pub file: String,
    pub tags_expr: Option<String>,
    pub steps: Vec<String>,
}

impl RunStateSaver {
    /// The record to persist for a checkpoint: this request plus the
    /// engine's current state.
    pub fn run_info(&self, state: &RunState) -> (r: RunInfo)
        ensures
            r.file@ == self.file@,
            r.tags_expr.deep_view() == self.tags_expr.deep_view(),
            r.steps.deep_view() == self.steps.deep_view(),
            r.interactive == state.interactive,
            r.last_step_id.deep_view() == state.last_step_id.deep_view(),
    {
        let r = RunInfo {
            file: self.file.clone(),
            tags_expr: match &self.tags_expr {
                Some(t) => Some(t.clone()),
                None => None,
            },
            steps: self.steps.clone(),
            interactive: state.interactive,
            last_step_id: match &state.last_step_id {
                Some(id) => Some(id.clone()),
                None => None,
            },
        };
        proof {
            assert(r.steps.deep_view() =~= self.steps.deep_view());
        }
        r
    }
}

/// The run request a persisted record stands for: the original filters
/// with the last attempted step as the start point.
pub fn resume_args(info: &RunInfo, interactive: bool, dry_run: bool) -> (r: RunArgs)
    ensures
        r.file@ == info.file@,
        r.tags_expr.deep_view() == info.tags_expr.deep_view(),
        r.steps.deep_view() == info.steps.deep_view(),
        r.start_step_id.deep_view() == info.last_step_id.deep_view(),
        r.interactive == (interactive || info.interactive),
        r.dry_run == dry_run,
{
    let r = RunArgs {
        file: info.file.clone(),
        tags_expr: match &info.tags_expr {
            Some(t) => Some(t.clone()),
            None => None,
        },
        steps: info.steps.clone(),
        start_step_id: match &info.last_step_id {
            Some(id) => Some(id.clone()),
            None => None,
        },
        interactive: interactive || info.interactive,
        dry_run,
    };
    proof {
        assert(r.steps.deep_view() =~= info.steps.deep_view());
    }
    r
}

} // verus!
