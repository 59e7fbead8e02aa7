//! The errors the engine can report.
//!
//! Selection and environment errors surface before any side effect; execution
//! errors abort a running pass.  Every variant carries the values a caller
//! needs to render an actionable message (step id, file, offending names).

use vstd::prelude::*;
use crate::config::PackageManager;

verus! {

/// A required environment variable together with the steps that need it.
#[derive(Debug)]
pub struct MissingVar {
    pub name: String,
    pub step_ids: Vec<String>,
}

/// Mathematical image of a `MissingVar`.
#[verifier::ext_equal]
pub struct MissingVarV {
    pub name: Seq<char>,
    pub step_ids: Seq<Seq<char>>,
}

impl View for MissingVar {
    type V = MissingVarV;

    open spec fn view(&self) -> MissingVarV {
        MissingVarV { name: self.name@, step_ids: self.step_ids.deep_view() }
    }
}

impl DeepView for MissingVar {
    type V = MissingVarV;

    open spec fn deep_view(&self) -> MissingVarV {
        self@
    }
}

/// Everything that can go wrong while selecting or executing steps.
#[derive(Debug)]
pub enum Error {
    /// The document produced no steps at all.
    NoSteps,
    /// Two steps share one id; the files they came from are named.
    DuplicateStep { id: String, first_file: String, second_file: String },
    /// Explicitly requested step ids that exist nowhere in the pool.
    UnknownSteps { ids: Vec<String> },
    /// Tag atoms referenced by a filter expression that no step carries.
    UnknownTags { tags: Vec<String> },
    /// The resume start point names a step that is not in the pool.
    StartStepNotFound { id: String },
    /// A selection expression that the grammar rejects, kept verbatim.
    ExprParse { input: String },
    /// Required environment variables that are unbound, grouped per variable.
    MissingEnvVars { vars: Vec<MissingVar> },
    /// A script failed its shell's syntax check before the run began.
    ScriptCheckFailed { step_id: String, source_file: String, message: String },
    /// A pre-script or main script exited unsuccessfully.
    ScriptFailed { step_id: String, source_file: String, message: String },
    /// The resolved package manager's binary is not on the PATH.
    ManagerNotFound { manager: PackageManager },
    /// A step reached installation without a resolved concrete manager.
    ManagerUnresolved,
    /// An install command exited unsuccessfully.
    InstallFailed { packages: Vec<String>, message: String },
    /// No package manager could be detected for this host.
    DefaultManagerUndetected,
    /// The interactive confirmation prompt could not be read.
    PromptFailed { message: String },
}

} // verus!
