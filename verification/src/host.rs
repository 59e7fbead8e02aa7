//! Probes of the host the engine runs on.
//!
//! Whether a binary is on the PATH depends on the machine, so nothing is
//! promised of a probe's outcome; the logic around the probes holds for
//! every answer.

use vstd::prelude::*;
use crate::config::{PackageManager, Shell};

verus! {

/// Relies on `which::which`: returns whether a binary named `name` is
/// found on the PATH.  The answer depends on the machine, so nothing is
/// promised of it.
#[verifier::external_body]
pub(crate) fn binary_on_path(name: &str) -> bool {
    which::which(name).is_ok()
}

/// Whether `shell` is among the detected shells.
pub fn is_shell_available(shell: &Shell, available: &Vec<Shell>) -> (r: bool)
    ensures
        r == available@.contains(*shell),
{
    let mut i: usize = 0;
    while i < available.len()
        invariant
            i <= available@.len(),
            forall|k: int| 0 <= k < i ==> available@[k] != *shell,
        decreases available@.len() - i,
    {
        if available[i] == *shell {
            return true;
        }
        i = i + 1;
    }
    false
}

/// Whether `manager` is among the detected package managers.
pub fn is_manager_available(manager: &PackageManager, available: &Vec<PackageManager>) -> (r: bool)
    ensures
        r == available@.contains(*manager),
{
    let mut i: usize = 0;
    while i < available.len()
        invariant
            i <= available@.len(),
            forall|k: int| 0 <= k < i ==> available@[k] != *manager,
        decreases available@.len() - i,
    {
        if available[i] == *manager {
            return true;
        }
        i = i + 1;
    }
    false
}

/// Probes every known shell once; the result lists each found shell once.
pub fn detect_shells() -> (r: Vec<Shell>)
    ensures
        forall|i: int, j: int| 0 <= i < j < r@.len() ==> r@[i] != r@[j],
        forall|i: int| 0 <= i < r@.len() ==> Shell::all_spec().contains(#[trigger] r@[i]),
{
    let mut found: Vec<Shell> = Vec::new();
    let bash = Shell::Bash;
    if binary_on_path(bash.get_command()) {
        found.push(Shell::Bash);
    }
    let pwsh = Shell::PowerShellCore;
    if binary_on_path(pwsh.get_command()) {
        found.push(Shell::PowerShellCore);
    }
    proof {
        assert(Shell::all_spec()[0] == Shell::Bash);
        assert(Shell::all_spec()[1] == Shell::PowerShellCore);
    }
    found
}

} // verus!
