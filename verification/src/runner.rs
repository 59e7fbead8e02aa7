//! The execution engine and the dry-run planner.
//!
//! Steps run strictly in order.  All host work — spawning scripts, asking
//! the operator, installing packages — goes through caller-supplied
//! capabilities (`StateSaver`, `ScriptChecker`, `ScriptRunner`), so the
//! engine's decisions hold whatever the host answers.

use vstd::prelude::*;
use crate::alias::{PackageAliases, AliasEntryV, spec_resolve};
use crate::config::{
    CommandSpec, PackageManager, PackageSource, Script, Shell, Step, StepV,
    spec_manager_command, spec_shell_command, spec_source_managers,
};
use crate::error::Error;
use crate::host::{binary_on_path, is_manager_available, is_shell_available};
use crate::osinfo::Platform;
use crate::script_checker::ScriptChecker;
use crate::seqs::lemma_take_step;

verus! {

/// How a run is to be performed.
pub struct RunParameters {
    /// Ask for confirmation before each step.
    pub interactive: bool,
    /// Plan only: run guards, but neither scripts nor installs.
    pub dry_run: bool,
}

/// The engine's checkpoint: the step about to run (or none after full
/// success) and whether interactive mode was active.
pub struct RunState {
    pub last_step_id: Option<String>,
    pub interactive: bool,
}

/// Persists a checkpoint before each step begins.
pub trait StateSaver {
    fn save(&self, info: &RunState) -> Result<(), String>;
}

/// The operator's answer to a step confirmation prompt.
pub enum Decision {
    Run,
    Skip,
    Abort,
    LeaveInteractiveMode,
}

/// One event worth telling the operator about; rendering is the front
/// end's business.
pub enum LogEvent {
    RunningStep(String),
    StepCompleted(String),
    SkippedByGuard(String),
    RunningPreScript,
    RunningScript,
    InstallingPackages(Vec<String>),
    StateSaveFailed,
    RunCompleted,
}

/// The host work a run needs: spawning scripts and install commands,
/// best-effort package queries, confirmation prompts and logging.
pub trait ScriptRunner {
    fn run_script(&mut self, script: &Script, dir: &String) -> Result<(), String>;

    fn run_install_command(&mut self, cmd: &CommandSpec) -> Result<(), String>;

    fn pkg_installed(&mut self, manager: &PackageManager, pkg: &String) -> bool;

    fn ask_confirmation(&mut self, step: &Step) -> Result<Decision, String>;

    fn log(&mut self, current: usize, total: usize, event: &LogEvent);
}

/// The host facts a run is evaluated against, detected once and then
/// treated as read-only.
pub struct HostInfo {
    pub os_info: crate::osinfo::OsInfo,
    pub available_shells: Vec<Shell>,
    pub available_managers: Vec<PackageManager>,
    pub default_manager_override: Option<PackageManager>,
}

/// The platform's fixed default-manager choice: one pick on macOS and
/// Windows, an ordered probe list on Linux.
pub open spec fn spec_default_candidates(p: Platform) -> Seq<PackageManager> {
    match p {
        Platform::MacOS => seq![PackageManager::Brew],
        Platform::Windows => seq![PackageManager::Winget],
        Platform::Linux => seq![
            PackageManager::Pacman,
            PackageManager::Apt,
            PackageManager::Dnf,
            PackageManager::Zypper,
        ],
    }
}

/// The first candidate that is available, scanning in order.
pub open spec fn first_available(
    cands: Seq<PackageManager>,
    avail: Seq<PackageManager>,
) -> Option<PackageManager>
    decreases cands.len(),
{
    if cands.len() == 0 {
        None
    } else if avail.contains(cands[0]) {
        Some(cands[0])
    } else {
        first_available(cands.drop_first(), avail)
    }
}

/// A scan that saw no available candidate before `k` pins the pick down.
proof fn lemma_first_available_at(
    cands: Seq<PackageManager>,
    avail: Seq<PackageManager>,
    k: int,
)
    requires
        0 <= k <= cands.len(),
        forall|j: int| 0 <= j < k ==> !avail.contains(#[trigger] cands[j]),
        k == cands.len() || avail.contains(cands[k]),
    ensures
        first_available(cands, avail) == if k < cands.len() {
            Some(cands[k])
        } else {
            None::<PackageManager>
        },
    decreases k,
{
    if k > 0 {
        lemma_first_available_at(cands.drop_first(), avail, k - 1);
    }
}

/// What detection returns: an explicit override wins; macOS and Windows
/// have fixed picks; Linux takes the first of its priority list that is
/// available, and nothing when none is.
pub open spec fn spec_default_manager(
    platform: Platform,
    manager_override: Option<PackageManager>,
    avail: Seq<PackageManager>,
) -> Option<PackageManager> {
    match manager_override {
        Some(m) => Some(m),
        None => match platform {
            Platform::MacOS => Some(PackageManager::Brew),
            Platform::Windows => Some(PackageManager::Winget),
            Platform::Linux => first_available(spec_default_candidates(Platform::Linux), avail),
        },
    }
}

/// Detects the host's default package manager from the managers present
/// on the host, per `spec_default_manager`; fails exactly when that pick
/// comes up empty.
pub fn default_package_manager(
    platform: Platform,
    manager_override: Option<PackageManager>,
    available: &Vec<PackageManager>,
) -> (r: Result<PackageManager, Error>)
    ensures
        match r {
            Ok(m) => spec_default_manager(platform, manager_override, available@) == Some(m),
            Err(e) => e is DefaultManagerUndetected && spec_default_manager(
                platform,
                manager_override,
                available@,
            ) is None,
        },
{
    if let Some(o) = manager_override {
        return Ok(o);
    }
    match platform {
        Platform::MacOS => Ok(PackageManager::Brew),
        Platform::Windows => Ok(PackageManager::Winget),
        Platform::Linux => {
            let candidates = linux_candidates();
            let mut i: usize = 0;
            while i < candidates.len()
                invariant
                    candidates@ == spec_default_candidates(Platform::Linux),
                    platform == Platform::Linux,
                    manager_override is None,
                    i <= candidates@.len(),
                    forall|j: int| 0 <= j < i ==> !available@.contains(#[trigger] candidates@[j]),
                decreases candidates@.len() - i,
            {
                let m = candidates[i];
                if is_manager_available(&m, available) {
                    proof {
                        lemma_first_available_at(candidates@, available@, i as int);
                    }
                    return Ok(m);
                }
                i = i + 1;
            }
            proof {
                lemma_first_available_at(candidates@, available@, candidates@.len() as int);
            }
            Err(Error::DefaultManagerUndetected)
        },
    }
}

/// The Linux probe list, most specific first.
fn linux_candidates() -> (r: Vec<PackageManager>)
    ensures
        r@ == spec_default_candidates(Platform::Linux),
{
    let mut v: Vec<PackageManager> = Vec::new();
    v.push(PackageManager::Pacman);
    v.push(PackageManager::Apt);
    v.push(PackageManager::Dnf);
    v.push(PackageManager::Zypper);
    assert(v@ =~= spec_default_candidates(Platform::Linux));
    v
}

/// The pick an explicit source makes: its first candidate that is
/// available, else its first candidate outright — kept even when absent,
/// so a later stage can report it missing.
pub open spec fn spec_source_manager(src: PackageSource, avail: Seq<PackageManager>) -> PackageManager {
    match first_available(spec_source_managers(src), avail) {
        Some(m) => m,
        None => spec_source_managers(src)[0],
    }
}

/// Picks an explicit source's manager, per `spec_source_manager`.
fn source_manager(source: &PackageSource, available: &Vec<PackageManager>) -> (r: PackageManager)
    ensures
        r == spec_source_manager(*source, available@),
{
    let candidates = source.get_package_managers();
    let mut i: usize = 0;
    while i < candidates.len()
        invariant
            candidates@ == spec_source_managers(*source),
            candidates@.len() >= 1,
            i <= candidates@.len(),
            forall|j: int| 0 <= j < i ==> !available@.contains(#[trigger] candidates@[j]),
        decreases candidates@.len() - i,
    {
        let m = candidates[i];
        if is_manager_available(&m, available) {
            proof {
                lemma_first_available_at(candidates@, available@, i as int);
            }
            return m;
        }
        i = i + 1;
    }
    proof {
        lemma_first_available_at(candidates@, available@, candidates@.len() as int);
    }
    candidates[0]
}

/// The manager a step ends up with, in the resolution order the tool
/// fixes: an explicit source first, then the inherited Windows default,
/// then the given host default.
pub open spec fn spec_step_manager(
    s: StepV,
    platform: Platform,
    default_manager: PackageManager,
    avail: Seq<PackageManager>,
) -> PackageManager {
    match s.package_source {
        Some(src) => spec_source_manager(src, avail),
        None => {
            if platform == Platform::Windows && s.defaults is Some
                && s.defaults->0.windows_package_manager is Some {
                s.defaults->0.windows_package_manager->0
            } else {
                default_manager
            }
        },
    }
}

/// Picks a step's manager given the detected host default; see
/// `spec_step_manager`.  The step itself is never changed.
pub fn step_package_manager(
    default_manager: &PackageManager,
    step: &Step,
    platform: Platform,
    available: &Vec<PackageManager>,
) -> (r: PackageManager)
    ensures
        r == spec_step_manager(step@, platform, *default_manager, available@),
{
    if let Some(source) = &step.package_source {
        return source_manager(source, available);
    }
    if platform == Platform::Windows {
        if let Some(d) = &step.defaults {
            if let Some(win_pm) = d.windows_package_manager {
                return win_pm;
            }
        }
    }
    *default_manager
}

/// What per-step resolution returns: the explicit source's pick, else the
/// inherited Windows default, else the detected host default — nothing
/// exactly when the host default cannot be detected.
pub open spec fn spec_resolve_manager(
    s: StepV,
    platform: Platform,
    manager_override: Option<PackageManager>,
    avail: Seq<PackageManager>,
) -> Option<PackageManager> {
    match s.package_source {
        Some(src) => Some(spec_source_manager(src, avail)),
        None => {
            if platform == Platform::Windows && s.defaults is Some
                && s.defaults->0.windows_package_manager is Some {
                Some(s.defaults->0.windows_package_manager->0)
            } else {
                spec_default_manager(platform, manager_override, avail)
            }
        },
    }
}

/// Resolves the concrete manager for one step, per `spec_resolve_manager`
/// and the host's detected managers; fails exactly when the pick comes up
/// empty, which only a sourceless step on a Linux host without an
/// override can make happen.
pub fn resolve_step_package_manager(step: &Step, host: &HostInfo) -> (r: Result<
    PackageManager,
    Error,
>)
    ensures
        match r {
            Ok(m) => spec_resolve_manager(
                step@,
                host.os_info.platform,
                host.default_manager_override,
                host.available_managers@,
            ) == Some(m),
            Err(e) => e is DefaultManagerUndetected && spec_resolve_manager(
                step@,
                host.os_info.platform,
                host.default_manager_override,
                host.available_managers@,
            ) is None && step@.package_source is None && host.default_manager_override is None
                && host.os_info.platform == Platform::Linux,
        },
{
    match &step.package_source {
        Some(source) => Ok(source_manager(source, &host.available_managers)),
        None => {
            if host.os_info.platform == Platform::Windows {
                if let Some(d) = &step.defaults {
                    if let Some(win_pm) = d.windows_package_manager {
                        return Ok(win_pm);
                    }
                }
            }
            default_package_manager(
                host.os_info.platform,
                host.default_manager_override,
                &host.available_managers,
            )
        },
    }
}

/// The position of the last `/` in `s`, or `-1` when there is none.
pub open spec fn last_slash(s: Seq<char>) -> int
    decreases s.len(),
{
    if s.len() == 0 {
        -1
    } else if s.last() == '/' {
        s.len() - 1
    } else {
        last_slash(s.drop_last())
    }
}

/// The directory part of a path: up to (excluding) the last `/`; the root
/// stays `/`; a bare file name has an empty directory.
pub open spec fn spec_parent_dir(s: Seq<char>) -> Seq<char> {
    let li = last_slash(s);
    if li < 0 {
        Seq::empty()
    } else if li == 0 {
        seq!['/']
    } else {
        s.take(li)
    }
}

/// A `/` at `li` with none after it is the last one.
proof fn lemma_last_slash_at(s: Seq<char>, li: int)
    requires
        0 <= li < s.len(),
        s[li] == '/',
        forall|j: int| li < j < s.len() ==> s[j] != '/',
    ensures
        last_slash(s) == li,
    decreases s.len(),
{
    if li == s.len() - 1 {
    } else {
        lemma_last_slash_at(s.drop_last(), li);
    }
}

/// No `/` anywhere means no last one.
proof fn lemma_no_slash(s: Seq<char>)
    requires
        forall|j: int| 0 <= j < s.len() ==> s[j] != '/',
    ensures
        last_slash(s) == -1,
    decreases s.len(),
{
    if s.len() > 0 {
        lemma_no_slash(s.drop_last());
    }
}

/// The directory a step's scripts run in, derived from its document path.
pub fn parent_dir(path: &String) -> (r: String)
    ensures
        r@ == spec_parent_dir(path@),
{
    let s = path.as_str();
    let n: usize = s.unicode_len();
    let mut i: usize = n;
    while i > 0
        invariant
            i <= n,
            n == path@.len(),
            s@ == path@,
            forall|j: int| i <= j < n ==> s@[j] != '/',
        decreases i,
    {
        if s.get_char(i - 1) == '/' {
            proof {
                lemma_last_slash_at(path@, i - 1);
            }
            if i - 1 == 0 {
                let root = "/".to_owned();
                proof {
                    reveal_strlit("/");
                    assert(root@ =~= seq!['/']);
                }
                return root;
            }
            let dir = s.substring_char(0, i - 1);
            let owned = dir.to_owned();
            assert(owned@ =~= path@.take(i - 1));
            return owned;
        }
        i = i - 1;
    }
    proof {
        lemma_no_slash(path@);
    }
    let empty = String::new();
    assert(empty@ =~= Seq::<char>::empty());
    empty
}

/// Runs one script: re-validates it if it never passed the pre-pass
/// (defensive; not expected in normal flow), then hands it to the host.
pub fn run_script<C: ScriptChecker, R: ScriptRunner>(
    script: &Script,
    dir: &String,
    script_checker: &mut C,
    runner: &mut R,
) -> (r: Result<(), String>)
{
    if !script_checker.is_checked(script) {
        match script_checker.check_script(script, false) {
            Ok(()) => {},
            Err(e) => {
                return Err(e);
            },
        }
    }
    runner.run_script(script, dir)
}

/// No step of the pool carries a guard, pre or main script.
pub open spec fn scriptless_pool(dv: Seq<StepV>) -> bool {
    forall|k: int|
        0 <= k < dv.len() ==> (#[trigger] dv[k]).when_script is None && dv[k].pre_script is None
            && dv[k].script is None
}

/// No step of the pool has any effect to perform: no scripts, no packages.
pub open spec fn effect_free_pool(dv: Seq<StepV>) -> bool {
    scriptless_pool(dv) && forall|k: int| 0 <= k < dv.len() ==> (#[trigger] dv[k]).packages.len() == 0
}

/// Validates every script of every step before anything runs.  A syntax
/// failure aborts with the step and file it came from.
pub fn check_scripts<C: ScriptChecker>(
    steps: &Vec<Step>,
    script_checker: &mut C,
    skip_if_shell_unavailable: bool,
) -> (r: Result<(), Error>)
    ensures
        match r {
            Ok(()) => true,
            Err(e) => e matches Error::ScriptCheckFailed { step_id, source_file, .. }
                && exists|k: int|
                0 <= k < steps.deep_view().len() && #[trigger] steps.deep_view()[k].id == step_id@
                    && steps.deep_view()[k].source_file == source_file@ && (
                steps.deep_view()[k].when_script is Some || steps.deep_view()[k].pre_script is Some
                    || steps.deep_view()[k].script is Some),
        },
        scriptless_pool(steps.deep_view()) ==> r is Ok,
{
    let ghost dv = steps.deep_view();
    let mut i: usize = 0;
    while i < steps.len()
        invariant
            dv == steps.deep_view(),
        decreases steps@.len() - i,
    {
        let step = &steps[i];
        assert(step@ == dv[i as int]);
        if let Some(script) = &step.when_script {
            match script_checker.check_script(script, skip_if_shell_unavailable) {
                Ok(()) => {},
                Err(msg) => {
                    proof {
                        assert(steps.deep_view()[i as int].id == step.id@);
                        assert(steps.deep_view()[i as int].source_file == step.source_file@);
                        assert(steps.deep_view()[i as int].when_script is Some);
                    }
                    return Err(Error::ScriptCheckFailed {
                        step_id: step.id.clone(),
                        source_file: step.source_file.clone(),
                        message: msg,
                    });
                },
            }
        }
        if let Some(script) = &step.pre_script {
            match script_checker.check_script(script, skip_if_shell_unavailable) {
                Ok(()) => {},
                Err(msg) => {
                    proof {
                        assert(steps.deep_view()[i as int].id == step.id@);
                        assert(steps.deep_view()[i as int].source_file == step.source_file@);
                        assert(steps.deep_view()[i as int].pre_script is Some);
                    }
                    return Err(Error::ScriptCheckFailed {
                        step_id: step.id.clone(),
                        source_file: step.source_file.clone(),
                        message: msg,
                    });
                },
            }
        }
        if let Some(script) = &step.script {
            match script_checker.check_script(script, skip_if_shell_unavailable) {
                Ok(()) => {},
                Err(msg) => {
                    proof {
                        assert(steps.deep_view()[i as int].id == step.id@);
                        assert(steps.deep_view()[i as int].source_file == step.source_file@);
                        assert(steps.deep_view()[i as int].script is Some);
                    }
                    return Err(Error::ScriptCheckFailed {
                        step_id: step.id.clone(),
                        source_file: step.source_file.clone(),
                        message: msg,
                    });
                },
            }
        }
        i = i + 1;
    }
    Ok(())
}

/// Installs packages with the resolved manager: fails when the manager's
/// binary is absent, else runs the manager's install commands in order
/// and stops at the first failure.
pub fn install_packages<R: ScriptRunner>(
    packages: &Vec<String>,
    manager: &PackageManager,
    current: usize,
    total: usize,
    runner: &mut R,
) -> (r: Result<(), Error>)
    ensures
        match r {
            Ok(()) => true,
            Err(e) => {
                ||| (e matches Error::ManagerNotFound { manager: m } && m == *manager)
                ||| (e matches Error::InstallFailed { packages: ps, .. } && ps.deep_view()
                    == packages.deep_view())
            },
        },
{
    if !binary_on_path(manager.command()) {
        return Err(Error::ManagerNotFound { manager: *manager });
    }
    runner.log(current, total, &LogEvent::InstallingPackages(clone_strings(packages)));
    let commands = manager.commands_to_install(packages);
    let mut i: usize = 0;
    while i < commands.len()
        decreases commands@.len() - i,
    {
        match runner.run_install_command(&commands[i]) {
            Ok(()) => {},
            Err(msg) => {
                return Err(Error::InstallFailed {
                    packages: clone_strings(packages),
                    message: msg,
                });
            },
        }
        i = i + 1;
    }
    Ok(())
}

/// One package of a planned step: its resolved name, whether an alias
/// renamed it, and whether it already looks installed.
#[derive(Debug)]
pub struct PackageInfo {
    pub name: String,
    pub use_alias: bool,
    pub installed: bool,
}

/// Mathematical image of a `PackageInfo`.
#[verifier::ext_equal]
pub struct PackageInfoV {
    pub name: Seq<char>,
    pub use_alias: bool,
    pub installed: bool,
}

impl View for PackageInfo {
    type V = PackageInfoV;

    open spec fn view(&self) -> PackageInfoV {
        PackageInfoV { name: self.name@, use_alias: self.use_alias, installed: self.installed }
    }
}

impl DeepView for PackageInfo {
    type V = PackageInfoV;

    open spec fn deep_view(&self) -> PackageInfoV {
        self@
    }
}

/// A planned step's resolved manager and whether its binary is present.
#[derive(Debug)]
pub struct PackageManagerInfo {
    pub name: String,
    pub installed: bool,
}

/// Mathematical image of a `PackageManagerInfo`.
#[verifier::ext_equal]
pub struct PackageManagerInfoV {
    pub name: Seq<char>,
    pub installed: bool,
}

impl View for PackageManagerInfo {
    type V = PackageManagerInfoV;

    open spec fn view(&self) -> PackageManagerInfoV {
        PackageManagerInfoV { name: self.name@, installed: self.installed }
    }
}

impl DeepView for PackageManagerInfo {
    type V = PackageManagerInfoV;

    open spec fn deep_view(&self) -> PackageManagerInfoV {
        self@
    }
}

/// What a dry run found out about one step that would run.
#[derive(Debug)]
pub struct StepRun {
    pub id: String,
    pub missing_shells: Vec<String>,
    pub package_manager: Option<PackageManagerInfo>,
    pub packages_to_install: Vec<PackageInfo>,
}

/// Mathematical image of a `StepRun`.
#[verifier::ext_equal]
pub struct StepRunV {
    pub id: Seq<char>,
    pub missing_shells: Seq<Seq<char>>,
    pub package_manager: Option<PackageManagerInfoV>,
    pub packages_to_install: Seq<PackageInfoV>,
}

impl View for StepRun {
    type V = StepRunV;

    open spec fn view(&self) -> StepRunV {
        StepRunV {
            id: self.id@,
            missing_shells: self.missing_shells.deep_view(),
            package_manager: self.package_manager.deep_view(),
            packages_to_install: self.packages_to_install.deep_view(),
        }
    }
}

impl DeepView for StepRun {
    type V = StepRunV;

    open spec fn deep_view(&self) -> StepRunV {
        self@
    }
}

/// The no-side-effect preview of a run: the steps that would run with
/// what is known about them, and the steps whose guard said no.
#[derive(Debug)]
pub struct RunPlan {
    pub steps_to_run: Vec<StepRun>,
    pub steps_skipped_by_when: Vec<String>,
}

/// Whether a step survives its guard: no guard, or the guard succeeded.
pub open spec fn guard_passes(s: StepV, ok: bool) -> bool {
    s.when_script is None || ok
}

/// The steps whose guards pass, in order, given per-step guard outcomes.
pub open spec fn included_steps(dv: Seq<StepV>, g: Seq<bool>) -> Seq<StepV>
    decreases dv.len(),
{
    if dv.len() == 0 {
        Seq::empty()
    } else {
        let rest = included_steps(dv.drop_last(), g.drop_last());
        if guard_passes(dv.last(), g.last()) {
            rest.push(dv.last())
        } else {
            rest
        }
    }
}

/// The ids of the steps whose guards fail, in order.
pub open spec fn guard_skipped_ids(dv: Seq<StepV>, g: Seq<bool>) -> Seq<Seq<char>>
    decreases dv.len(),
{
    if dv.len() == 0 {
        Seq::empty()
    } else {
        let rest = guard_skipped_ids(dv.drop_last(), g.drop_last());
        if !guard_passes(dv.last(), g.last()) {
            rest.push(dv.last().id)
        } else {
            rest
        }
    }
}

/// Unfolds the guard partition over one appended step and outcome.
proof fn lemma_guard_push(dv: Seq<StepV>, g: Seq<bool>, s: StepV, ok: bool)
    ensures
        included_steps(dv.push(s), g.push(ok)) == if guard_passes(s, ok) {
            included_steps(dv, g).push(s)
        } else {
            included_steps(dv, g)
        },
        guard_skipped_ids(dv.push(s), g.push(ok)) == if !guard_passes(s, ok) {
            guard_skipped_ids(dv, g).push(s.id)
        } else {
            guard_skipped_ids(dv, g)
        },
{
    assert(dv.push(s).drop_last() =~= dv);
    assert(g.push(ok).drop_last() =~= g);
    assert(dv.push(s).last() == s);
    assert(g.push(ok).last() == ok);
}

/// The command names of the used shells that are not available, in order.
pub open spec fn missing_shell_names(shells: Seq<Shell>, avail: Seq<Shell>) -> Seq<Seq<char>>
    decreases shells.len(),
{
    if shells.len() == 0 {
        Seq::empty()
    } else {
        let rest = missing_shell_names(shells.drop_last(), avail);
        if !avail.contains(shells.last()) {
            rest.push(spec_shell_command(shells.last()))
        } else {
            rest
        }
    }
}

/// Unfolds `missing_shell_names` over one appended shell.
proof fn lemma_missing_push(shells: Seq<Shell>, avail: Seq<Shell>, sh: Shell)
    ensures
        missing_shell_names(shells.push(sh), avail) == if !avail.contains(sh) {
            missing_shell_names(shells, avail).push(spec_shell_command(sh))
        } else {
            missing_shell_names(shells, avail)
        },
{
    assert(shells.push(sh).drop_last() =~= shells);
    assert(shells.push(sh).last() == sh);
}

/// A skipped id names a step whose guard failed.
proof fn lemma_skipped_witness(dv: Seq<StepV>, g: Seq<bool>, id: Seq<char>)
    requires
        g.len() == dv.len(),
        guard_skipped_ids(dv, g).contains(id),
    ensures
        exists|k: int|
            0 <= k < dv.len() && #[trigger] dv[k].id == id && !guard_passes(dv[k], g[k]),
    decreases dv.len(),
{
    if dv.len() > 0 {
        let rest = guard_skipped_ids(dv.drop_last(), g.drop_last());
        if !guard_passes(dv.last(), g.last()) && id == dv.last().id {
            assert(dv[dv.len() - 1].id == id);
        } else {
            assert(rest.contains(id)) by {
                if !guard_passes(dv.last(), g.last()) {
                    let w = choose|w: int|
                        0 <= w < rest.push(dv.last().id).len() && rest.push(dv.last().id)[w] == id;
                    assert(rest[w] == id);
                }
            }
            lemma_skipped_witness(dv.drop_last(), g.drop_last(), id);
            let k = choose|k: int|
                0 <= k < dv.drop_last().len() && #[trigger] dv.drop_last()[k].id == id
                    && !guard_passes(dv.drop_last()[k], g.drop_last()[k]);
            assert(dv[k].id == id && !guard_passes(dv[k], g[k]));
        }
    }
}

/// A planned step is a pool step whose guard passed.
proof fn lemma_included_witness(dv: Seq<StepV>, g: Seq<bool>, j: int)
    requires
        g.len() == dv.len(),
        0 <= j < included_steps(dv, g).len(),
    ensures
        exists|k: int|
            0 <= k < dv.len() && #[trigger] dv[k] == included_steps(dv, g)[j] && guard_passes(
                dv[k],
                g[k],
            ),
    decreases dv.len(),
{
    if dv.len() > 0 {
        let rest = included_steps(dv.drop_last(), g.drop_last());
        if guard_passes(dv.last(), g.last()) && j == rest.len() {
            assert(dv[dv.len() - 1] == included_steps(dv, g)[j]);
        } else {
            assert(included_steps(dv, g)[j] == rest[j]);
            lemma_included_witness(dv.drop_last(), g.drop_last(), j);
            let k = choose|k: int|
                0 <= k < dv.drop_last().len() && #[trigger] dv.drop_last()[k] == rest[j]
                    && guard_passes(dv.drop_last()[k], g.drop_last()[k]);
            assert(dv[k] == included_steps(dv, g)[j] && guard_passes(dv[k], g[k]));
        }
    }
}

/// Each pool step lands in its list: its id among the skipped ids when
/// its guard failed, and itself among the planned steps otherwise.
/// Together with `lemma_dry_plan_disjoint` this makes the two lists a
/// partition of the pool.
pub proof fn lemma_dry_plan_membership(dv: Seq<StepV>, g: Seq<bool>)
    requires
        g.len() == dv.len(),
    ensures
        forall|k: int|
            0 <= k < dv.len() && !guard_passes(#[trigger] dv[k], g[k]) ==> guard_skipped_ids(
                dv,
                g,
            ).contains(dv[k].id),
        forall|k: int|
            0 <= k < dv.len() && guard_passes(#[trigger] dv[k], g[k]) ==> exists|j: int|
                0 <= j < included_steps(dv, g).len() && #[trigger] included_steps(dv, g)[j]
                    == dv[k],
    decreases dv.len(),
{
    if dv.len() > 0 {
        let dvp = dv.drop_last();
        let gp = g.drop_last();
        lemma_dry_plan_membership(dvp, gp);
        let inc_p = included_steps(dvp, gp);
        let skip_p = guard_skipped_ids(dvp, gp);
        assert forall|k: int|
            0 <= k < dv.len() && !guard_passes(#[trigger] dv[k], g[k]) implies guard_skipped_ids(
            dv,
            g,
        ).contains(dv[k].id) by {
            if k < dv.len() - 1 {
                assert(dvp[k] == dv[k] && gp[k] == g[k]);
                assert(skip_p.contains(dvp[k].id));
                let w = choose|w: int| 0 <= w < skip_p.len() && skip_p[w] == dvp[k].id;
                if !guard_passes(dv.last(), g.last()) {
                    assert(guard_skipped_ids(dv, g)[w] == skip_p[w]);
                } else {
                    assert(guard_skipped_ids(dv, g) == skip_p);
                }
            } else {
                assert(guard_skipped_ids(dv, g) == skip_p.push(dv.last().id));
                assert(guard_skipped_ids(dv, g)[skip_p.len() as int] == dv[k].id);
            }
        }
        assert forall|k: int|
            0 <= k < dv.len() && guard_passes(#[trigger] dv[k], g[k]) implies exists|j: int|
            0 <= j < included_steps(dv, g).len() && #[trigger] included_steps(dv, g)[j]
                == dv[k] by {
            if k < dv.len() - 1 {
                assert(dvp[k] == dv[k] && gp[k] == g[k]);
                let w = choose|w: int| 0 <= w < inc_p.len() && #[trigger] inc_p[w] == dvp[k];
                assert(included_steps(dv, g)[w] == dv[k]);
            } else {
                assert(included_steps(dv, g) == inc_p.push(dv.last()));
                assert(included_steps(dv, g)[inc_p.len() as int] == dv[k]);
            }
        }
    }
}

/// A step skipped by its guard never appears among the steps that would
/// run: with unique ids, the guard partition is disjoint.
pub proof fn lemma_dry_plan_disjoint(dv: Seq<StepV>, g: Seq<bool>)
    requires
        g.len() == dv.len(),
        crate::filter::unique_ids(dv),
    ensures
        forall|i: int, j: int|
            #![trigger guard_skipped_ids(dv, g)[i], included_steps(dv, g)[j]]
            0 <= i < guard_skipped_ids(dv, g).len() && 0 <= j < included_steps(dv, g).len()
                ==> included_steps(dv, g)[j].id != guard_skipped_ids(dv, g)[i],
{
    assert forall|i: int, j: int|
        #![trigger guard_skipped_ids(dv, g)[i], included_steps(dv, g)[j]]
        0 <= i < guard_skipped_ids(dv, g).len() && 0 <= j < included_steps(dv, g).len()
        implies included_steps(dv, g)[j].id != guard_skipped_ids(dv, g)[i] by {
        let id = guard_skipped_ids(dv, g)[i];
        assert(guard_skipped_ids(dv, g).contains(id));
        lemma_skipped_witness(dv, g, id);
        lemma_included_witness(dv, g, j);
        let k1 = choose|k: int|
            0 <= k < dv.len() && #[trigger] dv[k].id == id && !guard_passes(dv[k], g[k]);
        let k2 = choose|k: int|
            0 <= k < dv.len() && #[trigger] dv[k] == included_steps(dv, g)[j] && guard_passes(
                dv[k],
                g[k],
            );
        if included_steps(dv, g)[j].id == id {
            assert(dv[k1].id == dv[k2].id);
            assert(k1 == k2) by {
                if k1 < k2 {
                    assert(dv[k1].id != dv[k2].id);
                }
                if k2 < k1 {
                    assert(dv[k2].id != dv[k1].id);
                }
            }
            assert(false);
        }
    }
}

/// What a dry run must have found out about one step that would run:
/// its id, exactly the unavailable shells, and — when it has packages —
/// a legitimately resolved manager with every package name resolved
/// through the alias tables.
pub open spec fn packages_resolved_ok(
    sr: StepRunV,
    s: StepV,
    aliases: Seq<AliasEntryV>,
    m: PackageManager,
) -> bool {
    forall|j: int|
        0 <= j < s.packages.len() ==> (#[trigger] sr.packages_to_install[j].name) == spec_resolve(
            aliases,
            s.packages[j],
            m,
        ) && sr.packages_to_install[j].use_alias == (spec_resolve(aliases, s.packages[j], m)
            != s.packages[j])
}

pub open spec fn step_run_ok(
    sr: StepRunV,
    s: StepV,
    aliases: Seq<AliasEntryV>,
    platform: Platform,
    manager_override: Option<PackageManager>,
    avail: Seq<Shell>,
    mgr_avail: Seq<PackageManager>,
) -> bool {
    &&& sr.id == s.id
    &&& sr.missing_shells == missing_shell_names(crate::config::used_shell_list(s), avail)
    &&& (s.packages.len() == 0 ==> sr.package_manager is None && sr.packages_to_install.len()
        == 0)
    &&& (s.packages.len() > 0 ==> {
        let rm = spec_resolve_manager(s, platform, manager_override, mgr_avail);
        &&& rm is Some
        &&& sr.package_manager == Some(
            PackageManagerInfoV {
                name: spec_manager_command(rm->0),
                installed: mgr_avail.contains(rm->0),
            },
        )
        &&& sr.packages_to_install.len() == s.packages.len()
        &&& packages_resolved_ok(sr, s, aliases, rm->0)
    })
}

/// Assembles `step_run_ok` from its individually established parts.
proof fn lemma_step_run_ok_intro(
    sr: StepRunV,
    s: StepV,
    aliases: Seq<AliasEntryV>,
    platform: Platform,
    manager_override: Option<PackageManager>,
    avail: Seq<Shell>,
    mgr_avail: Seq<PackageManager>,
)
    requires
        sr.id == s.id,
        sr.missing_shells == missing_shell_names(crate::config::used_shell_list(s), avail),
        s.packages.len() == 0 ==> sr.package_manager is None && sr.packages_to_install.len() == 0,
        s.packages.len() > 0 ==> spec_resolve_manager(s, platform, manager_override, mgr_avail) is Some,
        s.packages.len() > 0 ==> sr.package_manager == Some(
            PackageManagerInfoV {
                name: spec_manager_command(
                    spec_resolve_manager(s, platform, manager_override, mgr_avail)->0,
                ),
                installed: mgr_avail.contains(
                    spec_resolve_manager(s, platform, manager_override, mgr_avail)->0,
                ),
            },
        ),
        s.packages.len() > 0 ==> sr.packages_to_install.len() == s.packages.len(),
        s.packages.len() > 0 ==> packages_resolved_ok(
            sr,
            s,
            aliases,
            spec_resolve_manager(s, platform, manager_override, mgr_avail)->0,
        ),
    ensures
        step_run_ok(sr, s, aliases, platform, manager_override, avail, mgr_avail),
{
}

/// A dry-run plan is exact for some sequence of guard outcomes: every
/// step lands in `steps_to_run` or in `steps_skipped_by_when` according
/// to its outcome, in order, and each planned step is truthful.
pub open spec fn dry_plan_matches(
    dv: Seq<StepV>,
    g: Seq<bool>,
    run: Seq<StepRunV>,
    skipped: Seq<Seq<char>>,
    aliases: Seq<AliasEntryV>,
    platform: Platform,
    manager_override: Option<PackageManager>,
    avail: Seq<Shell>,
    mgr_avail: Seq<PackageManager>,
) -> bool {
    &&& g.len() == dv.len()
    &&& skipped == guard_skipped_ids(dv, g)
    &&& run.len() == included_steps(dv, g).len()
    &&& forall|j: int|
        0 <= j < run.len() ==> step_run_ok(
            #[trigger] run[j],
            included_steps(dv, g)[j],
            aliases,
            platform,
            manager_override,
            avail,
            mgr_avail,
        )
}

/// The guards decide on the host, so a dry run's plan is pinned down up
/// to the guard outcomes: some outcome sequence explains it exactly.
pub open spec fn dry_plan_ok(
    dv: Seq<StepV>,
    run: Seq<StepRunV>,
    skipped: Seq<Seq<char>>,
    aliases: Seq<AliasEntryV>,
    platform: Platform,
    manager_override: Option<PackageManager>,
    avail: Seq<Shell>,
    mgr_avail: Seq<PackageManager>,
) -> bool {
    exists|g: Seq<bool>|
        dry_plan_matches(dv, g, run, skipped, aliases, platform, manager_override, avail, mgr_avail)
}

/// The dry-run planner: runs each step's guard for real (guard truth
/// cannot be known otherwise), then records what a live run would do —
/// resolved manager and its presence, per-package alias and installed
/// status, and any script shells the host lacks.  Installs nothing and
/// runs no pre or main script.
pub fn run_dry<C: ScriptChecker, R: ScriptRunner>(
    steps: &Vec<Step>,
    aliases: &PackageAliases,
    host: &HostInfo,
    script_checker: &mut C,
    runner: &mut R,
) -> (r: Result<RunPlan, Error>)
    ensures
        match r {
            Ok(plan) => dry_plan_ok(
                steps.deep_view(),
                plan.steps_to_run.deep_view(),
                plan.steps_skipped_by_when.deep_view(),
                aliases@,
                host.os_info.platform,
                host.default_manager_override,
                host.available_shells@,
                host.available_managers@,
            ),
            // only a sourceless step with packages, on a Linux host without
            // an override, can make planning fail
            Err(e) => e is DefaultManagerUndetected && host.os_info.platform == Platform::Linux
                && host.default_manager_override is None && exists|k: int|
                0 <= k < steps.deep_view().len() && (#[trigger] steps.deep_view()[k]).packages.len()
                    > 0 && steps.deep_view()[k].package_source is None,
        },
{
    let ghost dv = steps.deep_view();
    let ghost av = aliases@;
    let ghost platform = host.os_info.platform;
    let ghost over = host.default_manager_override;
    let ghost shells = host.available_shells@;
    let ghost mgrs = host.available_managers@;
    let mut run: Vec<StepRun> = Vec::new();
    let mut skipped: Vec<String> = Vec::new();
    let ghost mut g: Seq<bool> = Seq::empty();
    let mut i: usize = 0;
    while i < steps.len()
        invariant
            i <= dv.len(),
            dv == steps.deep_view(),
            av == aliases@,
            platform == host.os_info.platform,
            over == host.default_manager_override,
            shells == host.available_shells@,
            mgrs == host.available_managers@,
            g.len() == i,
            skipped.deep_view() =~= guard_skipped_ids(dv.take(i as int), g),
            run.deep_view().len() == included_steps(dv.take(i as int), g).len(),
            forall|j: int|
                0 <= j < run.deep_view().len() ==> step_run_ok(
                    #[trigger] run.deep_view()[j],
                    included_steps(dv.take(i as int), g)[j],
                    av,
                    platform,
                    over,
                    shells,
                    mgrs,
                ),
        decreases dv.len() - i,
    {
        let step = &steps[i];
        assert(step@ == dv[i as int]);
        let dir = parent_dir(&step.source_file);
        let mut guard_ok = true;
        if let Some(when) = &step.when_script {
            match run_script(when, &dir, script_checker, runner) {
                Ok(()) => {},
                Err(_) => {
                    guard_ok = false;
                },
            }
        }
        let ghost g_pre = g;
        let ghost run_pre = run.deep_view();
        let ghost skipped_pre = skipped.deep_view();
        proof {
            g = g.push(guard_ok);
            lemma_guard_push(dv.take(i as int), g_pre, dv[i as int], guard_ok);
            lemma_take_step(dv, i as int);
        }
        if !guard_ok {
            assert(!guard_passes(dv[i as int], guard_ok));
            skipped.push(step.id.clone());
            proof {
                assert(skipped.deep_view() =~= skipped_pre.push(dv[i as int].id));
                assert(skipped.deep_view() =~= guard_skipped_ids(dv.take(i as int + 1), g));
            }
        } else {
            assert(guard_passes(dv[i as int], guard_ok));
            let used = step.all_used_shells();
            let ghost usedv = crate::config::used_shell_list(dv[i as int]);
            assert(used@ == usedv);
            let mut missing: Vec<String> = Vec::new();
            let mut k: usize = 0;
            while k < used.len()
                invariant
                    k <= used@.len(),
                    used@ == usedv,
                    shells == host.available_shells@,
                    missing.deep_view() =~= missing_shell_names(usedv.take(k as int), shells),
                decreases used@.len() - k,
            {
                let sh = used[k];
                let ghost miss_pre = missing.deep_view();
                if !is_shell_available(&sh, &host.available_shells) {
                    let name = sh.get_command().to_owned();
                    missing.push(name);
                    proof {
                        assert(missing.deep_view() =~= miss_pre.push(spec_shell_command(sh)));
                    }
                }
                proof {
                    lemma_take_step(usedv, k as int);
                    lemma_missing_push(usedv.take(k as int), shells, usedv[k as int]);
                }
                k = k + 1;
            }
            proof {
                assert(usedv.take(usedv.len() as int) =~= usedv);
            }

            let mut package_manager: Option<PackageManagerInfo> = None;
            let mut packages_to_install: Vec<PackageInfo> = Vec::new();
            let ghost mut witness: PackageManager = PackageManager::Apt;
            if step.packages.len() > 0 {
                let m = match resolve_step_package_manager(step, host) {
                    Ok(m) => m,
                    Err(e) => {
                        proof {
                            assert(dv[i as int].packages.len() > 0);
                            assert(dv[i as int].package_source is None);
                        }
                        return Err(e);
                    },
                };
                proof {
                    witness = m;
                }
                let cmd_name = m.command().to_owned();
                let present = is_manager_available(&m, &host.available_managers);
                package_manager = Some(PackageManagerInfo { name: cmd_name, installed: present });
                let ghost pkgs = dv[i as int].packages;
                let mut j: usize = 0;
                while j < step.packages.len()
                    invariant
                        j <= pkgs.len(),
                        pkgs == step.packages.deep_view(),
                        av == aliases@,
                        witness == m,
                        packages_to_install.deep_view().len() == j,
                        forall|jj: int|
                            0 <= jj < j ==> (#[trigger] packages_to_install.deep_view()[jj].name)
                                == spec_resolve(av, pkgs[jj], m)
                                && packages_to_install.deep_view()[jj].use_alias == (spec_resolve(
                                av,
                                pkgs[jj],
                                m,
                            ) != pkgs[jj]),
                    decreases pkgs.len() - j,
                {
                    assert(pkgs[j as int] == step.packages@[j as int]@);
                    let resolved = aliases.resolve_name(step.packages[j].as_str(), &m);
                    let use_alias = !(resolved == step.packages[j]);
                    let inst = runner.pkg_installed(&m, &resolved);
                    let ghost infos_pre = packages_to_install.deep_view();
                    packages_to_install.push(
                        PackageInfo { name: resolved, use_alias, installed: inst },
                    );
                    proof {
                        let e_new = PackageInfoV {
                            name: spec_resolve(av, pkgs[j as int], m),
                            use_alias: spec_resolve(av, pkgs[j as int], m) != pkgs[j as int],
                            installed: inst,
                        };
                        assert(packages_to_install.deep_view() =~= infos_pre.push(e_new));
                        assert forall|jj: int|
                            0 <= jj < j + 1 implies (
                        #[trigger] packages_to_install.deep_view()[jj].name) == spec_resolve(
                            av,
                            pkgs[jj],
                            m,
                        ) && packages_to_install.deep_view()[jj].use_alias == (spec_resolve(
                            av,
                            pkgs[jj],
                            m,
                        ) != pkgs[jj]) by {
                            if jj < j {
                                assert(packages_to_install.deep_view()[jj] == infos_pre[jj]);
                                assert(infos_pre[jj].name == spec_resolve(av, pkgs[jj], m));
                            } else {
                                assert(packages_to_install.deep_view()[jj] == e_new);
                            }
                        }
                    }
                    j = j + 1;
                }
            }

            let ghost infos_final = packages_to_install.deep_view();
            let sr = StepRun {
                id: step.id.clone(),
                missing_shells: missing,
                package_manager,
                packages_to_install,
            };
            let ghost srv = sr@;
            run.push(sr);
            proof {
                assert(run.deep_view() =~= run_pre.push(srv));
                if dv[i as int].packages.len() > 0 {
                    let rm = spec_resolve_manager(dv[i as int], platform, over, mgrs);
                    assert(rm == Some(witness));
                    assert(srv.package_manager == Some(
                        PackageManagerInfoV {
                            name: spec_manager_command(witness),
                            installed: mgrs.contains(witness),
                        },
                    ));
                    assert(srv.packages_to_install == infos_final);
                    assert(srv.packages_to_install.len() == dv[i as int].packages.len());
                    assert(packages_resolved_ok(srv, dv[i as int], av, rm->0)) by {
                        assert forall|j: int|
                            0 <= j < dv[i as int].packages.len() implies (
                        #[trigger] srv.packages_to_install[j].name) == spec_resolve(
                            av,
                            dv[i as int].packages[j],
                            rm->0,
                        ) && srv.packages_to_install[j].use_alias == (spec_resolve(
                            av,
                            dv[i as int].packages[j],
                            rm->0,
                        ) != dv[i as int].packages[j]) by {
                            assert(srv.packages_to_install[j] == infos_final[j]);
                            assert(infos_final[j].name == spec_resolve(
                                av,
                                dv[i as int].packages[j],
                                witness,
                            ));
                        }
                    }
                }
                lemma_step_run_ok_intro(srv, dv[i as int], av, platform, over, shells, mgrs);
                assert(included_steps(dv.take(i as int + 1), g) =~= included_steps(
                    dv.take(i as int),
                    g_pre,
                ).push(dv[i as int]));
                assert forall|j: int|
                    0 <= j < run.deep_view().len() implies step_run_ok(
                    #[trigger] run.deep_view()[j],
                    included_steps(dv.take(i as int + 1), g)[j],
                    av,
                    platform,
                    over,
                    shells,
                    mgrs,
                ) by {
                    if j < run_pre.len() {
                        assert(run.deep_view()[j] == run_pre[j]);
                        assert(included_steps(dv.take(i as int + 1), g)[j] == included_steps(
                            dv.take(i as int),
                            g_pre,
                        )[j]);
                    } else {
                        assert(run.deep_view()[j] == srv);
                        assert(included_steps(dv.take(i as int + 1), g)[j] == dv[i as int]);
                    }
                }
                assert(skipped.deep_view() =~= guard_skipped_ids(dv.take(i as int + 1), g));
            }
        }
        i = i + 1;
    }
    proof {
        assert(dv.take(dv.len() as int) =~= dv);
        assert(dry_plan_matches(
            dv,
            g,
            run.deep_view(),
            skipped.deep_view(),
            av,
            platform,
            over,
            shells,
            mgrs,
        ));
    }
    Ok(RunPlan { steps_to_run: run, steps_skipped_by_when: skipped })
}

/// Runs one step live: pre-script, package installation, then the main
/// script; any failure aborts with the step and file in context.
fn run_step<C: ScriptChecker, R: ScriptRunner>(
    step: &Step,
    current: usize,
    total: usize,
    script_checker: &mut C,
    runner: &mut R,
) -> (r: Result<(), Error>)
    ensures
        match r {
            Ok(()) => true,
            Err(e) => {
                ||| (e matches Error::ScriptFailed { step_id, source_file, .. } && step_id@
                    == step@.id && source_file@ == step@.source_file)
                ||| (e matches Error::ManagerNotFound { manager: mgr } && step@.package_source
                    == Some(PackageSource::Manager(mgr)))
                ||| (e matches Error::InstallFailed { packages: ps, .. } && ps.deep_view()
                    == step@.packages)
                ||| (e is ManagerUnresolved && step@.packages.len() > 0 && !(step@.package_source
                    matches Some(PackageSource::Manager(_))))
            },
        },
        step@.pre_script is None && step@.script is None && step@.packages.len() == 0 ==> r is Ok,
{
    let dir = parent_dir(&step.source_file);
    if let Some(pre_script) = &step.pre_script {
        runner.log(current, total, &LogEvent::RunningPreScript);
        match run_script(pre_script, &dir, script_checker, runner) {
            Ok(()) => {},
            Err(msg) => {
                return Err(Error::ScriptFailed {
                    step_id: step.id.clone(),
                    source_file: step.source_file.clone(),
                    message: msg,
                });
            },
        }
    }
    if step.packages.len() > 0 {
        match &step.package_source {
            Some(PackageSource::Manager(manager)) => {
                let m = *manager;
                match install_packages(&step.packages, &m, current, total, runner) {
                    Ok(()) => {},
                    Err(e) => {
                        return Err(e);
                    },
                }
            },
            _ => {
                return Err(Error::ManagerUnresolved);
            },
        }
    }
    if let Some(script) = &step.script {
        runner.log(current, total, &LogEvent::RunningScript);
        match run_script(script, &dir, script_checker, runner) {
            Ok(()) => {},
            Err(msg) => {
                return Err(Error::ScriptFailed {
                    step_id: step.id.clone(),
                    source_file: step.source_file.clone(),
                    message: msg,
                });
            },
        }
    }
    Ok(())
}

/// Runs the selected steps in order, or plans them when `dry_run` is set.
///
/// Every script is syntax-checked first.  Live runs persist a checkpoint
/// before each step (a crash resumes there), skip a step whose guard
/// fails, honour interactive decisions, and stop at the first hard
/// failure without clearing the checkpoint; full success clears it.  A
/// dry run returns the plan, whose exactness `dry_plan_ok` states.
/// What one line of prompt input asks for: a decision about the step, or
/// a look at the full step text first.
pub enum PromptAction {
    Decided(Decision),
    ViewFullStep,
}

/// The confirmation prompt's input table: `r`, `s`, `a` and `l` pick a
/// decision, `v` asks to view the full step where truncation made that
/// an option, and everything else is invalid.
pub open spec fn spec_prompt_action(input: Seq<char>, view_allowed: bool) -> Option<PromptAction> {
    if input == "r"@ {
        Some(PromptAction::Decided(Decision::Run))
    } else if input == "s"@ {
        Some(PromptAction::Decided(Decision::Skip))
    } else if input == "a"@ {
        Some(PromptAction::Decided(Decision::Abort))
    } else if input == "l"@ {
        Some(PromptAction::Decided(Decision::LeaveInteractiveMode))
    } else if input == "v"@ && view_allowed {
        Some(PromptAction::ViewFullStep)
    } else {
        None
    }
}

/// Maps one (trimmed, lower-cased) line of prompt input to its action;
/// see `spec_prompt_action`.  `None` asks the prompt to repeat.
pub fn decision_of_input(input: &String, view_allowed: bool) -> (r: Option<PromptAction>)
    ensures
        r == spec_prompt_action(input@, view_allowed),
{
    if *input == "r".to_owned() {
        Some(PromptAction::Decided(Decision::Run))
    } else if *input == "s".to_owned() {
        Some(PromptAction::Decided(Decision::Skip))
    } else if *input == "a".to_owned() {
        Some(PromptAction::Decided(Decision::Abort))
    } else if *input == "l".to_owned() {
        Some(PromptAction::Decided(Decision::LeaveInteractiveMode))
    } else if *input == "v".to_owned() && view_allowed {
        Some(PromptAction::ViewFullStep)
    } else {
        None
    }
}

/// What the engine does with one step, given the guard's outcome and —
/// when a prompt was shown — the operator's decision.
pub enum StepDisposition {
    SkipByGuard,
    SkipByUser,
    AbortRun,
    Proceed { interactive_after: bool },
}

/// The live engine's per-step decision rule: a failed guard skips the
/// step softly; otherwise, without interactive mode the step proceeds,
/// and with it the operator's decision picks between proceeding (keeping
/// or leaving interactive mode), skipping, and aborting the whole run.
pub open spec fn spec_step_disposition(guard_ok: bool, interactive: bool, d: Decision) -> StepDisposition {
    if !guard_ok {
        StepDisposition::SkipByGuard
    } else if !interactive {
        StepDisposition::Proceed { interactive_after: false }
    } else {
        match d {
            Decision::Run => StepDisposition::Proceed { interactive_after: true },
            Decision::Skip => StepDisposition::SkipByUser,
            Decision::Abort => StepDisposition::AbortRun,
            Decision::LeaveInteractiveMode => StepDisposition::Proceed {
                interactive_after: false,
            },
        }
    }
}

/// Decides one step's fate from the outcomes alone; the engine's loop
/// follows this verbatim.  See `spec_step_disposition`.
pub fn step_disposition(guard_ok: bool, interactive: bool, decision: &Decision) -> (r:
    StepDisposition)
    ensures
        r == spec_step_disposition(guard_ok, interactive, *decision),
{
    if !guard_ok {
        StepDisposition::SkipByGuard
    } else if !interactive {
        StepDisposition::Proceed { interactive_after: false }
    } else {
        match decision {
            Decision::Run => StepDisposition::Proceed { interactive_after: true },
            Decision::Skip => StepDisposition::SkipByUser,
            Decision::Abort => StepDisposition::AbortRun,
            Decision::LeaveInteractiveMode => StepDisposition::Proceed {
                interactive_after: false,
            },
        }
    }
}

pub fn run<S: StateSaver, C: ScriptChecker, R: ScriptRunner>(
    steps: &Vec<Step>,
    params: &RunParameters,
    aliases: &PackageAliases,
    host: &HostInfo,
    state_saver: &S,
    script_checker: &mut C,
    runner: &mut R,
) -> (r: Result<Option<RunPlan>, Error>)
    ensures
        match r {
            Ok(opt) => match opt {
                Some(plan) => params.dry_run && dry_plan_ok(
                    steps.deep_view(),
                    plan.steps_to_run.deep_view(),
                    plan.steps_skipped_by_when.deep_view(),
                    aliases@,
                    host.os_info.platform,
                    host.default_manager_override,
                    host.available_shells@,
                    host.available_managers@,
                ),
                None => !params.dry_run,
            },
            Err(e) => {
                // guard failure is never here: it is soft and only skips a
                // step; and the loop always hands `run_step` a resolved
                // manager, so `ManagerUnresolved` cannot escape
                &&& (e is ScriptCheckFailed || e is DefaultManagerUndetected || e is ScriptFailed
                    || e is ManagerNotFound || e is InstallFailed || e is PromptFailed)
                &&& (e is DefaultManagerUndetected ==> host.os_info.platform == Platform::Linux
                    && host.default_manager_override is None && exists|k: int|
                    0 <= k < steps.deep_view().len()
                        && (#[trigger] steps.deep_view()[k]).package_source is None)
                &&& (params.dry_run && e is DefaultManagerUndetected ==> exists|k: int|
                    0 <= k < steps.deep_view().len()
                        && (#[trigger] steps.deep_view()[k]).packages.len() > 0
                        && steps.deep_view()[k].package_source is None)
                &&& (e matches Error::ScriptFailed { step_id, source_file, .. } ==> exists|k: int|
                    0 <= k < steps.deep_view().len() && #[trigger] steps.deep_view()[k].id
                        == step_id@ && steps.deep_view()[k].source_file == source_file@)
            },
        },
        // success is owed where no host outcome can intervene: nothing to
        // run, nobody to ask, and a default manager that cannot be missing
        !params.dry_run && !params.interactive && effect_free_pool(steps.deep_view()) && (
        host.os_info.platform != Platform::Linux || host.default_manager_override is Some)
            ==> r is Ok,
{
    let ghost dv = steps.deep_view();
    match check_scripts(steps, script_checker, true) {
        Ok(()) => {},
        Err(e) => {
            return Err(e);
        },
    }
    if params.dry_run {
        return match run_dry(steps, aliases, host, script_checker, runner) {
            Ok(plan) => Ok(Some(plan)),
            Err(e) => {
                proof {
                    if e is DefaultManagerUndetected {
                        let k = choose|k: int|
                            0 <= k < dv.len() && (#[trigger] dv[k]).packages.len() > 0
                                && dv[k].package_source is None;
                        assert(dv[k].package_source is None);
                    }
                }
                Err(e)
            },
        };
    }
    let total = steps.len();
    let mut interactive = params.interactive;
    let mut i: usize = 0;
    while i < total
        invariant
            total == steps@.len(),
            dv == steps.deep_view(),
            !params.dry_run,
            !params.interactive ==> !interactive,
        decreases total - i,
    {
        let step0 = &steps[i];
        assert(step0@ == dv[i as int]);
        let current = i + 1;
        let m = match resolve_step_package_manager(step0, host) {
            Ok(m) => m,
            Err(e) => {
                proof {
                    assert(dv[i as int].package_source is None);
                }
                return Err(e);
            },
        };
        let mut step = step0.clone();
        step.package_source = Some(PackageSource::Manager(m));
        step.packages = aliases.resolve_names(&step0.packages, &m);
        let dir = parent_dir(&step.source_file);

        // the checkpoint goes down before anything of the step runs, so a
        // crash anywhere in it — the guard included — resumes right here
        let checkpoint = RunState { last_step_id: Some(step.id.clone()), interactive };
        match state_saver.save(&checkpoint) {
            Ok(()) => {},
            Err(_) => {
                runner.log(current, total, &LogEvent::StateSaveFailed);
            },
        }

        let mut guard_ok = true;
        if let Some(when_script) = &step.when_script {
            match run_script(when_script, &dir, script_checker, runner) {
                Ok(()) => {},
                Err(_) => {
                    guard_ok = false;
                },
            }
        }

        let mut decision = Decision::Run;
        if guard_ok {
            if interactive {
                match runner.ask_confirmation(&step) {
                    Ok(d) => {
                        decision = d;
                    },
                    Err(msg) => {
                        return Err(Error::PromptFailed { message: msg });
                    },
                }
            }
        }

        match step_disposition(guard_ok, interactive, &decision) {
            StepDisposition::SkipByGuard => {
                runner.log(current, total, &LogEvent::SkippedByGuard(step.id.clone()));
                i = i + 1;
                continue ;
            },
            StepDisposition::SkipByUser => {
                i = i + 1;
                continue ;
            },
            StepDisposition::AbortRun => {
                return Ok(None);
            },
            StepDisposition::Proceed { interactive_after } => {
                interactive = interactive_after;
            },
        }

        runner.log(current, total, &LogEvent::RunningStep(step.id.clone()));
        match run_step(&step, current, total, script_checker, runner) {
            Ok(()) => {},
            Err(e) => {
                proof {
                    assert(step@.id == dv[i as int].id);
                    assert(step@.source_file == dv[i as int].source_file);
                    assert(step@.package_source == Some(PackageSource::Manager(m)));
                    if effect_free_pool(dv) {
                        assert(dv[i as int].pre_script is None && dv[i as int].script is None
                            && dv[i as int].packages.len() == 0);
                        assert(step@.pre_script is None && step@.script is None);
                        assert(step@.packages.len() == 0);
                        assert(false);
                    }
                }
                return Err(e);
            },
        }
        runner.log(current, total, &LogEvent::StepCompleted(step.id.clone()));
        i = i + 1;
    }
    let done = RunState { last_step_id: None, interactive };
    match state_saver.save(&done) {
        Ok(()) => {},
        Err(_) => {
            runner.log(total, total, &LogEvent::StateSaveFailed);
        },
    }
    runner.log(total, total, &LogEvent::RunCompleted);
    Ok(None)
}

/// Copies a list of names, keeping its image.
fn clone_strings(v: &Vec<String>) -> (r: Vec<String>)
    ensures
        r.deep_view() == v.deep_view(),
{
    let ghost dv = v.deep_view();
    let mut out: Vec<String> = Vec::new();
    let mut i: usize = 0;
    while i < v.len()
        invariant
            i <= dv.len(),
            dv == v.deep_view(),
            out.deep_view() =~= dv.take(i as int),
        decreases dv.len() - i,
    {
        let ghost pre = out.deep_view();
        assert(v@[i as int]@ == dv[i as int]);
        let s = v[i].clone();
        out.push(s);
        proof {
            assert(out.deep_view() =~= pre.push(dv[i as int]));
            lemma_take_step(dv, i as int);
        }
        i = i + 1;
    }
    proof {
        assert(dv.take(dv.len() as int) =~= dv);
    }
    out
}

} // verus!
