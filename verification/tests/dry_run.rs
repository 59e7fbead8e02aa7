use mepris::alias::PackageAliases;
use mepris::config::{CommandSpec, PackageManager, PackageSource, Script, Shell, Step};
use mepris::osinfo::{OsInfo, Platform};
use mepris::runner::{
    run, Decision, HostInfo, LogEvent, RunParameters, RunState, ScriptRunner, StateSaver,
};
use mepris::script_checker::ScriptChecker;

fn step(id: &str) -> Step {
    Step {
        id: id.to_string(),
        tags: vec![],
        os: None,
        env: vec![],
        when_script: None,
        package_source: None,
        packages: vec![],
        pre_script: None,
        script: None,
        source_file: "/file.yaml".to_string(),
        defaults: None,
    }
}

fn host_with(shells: Vec<Shell>) -> HostInfo {
    HostInfo {
        os_info: OsInfo { platform: Platform::Linux, id: None, id_like: vec![] },
        available_shells: shells,
        available_managers: vec![],
        default_manager_override: None,
    }
}

struct FakeStateSaver;

impl StateSaver for FakeStateSaver {
    fn save(&self, _: &RunState) -> Result<(), String> {
        Ok(())
    }
}

struct OkChecker;

impl ScriptChecker for OkChecker {
    fn check_script(&mut self, _: &Script, _: bool) -> Result<(), String> {
        Ok(())
    }

    fn is_checked(&self, _: &Script) -> bool {
        true
    }
}

/// Fails exactly the scripts whose code it was told to fail.
struct MockRunner {
    fail_codes: Vec<String>,
}

impl ScriptRunner for MockRunner {
    fn run_script(&mut self, script: &Script, _dir: &String) -> Result<(), String> {
        if self.fail_codes.contains(&script.code) {
            Err("script failed".to_string())
        } else {
            Ok(())
        }
    }

    fn run_install_command(&mut self, _cmd: &CommandSpec) -> Result<(), String> {
        Ok(())
    }

    fn pkg_installed(&mut self, _m: &PackageManager, _p: &String) -> bool {
        false
    }

    fn ask_confirmation(&mut self, _s: &Step) -> Result<Decision, String> {
        Ok(Decision::Run)
    }

    fn log(&mut self, _c: usize, _t: usize, _e: &LogEvent) {}
}

fn dry_params() -> RunParameters {
    RunParameters { interactive: false, dry_run: true }
}

#[test]
fn test_run_dry_warns_abount_unavailable_shell() {
    let steps = vec![Step {
        script: Some(Script { shell: Shell::PowerShellCore, code: "cat file.txt".to_string() }),
        ..step("step")
    }];

    let plan = run(
        &steps,
        &dry_params(),
        &PackageAliases::new(),
        &host_with(vec![Shell::Bash]),
        &FakeStateSaver,
        &mut OkChecker,
        &mut MockRunner { fail_codes: vec![] },
    )
    .unwrap()
    .unwrap();

    assert_eq!(plan.steps_to_run.len(), 1);
    assert!(!plan.steps_to_run[0].missing_shells.is_empty());
    assert!(plan.steps_to_run[0]
        .missing_shells
        .contains(&steps[0].script.as_ref().unwrap().shell.get_command().to_string()));
}

#[test]
fn runner_test_run_dry_warns_abount_unavailable_shell() {
    let steps = vec![Step {
        script: Some(Script { shell: Shell::PowerShellCore, code: "cat file.txt".to_string() }),
        ..step("step")
    }];

    let plan = run(
        &steps,
        &dry_params(),
        &PackageAliases::new(),
        &host_with(vec![Shell::Bash]),
        &FakeStateSaver,
        &mut OkChecker,
        &mut MockRunner { fail_codes: vec![] },
    )
    .unwrap()
    .unwrap();

    assert_eq!(plan.steps_to_run.len(), 1);
    assert!(plan.steps_to_run[0]
        .missing_shells
        .contains(&steps[0].script.as_ref().unwrap().shell.get_command().to_string()));
}

#[test]
fn test_run_dry_warns_abount_unavailable_package_manager() {
    let steps = vec![Step {
        packages: vec!["git".to_string()],
        package_source: Some(PackageSource::Manager(PackageManager::Choco)),
        ..step("step")
    }];

    let plan = run(
        &steps,
        &dry_params(),
        &PackageAliases::new(),
        &host_with(vec![Shell::Bash]),
        &FakeStateSaver,
        &mut OkChecker,
        &mut MockRunner { fail_codes: vec![] },
    )
    .unwrap()
    .unwrap();

    assert_eq!(plan.steps_to_run.len(), 1);
    assert!(!plan.steps_to_run[0].package_manager.as_ref().unwrap().installed);
}

#[test]
fn test_run_dry_when_scripts() {
    let steps = vec![Step {
        when_script: Some(Script { shell: Shell::Bash, code: "exit 1".to_string() }),
        ..step("step")
    }];

    let plan = run(
        &steps,
        &dry_params(),
        &PackageAliases::new(),
        &host_with(vec![Shell::Bash]),
        &FakeStateSaver,
        &mut OkChecker,
        &mut MockRunner { fail_codes: vec!["exit 1".to_string()] },
    )
    .unwrap()
    .unwrap();

    assert!(plan.steps_to_run.is_empty());
    assert!(plan.steps_skipped_by_when.contains(&steps[0].id));
}

#[test]
fn runner_test_run_dry_when_scripts() {
    let steps = vec![Step {
        when_script: Some(Script { shell: Shell::Bash, code: "exit 1".to_string() }),
        ..step("step")
    }];

    let plan = run(
        &steps,
        &dry_params(),
        &PackageAliases::new(),
        &host_with(vec![Shell::Bash]),
        &FakeStateSaver,
        &mut OkChecker,
        &mut MockRunner { fail_codes: vec!["exit 1".to_string()] },
    )
    .unwrap()
    .unwrap();

    assert!(plan.steps_to_run.is_empty());
    assert!(plan.steps_skipped_by_when.contains(&steps[0].id));
}

#[test]
fn test_run_dry_guard_failure_never_in_would_run() {
    let steps = vec![
        Step {
            when_script: Some(Script { shell: Shell::Bash, code: "exit 1".to_string() }),
            ..step("guarded")
        },
        step("plain"),
    ];

    let plan = run(
        &steps,
        &dry_params(),
        &PackageAliases::new(),
        &host_with(vec![Shell::Bash]),
        &FakeStateSaver,
        &mut OkChecker,
        &mut MockRunner { fail_codes: vec!["exit 1".to_string()] },
    )
    .unwrap()
    .unwrap();

    assert_eq!(plan.steps_skipped_by_when, vec!["guarded".to_string()]);
    assert!(plan.steps_to_run.iter().all(|sr| sr.id != "guarded"));
    assert_eq!(plan.steps_to_run.len(), 1);
    assert_eq!(plan.steps_to_run[0].id, "plain");
}

#[test]
fn test_run_dry_resolves_aliases() {
    let mut aliases = PackageAliases::new();
    aliases.insert(
        "git".to_string(),
        vec![mepris::alias::AliasTarget {
            source: PackageSource::Manager(PackageManager::Choco),
            value: "git-choco".to_string(),
        }],
    );
    let steps = vec![Step {
        packages: vec!["git".to_string(), "vim".to_string()],
        package_source: Some(PackageSource::Manager(PackageManager::Choco)),
        ..step("step")
    }];

    let plan = run(
        &steps,
        &dry_params(),
        &aliases,
        &host_with(vec![Shell::Bash]),
        &FakeStateSaver,
        &mut OkChecker,
        &mut MockRunner { fail_codes: vec![] },
    )
    .unwrap()
    .unwrap();

    let infos = &plan.steps_to_run[0].packages_to_install;
    assert_eq!(infos.len(), 2);
    assert_eq!(infos[0].name, "git-choco");
    assert!(infos[0].use_alias);
    assert_eq!(infos[1].name, "vim");
    assert!(!infos[1].use_alias);
}
