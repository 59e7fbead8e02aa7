use std::cell::RefCell;

use mepris::alias::PackageAliases;
use mepris::cli::RunArgs;
use mepris::config::{CommandSpec, PackageManager, Script, Shell, Step};
use mepris::error::Error;
use mepris::filter::filter_steps;
use mepris::osinfo::{OsInfo, Platform};
use mepris::runner::{
    parent_dir, run, run_script, Decision, HostInfo, LogEvent, RunParameters, RunState,
    ScriptRunner, StateSaver,
};
use mepris::script_checker::{hash_script, DefaultScriptChecker, ScriptChecker};
use mepris::state::{resume_args, RunInfo};

fn step(id: &str) -> Step {
    Step {
        id: id.to_string(),
        tags: vec![],
        os: None,
        env: vec![],
        when_script: None,
        package_source: None,
        packages: vec![],
        pre_script: None,
        script: None,
        source_file: "/file.yaml".to_string(),
        defaults: None,
    }
}

fn linux_host() -> HostInfo {
    HostInfo {
        os_info: OsInfo { platform: Platform::Linux, id: None, id_like: vec![] },
        available_shells: vec![Shell::Bash],
        available_managers: vec![],
        default_manager_override: Some(PackageManager::Apt),
    }
}

struct RecordingSaver {
    saves: RefCell<Vec<(Option<String>, bool)>>,
}

impl StateSaver for RecordingSaver {
    fn save(&self, info: &RunState) -> Result<(), String> {
        self.saves.borrow_mut().push((info.last_step_id.clone(), info.interactive));
        Ok(())
    }
}

struct MockScriptChecker {
    check_value: Result<(), String>,
    check_value_calls: u32,
    is_checked_value: bool,
}

impl ScriptChecker for MockScriptChecker {
    fn check_script(&mut self, _: &Script, _: bool) -> Result<(), String> {
        self.check_value_calls += 1;
        self.check_value.clone()
    }

    fn is_checked(&self, _: &Script) -> bool {
        self.is_checked_value
    }
}

struct MockRunner {
    fail_codes: Vec<String>,
    ran: Vec<String>,
}

impl ScriptRunner for MockRunner {
    fn run_script(&mut self, script: &Script, _dir: &String) -> Result<(), String> {
        self.ran.push(script.code.clone());
        if self.fail_codes.contains(&script.code) {
            Err("script failed".to_string())
        } else {
            Ok(())
        }
    }

    fn run_install_command(&mut self, _cmd: &CommandSpec) -> Result<(), String> {
        Ok(())
    }

    fn pkg_installed(&mut self, _m: &PackageManager, _p: &String) -> bool {
        false
    }

    fn ask_confirmation(&mut self, _s: &Step) -> Result<Decision, String> {
        Ok(Decision::Run)
    }

    fn log(&mut self, _c: usize, _t: usize, _e: &LogEvent) {}
}

#[test]
fn test_run_script_doesnt_check_script_again() {
    let script = Script { shell: Shell::Bash, code: "echo \"what\"".to_string() };
    let dir = "/".to_string();

    let mut mock_checker =
        MockScriptChecker { check_value: Ok(()), check_value_calls: 0, is_checked_value: true };
    let mut runner = MockRunner { fail_codes: vec![], ran: vec![] };
    run_script(&script, &dir, &mut mock_checker, &mut runner).unwrap();
    assert_eq!(mock_checker.check_value_calls, 0);

    mock_checker.check_value_calls = 0;
    mock_checker.is_checked_value = false;
    run_script(&script, &dir, &mut mock_checker, &mut runner).unwrap();
    assert_eq!(mock_checker.check_value_calls, 1);
}

#[test]
fn mod_test_run_script_doesnt_check_script_again() {
    let script = Script { shell: Shell::Bash, code: "echo \"what\"".to_string() };
    let dir = "/".to_string();

    let mut mock_checker =
        MockScriptChecker { check_value: Ok(()), check_value_calls: 0, is_checked_value: true };
    let mut runner = MockRunner { fail_codes: vec![], ran: vec![] };
    run_script(&script, &dir, &mut mock_checker, &mut runner).unwrap();
    assert_eq!(mock_checker.check_value_calls, 0);

    mock_checker.check_value_calls = 0;
    mock_checker.is_checked_value = false;
    run_script(&script, &dir, &mut mock_checker, &mut runner).unwrap();
    assert_eq!(mock_checker.check_value_calls, 1);
}

#[test]
fn test_checked_script_saved() {
    let mut checker = DefaultScriptChecker::new();
    let script = Script { shell: Shell::Bash, code: "echo \"bash\"".to_string() };
    assert!(!checker.is_checked(&script));
    checker.mark_checked(&script);
    assert!(checker.is_checked(&script));
}

#[test]
fn test_script_digest_is_a_real_digest() {
    let script = Script { shell: Shell::Bash, code: "echo hello".to_string() };
    let digest = hash_script(&script);
    assert_eq!(digest.len(), 64);
    assert!(digest.chars().all(|c| c.is_ascii_hexdigit()));

    let other = Script { shell: Shell::Bash, code: "echo goodbye".to_string() };
    assert_ne!(digest, hash_script(&other));

    let other_shell = Script { shell: Shell::PowerShellCore, code: "echo hello".to_string() };
    assert_ne!(digest, hash_script(&other_shell));
}

#[test]
fn test_hard_failure_keeps_checkpoint_and_resume_restarts_there() {
    let steps = vec![
        Step {
            script: Some(Script { shell: Shell::Bash, code: "run a".to_string() }),
            ..step("a")
        },
        Step {
            script: Some(Script { shell: Shell::Bash, code: "run b".to_string() }),
            ..step("b")
        },
        Step {
            script: Some(Script { shell: Shell::Bash, code: "run c".to_string() }),
            ..step("c")
        },
    ];
    let saver = RecordingSaver { saves: RefCell::new(vec![]) };
    let mut checker =
        MockScriptChecker { check_value: Ok(()), check_value_calls: 0, is_checked_value: true };
    let mut runner = MockRunner { fail_codes: vec!["run b".to_string()], ran: vec![] };

    let result = run(
        &steps,
        &RunParameters { interactive: false, dry_run: false },
        &PackageAliases::new(),
        &linux_host(),
        &saver,
        &mut checker,
        &mut runner,
    );

    // the failure on the second step aborts the run with its id
    match result {
        Err(Error::ScriptFailed { step_id, .. }) => assert_eq!(step_id, "b"),
        _ => panic!("expected the second step's failure to abort the run"),
    }
    // the third step never ran
    assert!(!runner.ran.contains(&"run c".to_string()));
    // the persisted checkpoint points at the failed step
    let saves = saver.saves.borrow();
    assert_eq!(saves.last().unwrap().0.as_deref(), Some("b"));

    // resuming re-applies the original filters and begins at the failed step
    let info = RunInfo {
        file: "/file.yaml".to_string(),
        tags_expr: None,
        steps: vec![],
        interactive: false,
        last_step_id: saves.last().unwrap().0.clone(),
    };
    let args: RunArgs = resume_args(&info, false, false);
    assert_eq!(args.start_step_id.as_deref(), Some("b"));
    let os_info = OsInfo { platform: Platform::Linux, id: None, id_like: vec![] };
    let sel = filter_steps(&steps, &os_info, &args).unwrap();
    let ids: Vec<String> = sel.filtered_steps.iter().map(|s| s.id.clone()).collect();
    assert_eq!(ids, vec!["b".to_string(), "c".to_string()]);
    let skipped: Vec<String> = sel.skipped.iter().map(|s| s.id.clone()).collect();
    assert_eq!(skipped, vec!["a".to_string()]);
}

#[test]
fn test_full_success_clears_checkpoint() {
    let steps = vec![
        Step {
            script: Some(Script { shell: Shell::Bash, code: "run a".to_string() }),
            ..step("a")
        },
        Step {
            script: Some(Script { shell: Shell::Bash, code: "run b".to_string() }),
            ..step("b")
        },
    ];
    let saver = RecordingSaver { saves: RefCell::new(vec![]) };
    let mut checker =
        MockScriptChecker { check_value: Ok(()), check_value_calls: 0, is_checked_value: true };
    let mut runner = MockRunner { fail_codes: vec![], ran: vec![] };

    let result = run(
        &steps,
        &RunParameters { interactive: false, dry_run: false },
        &PackageAliases::new(),
        &linux_host(),
        &saver,
        &mut checker,
        &mut runner,
    );
    assert!(matches!(result, Ok(None)));
    assert!(runner.ran.contains(&"run a".to_string()));
    assert!(runner.ran.contains(&"run b".to_string()));
    let saves = saver.saves.borrow();
    assert_eq!(saves.last().unwrap().0, None);
}

#[test]
fn test_guard_failure_is_soft_in_live_runs() {
    let steps = vec![
        Step {
            when_script: Some(Script { shell: Shell::Bash, code: "guard a".to_string() }),
            script: Some(Script { shell: Shell::Bash, code: "run a".to_string() }),
            ..step("a")
        },
        Step {
            script: Some(Script { shell: Shell::Bash, code: "run b".to_string() }),
            ..step("b")
        },
    ];
    let saver = RecordingSaver { saves: RefCell::new(vec![]) };
    let mut checker =
        MockScriptChecker { check_value: Ok(()), check_value_calls: 0, is_checked_value: true };
    let mut runner = MockRunner { fail_codes: vec!["guard a".to_string()], ran: vec![] };

    let result = run(
        &steps,
        &RunParameters { interactive: false, dry_run: false },
        &PackageAliases::new(),
        &linux_host(),
        &saver,
        &mut checker,
        &mut runner,
    );
    assert!(matches!(result, Ok(None)));
    assert!(!runner.ran.contains(&"run a".to_string()));
    assert!(runner.ran.contains(&"run b".to_string()));
}

#[test]
fn test_install_fails_when_manager_absent() {
    let mut runner = MockRunner { fail_codes: vec![], ran: vec![] };
    let r = mepris::runner::install_packages(
        &vec!["git".to_string()],
        &PackageManager::Choco,
        1,
        1,
        &mut runner,
    );
    assert!(matches!(r, Err(Error::ManagerNotFound { .. })));
}

#[test]
fn test_checkpoint_precedes_guard() {
    // the checkpoint is persisted before the guard runs, so a crash during
    // a guard script resumes at that same step
    let steps = vec![
        Step {
            when_script: Some(Script { shell: Shell::Bash, code: "guard a".to_string() }),
            ..step("a")
        },
        step("b"),
    ];
    let saver = RecordingSaver { saves: RefCell::new(vec![]) };
    let mut checker =
        MockScriptChecker { check_value: Ok(()), check_value_calls: 0, is_checked_value: true };
    let mut runner = MockRunner { fail_codes: vec!["guard a".to_string()], ran: vec![] };

    let result = run(
        &steps,
        &RunParameters { interactive: false, dry_run: false },
        &PackageAliases::new(),
        &linux_host(),
        &saver,
        &mut checker,
        &mut runner,
    );
    assert!(matches!(result, Ok(None)));
    let saves = saver.saves.borrow();
    assert_eq!(saves[0].0.as_deref(), Some("a"));
    assert_eq!(saves[1].0.as_deref(), Some("b"));
    assert_eq!(saves.last().unwrap().0, None);
}

#[test]
fn test_parent_dir_of_paths() {
    assert_eq!(parent_dir(&"/a/b/file.yaml".to_string()), "/a/b");
    assert_eq!(parent_dir(&"/file.yaml".to_string()), "/");
    assert_eq!(parent_dir(&"file.yaml".to_string()), "");
}
