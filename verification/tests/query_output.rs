use mepris::config::{PackageManager, Shell};
use mepris::query::{contains_substring, first_token_string, installed_from_query, split_lines};
use mepris::runner::{decision_of_input, Decision, PromptAction};
use mepris::script_checker::{remove_all, syntax_check_verdict, trim_ascii};

#[test]
fn test_split_lines_strips_newlines_and_cr() {
    let lines = split_lines(&"first\r\nsecond\nthird".to_string());
    assert_eq!(lines, vec!["first".to_string(), "second".to_string(), "third".to_string()]);
    let trailing = split_lines(&"one\n".to_string());
    assert_eq!(trailing, vec!["one".to_string()]);
    assert_eq!(split_lines(&String::new()), Vec::<String>::new());
}

#[test]
fn test_first_token_takes_first_column() {
    assert_eq!(first_token_string(&"  git 2.43  extras".to_string()), "git");
    assert_eq!(first_token_string(&"".to_string()), "");
    assert_eq!(first_token_string(&"   ".to_string()), "");
}

#[test]
fn test_query_exit_status_managers() {
    let out = String::new();
    let pkg = "git".to_string();
    assert!(installed_from_query(&PackageManager::Pacman, true, &out, &pkg));
    assert!(!installed_from_query(&PackageManager::Pacman, false, &out, &pkg));
    assert!(installed_from_query(&PackageManager::Flatpak, true, &out, &pkg));
}

#[test]
fn test_query_apt_needs_ii_line() {
    let pkg = "git".to_string();
    let listing = "Desired=Unknown/Install\nii  git  1:2.43  amd64  fast vcs\n".to_string();
    assert!(installed_from_query(&PackageManager::Apt, true, &listing, &pkg));
    // a successful query without an ii line is not an install
    let missing = "un  git  <none>\n".to_string();
    assert!(!installed_from_query(&PackageManager::Apt, true, &missing, &pkg));
    // a failed query never is
    assert!(!installed_from_query(&PackageManager::Apt, false, &listing, &pkg));
}

#[test]
fn test_query_scoop_matches_first_column_exactly() {
    let pkg = "git".to_string();
    let listing = "Installed apps matching 'git':\ngit 2.43\n".to_string();
    assert!(installed_from_query(&PackageManager::Scoop, true, &listing, &pkg));
    // scoop's own substring listing must not fool the exact column match
    let near_miss = "Installed apps matching 'git':\ngitea 1.21\n".to_string();
    assert!(!installed_from_query(&PackageManager::Scoop, true, &near_miss, &pkg));
    // the header line itself never counts
    let header_only = "git stands here only in the header\n".to_string();
    assert!(!installed_from_query(&PackageManager::Scoop, true, &header_only, &pkg));
}

#[test]
fn test_query_substring_managers() {
    let pkg = "git".to_string();
    let listing = "==> Formulae\ngit 2.43.0\n".to_string();
    assert!(installed_from_query(&PackageManager::Brew, true, &listing, &pkg));
    assert!(!installed_from_query(&PackageManager::Brew, true, &"vim 9.0\n".to_string(), &pkg));
    assert!(contains_substring(&"abcdef".to_string(), &"cde".to_string()));
    assert!(!contains_substring(&"abcdef".to_string(), &"cdf".to_string()));
    assert!(contains_substring(&"abc".to_string(), &String::new()));
}

#[test]
fn test_remove_all_and_trim() {
    assert_eq!(
        remove_all(&"/tmp/x: bad; /tmp/x: worse".to_string(), &"/tmp/x:".to_string()),
        " bad;  worse"
    );
    assert_eq!(trim_ascii(&"  hello \n".to_string()), "hello");
    assert_eq!(trim_ascii(&"".to_string()), "");
}

#[test]
fn test_syntax_check_verdict_builds_report() {
    let ok = syntax_check_verdict(true, &Shell::Bash, &String::new(), &"/tmp/s".to_string());
    assert!(ok.is_ok());

    let stderr = "/tmp/s: line 2: syntax error near unexpected token\n".to_string();
    let err = syntax_check_verdict(false, &Shell::Bash, &stderr, &"/tmp/s".to_string());
    assert_eq!(
        err.unwrap_err(),
        "bash syntax error: line 2: syntax error near unexpected token"
    );
}

#[test]
fn test_decision_of_input_table() {
    assert!(matches!(
        decision_of_input(&"r".to_string(), false),
        Some(PromptAction::Decided(Decision::Run))
    ));
    assert!(matches!(
        decision_of_input(&"s".to_string(), false),
        Some(PromptAction::Decided(Decision::Skip))
    ));
    assert!(matches!(
        decision_of_input(&"a".to_string(), false),
        Some(PromptAction::Decided(Decision::Abort))
    ));
    assert!(matches!(
        decision_of_input(&"l".to_string(), false),
        Some(PromptAction::Decided(Decision::LeaveInteractiveMode))
    ));
    assert!(matches!(
        decision_of_input(&"v".to_string(), true),
        Some(PromptAction::ViewFullStep)
    ));
    assert!(decision_of_input(&"v".to_string(), false).is_none());
    assert!(decision_of_input(&"x".to_string(), true).is_none());
    assert!(decision_of_input(&"".to_string(), true).is_none());
}
