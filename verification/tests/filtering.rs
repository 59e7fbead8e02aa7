use mepris::cli::RunArgs;
use mepris::config::Step;
use mepris::error::Error;
use mepris::expr::parse;
use mepris::filter::{
    check_env, check_steps_exist, check_unique_id, filter_by_os, filter_by_tags, filter_steps,
    filter_steps_start_with_id, select_steps_by_id,
};
use mepris::osinfo::{OsInfo, Platform};

fn step(id: &str) -> Step {
    Step {
        id: id.to_string(),
        tags: vec![],
        os: None,
        env: vec![],
        when_script: None,
        package_source: None,
        packages: vec![],
        pre_script: None,
        script: None,
        source_file: String::new(),
        defaults: None,
    }
}

fn linux_host() -> OsInfo {
    OsInfo { platform: Platform::Linux, id: None, id_like: vec![] }
}

fn args() -> RunArgs {
    RunArgs {
        file: "file".to_string(),
        tags_expr: None,
        steps: vec![],
        start_step_id: None,
        interactive: false,
        dry_run: false,
    }
}

fn ids(steps: &[Step]) -> Vec<String> {
    steps.iter().map(|s| s.id.clone()).collect()
}

#[test]
fn test_filter_tags() {
    let steps = vec![
        Step { os: Some(parse("!linux").unwrap()), ..step("id1") },
        Step {
            os: Some(parse("linux").unwrap()),
            tags: vec!["tag1".to_string()],
            ..step("id2")
        },
        Step {
            os: Some(parse("linux").unwrap()),
            tags: vec!["tag1".to_string(), "tag2".to_string()],
            ..step("id3")
        },
        Step {
            os: Some(parse("!linux").unwrap()),
            tags: vec!["tag3".to_string()],
            ..step("id4")
        },
    ];

    let os_info = linux_host();
    let mut a = args();

    let mut res = filter_steps(&steps, &os_info, &a).unwrap();
    assert_eq!(res.filtered_steps.len(), 2);
    assert_eq!(res.excluded_by_tags.len(), 0);
    assert_eq!(res.excluded_by_os.len(), 2);
    assert_eq!(res.skipped.len(), 0);

    a.tags_expr = Some("tag1".to_string());
    res = filter_steps(&steps, &os_info, &a).unwrap();
    assert_eq!(res.filtered_steps.len(), 2);
    assert_eq!(res.excluded_by_tags.len(), 2);

    a.steps = vec!["id2".to_string()];
    res = filter_steps(&steps, &os_info, &a).unwrap();
    assert_eq!(res.filtered_steps.len(), 1);
    assert_eq!(res.excluded_by_tags.len(), 0);

    a.steps = vec![];
    a.start_step_id = Some("id3".to_string());
    res = filter_steps(&steps, &os_info, &a).unwrap();
    assert_eq!(res.filtered_steps.len(), 1);
    assert_eq!(res.excluded_by_tags.len(), 2);
    assert_eq!(res.skipped.len(), 1);
}

#[test]
fn test_explicit_ids_keep_requested_order() {
    let steps = vec![step("a"), step("b"), step("c")];
    let requested = vec!["b".to_string(), "a".to_string()];
    let sel = select_steps_by_id(&steps, &requested).unwrap();
    assert_eq!(ids(&sel), vec!["b".to_string(), "a".to_string()]);

    let unknown = vec!["d".to_string()];
    match check_steps_exist(&steps, &unknown) {
        Err(Error::UnknownSteps { ids }) => assert_eq!(ids, vec!["d".to_string()]),
        _ => panic!("expected the unknown id to be reported"),
    }
}

#[test]
fn test_tag_expression_picks_conjunction() {
    let steps = vec![
        Step { tags: vec!["tag1".to_string()], ..step("s1") },
        Step { tags: vec!["tag1".to_string(), "tag2".to_string()], ..step("s2") },
        Step { tags: vec!["tag3".to_string()], ..step("s3") },
    ];
    let fr = filter_by_tags(&steps, "tag1 && tag2").unwrap();
    assert_eq!(ids(&fr.matching), vec!["s2".to_string()]);
    assert_eq!(ids(&fr.not_matching), vec!["s1".to_string(), "s3".to_string()]);

    match filter_by_tags(&steps, "tag9") {
        Err(Error::UnknownTags { tags }) => assert_eq!(tags, vec!["tag9".to_string()]),
        _ => panic!("expected the unknown tag to be reported"),
    }
}

#[test]
fn test_os_filter_keeps_unconditional_steps() {
    let steps = vec![
        step("plain"),
        Step { os: Some(parse("windows").unwrap()), ..step("win") },
        Step { os: Some(parse("%debian").unwrap()), ..step("deb") },
    ];
    let os_info = OsInfo {
        platform: Platform::Linux,
        id: Some("ubuntu".to_string()),
        id_like: vec!["debian".to_string()],
    };
    let fr = filter_by_os(&steps, &os_info);
    assert_eq!(ids(&fr.matching), vec!["plain".to_string(), "deb".to_string()]);
    assert_eq!(ids(&fr.not_matching), vec!["win".to_string()]);
}

#[test]
fn test_os_filter_is_idempotent() {
    let steps = vec![
        step("plain"),
        Step { os: Some(parse("windows").unwrap()), ..step("win") },
        Step { os: Some(parse("linux").unwrap()), ..step("lin") },
    ];
    let os_info = linux_host();
    let once = filter_by_os(&steps, &os_info);
    let twice = filter_by_os(&once.matching, &os_info);
    assert_eq!(ids(&once.matching), ids(&twice.matching));
    assert_eq!(twice.not_matching.len(), 0);
}

#[test]
fn test_tag_filter_is_idempotent() {
    let steps = vec![
        Step { tags: vec!["keep".to_string()], ..step("s1") },
        Step { tags: vec!["drop".to_string()], ..step("s2") },
        Step { tags: vec!["keep".to_string(), "drop".to_string()], ..step("s3") },
    ];
    let once = filter_by_tags(&steps, "keep").unwrap();
    let twice = filter_by_tags(&once.matching, "keep").unwrap();
    assert_eq!(ids(&once.matching), ids(&twice.matching));
    assert_eq!(twice.not_matching.len(), 0);
}

#[test]
fn test_resume_start_point() {
    let steps = vec![step("a"), step("b"), step("c")];
    let fr = filter_steps_start_with_id(&steps, &"b".to_string()).unwrap();
    assert_eq!(ids(&fr.matching), vec!["b".to_string(), "c".to_string()]);
    assert_eq!(ids(&fr.not_matching), vec!["a".to_string()]);

    match filter_steps_start_with_id(&steps, &"missing".to_string()) {
        Err(Error::StartStepNotFound { id }) => assert_eq!(id, "missing"),
        _ => panic!("expected the missing start step to be reported"),
    }
}

#[test]
fn test_duplicate_ids_are_rejected() {
    let mut s1 = step("dup");
    s1.source_file = "/one.yaml".to_string();
    let mut s2 = step("dup");
    s2.source_file = "/two.yaml".to_string();
    let steps = vec![s1, step("ok"), s2];
    match check_unique_id(&steps) {
        Err(Error::DuplicateStep { id, first_file, second_file }) => {
            assert_eq!(id, "dup");
            assert_eq!(first_file, "/one.yaml");
            assert_eq!(second_file, "/two.yaml");
        }
        _ => panic!("expected the duplicate to be reported"),
    }
    assert!(check_unique_id(&vec![step("a"), step("b")]).is_ok());
}

#[test]
fn test_missing_env_vars_are_grouped() {
    let mut s1 = step("s1");
    s1.env = vec!["PATH1".to_string(), "HOME".to_string()];
    let mut s2 = step("s2");
    s2.env = vec!["PATH1".to_string()];
    let steps = vec![s1, s2];
    let defined = vec!["HOME".to_string()];
    match check_env(&steps, &defined) {
        Err(Error::MissingEnvVars { vars }) => {
            assert_eq!(vars.len(), 1);
            assert_eq!(vars[0].name, "PATH1");
            assert_eq!(vars[0].step_ids, vec!["s1".to_string(), "s2".to_string()]);
        }
        _ => panic!("expected the unbound variable to be reported"),
    }
    let all_defined = vec!["HOME".to_string(), "PATH1".to_string()];
    assert!(check_env(&steps, &all_defined).is_ok());
}
