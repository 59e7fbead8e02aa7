use mepris::expr::{eval_os_expr, eval_tags_expr, parse, Expr};
use mepris::osinfo::{OsInfo, Platform};

fn host() -> OsInfo {
    OsInfo {
        platform: Platform::Linux,
        id: Some("ubuntu".to_string()),
        id_like: vec!["debian".to_string()],
    }
}

#[test]
fn test_os_expr() {
    let inputs = vec![
        ("ubuntu", true),
        ("Ubuntu", true),
        ("debian", false),
        ("%debian", true),
        ("!%debian", false),
        ("!windows", true),
        ("windows", false),
        ("ubuntu || debian", true),
        ("!ubuntu || debian", false),
        ("!(arch || fedora)", true),
        ("linux && !arch && !fedora", true),
        ("linux && !arch && !fedora && !ubuntu", false),
    ];
    let os_info = host();

    for (str, expected) in &inputs {
        let parsed = parse(str).unwrap();
        assert_eq!(eval_os_expr(&parsed, &os_info), *expected, "testing {str}");
    }
}

#[test]
fn test_os_expr_rejects_malformed() {
    assert!(parse("").is_err());
    assert!(parse("a &&").is_err());
    assert!(parse("(a || b").is_err());
    assert!(parse("&& b").is_err());
    assert!(parse("a ! b").is_err());
    assert!(parse("a # b").is_err());
}

#[test]
fn test_parse_error_keeps_input() {
    match parse("a &&") {
        Err(mepris::error::Error::ExprParse { input }) => assert_eq!(input, "a &&"),
        _ => panic!("expected a parse error carrying the input"),
    }
}

#[test]
fn test_double_negation_matches_plain() {
    let os_info = host();
    let plain = parse("ubuntu || fedora").unwrap();
    let doubled = parse("!!(ubuntu || fedora)").unwrap();
    assert_eq!(eval_os_expr(&plain, &os_info), eval_os_expr(&doubled, &os_info));

    let tags = vec!["tag1".to_string()];
    let plain_tag = parse("tag1 && !tag2").unwrap();
    let doubled_tag = parse("!!(tag1 && !tag2)").unwrap();
    assert_eq!(
        eval_tags_expr(&plain_tag, &tags),
        eval_tags_expr(&doubled_tag, &tags)
    );
}

#[test]
fn test_de_morgan_matches() {
    let os_info = host();
    let lhs = parse("!(arch || fedora)").unwrap();
    let rhs = parse("!arch && !fedora").unwrap();
    assert_eq!(eval_os_expr(&lhs, &os_info), eval_os_expr(&rhs, &os_info));

    let lhs2 = parse("!(ubuntu && %debian)").unwrap();
    let rhs2 = parse("!ubuntu || !%debian").unwrap();
    assert_eq!(eval_os_expr(&lhs2, &os_info), eval_os_expr(&rhs2, &os_info));
}

#[test]
fn test_vars_lists_each_atom_once() {
    let e = parse("a && (b || !a) && %c").unwrap();
    let mut vars = e.vars();
    vars.sort();
    assert_eq!(vars, vec!["%c".to_string(), "a".to_string(), "b".to_string()]);
}

#[test]
fn test_tags_eval_is_exact_membership() {
    let tags = vec!["tag1".to_string(), "tag2".to_string()];
    let e = parse("tag1 && tag2").unwrap();
    assert!(eval_tags_expr(&e, &tags));
    let e2 = parse("tag1 && tag3").unwrap();
    assert!(!eval_tags_expr(&e2, &tags));
    // tag matching is case-sensitive, unlike OS matching
    let e3 = parse("Tag1").unwrap();
    assert!(!eval_tags_expr(&e3, &tags));
}

#[test]
fn test_parse_keeps_structure() {
    let e = parse("a || b && c").unwrap();
    // AND binds tighter than OR
    match e {
        Expr::Or(left, right) => {
            assert!(matches!(*left, Expr::Var(_)));
            assert!(matches!(*right, Expr::And(_, _)));
        }
        _ => panic!("expected an OR at the top"),
    }
}
