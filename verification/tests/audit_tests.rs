use depaudit::audit::{audit, AuditError, CandidateErrorKind, CandidateInput};
use depaudit::manifest::Manifest;
use depaudit::report::process_each_package_json;

fn candidate(path: &str, content: Option<&str>) -> CandidateInput {
    CandidateInput { path: String::from(path), content: content.map(String::from) }
}

#[test]
fn missing_reference_is_fatal_and_nothing_is_compared() {
    let candidates = vec![candidate("a/package.json", Some(r#"{"dependencies": {"x": "1"}}"#))];
    let r = audit(&None, "package.json", &candidates);
    assert_eq!(r.unwrap_err(), AuditError::ReferenceUnreadable);
}

#[test]
fn malformed_reference_is_fatal() {
    let reference = Some(String::from("{ nope"));
    let r = audit(&reference, "package.json", &vec![]);
    assert_eq!(r.unwrap_err(), AuditError::ReferenceMalformed);
}

#[test]
fn malformed_candidate_is_recorded_and_others_still_audited() {
    let reference = Some(String::from(r#"{"dependencies": {"left-pad": "^1.0.0"}}"#));
    let candidates = vec![
        candidate("bad/package.json", Some("{ not json")),
        candidate("good/package.json", Some(r#"{"dependencies": {"left-pad": "^2.0.0"}}"#)),
    ];
    let res = audit(&reference, "package.json", &candidates).unwrap();
    assert_eq!(res.failures.len(), 1);
    assert_eq!(res.failures[0].path, "bad/package.json");
    assert_eq!(res.failures[0].kind, CandidateErrorKind::Malformed);
    assert_eq!(res.mismatches.len(), 1);
    assert_eq!(res.mismatches[0].dependency_name, "left-pad");
    assert_eq!(res.mismatches[0].expected_version, "1.0.0");
    assert_eq!(res.mismatches[0].actual_version, "2.0.0");
    assert_eq!(res.mismatches[0].manifest_path, "good/package.json");
}

#[test]
fn unreadable_candidate_is_recorded_as_unreadable() {
    let reference = Some(String::from(r#"{"dependencies": {}}"#));
    let candidates = vec![candidate("gone/package.json", None)];
    let res = audit(&reference, "package.json", &candidates).unwrap();
    assert_eq!(res.failures.len(), 1);
    assert_eq!(res.failures[0].path, "gone/package.json");
    assert_eq!(res.failures[0].kind, CandidateErrorKind::Unreadable);
    assert_eq!(res.mismatches.len(), 0);
}

#[test]
fn agreeing_candidates_produce_an_empty_result() {
    let reference = Some(String::from(r#"{"dependencies": {"a": "^1.0.0", "b": "2"}}"#));
    let candidates = vec![
        candidate("one/package.json", Some(r#"{"dependencies": {"a": "1.0.0"}}"#)),
        candidate("two/package.json", Some(r#"{"dependencies": {"b": "2", "c": "9"}}"#)),
    ];
    let res = audit(&reference, "package.json", &candidates).unwrap();
    assert_eq!(res.mismatches.len(), 0);
    assert_eq!(res.failures.len(), 0);
}

#[test]
fn process_reports_one_line_per_mismatch() {
    let mut root = Manifest::new("package.json");
    root.insert("left-pad", "^1.0.0");
    let content = r#"{"dependencies": {"left-pad": "^2.0.0"}}"#;
    let msg = process_each_package_json(content, "sub/package.json", &root).unwrap();
    assert_eq!(
        msg,
        "Error in `left-pad` for package: sub/package.json. Expected: 1.0.0 but got: 2.0.0"
    );
}

#[test]
fn process_joins_lines_with_newlines_in_name_order() {
    let mut root = Manifest::new("package.json");
    root.insert("a", "1");
    root.insert("b", "2");
    let content = r#"{"dependencies": {"b": "20", "a": "10"}}"#;
    let msg = process_each_package_json(content, "p/package.json", &root).unwrap();
    let lines: Vec<&str> = msg.split('\n').collect();
    assert_eq!(lines.len(), 2);
    assert_eq!(lines[0], "Error in `a` for package: p/package.json. Expected: 1 but got: 10");
    assert_eq!(lines[1], "Error in `b` for package: p/package.json. Expected: 2 but got: 20");
}

#[test]
fn process_returns_none_when_nothing_disagrees() {
    let mut root = Manifest::new("package.json");
    root.insert("a", "1");
    let content = r#"{"dependencies": {"a": "^1"}}"#;
    assert!(process_each_package_json(content, "p/package.json", &root).is_none());
}

#[test]
fn process_returns_none_for_an_unparseable_candidate() {
    let root = Manifest::new("package.json");
    assert!(process_each_package_json("{ bad", "p/package.json", &root).is_none());
}
