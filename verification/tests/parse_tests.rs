use depaudit::parse::{parse_package_json, ParseError};

#[test]
fn parses_dependencies_and_normalizes_versions() {
    let text = r#"{"name": "demo", "dependencies": {"left-pad": "^1.0.0", "right-pad": "2.0.0"}}"#;
    let m = parse_package_json(text, "package.json").unwrap();
    assert_eq!(m.len(), 2);
    assert_eq!(m.get("left-pad"), Some(&String::from("1.0.0")));
    assert_eq!(m.get("right-pad"), Some(&String::from("2.0.0")));
    assert_eq!(m.source_path, "package.json");
}

#[test]
fn empty_dependencies_object_parses_to_empty_manifest() {
    let m = parse_package_json(r#"{"dependencies": {}}"#, "p").unwrap();
    assert_eq!(m.len(), 0);
}

#[test]
fn unknown_top_level_keys_are_ignored() {
    let text = r#"{"version": "0.0.1", "scripts": {"build": "x"}, "dependencies": {"a": "1"}}"#;
    let m = parse_package_json(text, "p").unwrap();
    assert_eq!(m.len(), 1);
}

#[test]
fn malformed_json_is_a_syntax_error() {
    let r = parse_package_json("{ not json", "p");
    assert_eq!(r.unwrap_err(), ParseError::Syntax);
}

#[test]
fn top_level_array_is_a_schema_mismatch() {
    let r = parse_package_json(r#"[1, 2, 3]"#, "p");
    assert_eq!(r.unwrap_err(), ParseError::SchemaMismatch);
}

#[test]
fn missing_dependencies_field_is_a_schema_mismatch() {
    let r = parse_package_json(r#"{"name": "demo"}"#, "p");
    assert_eq!(r.unwrap_err(), ParseError::SchemaMismatch);
}

#[test]
fn non_object_dependencies_is_a_schema_mismatch() {
    let r = parse_package_json(r#"{"dependencies": ["a", "b"]}"#, "p");
    assert_eq!(r.unwrap_err(), ParseError::SchemaMismatch);
}

#[test]
fn non_string_dependency_version_is_a_schema_mismatch() {
    let r = parse_package_json(r#"{"dependencies": {"a": 1}}"#, "p");
    assert_eq!(r.unwrap_err(), ParseError::SchemaMismatch);
}

#[test]
fn duplicate_keys_keep_the_last_value() {
    let m = parse_package_json(r#"{"dependencies": {"a": "1", "a": "2"}}"#, "p").unwrap();
    assert_eq!(m.len(), 1);
    assert_eq!(m.get("a"), Some(&String::from("2")));
}
