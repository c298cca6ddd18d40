use depaudit::version::strip_caret;

#[test]
fn strips_single_leading_caret() {
    assert_eq!(strip_caret("^1.0.0"), "1.0.0");
}

#[test]
fn leaves_bare_version_alone() {
    assert_eq!(strip_caret("1.2.3"), "1.2.3");
}

#[test]
fn leaves_other_range_markers_alone() {
    assert_eq!(strip_caret("~1.2.3"), "~1.2.3");
    assert_eq!(strip_caret(">=2.0.0"), ">=2.0.0");
    assert_eq!(strip_caret("*"), "*");
}

#[test]
fn empty_version_stays_empty() {
    assert_eq!(strip_caret(""), "");
}

#[test]
fn lone_caret_becomes_empty() {
    assert_eq!(strip_caret("^"), "");
}

#[test]
fn normalize_is_idempotent_on_single_caret_versions() {
    for v in ["^1.0.0", "1.0.0", "~2.0", "", "^"] {
        let once = strip_caret(v);
        assert_eq!(strip_caret(once), once);
    }
}

#[test]
fn caret_prefix_of_caret_free_version_strips_to_it() {
    let v = "3.4.5-beta.1";
    let prefixed = format!("^{}", v);
    assert_eq!(strip_caret(&prefixed), v);
}
