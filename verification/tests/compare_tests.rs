use depaudit::compare::compare_dependencies;
use depaudit::manifest::Manifest;

fn manifest(path: &str, deps: &[(&str, &str)]) -> Manifest {
    let mut m = Manifest::new(path);
    for (name, version) in deps {
        m.insert(name, version);
    }
    m
}

#[test]
fn comparing_a_manifest_with_itself_yields_nothing() {
    let m = manifest("package.json", &[("a", "1.0.0"), ("b", "^2.1.0"), ("c", "*")]);
    let mismatches = compare_dependencies(&m, &m);
    assert_eq!(mismatches.len(), 0);
}

#[test]
fn dependency_absent_from_reference_is_not_flagged() {
    let reference = manifest("package.json", &[("a", "1.0.0")]);
    let candidate = manifest("sub/package.json", &[("a", "1.0.0"), ("extra", "9.9.9")]);
    let mismatches = compare_dependencies(&reference, &candidate);
    assert_eq!(mismatches.len(), 0);
}

#[test]
fn dependency_absent_from_candidate_is_not_flagged() {
    let reference = manifest("package.json", &[("a", "1.0.0"), ("gone", "3.0.0")]);
    let candidate = manifest("sub/package.json", &[("a", "1.0.0")]);
    let mismatches = compare_dependencies(&reference, &candidate);
    assert_eq!(mismatches.len(), 0);
}

#[test]
fn differing_version_is_flagged_with_both_versions_and_path() {
    let reference = manifest("package.json", &[("left-pad", "^1.0.0")]);
    let candidate = manifest("pkg/package.json", &[("left-pad", "^2.0.0")]);
    let mismatches = compare_dependencies(&reference, &candidate);
    assert_eq!(mismatches.len(), 1);
    assert_eq!(mismatches[0].dependency_name, "left-pad");
    assert_eq!(mismatches[0].expected_version, "1.0.0");
    assert_eq!(mismatches[0].actual_version, "2.0.0");
    assert_eq!(mismatches[0].manifest_path, "pkg/package.json");
}

#[test]
fn caret_only_difference_is_no_mismatch() {
    let reference = manifest("package.json", &[("left-pad", "^1.0.0")]);
    let candidate = manifest("pkg/package.json", &[("left-pad", "1.0.0")]);
    let mismatches = compare_dependencies(&reference, &candidate);
    assert_eq!(mismatches.len(), 0);
}

#[test]
fn mismatches_come_out_in_ascending_name_order() {
    let reference = manifest("package.json", &[("alpha", "1"), ("beta", "2"), ("gamma", "3")]);
    let mut candidate = Manifest::new("x/package.json");
    candidate.insert("gamma", "30");
    candidate.insert("alpha", "10");
    candidate.insert("beta", "20");
    let mismatches = compare_dependencies(&reference, &candidate);
    assert_eq!(mismatches.len(), 3);
    assert_eq!(mismatches[0].dependency_name, "alpha");
    assert_eq!(mismatches[1].dependency_name, "beta");
    assert_eq!(mismatches[2].dependency_name, "gamma");
}

#[test]
fn insert_replaces_an_existing_entry() {
    let mut m = Manifest::new("package.json");
    m.insert("dep", "1.0.0");
    m.insert("dep", "^2.0.0");
    assert_eq!(m.len(), 1);
    assert_eq!(m.get("dep"), Some(&String::from("2.0.0")));
}

#[test]
fn get_normalizes_nothing_on_lookup() {
    let mut m = Manifest::new("package.json");
    m.insert("dep", "^1.0.0");
    assert_eq!(m.get("dep"), Some(&String::from("1.0.0")));
    assert_eq!(m.get("other"), None);
}
