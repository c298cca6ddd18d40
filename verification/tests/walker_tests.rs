use depaudit::walker::{walk, FsTree};

fn file(name: &str) -> FsTree {
    FsTree::File { name: String::from(name) }
}

fn dir(name: &str, children: Vec<FsTree>) -> FsTree {
    FsTree::Dir { name: String::from(name), children }
}

#[test]
fn yields_root_and_nested_manifests_but_never_excluded_subtrees() {
    let tree = dir(
        "repo",
        vec![
            file("package.json"),
            dir(
                "sub",
                vec![
                    file("package.json"),
                    dir("node_modules", vec![dir("other-pkg", vec![file("package.json")])]),
                ],
            ),
        ],
    );
    let paths = walk(&tree, "node_modules", "package.json");
    assert_eq!(paths.len(), 2);
    assert_eq!(paths[0], vec![String::from("package.json")]);
    assert_eq!(paths[1], vec![String::from("sub"), String::from("package.json")]);
}

#[test]
fn no_yielded_path_contains_the_excluded_name() {
    let tree = dir(
        "repo",
        vec![
            dir("node_modules", vec![file("package.json")]),
            dir("a", vec![dir("node_modules", vec![file("package.json")]), file("package.json")]),
        ],
    );
    let paths = walk(&tree, "node_modules", "package.json");
    assert_eq!(paths.len(), 1);
    for p in &paths {
        for component in p {
            assert_ne!(component, "node_modules");
        }
    }
}

#[test]
fn other_file_names_are_filtered_out() {
    let tree = dir(
        "repo",
        vec![file("README.md"), file("package.json"), dir("src", vec![file("main.rs")])],
    );
    let paths = walk(&tree, "node_modules", "package.json");
    assert_eq!(paths.len(), 1);
    assert_eq!(paths[0], vec![String::from("package.json")]);
}

#[test]
fn empty_directory_yields_nothing() {
    let tree = dir("repo", vec![]);
    let paths = walk(&tree, "node_modules", "package.json");
    assert_eq!(paths.len(), 0);
}

#[test]
fn a_file_root_matching_the_manifest_name_yields_itself() {
    let tree = file("package.json");
    let paths = walk(&tree, "node_modules", "package.json");
    assert_eq!(paths.len(), 1);
    assert_eq!(paths[0], vec![String::from("package.json")]);
}
