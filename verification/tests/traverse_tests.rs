use query_os::models::Condition;
use query_os::traverse::{collect_files_model, FsNode};

fn cond(field: &str, operator: &str, value: &str, negated: bool) -> Condition {
    Condition {
        field: field.to_string(),
        operator: operator.to_string(),
        value: value.to_string(),
        negated,
    }
}

fn leaf(name: &str, size: u64) -> FsNode {
    FsNode {
        name: name.to_string(),
        is_dir: false,
        modified: 1000,
        mode: 0o644,
        size,
        entries: vec![],
    }
}

fn dir(name: &str, entries: Vec<FsNode>) -> FsNode {
    FsNode {
        name: name.to_string(),
        is_dir: true,
        modified: 1000,
        mode: 0o755,
        size: 0,
        entries,
    }
}

/// A tree shaped root/{file.txt, sub/{a.rs, b.txt}, target/{debug/{out}}}.
fn sample_tree() -> FsNode {
    dir(
        "root",
        vec![
            leaf("file.txt", 10),
            dir("sub", vec![leaf("a.rs", 20), leaf("b.txt", 30)]),
            dir("target", vec![dir("debug", vec![leaf("out", 40)])]),
        ],
    )
}

fn collect(tree: &FsNode, conditions: &Vec<Condition>) -> Vec<String> {
    collect_files_model(tree, &Vec::new(), conditions)
        .into_iter()
        .map(|f| f.path)
        .collect()
}

#[test]
fn test_traversal_completeness() {
    // With an always-true (empty) predicate the emitted paths are the full
    // recursive enumeration: no duplicates, no omissions.
    let tree = sample_tree();
    let paths = collect(&tree, &vec![]);
    assert_eq!(
        paths,
        vec![
            "",
            "file.txt",
            "sub",
            "sub/a.rs",
            "sub/b.txt",
            "target",
            "target/debug",
            "target/debug/out",
        ]
    );
}

#[test]
fn test_traversal_filters_by_name() {
    let tree = sample_tree();
    let paths = collect(&tree, &vec![cond("name", "LIKE", "%.txt", false)]);
    assert_eq!(paths, vec!["file.txt", "sub/b.txt"]);
}

#[test]
fn test_traversal_prunes_excluded_subtree() {
    // Nothing beneath a path segment matching the excluded pattern is
    // emitted.
    let tree = sample_tree();
    let paths = collect(&tree, &vec![cond("path", "LIKE", "%target/%", true)]);
    assert_eq!(
        paths,
        vec!["", "file.txt", "sub", "sub/a.rs", "sub/b.txt", "target"]
    );
    for p in &paths {
        assert!(!p.contains("target/"));
    }
}

#[test]
fn test_early_filtering_path_exclusion() {
    // A node whose own relative path falls under the excluded pattern is
    // skipped entirely, subtree included.
    let conditions = vec![cond("path", "LIKE", "%target/%", true)];
    let node = leaf("main.rs", 5);
    let rel: Vec<char> = "target/debug/main.rs".chars().collect();
    let result = collect_files_model(&node, &rel, &conditions);
    assert!(result.is_empty());
}

#[test]
fn test_traversal_upgrades_matches() {
    // Matching records carry full metadata: octal permissions and a
    // formatted size.
    let tree = sample_tree();
    let records = collect_files_model(&tree, &Vec::new(), &vec![cond(
        "name",
        "=",
        "file.txt",
        false,
    )]);
    assert_eq!(records.len(), 1);
    assert_eq!(records[0].name, "file.txt");
    assert_eq!(records[0].permissions, "644");
    assert_eq!(records[0].size, "10 B");
    assert_eq!(records[0].modified_date, 1000);
    assert_eq!(records[0].depth, 1);
    assert_eq!(records[0].extension, Some("txt".to_string()));
}

#[test]
fn test_depth_filtering() {
    // Structure root/dir1/dir2/file.txt, filtered by depth.
    let tree = dir(
        "root",
        vec![dir("dir1", vec![dir("dir2", vec![leaf("file.txt", 12)])])],
    );

    let results = collect_files_model(&tree, &Vec::new(), &vec![cond("depth", "=", "1", false)]);
    assert_eq!(results.len(), 1);
    assert_eq!(results[0].name, "dir1");
    assert_eq!(results[0].depth, 1);

    let results = collect_files_model(&tree, &Vec::new(), &vec![cond("depth", "=", "3", false)]);
    assert_eq!(results.len(), 1);
    assert_eq!(results[0].name, "file.txt");
    assert_eq!(results[0].depth, 3);

    let results = collect_files_model(&tree, &Vec::new(), &vec![cond("depth", ">", "2", false)]);
    assert_eq!(results.len(), 1);
    assert_eq!(results[0].name, "file.txt");
    assert_eq!(results[0].depth, 3);
}

#[test]
fn test_positive_build_folder_pattern_stops_recursion() {
    // The narrow heuristic: a non-negated LIKE on path carrying the
    // conventional build-folder text suppresses recursion wholesale.
    let tree = sample_tree();
    let paths = collect(&tree, &vec![cond("path", "LIKE", "%target/%", false)]);
    assert_eq!(paths, Vec::<String>::new());
}
