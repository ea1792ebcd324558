use query_os::models::{FileInfo, ProcessInfo, QueryResult};
use query_os::subquery::process_where_subquery_placeholders;

fn named_file(name: &str, size: &str) -> FileInfo {
    FileInfo {
        name: name.to_string(),
        file_type: "file".to_string(),
        modified_date: 0,
        permissions: "644".to_string(),
        size: size.to_string(),
        path: name.to_string(),
        depth: 1,
        extension: Some("txt".to_string()),
    }
}

#[test]
fn test_process_where_subquery_placeholders() {
    let mut subquery_results: Vec<(String, QueryResult)> = Vec::new();

    // An IN subquery over files.
    let files = vec![named_file("test1.txt", "100 B"), named_file("test2.txt", "200 B")];
    subquery_results.push(("__SUBQUERY_0__".to_string(), QueryResult::Files(files)));

    // An EXISTS subquery with no rows, and one with rows.
    subquery_results.push((
        "__EXISTS_SUBQUERY_1__".to_string(),
        QueryResult::Files(Vec::new()),
    ));
    let processes = vec![ProcessInfo::new(1234, "node", 55, 1024, "running")];
    subquery_results.push((
        "__EXISTS_SUBQUERY_2__".to_string(),
        QueryResult::Processes(processes),
    ));

    // A scalar subquery over files.
    let scalar_files = vec![named_file("scalar.txt", "50 B")];
    subquery_results.push((
        "__SCALAR_SUBQUERY_3__".to_string(),
        QueryResult::Files(scalar_files),
    ));

    let where_clause = "name IN __SUBQUERY_0__ AND __EXISTS_SUBQUERY_1__ AND __EXISTS_SUBQUERY_2__ AND size > __SCALAR_SUBQUERY_3__";
    let processed = process_where_subquery_placeholders(where_clause, &subquery_results);

    assert!(processed.contains("name IN ('test1.txt', 'test2.txt')"));
    assert!(processed.contains("FALSE"));
    assert!(processed.contains("TRUE"));
    assert!(processed.contains("size > 'scalar.txt'"));
}

#[test]
fn test_subquery_rewrite_in_list() {
    // An IN placeholder becomes a parenthesised, quoted list.
    let pairs = vec![(
        "__SUBQUERY_0__".to_string(),
        QueryResult::Files(vec![named_file("a.txt", "1 B"), named_file("b.txt", "1 B")]),
    )];
    let out = process_where_subquery_placeholders("name IN __SUBQUERY_0__", &pairs);
    assert_eq!(out, "name IN ('a.txt', 'b.txt')");
}

#[test]
fn test_subquery_rewrite_empty_in_list_is_null() {
    // An empty subquery rewrites the placeholder to the bare literal NULL.
    let pairs = vec![(
        "__SUBQUERY_0__".to_string(),
        QueryResult::Files(Vec::new()),
    )];
    let out = process_where_subquery_placeholders("name IN __SUBQUERY_0__", &pairs);
    assert_eq!(out, "name IN NULL");
}

#[test]
fn test_subquery_rewrite_quotes_are_doubled() {
    let pairs = vec![(
        "__SUBQUERY_0__".to_string(),
        QueryResult::Files(vec![named_file("it's.txt", "1 B")]),
    )];
    let out = process_where_subquery_placeholders("name IN __SUBQUERY_0__", &pairs);
    assert_eq!(out, "name IN ('it''s.txt')");
}

#[test]
fn test_subquery_rewrite_scalar_pid() {
    let pairs = vec![(
        "__SCALAR_SUBQUERY_0__".to_string(),
        QueryResult::Processes(vec![ProcessInfo::new(42, "node", 0, 0, "running")]),
    )];
    let out = process_where_subquery_placeholders("pid = __SCALAR_SUBQUERY_0__", &pairs);
    assert_eq!(out, "pid = 42");
}

#[test]
fn test_subquery_rewrite_scalar_empty_is_null() {
    let pairs = vec![(
        "__SCALAR_SUBQUERY_0__".to_string(),
        QueryResult::Processes(Vec::new()),
    )];
    let out = process_where_subquery_placeholders("pid = __SCALAR_SUBQUERY_0__", &pairs);
    assert_eq!(out, "pid = NULL");
}
