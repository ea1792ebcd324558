use query_os::models::{FileInfo, NetInfo, ProcessInfo, SortDirection};
use query_os::sort::{sort_network_results, sort_process_results, sort_results};

fn file(name: &str, size: &str) -> FileInfo {
    FileInfo {
        name: name.to_string(),
        file_type: "file".to_string(),
        modified_date: 0,
        permissions: "644".to_string(),
        size: size.to_string(),
        path: name.to_string(),
        depth: 1,
        extension: Some("txt".to_string()),
    }
}

#[test]
fn test_sort_results_descending() {
    let file1 = file("a.txt", "100 B");
    let file2 = file("b.txt", "200 B");
    let file3 = file("c.txt", "50 B");

    let mut results = vec![file1, file2, file3];

    sort_results(&mut results, "name", &SortDirection::Descending).unwrap();
    assert_eq!(results[0].name, "c.txt");
    assert_eq!(results[1].name, "b.txt");
    assert_eq!(results[2].name, "a.txt");

    sort_results(&mut results, "name", &SortDirection::Ascending).unwrap();
    assert_eq!(results[0].name, "a.txt");
    assert_eq!(results[1].name, "b.txt");
    assert_eq!(results[2].name, "c.txt");
}

#[test]
fn test_sort_results_by_size_is_numeric() {
    let mut results = vec![file("a", "2 KB"), file("b", "100 B"), file("c", "1.5 KB")];
    sort_results(&mut results, "size", &SortDirection::Ascending).unwrap();
    assert_eq!(results[0].name, "b");
    assert_eq!(results[1].name, "c");
    assert_eq!(results[2].name, "a");
}

#[test]
fn test_sort_network_results() {
    let mut results = vec![
        NetInfo::new("node", 8080, 2000),
        NetInfo::new("apache", 80, 1000),
        NetInfo::new("nginx", 443, 1500),
    ];

    sort_network_results(&mut results, "port", &SortDirection::Ascending).unwrap();
    assert_eq!(results[0].port, "80");
    assert_eq!(results[1].port, "443");
    assert_eq!(results[2].port, "8080");

    sort_network_results(&mut results, "name", &SortDirection::Ascending).unwrap();
    assert_eq!(results[0].name, "apache");
    assert_eq!(results[1].name, "nginx");
    assert_eq!(results[2].name, "node");
}

#[test]
fn test_sort_network_results_rejects_field() {
    let mut results = vec![NetInfo::new("node", 8080, 2000)];
    let err = sort_network_results(&mut results, "owner", &SortDirection::Ascending).unwrap_err();
    assert_eq!(err, "Invalid ORDER BY field: owner");
}

#[test]
fn test_sort_process_results_by_memory() {
    let mut results = vec![
        ProcessInfo::new(1, "a", 0, 3 * 1024 * 1024, "running"),
        ProcessInfo::new(2, "b", 0, 1024, "running"),
        ProcessInfo::new(3, "c", 0, 2 * 1024, "running"),
    ];
    sort_process_results(&mut results, "memory_usage", &SortDirection::Descending).unwrap();
    assert_eq!(results[0].name, "a");
    assert_eq!(results[1].name, "c");
    assert_eq!(results[2].name, "b");
}

#[test]
fn test_sort_process_results_by_pid() {
    let mut results = vec![
        ProcessInfo::new(30, "x", 0, 0, "running"),
        ProcessInfo::new(4, "y", 0, 0, "running"),
    ];
    sort_process_results(&mut results, " PID ", &SortDirection::Ascending).unwrap();
    // The field name is trimmed and lower-cased; pids compare numerically.
    assert_eq!(results[0].pid, "4");
    assert_eq!(results[1].pid, "30");
}

#[test]
fn test_sort_results_by_modified_date() {
    let mut a = file("a", "1 B");
    a.modified_date = 300;
    let mut b = file("b", "1 B");
    b.modified_date = 100;
    let mut c = file("c", "1 B");
    c.modified_date = 200;
    let mut results = vec![a, b, c];
    sort_results(&mut results, "modified_date", &SortDirection::Ascending).unwrap();
    assert_eq!(results[0].name, "b");
    assert_eq!(results[1].name, "c");
    assert_eq!(results[2].name, "a");
}

#[test]
fn test_sort_is_stable() {
    // Records with equal keys keep their relative order.
    let mut results = vec![
        NetInfo::new("b", 80, 1),
        NetInfo::new("a", 80, 2),
        NetInfo::new("c", 80, 3),
    ];
    sort_network_results(&mut results, "port", &SortDirection::Ascending).unwrap();
    let names: Vec<&str> = results.iter().map(|n| n.name.as_str()).collect();
    assert_eq!(names, vec!["b", "a", "c"]);
    sort_network_results(&mut results, "port", &SortDirection::Descending).unwrap();
    let names: Vec<&str> = results.iter().map(|n| n.name.as_str()).collect();
    assert_eq!(names, vec!["b", "a", "c"]);
}

#[test]
fn test_sort_unknown_field_keeps_order() {
    // An unrecognised field compares everything equal, so the order is
    // left exactly as it was — in either direction.
    let mut results = vec![file("c", "1 B"), file("a", "2 B"), file("b", "3 B")];
    sort_results(&mut results, "owner", &SortDirection::Ascending).unwrap();
    let names: Vec<&str> = results.iter().map(|f| f.name.as_str()).collect();
    assert_eq!(names, vec!["c", "a", "b"]);
    sort_results(&mut results, "owner", &SortDirection::Descending).unwrap();
    let names: Vec<&str> = results.iter().map(|f| f.name.as_str()).collect();
    assert_eq!(names, vec!["c", "a", "b"]);
}
