use query_os::executor::{
    delete_proceeds, delete_requires_confirmation, execute_network_query, execute_process_query,
    execute_query, plan_delete, Sources,
};
use query_os::models::{
    NetInfo, ProcessInfo, QueryResult, QueryType, SortDirection, SqlQuery, Subquery, SubqueryType,
};
use query_os::parser::parse_query;
use query_os::traverse::FsNode;

fn select_query(from: &str, where_clause: Option<&str>, order_by: Option<&str>, limit: Option<
    usize,
>) -> SqlQuery {
    SqlQuery {
        query_type: QueryType::Select,
        distinct: false,
        select_fields: vec!["*".to_string()],
        select_field_aliases: vec![None],
        select_subqueries: vec![],
        from_path: from.to_string(),
        where_clause: where_clause.map(|w| w.to_string()),
        where_subqueries: vec![],
        order_by: order_by.map(|o| o.to_string()),
        order_direction: SortDirection::Ascending,
        limit,
    }
}

fn leaf(name: &str, size: u64) -> FsNode {
    FsNode {
        name: name.to_string(),
        is_dir: false,
        modified: 0,
        mode: 0o644,
        size,
        entries: vec![],
    }
}

fn sources_with_tree(path: &str, tree: FsNode) -> Sources {
    Sources {
        processes: vec![],
        network: vec![],
        applications: vec![],
        filesystems: vec![(path.to_string(), tree)],
    }
}

fn tmp_tree(names: &[&str]) -> FsNode {
    FsNode {
        name: "tmp".to_string(),
        is_dir: true,
        modified: 0,
        mode: 0o755,
        size: 0,
        entries: names.iter().map(|n| leaf(n, 1)).collect(),
    }
}

#[test]
fn test_execute_process_query_basic() {
    let query = SqlQuery {
        query_type: QueryType::Select,
        select_fields: vec!["pid".to_string(), "name".to_string()],
        select_field_aliases: vec![None, None],
        select_subqueries: Vec::new(),
        from_path: "ps".to_string(),
        where_clause: None,
        where_subqueries: Vec::new(),
        order_by: None,
        order_direction: SortDirection::Ascending,
        limit: Some(2),
        distinct: false,
    };

    let processes = collect_live_processes();
    let result = execute_process_query(&query, &processes);
    assert!(result.is_ok());

    let rs = result.unwrap();
    assert!(rs.len() <= 2);
    for process in rs {
        assert!(!process.pid.is_empty());
        assert!(!process.name.is_empty());
    }
}

#[test]
fn test_execute_process_query_with_where() {
    let query = SqlQuery {
        query_type: QueryType::Select,
        select_fields: vec!["pid".to_string(), "name".to_string(), "status".to_string()],
        select_field_aliases: vec![None, None, None],
        select_subqueries: Vec::new(),
        from_path: "ps".to_string(),
        where_clause: Some("status = 'running'".to_string()),
        where_subqueries: Vec::new(),
        order_by: None,
        order_direction: SortDirection::Ascending,
        limit: Some(3),
        distinct: false,
    };

    let processes = collect_live_processes();
    let result = execute_process_query(&query, &processes);
    assert!(result.is_ok());

    for process in result.unwrap() {
        assert_eq!(process.status, "running");
    }
}

/// Collects the live process table the way the command-line front end
/// does, through the system-information crate.
fn collect_live_processes() -> Vec<ProcessInfo> {
    let sys = sysinfo::System::new_all();
    let mut out = Vec::new();
    for (pid, process) in sys.processes() {
        let status = match process.status() {
            sysinfo::ProcessStatus::Run => "running",
            sysinfo::ProcessStatus::Sleep => "sleeping",
            sysinfo::ProcessStatus::Idle => "idle",
            sysinfo::ProcessStatus::Zombie => "zombie",
            sysinfo::ProcessStatus::Stop => "stopped",
            _ => "unknown",
        };
        let name = process.name().to_string_lossy().to_string();
        let cpu_tenths = (process.cpu_usage() * 10.0).round().max(0.0) as u64;
        out.push(ProcessInfo::new(
            pid.as_u32(),
            &name,
            cpu_tenths,
            process.memory(),
            status,
        ));
    }
    out
}

#[test]
fn test_execute_network_query_distinct() {
    let mut query = select_query("net", None, Some("port"), None);
    query.distinct = true;
    query.select_fields = vec!["name".to_string()];
    let records = vec![
        NetInfo::new("nginx", 80, 1),
        NetInfo::new("nginx", 443, 1),
        NetInfo::new("node", 3000, 2),
    ];
    let rs = execute_network_query(&query, &records).unwrap();
    // DISTINCT keys off the selected fields: the two nginx rows collapse.
    assert_eq!(rs.len(), 2);
    assert_eq!(rs[0].name, "nginx");
    assert_eq!(rs[1].name, "node");
}

#[test]
fn test_execute_query_dispatches_filesystem() {
    let sources = sources_with_tree("/tmp", tmp_tree(&["a.txt", "b.rs"]));
    let query = select_query("/tmp", Some("name LIKE '%.txt'"), None, None);
    match execute_query(&query, &sources).unwrap() {
        QueryResult::Files(fs) => {
            assert_eq!(fs.len(), 1);
            assert_eq!(fs[0].name, "a.txt");
        }
        _ => panic!("expected a file result"),
    }
}

#[test]
fn test_execute_query_missing_path() {
    let sources = sources_with_tree("/tmp", tmp_tree(&[]));
    let query = select_query("/nonexistent/path", None, None, None);
    let err = execute_query(&query, &sources).unwrap_err();
    assert!(err.contains("Path does not exist"));
}

#[test]
fn test_execute_delete_query_file_not_found() {
    let query = parse_query("DELETE FROM /nonexistent/path").unwrap();
    let sources = sources_with_tree("/tmp", tmp_tree(&[]));
    let result = plan_delete(&query, &sources);
    assert!(result.is_err());
    assert!(result.unwrap_err().contains("Path does not exist"));
}

#[test]
fn test_execute_delete_query_empty_results() {
    let query = parse_query("DELETE FROM /tmp WHERE name = 'nonexistent.txt'").unwrap();
    let sources = sources_with_tree("/tmp", tmp_tree(&["real.txt"]));
    match execute_query(&query, &sources).unwrap() {
        QueryResult::Files(files) => assert!(files.is_empty()),
        _ => panic!("Expected Files result"),
    }
}

#[test]
fn test_delete_single_match_needs_no_prompt() {
    // End to end: a delete matching exactly one file proceeds unprompted.
    let query = parse_query("DELETE FROM /tmp WHERE name = 'test.txt'").unwrap();
    let sources = sources_with_tree("/tmp", tmp_tree(&["test.txt", "other.txt"]));
    let matched = plan_delete(&query, &sources).unwrap();
    assert_eq!(matched.len(), 1);
    assert_eq!(matched[0].name, "test.txt");
    assert!(!delete_requires_confirmation(matched.len()));
    assert!(delete_proceeds(matched.len(), false));
}

#[test]
fn test_delete_many_matches_needs_confirmation() {
    // The same query matching three files requires confirmation and, when
    // declined, deletes none.
    let query = parse_query("DELETE FROM /tmp WHERE name LIKE '%.txt'").unwrap();
    let sources = sources_with_tree(
        "/tmp",
        tmp_tree(&["a.txt", "b.txt", "c.txt"]),
    );
    let matched = plan_delete(&query, &sources).unwrap();
    assert_eq!(matched.len(), 3);
    assert!(delete_requires_confirmation(matched.len()));
    assert!(!delete_proceeds(matched.len(), false));
    assert!(delete_proceeds(matched.len(), true));
}

#[test]
fn test_execute_query_order_and_limit() {
    let sources = sources_with_tree("/tmp", tmp_tree(&["c.txt", "a.txt", "b.txt"]));
    let query = select_query(
        "/tmp",
        Some("type = 'file'"),
        Some("name"),
        Some(2),
    );
    match execute_query(&query, &sources).unwrap() {
        QueryResult::Files(fs) => {
            let names: Vec<&str> = fs.iter().map(|f| f.name.as_str()).collect();
            assert_eq!(names, vec!["a.txt", "b.txt"]);
        }
        _ => panic!("expected a file result"),
    }
}

#[test]
fn test_execute_network_query_distinct_ordered() {
    // DISTINCT keeps the first occurrence of each projection key, then
    // ORDER BY sorts what is left.
    let mut query = select_query("net", None, Some("pid"), None);
    query.distinct = true;
    query.select_fields = vec!["name".to_string()];
    let records = vec![
        NetInfo::new("node", 3000, 9),
        NetInfo::new("nginx", 80, 1),
        NetInfo::new("nginx", 443, 2),
    ];
    let rs = execute_network_query(&query, &records).unwrap();
    assert_eq!(rs.len(), 2);
    assert_eq!(rs[0].name, "nginx");
    assert_eq!(rs[0].pid, "1");
    assert_eq!(rs[1].name, "node");
}

#[test]
fn test_execute_query_subquery_splice() {
    // A hand-built nested subquery runs first; its result is spliced into
    // the parent's WHERE text before condition parsing.
    let inner = select_query("/tmp", Some("name LIKE '%.txt'"), None, None);
    let mut outer = select_query("/tmp", Some("name = __SCALAR_SUBQUERY_0__"), None, None);
    outer.where_subqueries = vec![Subquery {
        query: Box::new(inner),
        subquery_type: SubqueryType::Scalar,
    }];
    let sources = sources_with_tree("/tmp", tmp_tree(&["a.txt", "b.rs"]));
    match execute_query(&outer, &sources).unwrap() {
        QueryResult::Files(fs) => {
            assert_eq!(fs.len(), 1);
            assert_eq!(fs[0].name, "a.txt");
        }
        _ => panic!("expected a file result"),
    }
}
