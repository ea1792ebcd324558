use query_os::evaluate::{
    compare_strings, evaluate_application_conditions, evaluate_conditions,
    evaluate_network_conditions, evaluate_process_conditions,
};
use query_os::models::{ApplicationInfo, Condition, FileInfo, NetInfo, ProcessInfo};
use query_os::pattern::like_match;

fn cond(field: &str, operator: &str, value: &str, negated: bool) -> Condition {
    Condition {
        field: field.to_string(),
        operator: operator.to_string(),
        value: value.to_string(),
        negated,
    }
}

fn file(name: &str, file_type: &str, permissions: &str, size: &str, path: &str, depth: usize,
    extension: Option<&str>) -> FileInfo {
    FileInfo {
        name: name.to_string(),
        file_type: file_type.to_string(),
        modified_date: 0,
        permissions: permissions.to_string(),
        size: size.to_string(),
        path: path.to_string(),
        depth,
        extension: extension.map(|e| e.to_string()),
    }
}

#[test]
fn test_like_match() {
    // Test ending with pattern
    assert!(like_match("main.rs", "%.rs"));
    assert!(like_match("test.rs", "%.rs"));
    assert!(!like_match("main.txt", "%.rs"));

    // Test starting with pattern
    assert!(like_match("Cargo.toml", "Cargo%"));
    assert!(like_match("Cargo.lock", "Cargo%"));
    assert!(!like_match("main.rs", "Cargo%"));

    // Test containing pattern
    assert!(like_match("file.md", "%.md%"));
    assert!(like_match("readme.md", "%.md%"));
    assert!(like_match("test.md.txt", "%.md%"));
    assert!(like_match("markdown.md", "%.md%"));
    assert!(like_match("file.mdx", "%.md%")); // .mdx contains .md
    assert!(!like_match("file.txt", "%.md%"));
    assert!(!like_match("mdfile", "%.md%"));
    assert!(!like_match("file.mad", "%.md%")); // .mad does not contain .md

    // Test path patterns
    assert!(like_match("src/main.rs", "src/%"));
    assert!(like_match("src/test/main.rs", "src/%"));
    assert!(!like_match("main.rs", "src/%"));

    // Test exact match
    assert!(like_match("test", "test"));
    assert!(!like_match("testing", "test"));

    // Test single character wildcard
    assert!(like_match("test.txt", "test._xt"));
    assert!(like_match("test.txt", "test.t_t"));
    assert!(!like_match("test.txt", "test._x"));

    // Test complex patterns
    assert!(like_match("src/main.rs", "src/%main%"));
    assert!(like_match("target/debug/main", "target/%/main"));
    assert!(!like_match("src/test.rs", "src/%main%"));

    // Test patterns with characters that are special to pattern engines
    assert!(like_match("file[1].txt", "file[1]%"));
    assert!(like_match("file(1).txt", "file(1)%"));
    assert!(like_match("file+1.txt", "file+1%"));
    assert!(like_match("file^1.txt", "file^1%"));
    assert!(like_match("file$1.txt", "file$1%"));
    assert!(like_match("file?1.txt", "file?1%"));
    assert!(like_match("file*1.txt", "file*1%"));
    assert!(like_match("file.1.txt", "file.1%"));
    assert!(like_match("file|1.txt", "file|1%"));
    // A backslash is a literal like any other character.
    assert!(like_match("file\\1.txt", "file\\1%"));
    assert!(like_match("\\", "\\"));
    assert!(!like_match("file\\1.txt", "file\\\\1%"));
}

#[test]
fn filesystem_test_like_match() {
    assert!(like_match("test.txt", "%.txt"));
    assert!(like_match("hello", "h%"));
    assert!(!like_match("test.txt", "%.rs"));
    assert!(like_match("main.rs", "main.%"));
}

#[test]
fn test_like_match_anchoring() {
    assert!(like_match("abc", "abc"));
    assert!(like_match("file.md", "%.md%"));
    assert!(like_match("file.mdx", "%.md%"));
    assert!(!like_match("file.txt", "%.md%"));
}

#[test]
fn test_compare_strings() {
    assert!(compare_strings("abc", "=", "abc"));
    assert!(compare_strings("abc", "!=", "def"));
    assert!(compare_strings("abc", ">", "abb"));
    assert!(compare_strings("abc", "<", "abd"));
    assert!(compare_strings("abc", ">=", "abc"));
    assert!(compare_strings("abc", "<=", "abc"));
}

#[test]
fn test_evaluate_conditions() {
    let f = file("main.rs", "file", "644", "1024 B", "src/main.rs", 2, Some("rs"));

    let conditions = vec![
        cond("name", "LIKE", "%.rs", false),
        cond("path", "LIKE", "%target/%", true),
    ];

    assert!(evaluate_conditions(&f, &conditions));

    // A file under a build folder must fail the NOT LIKE condition.
    let bad_file = file(
        "main.rs",
        "file",
        "644",
        "1024 B",
        "target/debug/main.rs",
        3,
        Some("rs"),
    );

    assert!(!evaluate_conditions(&bad_file, &conditions));
}

#[test]
fn test_extension_filtering() {
    let rs_file = file("main.rs", "file", "644", "1024 B", "src/main.rs", 2, Some("rs"));
    let no_ext_file = file("README", "file", "644", "512 B", "README", 1, None);
    let dir = file("src", "directory", "755", "0 B", "src", 1, None);

    let rs_condition = cond("extension", "=", "rs", false);
    assert!(evaluate_conditions(&rs_file, &vec![rs_condition.clone()]));
    assert!(!evaluate_conditions(&no_ext_file, &vec![rs_condition.clone()]));
    assert!(!evaluate_conditions(&dir, &vec![rs_condition.clone()]));

    let null_condition = cond("extension", "=", "NULL", false);
    assert!(!evaluate_conditions(&rs_file, &vec![null_condition.clone()]));
    assert!(evaluate_conditions(&no_ext_file, &vec![null_condition.clone()]));
    assert!(evaluate_conditions(&dir, &vec![null_condition.clone()]));

    let like_condition = cond("extension", "LIKE", "r%", false);
    assert!(evaluate_conditions(&rs_file, &vec![like_condition.clone()]));
    assert!(!evaluate_conditions(&no_ext_file, &vec![like_condition.clone()]));
}

#[test]
fn test_size_unit_equivalence() {
    // Unit equivalence: a size of "1 KB" equals a recorded "1024 B".
    let f = file("big.bin", "file", "644", "1024 B", "big.bin", 1, Some("bin"));
    assert!(evaluate_conditions(&f, &vec![cond("size", "=", "1 KB", false)]));
    assert!(evaluate_conditions(&f, &vec![cond("size", ">=", "1024 B", false)]));
    assert!(!evaluate_conditions(&f, &vec![cond("size", ">", "1 KB", false)]));
    assert!(evaluate_conditions(&f, &vec![cond("size", "<", "1.5 KB", false)]));
}

#[test]
fn test_depth_condition() {
    let f = file("file.txt", "file", "644", "1 B", "a/b/file.txt", 3, Some("txt"));
    assert!(evaluate_conditions(&f, &vec![cond("depth", "=", "3", false)]));
    assert!(evaluate_conditions(&f, &vec![cond("depth", ">", "2", false)]));
    assert!(!evaluate_conditions(&f, &vec![cond("depth", "<", "3", false)]));
    // A non-numeric comparison value never matches.
    assert!(!evaluate_conditions(&f, &vec![cond("depth", "=", "deep", false)]));
}

#[test]
fn test_unknown_field_is_false() {
    let f = file("x", "file", "644", "1 B", "x", 1, None);
    assert!(!evaluate_conditions(&f, &vec![cond("owner", "=", "root", false)]));
}

#[test]
fn test_evaluate_process_conditions() {
    let process = ProcessInfo::new(1234, "node", 55, 1024 * 1024, "running");

    let conditions = vec![
        cond("name", "LIKE", "node", false),
        cond("status", "=", "running", false),
    ];
    assert!(evaluate_process_conditions(&process, &conditions));

    let bad_conditions = vec![cond("name", "=", "python", false)];
    assert!(!evaluate_process_conditions(&process, &bad_conditions));
}

#[test]
fn filesystem_test_evaluate_process_conditions() {
    let process = ProcessInfo::new(1234, "node", 55, 1024 * 1024, "running");

    let conditions = vec![cond("name", "=", "node", false)];
    assert!(evaluate_process_conditions(&process, &conditions));

    let bad_conditions = vec![cond("name", "=", "python", false)];
    assert!(!evaluate_process_conditions(&process, &bad_conditions));
}

#[test]
fn test_process_cpu_and_memory_conditions() {
    let process = ProcessInfo::new(7, "worker", 55, 2 * 1024 * 1024, "running");
    // cpu_usage is "5.5%": equality is tolerant to a tenth.
    assert!(evaluate_process_conditions(&process, &vec![cond("cpu_usage", "=", "5.5", false)]));
    assert!(evaluate_process_conditions(&process, &vec![cond("cpu_usage", "=", "5.59", false)]));
    assert!(!evaluate_process_conditions(&process, &vec![cond("cpu_usage", "=", "5.7", false)]));
    assert!(evaluate_process_conditions(&process, &vec![cond("cpu_usage", ">", "5", false)]));
    // memory_usage is "2 MB": unit-aware comparison.
    assert!(evaluate_process_conditions(&process, &vec![cond("memory_usage", "=", "2048 KB", false)]));
    assert!(evaluate_process_conditions(&process, &vec![cond("memory_usage", ">", "1 MB", false)]));
}

#[test]
fn test_evaluate_network_conditions() {
    let net_info = NetInfo::new("node", 3000, 1234);

    let conditions = vec![cond("port", "=", "3000", false)];
    assert!(evaluate_network_conditions(&net_info, &conditions));

    let bad_conditions = vec![cond("port", "=", "8080", false)];
    assert!(!evaluate_network_conditions(&net_info, &bad_conditions));
}

#[test]
fn test_network_is_null() {
    let anon = NetInfo {
        name: String::new(),
        port: "80".to_string(),
        pid: "1".to_string(),
    };
    assert!(evaluate_network_conditions(&anon, &vec![cond("name", "IS", "NULL", false)]));
    assert!(!evaluate_network_conditions(&anon, &vec![cond("name", "IS", "NULL", true)]));
    let named = NetInfo::new("nginx", 80, 1);
    assert!(!evaluate_network_conditions(&named, &vec![cond("name", "IS", "NULL", false)]));
    assert!(evaluate_network_conditions(&named, &vec![cond("name", "IS", "NULL", true)]));
}

#[test]
fn test_evaluate_application_conditions() {
    let app = ApplicationInfo::new(
        "Chrome",
        Some("100.0".to_string()),
        "/Applications/Google Chrome.app",
        Some(1024 * 1024),
        Some("Browser".to_string()),
    );

    let conditions = vec![cond("name", "LIKE", "%Chrome%", false)];
    assert!(evaluate_application_conditions(&app, &conditions));

    let bad_conditions = vec![cond("name", "=", "Firefox", false)];
    assert!(!evaluate_application_conditions(&app, &bad_conditions));
}

#[test]
fn test_application_absent_fields_are_false() {
    let app = ApplicationInfo::new("bare", None, "/opt/bare", None, None);
    assert!(!evaluate_application_conditions(&app, &vec![cond("version", "=", "1", false)]));
    assert!(!evaluate_application_conditions(&app, &vec![cond("category", "LIKE", "%", false)]));
    assert!(!evaluate_application_conditions(&app, &vec![cond("size", "=", "0 B", false)]));
}

#[test]
fn test_file_is_null() {
    // IS NULL holds exactly of empty or absent field values; IS NOT NULL
    // is its negation.
    let no_ext = file("README", "file", "644", "512 B", "README", 1, None);
    let with_ext = file("main.rs", "file", "644", "1 B", "main.rs", 1, Some("rs"));
    assert!(evaluate_conditions(&no_ext, &vec![cond("extension", "IS", "NULL", false)]));
    assert!(!evaluate_conditions(&no_ext, &vec![cond("extension", "IS", "NULL", true)]));
    assert!(!evaluate_conditions(&with_ext, &vec![cond("extension", "IS", "NULL", false)]));
    assert!(evaluate_conditions(&with_ext, &vec![cond("extension", "IS", "NULL", true)]));
    assert!(!evaluate_conditions(&with_ext, &vec![cond("name", "IS", "NULL", false)]));
    assert!(!evaluate_conditions(&with_ext, &vec![cond("depth", "IS", "NULL", false)]));
}
