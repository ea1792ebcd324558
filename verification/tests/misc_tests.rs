use query_os::template::substitute_variables;
use query_os::weburl::{expand_path, expand_with_home, is_url, validate_url};

#[test]
fn test_is_url() {
    assert!(is_url("http://example.com/page"));
    assert!(is_url("https://example.com"));
    assert!(!is_url("ftp://example.com"));
    assert!(!is_url("/tmp"));
    assert!(!is_url("ps"));
}

#[test]
fn test_expand_path() {
    assert_eq!(expand_path("/tmp/test"), "/tmp/test");
    assert_eq!(expand_path("relative/path"), "relative/path");

    if let Some(home_dir) = dirs::home_dir() {
        let home_str = home_dir.to_string_lossy();
        assert_eq!(expand_path("~"), home_str);
        assert_eq!(
            expand_path("~/Documents"),
            format!("{}/Documents", home_str)
        );
        assert_eq!(
            expand_path("~/test/file"),
            format!("{}/test/file", home_str)
        );
    }
}

#[test]
fn test_expand_with_home_cases() {
    let home = Some("/home/someone".to_string());
    assert_eq!(expand_with_home("~", &home), "/home/someone");
    assert_eq!(expand_with_home("~/x", &home), "/home/someone/x");
    assert_eq!(expand_with_home("~x", &home), "~x");
    assert_eq!(expand_with_home("~/x", &None), "~/x");
}

#[test]
fn test_substitute_variables_basic() {
    let args = vec!["alpha".to_string(), "beta".to_string()];
    let out = substitute_variables("SELECT $1 FROM $2 WHERE $1 = 'x'", &args).unwrap();
    assert_eq!(out, "SELECT alpha FROM beta WHERE alpha = 'x'");
}

#[test]
fn test_substitute_variables_not_enough_args() {
    let args = vec!["alpha".to_string()];
    let err = substitute_variables("SELECT $2", &args).unwrap_err();
    assert!(err.contains("Not enough arguments"));
}

#[test]
fn test_substitute_variables_too_many_args() {
    let args = vec!["alpha".to_string(), "beta".to_string()];
    let err = substitute_variables("SELECT $1", &args).unwrap_err();
    assert!(err.contains("Too many arguments"));
}

#[test]
fn test_substitute_variables_multi_digit() {
    let args: Vec<String> = (1..=12).map(|i| format!("v{}", i)).collect();
    let mut template = String::new();
    for i in 1..=12 {
        template.push_str(&format!("${} ", i));
    }
    let out = substitute_variables(&template, &args).unwrap();
    assert_eq!(out, "v1 v2 v3 v4 v5 v6 v7 v8 v9 v10 v11 v12 ");
}

#[test]
fn test_dollar_zero_is_literal() {
    let args: Vec<String> = vec![];
    let out = substitute_variables("cost: $0", &args).unwrap();
    assert_eq!(out, "cost: $0");
}

#[test]
fn test_validate_url() {
    assert!(validate_url("https://example.com/docs").is_ok());
    assert!(validate_url("http://93.184.216.34/").is_ok());
    assert!(validate_url("not a url")
        .unwrap_err()
        .starts_with("Invalid URL: "));
    assert_eq!(
        validate_url("ftp://example.com").unwrap_err(),
        "Only HTTP and HTTPS URLs are allowed"
    );
    assert_eq!(
        validate_url("http://localhost:8080").unwrap_err(),
        "Localhost URLs are not allowed for security reasons"
    );
    assert_eq!(
        validate_url("http://127.0.0.1/").unwrap_err(),
        "Localhost URLs are not allowed for security reasons"
    );
    assert_eq!(
        validate_url("http://10.0.0.7/x").unwrap_err(),
        "Private IP addresses are not allowed"
    );
    assert_eq!(
        validate_url("http://172.20.1.2").unwrap_err(),
        "Private IP addresses are not allowed"
    );
    assert_eq!(
        validate_url("http://192.168.1.1").unwrap_err(),
        "Private IP addresses are not allowed"
    );
}
