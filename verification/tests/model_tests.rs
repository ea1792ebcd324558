use query_os::models::{ApplicationInfo, FileInfo, NetInfo, ProcessInfo, path_depth};
use query_os::size::{parse_size, parse_memory, size_eq, size_lt, SizeValue};

#[test]
fn test_format_size() {
    assert_eq!(FileInfo::format_size(0), "0 B");
    assert_eq!(FileInfo::format_size(512), "512 B");
    assert_eq!(FileInfo::format_size(1024), "1 KB");
    assert_eq!(FileInfo::format_size(1024 * 1024), "1 MB");
}

#[test]
fn test_format_size_fractions() {
    assert_eq!(FileInfo::format_size(1536), "1.50 KB");
    assert_eq!(FileInfo::format_size(1024 * 1024 + 512 * 1024), "1.50 MB");
    assert_eq!(FileInfo::format_size(1025), "1.00 KB");
}

#[test]
fn test_extract_extension() {
    assert_eq!(
        FileInfo::extract_extension("test.txt", false),
        Some("txt".to_string())
    );
    assert_eq!(
        FileInfo::extract_extension("document.pdf", false),
        Some("pdf".to_string())
    );
    assert_eq!(
        FileInfo::extract_extension("script.js", false),
        Some("js".to_string())
    );

    assert_eq!(
        FileInfo::extract_extension("archive.tar.gz", false),
        Some("gz".to_string())
    );
    assert_eq!(
        FileInfo::extract_extension("file.name.with.dots.txt", false),
        Some("txt".to_string())
    );

    assert_eq!(FileInfo::extract_extension("README", false), None);
    assert_eq!(FileInfo::extract_extension("Makefile", false), None);
    assert_eq!(FileInfo::extract_extension("Dockerfile", false), None);

    assert_eq!(FileInfo::extract_extension(".hidden", false), None);
    assert_eq!(FileInfo::extract_extension("file.", false), None);
    assert_eq!(FileInfo::extract_extension(".", false), None);
    assert_eq!(FileInfo::extract_extension("", false), None);

    assert_eq!(FileInfo::extract_extension("somedir", true), None);
    assert_eq!(FileInfo::extract_extension("dir.with.dots", true), None);

    assert_eq!(
        FileInfo::extract_extension("FILE.TXT", false),
        Some("txt".to_string())
    );
    assert_eq!(
        FileInfo::extract_extension("file.PDF", false),
        Some("pdf".to_string())
    );
}

#[test]
fn test_path_depth_segments() {
    // For a root R and a path R/a/b/file: R itself sits at depth 0 and the
    // file, whose relative path is "a/b/file", at depth 3.
    assert_eq!(path_depth(""), 0);
    assert_eq!(path_depth("a"), 1);
    assert_eq!(path_depth("a/b"), 2);
    assert_eq!(path_depth("a/b/file"), 3);
}

#[test]
fn test_process_info_new() {
    let process = ProcessInfo::new(1234, "node", 55, 1024 * 1024, "running");
    assert_eq!(process.pid, "1234");
    assert_eq!(process.name, "node");
    assert_eq!(process.cpu_usage, "5.5%");
    assert_eq!(process.memory_usage, "1 MB");
    assert_eq!(process.status, "running");
}

#[test]
fn test_process_info_format_memory() {
    assert_eq!(ProcessInfo::format_memory(0), "0 B");
    assert_eq!(ProcessInfo::format_memory(512), "512 B");
    assert_eq!(ProcessInfo::format_memory(1024), "1 KB");
    assert_eq!(ProcessInfo::format_memory(1024 * 1024), "1 MB");
    assert_eq!(ProcessInfo::format_memory(1024 * 1024 * 1024), "1 GB");
}

#[test]
fn test_net_info_new() {
    let net_info = NetInfo::new("node", 3000, 1234);
    assert_eq!(net_info.name, "node");
    assert_eq!(net_info.port, "3000");
    assert_eq!(net_info.pid, "1234");
}

#[test]
fn test_application_info_new() {
    let app = ApplicationInfo::new(
        "Test App",
        Some("1.0.0".to_string()),
        "/path/to/app",
        Some(1024),
        Some("Utility".to_string()),
    );

    assert_eq!(app.name, "Test App");
    assert_eq!(app.version, Some("1.0.0".to_string()));
    assert_eq!(app.path, "/path/to/app");
    assert_eq!(app.size, Some("1 KB".to_string()));
    assert_eq!(app.category, Some("Utility".to_string()));
}

#[test]
fn test_parse_size() {
    // Sizes are held exactly: mantissa, fraction digits, unit exponent.
    assert_eq!(parse_size("512 B").unwrap(), SizeValue { mant: 512, frac: 0, unit: 0 });
    assert_eq!(parse_size("1.00 KB").unwrap(), SizeValue { mant: 1, frac: 0, unit: 1 });
    assert_eq!(parse_size("1 MB").unwrap(), SizeValue { mant: 1, frac: 0, unit: 2 });
    assert_eq!(parse_size("2.5 GB").unwrap(), SizeValue { mant: 25, frac: 1, unit: 3 });
}

#[test]
fn test_parse_memory() {
    assert_eq!(parse_memory("512 B").unwrap(), SizeValue { mant: 512, frac: 0, unit: 0 });
    assert_eq!(parse_memory("1.00 KB").unwrap(), SizeValue { mant: 1, frac: 0, unit: 1 });
    assert_eq!(parse_memory("1 MB").unwrap(), SizeValue { mant: 1, frac: 0, unit: 2 });
}

#[test]
fn test_parse_size_errors() {
    assert_eq!(parse_size("garbage").unwrap_err(), "Invalid size format");
    assert_eq!(parse_size("1.2.3 KB").unwrap_err(), "Invalid number format");
    assert_eq!(parse_size(".").unwrap_err(), "Invalid number format");
}

#[test]
fn test_size_equality_both_directions() {
    let kb = parse_size("1 KB").unwrap();
    let bytes = parse_size("1024 B").unwrap();
    let half = parse_size("0.5 KB").unwrap();
    let half_bytes = parse_size("512 B").unwrap();
    assert!(size_eq(&kb, &bytes));
    assert!(size_eq(&bytes, &kb));
    assert!(size_eq(&half, &half_bytes));
    assert!(size_lt(&half, &kb));
    assert!(!size_lt(&kb, &half));
}
