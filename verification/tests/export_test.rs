use filetree::export::{export_csv, export_text, export_text_dated, export_warning, has_sensitive_paths, is_sensitive_export_path};
use filetree::models::ScanNode;
use filetree::paths::PathEnv;

/// A scanned directory holding `subdir/` and an eight-byte `readme.md`, as
/// the scanner fills it.
fn scanned_root(dir: &str) -> ScanNode {
    let mut root = ScanNode::new("scan", dir, true);
    let mut sub = ScanNode::new("subdir", &format!("{dir}/subdir"), true);
    sub.scan_complete = true;
    sub.owner = "tester".into();
    let mut readme = ScanNode::new("readme.md", &format!("{dir}/readme.md"), false);
    readme.size = 8;
    readme.allocated = 4096;
    readme.file_count = 1;
    readme.extension = "md".into();
    readme.owner = "tester".into();
    readme.mtime = 1_700_000_000;
    root.add_child(sub);
    root.add_child(readme);
    root.size = 8;
    root.allocated = 4096;
    root.file_count = 1;
    root.folder_count = 1;
    root.owner = "tester".into();
    root.scan_complete = true;
    root
}

fn parse_csv_row(line: &str) -> Vec<String> {
    line.split(',').map(|s| s.trim_matches('"').to_string()).collect()
}

#[test]
fn test_export_text() {
    let root = scanned_root("/tmp/scan");
    let text = export_text(&root, true, "/tmp/scan", false, &vec![]);
    assert!(text.contains("filetree Scan Report"));
    assert!(text.contains("readme.md"));
}

#[test]
fn test_export_text_redacted() {
    let root = scanned_root("/tmp/scan");
    let text = export_text(&root, true, "/tmp/scan", true, &vec![]);
    assert!(text.to_lowercase().contains("redacted"));
}

#[test]
fn export_text_dated_lists_depth_first_with_header() {
    let root = scanned_root("/tmp/scan");
    let text = export_text_dated(&root, true, "/tmp/scan", false, &vec![], "2024-01-02T03:04:05");
    let lines: Vec<_> = text.lines().collect();
    assert_eq!(lines[0], "filetree Scan Report");
    assert_eq!(lines[1], "Path: /tmp/scan");
    assert_eq!(lines[2], "Date: 2024-01-02T03:04:05");
    assert_eq!(lines[3], "Total size: 8 B");
    assert!(text.contains("readme.md"));
}

#[test]
fn test_export_csv() {
    let root = scanned_root("/tmp/scan");
    let csv = export_csv(&root, "/tmp/scan", false, &vec![]);
    assert!(csv.starts_with("path,name"));
    let lines: Vec<_> = csv.lines().collect();
    let header = parse_csv_row(lines[0]);
    let readme_line = lines.iter().find(|l| l.contains("readme.md")).expect("readme row");
    let row = parse_csv_row(readme_line);
    let idx = |name: &str| header.iter().position(|h| h == name).unwrap();
    assert_eq!(row[idx("name")], "readme.md");
    assert_eq!(row[idx("type")], "file");
    assert!(row[idx("size")].parse::<u64>().unwrap() > 0);
    assert!(row[idx("allocated")].parse::<u64>().unwrap() >= row[idx("size")].parse::<u64>().unwrap());
    assert!(!row[idx("owner")].is_empty());
    assert!(row[idx("percent_of_parent")].parse::<f64>().unwrap() > 0.0);
    assert_eq!(row[idx("is_symlink")], "false");
}

#[test]
fn test_export_csv_filters_out_of_root() {
    let mut root = scanned_root("/tmp/scan");
    let outside = ScanNode::new("outside.txt", "/outside/outside.txt", false);
    root.add_child(outside);
    let csv = export_csv(&root, "/tmp/scan", false, &vec!["/outside/outside.txt".to_string()]);
    assert!(!csv.contains("/outside/outside.txt"));
}

#[test]
fn test_export_csv_redacted_omits_owner() {
    let root = scanned_root("/tmp/scan");
    let csv = export_csv(&root, "/tmp/scan", true, &vec![]);
    for line in csv.lines().skip(1) {
        let row = parse_csv_row(line);
        assert_eq!(row[8], "");
    }
}

#[test]
fn test_export_warning_sensitive() {
    let mut root = ScanNode::new("root", "/Users/me", true);
    let child = ScanNode::new("mbox", "/Users/me/Library/Mail/mbox", false);
    root.add_child(child);
    let warning = export_warning(&root);
    assert!(warning.is_some());
    assert!(warning.unwrap().to_lowercase().contains("sensitive"));
    assert!(has_sensitive_paths(&root));
}

#[test]
fn export_test_test_is_sensitive_export_path_ssh() {
    let env = PathEnv { home: "/Users/me".to_string(), cwd: "/Users/me".to_string() };
    assert!(is_sensitive_export_path("~/.ssh/authorized_keys", &env));
}

#[test]
fn test_is_sensitive_export_path_normal() {
    let env = PathEnv { home: "/Users/me".to_string(), cwd: "/Users/me".to_string() };
    assert!(!is_sensitive_export_path("/tmp/scan/report.txt", &env));
}

#[test]
fn dotfile_in_home_is_sensitive() {
    let env = PathEnv { home: "/Users/me".to_string(), cwd: "/Users/me".to_string() };
    assert!(is_sensitive_export_path("/Users/me/.hidden-report.txt", &env));
    assert!(!is_sensitive_export_path("/Users/me/report.txt", &env));
}

#[test]
fn report_format_follows_the_extension_only_for_auto() {
    assert_eq!(filetree::export::report_format("auto", "/tmp/r.csv"), "csv");
    assert_eq!(filetree::export::report_format("auto", "/tmp/r.CSV"), "text");
    assert_eq!(filetree::export::report_format("auto", "/tmp/report.txt"), "text");
    assert_eq!(filetree::export::report_format("auto", "/tmp/.csv"), "text");
    assert_eq!(filetree::export::report_format("csv", "/tmp/r.txt"), "csv");
    assert_eq!(filetree::export::report_format("text", "/tmp/r.csv"), "text");
}
