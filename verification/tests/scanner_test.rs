use filetree::charts::{ascii_bar_chart, labeled_children_chart, labeled_pie_legend};
use filetree::models::{ScanNode, SortKey};
use filetree::scan_cache::get_file_extension;
use filetree::scanner::{
    collect_extension_stats, collect_largest_files, format_bytes, is_volume_mount_root, parse_df_line,
    parse_volumes_from_df, root_volume_from_stats, volume_total_for_full_scan,
};

/// The sample tree as a scan of it gives: `subdir/nested.txt` (11 bytes),
/// `readme.md` (8 bytes) and `image.png` (104 bytes).
fn sample_root() -> ScanNode {
    let mut root = ScanNode::new("tmp", "/tmp/sample", true);
    let mut sub = ScanNode::new("subdir", "/tmp/sample/subdir", true);
    let mut nested = ScanNode::new("nested.txt", "/tmp/sample/subdir/nested.txt", false);
    nested.size = 11;
    nested.allocated = 4096;
    nested.file_count = 1;
    nested.extension = "txt".into();
    sub.add_child(nested);
    sub.size = 11;
    sub.allocated = 4096;
    sub.file_count = 1;
    sub.scan_complete = true;
    let mut readme = ScanNode::new("readme.md", "/tmp/sample/readme.md", false);
    readme.size = 8;
    readme.allocated = 4096;
    readme.file_count = 1;
    readme.extension = "md".into();
    let mut png = ScanNode::new("image.png", "/tmp/sample/image.png", false);
    png.size = 104;
    png.allocated = 4096;
    png.file_count = 1;
    png.extension = "png".into();
    root.add_child(sub);
    root.add_child(readme);
    root.add_child(png);
    root.size = 123;
    root.allocated = 3 * 4096;
    root.file_count = 3;
    root.folder_count = 1;
    root.scan_complete = true;
    root
}

#[test]
fn test_format_bytes() {
    assert_eq!(format_bytes(0), "0 B");
    assert_eq!(format_bytes(-100), "0 B");
    assert_eq!(format_bytes(512), "512 B");
    assert_eq!(format_bytes(1024), "1.0 KB");
    assert_eq!(format_bytes(1536), "1.5 KB");
    assert_eq!(format_bytes(2 * 1024 * 1024), "2.0 MB");
}

#[test]
fn test_get_file_extension_edge_cases() {
    let cases = [
        ("file.txt", "txt"),
        ("archive.tar.gz", "gz"),
        (".gitignore", "gitignore"),
        ("noext", ""),
        ("", ""),
        ("..", ""),
        ("file.", ""),
    ];
    for (name, expected) in cases {
        assert_eq!(get_file_extension(name), expected, "input={name}");
    }
}

#[test]
fn test_sorted_children() {
    let root = sample_root();
    let by_size: Vec<_> = root.sorted_children(SortKey::Size, true).iter().map(|c| c.name.as_str()).collect();
    assert_eq!(by_size[0], "image.png");
    assert_eq!(by_size.last().unwrap(), &"readme.md");
    let by_name: Vec<_> = root.sorted_children(SortKey::Name, false).iter().map(|c| c.name.as_str()).collect();
    assert_eq!(by_name, vec!["image.png", "readme.md", "subdir"]);
}

#[test]
fn test_collect_largest_files() {
    let root = sample_root();
    let largest = collect_largest_files(&root, 2);
    assert_eq!(largest.len(), 2);
    assert_eq!(largest[0].name, "image.png");
    assert!(largest[0].size >= largest[1].size);
}

#[test]
fn test_collect_extension_stats() {
    let root = sample_root();
    let stats: std::collections::HashMap<_, _> =
        collect_extension_stats(&root).into_iter().map(|s| (s.extension.clone(), s)).collect();
    assert_eq!(stats["png"].file_count, 1);
    assert!(stats["png"].total_size > 100);
    assert_eq!(stats["md"].file_count, 1);
    assert_eq!(stats["txt"].file_count, 1);
}

#[test]
fn test_ascii_bar_chart() {
    assert_eq!(ascii_bar_chart(&vec![], 10, None), vec!["(no data)".to_string()]);
    let items = vec![("txt".to_string(), 100), ("png".to_string(), 50)];
    let lines = ascii_bar_chart(&items, 10, None);
    assert_eq!(lines.len(), 2);
    assert!(lines[0].contains("txt"));
    assert!(lines[0].contains('█'));
}

#[test]
fn scanner_test_test_ascii_bar_chart_zero_size() {
    let items = vec![("empty".to_string(), 0), ("full".to_string(), 100)];
    let lines = ascii_bar_chart(&items, 10, Some(100));
    assert_eq!(lines.len(), 2);
    assert!(lines[0].contains("empty"));
    assert!(lines[0].contains("0 B"));
    assert!(lines[1].contains('█'));
}

#[test]
fn test_labeled_children_chart() {
    let root = sample_root();
    let lines = labeled_children_chart(&root, 28, 16);
    assert!(lines.iter().any(|l| l.contains("Total:")));
    assert!(lines.iter().any(|l| l.contains('█')));
}

#[test]
fn test_labeled_pie_legend() {
    let items = vec![("txt".to_string(), 100), ("png".to_string(), 50)];
    let lines = labeled_pie_legend(&items, 10, 12);
    assert!(lines.len() >= 2);
    assert!(lines[1].contains("txt"));
    assert!(lines[1].contains('%'));
}

#[test]
fn test_parse_df_line_spaced_mount() {
    let line = "/dev/disk1 1000000 500000 500000 50% /Volumes/My Drive";
    let parsed = parse_df_line(line).unwrap();
    assert_eq!(parsed.4, "/Volumes/My Drive");
    assert_eq!(parsed.1, 1000000);
}

#[test]
fn test_parse_volumes_from_df_mocked() {
    let stdout = "Filesystem 1024-blocks Used Available Capacity Mounted on\n\
                  /dev/disk3s1 1000000 400000 600000 40% /System/Volumes/Data\n\
                  map auto_home 0 0 0 100% /System/Volumes/Data/home\n";
    let volumes = parse_volumes_from_df(stdout);
    assert_eq!(volumes.len(), 1);
    assert_eq!(volumes[0].total_bytes, 1000000 * 1024);
    assert_eq!(volumes[0].used_bytes, 400000 * 1024);
}

#[test]
fn test_volume_total_for_full_scan_subdirectory() {
    let mounts = vec!["/".to_string(), "/System/Volumes/Data".to_string()];
    assert!(volume_total_for_full_scan("/tmp/somewhere/sub", &mounts, Some(1000)).is_none());
}

#[test]
fn volume_total_for_mount_points() {
    let mounts = vec!["/System/Volumes/Data".to_string()];
    assert_eq!(volume_total_for_full_scan("/", &vec![], Some(1000)), Some(1000));
    assert!(is_volume_mount_root("/System/Volumes/Data/", &mounts));
    assert_eq!(volume_total_for_full_scan("/System/Volumes/Data", &mounts, Some(77)), Some(77));
    assert!(!is_volume_mount_root("/System/Volumes", &mounts));
}

#[test]
fn root_volume_from_statistics() {
    let v = root_volume_from_stats(1000, 250, 4096);
    assert_eq!(v.name, "Macintosh HD");
    assert_eq!(v.mount_point, "/");
    assert_eq!(v.total_bytes, 4_096_000);
    assert_eq!(v.free_bytes, 1_024_000);
    assert_eq!(v.used_bytes, 3_072_000);
    let odd = root_volume_from_stats(10, 20, 1);
    assert_eq!(odd.used_bytes, 0);
}

#[test]
fn extensions_are_lower_cased() {
    assert_eq!(get_file_extension("A.TXT"), "txt");
    assert_eq!(get_file_extension(".BashRC"), "bashrc");
    assert_eq!(get_file_extension("photo.JpEg"), "jpeg");
    assert!(filetree::scan_cache::is_permission_text("EACCES: Permission Denied"));
    assert!(!filetree::scan_cache::is_permission_text("No such file"));
}
