use filetree::models::{ScanNode, SortKey, VolumeInfo};
use filetree::text_views::{
    cancelled_status, extension_lines, fda_banner_text, filter_bar_text, scan_status, status_line, top_files_lines, volume_row,
};
use filetree::tree_view::{build_tree_rows, filter_match_paths, path_listed, TreeViewConfig};

fn tree() -> ScanNode {
    let mut root = ScanNode::new("root", "/root", true);
    root.scan_complete = true;
    let mut docs = ScanNode::new("docs", "/root/docs", true);
    docs.scan_complete = true;
    let mut a = ScanNode::new("a.txt", "/root/docs/a.txt", false);
    a.size = 300;
    a.file_count = 1;
    a.extension = "txt".into();
    docs.add_child(a);
    docs.size = 300;
    docs.file_count = 1;
    let mut b = ScanNode::new("b.png", "/root/b.png", false);
    b.size = 100;
    b.file_count = 1;
    b.extension = "png".into();
    root.add_child(docs);
    root.add_child(b);
    root.size = 400;
    root.file_count = 2;
    root.folder_count = 1;
    root
}

fn cfg(expanded: Vec<&str>, filter: &str, filter_paths: Vec<String>) -> TreeViewConfig {
    TreeViewConfig {
        expanded: expanded.into_iter().map(String::from).collect(),
        filter: filter.to_string(),
        filter_paths,
        sort_key: SortKey::Size,
        sort_reverse: true,
    }
}

#[test]
fn tree_rows_walk_expanded_directories() {
    let root = tree();
    let rows = build_tree_rows(&root, &cfg(vec!["/root"], "", vec![]));
    let names: Vec<_> = rows.iter().map(|r| r.display_name.as_str()).collect();
    assert_eq!(names, vec!["v [D]root", "    ├── > [D]docs", "    └──   [F]b.png"]);
    assert_eq!(rows[0].pct_parent, "100.0%");
    assert_eq!(rows[1].pct_parent, "75.0%");
    assert_eq!(rows[1].pct_disk, "75.0%");
    assert_eq!(rows[1].bar, "███████░░░");
    assert_eq!(rows[2].bar, "██░░░░░░░░");
    assert_eq!(rows[2].ext, "png");
    assert_eq!(rows[1].ext, "");
    assert_eq!(rows[0].files, "2");

    let rows = build_tree_rows(&root, &cfg(vec!["/root", "/root/docs/"], "", vec![]));
    let names: Vec<_> = rows.iter().map(|r| r.display_name.as_str()).collect();
    assert_eq!(names[2], "    │   └──   [F]a.txt");
}

#[test]
fn tree_rows_follow_the_filter() {
    let root = tree();
    let paths = filter_match_paths(&root, "A.TX");
    assert!(path_listed(&paths, "/root/docs/a.txt"));
    assert!(path_listed(&paths, "/root/docs"));
    assert!(path_listed(&paths, "/root"));
    assert!(!path_listed(&paths, "/root/b.png"));
    let rows = build_tree_rows(&root, &cfg(vec!["/root", "/root/docs"], "A.TX", paths));
    assert_eq!(rows.len(), 3);
    assert!(filter_match_paths(&root, "").is_empty());
}

#[test]
fn unfinished_directory_hides_metrics() {
    let mut root = ScanNode::new("root", "/root", true);
    let pending = ScanNode::new("p", "/root/p", true);
    root.add_child(pending);
    let rows = build_tree_rows(&root, &cfg(vec!["/root"], "", vec![]));
    assert_eq!(rows[0].display_name, "v [D]root …");
    assert_eq!(rows[1].size, "…");
    assert_eq!(rows[1].pct_disk, "—");
    assert_eq!(rows[1].bar, "░░░░░░░░░░");
}

#[test]
fn status_and_messages() {
    let root = tree();
    assert_eq!(
        status_line(&root, false, true, SortKey::Size, true),
        "Path: /root | Total: 400 B | Files:      2 | Folders:      1 | Hidden: OFF | Follow symlinks: ON | Sort: size ↓"
    );
    assert_eq!(scan_status(false, "/x"), "Scanning /x (press c to cancel)");
    assert_eq!(scan_status(true, "/x"), "Rescanning /x (press c to cancel)");
    assert_eq!(cancelled_status(true), "Scan cancelled (partial results)");
    assert_eq!(fda_banner_text("No access"), "No access — Scan is running. [o] Open Settings  [Esc] Dismiss");
}

#[test]
fn top_files_and_extensions_views() {
    let root = tree();
    let lines = top_files_lines(Some(&root));
    assert_eq!(lines[0], "Top 100 Largest Files");
    assert_eq!(lines[1], "Labeled size chart (top 20)");
    assert!(lines.iter().any(|l| l == "  1.      300 B  ( 75.0%)  /root/docs/a.txt"));
    assert_eq!(lines.last().unwrap(), "Total files scanned: 2");
    assert_eq!(top_files_lines(None), vec!["No scan data".to_string()]);

    let ext = extension_lines(Some(&root));
    assert_eq!(ext[0], "Extensions — pie chart (labeled)");
    assert!(ext.iter().any(|l| l == "Details"));
    assert!(ext.iter().any(|l| l.starts_with("  .txt") && l.ends_with("(75.0%)")));
}

#[test]
fn volume_rows() {
    let v = VolumeInfo { name: "HD".into(), mount_point: "/".into(), total_bytes: 1000, used_bytes: 250, free_bytes: 750 };
    let row = volume_row(&v);
    assert_eq!(row.pct_disk, "25.0%");
    assert_eq!(row.bar, "███░░░░░░░░░");
    assert_eq!(row.files, "/");
}

#[test]
fn filter_bar_shows_none_or_the_filter() {
    assert_eq!(filter_bar_text(""), "Filter: none");
    assert_eq!(filter_bar_text("png"), "Filter: png");
}

#[test]
fn text_window_takes_more_lines_than_a_u16_counts() {
    let lines: Vec<String> = (0..70_000).map(|i| format!("line {i}")).collect();
    let (scroll, hint, shown) = filetree::text_views::text_window(&lines, u16::MAX, 10, 80);
    assert_eq!(scroll, u16::MAX);
    assert_eq!(hint, " (↑/↓ scroll 65535/69990)");
    assert_eq!(shown.len(), 10);
    assert_eq!(shown[0], "line 65535");
}

#[test]
fn expanded_set_adds_removes_and_toggles_without_duplicates() {
    let mut set: Vec<String> = vec!["/r".into()];
    filetree::tree_view::expand_path(&mut set, "/r/a".into());
    filetree::tree_view::expand_path(&mut set, "/r/a/".into());
    assert_eq!(set, vec!["/r".to_string(), "/r/a".to_string()]);
    filetree::tree_view::collapse_path(&mut set, "/r//a");
    assert_eq!(set, vec!["/r".to_string()]);
    filetree::tree_view::toggle_path(&mut set, "/r/b".into());
    assert_eq!(set, vec!["/r".to_string(), "/r/b".to_string()]);
    filetree::tree_view::toggle_path(&mut set, "/r/b".into());
    assert_eq!(set, vec!["/r".to_string()]);
}

#[test]
fn filter_paths_hold_each_path_once() {
    let mut root = ScanNode::new("root", "/root", true);
    let mut docs = ScanNode::new("docs", "/root/docs", true);
    docs.add_child(ScanNode::new("a1.txt", "/root/docs/a1.txt", false));
    docs.add_child(ScanNode::new("a2.txt", "/root/docs/a2.txt", false));
    root.add_child(docs);
    let paths = filter_match_paths(&root, "a");
    for (i, a) in paths.iter().enumerate() {
        for b in &paths[i + 1..] {
            assert_ne!(a, b);
        }
    }
    assert!(path_listed(&paths, "/root/docs/a1.txt"));
    assert!(path_listed(&paths, "/root/docs/a2.txt"));
    assert!(path_listed(&paths, "/root/docs"));
    assert_eq!(paths.iter().filter(|p| p.as_str() == "/root/docs").count(), 1);
}
