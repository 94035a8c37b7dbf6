use filetree::models::{ExtensionStats, PatchKind, ScanNode, SortKey, TreePatch};
use filetree::paths::PathEnv;

fn env() -> PathEnv {
    PathEnv { home: "/Users/tester".to_string(), cwd: "/".to_string() }
}

fn make_tree() -> ScanNode {
    let mut root = ScanNode::new("root", "/root", true);
    root.scan_complete = true;
    root.size = 300;
    root.allocated = 350;
    let mut a = ScanNode::new("a.bin", "/root/a.bin", false);
    a.size = 200;
    a.allocated = 220;
    a.extension = "bin".into();
    a.owner = "alice".into();
    let mut b = ScanNode::new("b.txt", "/root/b.txt", false);
    b.size = 100;
    b.allocated = 120;
    b.extension = "txt".into();
    b.owner = "bob".into();
    b.mtime = 2;
    let mut c = ScanNode::new("c.txt", "/root/c.txt", false);
    c.size = 50;
    c.allocated = 60;
    c.extension = "txt".into();
    c.owner = "carol".into();
    c.mtime = 1;
    root.add_child(a);
    root.add_child(b);
    root.add_child(c);
    root
}

#[test]
fn test_sorted_children_by_size() {
    let root = make_tree();
    let names: Vec<_> = root.sorted_children(SortKey::Size, true).iter().map(|c| c.name.as_str()).collect();
    assert_eq!(names, vec!["a.bin", "b.txt", "c.txt"]);
}

#[test]
fn test_sorted_children_by_name() {
    let root = make_tree();
    let names: Vec<_> = root.sorted_children(SortKey::Name, false).iter().map(|c| c.name.as_str()).collect();
    assert_eq!(names, vec!["a.bin", "b.txt", "c.txt"]);
}

#[test]
fn test_sorted_children_by_extension() {
    let root = make_tree();
    let names: Vec<_> = root.sorted_children(SortKey::Extension, false).iter().map(|c| c.name.as_str()).collect();
    assert_eq!(names[0], "a.bin");
}

#[test]
fn test_filter_includes_root_when_name_matches() {
    let root = make_tree();
    let matches = root.filter_by_name("root", false);
    assert_eq!(matches.len(), 1);
    assert_eq!(matches[0].name, "root");
}

#[test]
fn test_find_by_path() {
    let root = make_tree();
    let found = root.find_by_path("/root/b.txt", &env());
    assert!(found.is_some());
    assert_eq!(found.unwrap().name, "b.txt");
}

#[test]
fn test_apply_patch_preserves_deeper_children() {
    let mut root = ScanNode::new("root", "/root", true);
    let mut child = ScanNode::new("child", "/root/child", true);
    child.children.push(ScanNode::new("grand", "/root/child/grand", false));
    root.children.push(child);

    let mut partial = ScanNode::new("root", "/root", true);
    partial.size = 100;
    partial.scan_complete = false;
    partial.children.push(ScanNode::new("child", "/root/child", true));
    partial.children[0].size = 100;
    partial.children[0].scan_complete = false;

    root.apply_patch(&TreePatch { kind: PatchKind::Listed, node: partial });
    assert_eq!(root.size, 100);
    assert_eq!(root.children[0].children.len(), 1);
    assert_eq!(root.children[0].children[0].name, "grand");
}

#[test]
fn test_apply_patch_subtree_recurses() {
    let mut root = ScanNode::new("root", "/root", true);
    root.children.push(ScanNode::new("child", "/root/child", true));

    let mut partial_child = ScanNode::new("child", "/root/child", true);
    partial_child.size = 50;
    partial_child.children.push(ScanNode::new("leaf", "/root/child/leaf", false));

    let mut partial = ScanNode::new("root", "/root", true);
    partial.children.push(partial_child);

    root.apply_patch(&TreePatch { kind: PatchKind::Subtree, node: partial });
    assert_eq!(root.children[0].size, 50);
    assert_eq!(root.children[0].children.len(), 1);
    assert_eq!(root.children[0].children[0].name, "leaf");
}

#[test]
fn test_apply_listed_patch_dedupes_and_is_idempotent() {
    let mut root = ScanNode::new("root", "/root", true);
    let make_patch = |size: u64| {
        let mut node = ScanNode::new("root", "/root", true);
        for i in 0..500 {
            let mut c = ScanNode::new(&format!("f{i}"), &format!("/root/f{i}"), false);
            c.size = size;
            node.children.push(c);
        }
        TreePatch { kind: PatchKind::Listed, node }
    };

    root.apply_patch(&make_patch(1));
    assert_eq!(root.children.len(), 500);

    root.apply_patch(&make_patch(7));
    assert_eq!(root.children.len(), 500, "re-applied listing must not duplicate");
    assert!(root.children.iter().all(|c| c.size == 7), "stats updated in place");
}

#[test]
fn test_find_by_path_directed_descent_and_miss() {
    let mut root = ScanNode::new("root", "/root", true);
    let mut a = ScanNode::new("a", "/root/a", true);
    let mut b = ScanNode::new("b", "/root/a/b", true);
    b.children.push(ScanNode::new("c.txt", "/root/a/b/c.txt", false));
    a.children.push(b);
    root.children.push(a);

    assert_eq!(root.find_by_path("/root/a/b/c.txt", &env()).unwrap().name, "c.txt");
    assert!(root.find_by_path("/root/a/x/c.txt", &env()).is_none());
    assert!(root.find_by_path("/other", &env()).is_none());
}

#[test]
fn test_find_by_path_collapses_private_firmlink() {
    let mut var_root = ScanNode::new("var", "/var", true);
    var_root.children.push(ScanNode::new("log", "/var/log", true));
    assert_eq!(var_root.find_by_path("/private/var/log", &env()).unwrap().name, "log");

    let mut private_root = ScanNode::new("var", "/private/var", true);
    private_root.children.push(ScanNode::new("log", "/private/var/log", true));
    assert_eq!(private_root.find_by_path("/var/log", &env()).unwrap().name, "log");
}

#[test]
fn test_extension_stats_display_name() {
    assert_eq!(ExtensionStats { extension: "txt".into(), total_size: 1, file_count: 1 }.display_name(), "txt");
    assert_eq!(
        ExtensionStats { extension: String::new(), total_size: 1, file_count: 1 }.display_name(),
        "(no extension)"
    );
}

#[test]
fn errors_past_the_limit_are_still_counted() {
    let mut p = filetree::models::ScanProgress::default();
    for i in 0..40 {
        p.push_error(format!("e{i}"));
    }
    assert_eq!(p.errors.len(), 32);
    let s = p.snapshot();
    assert_eq!(s.error_count, 40);
    assert_eq!(s.first_error.as_deref(), Some("e0"));
}

#[test]
fn metadata_fills_once_from_a_stat() {
    let mut f = ScanNode::new("Photo.JPG", "/p/Photo.JPG", false);
    filetree::scan_cache::fill_metadata_from(&mut f, "me".into(), 1_700_000_000, 5000, 16);
    assert_eq!(f.owner, "me");
    assert_eq!(f.mtime, 1_700_000_000);
    assert_eq!(f.extension, "jpg");
    assert_eq!(f.size, 5000);
    assert_eq!(f.allocated, 8192);
    assert!(f.metadata_loaded);
    filetree::scan_cache::fill_metadata_from(&mut f, "other".into(), 1, 1, 1);
    assert_eq!(f.owner, "me");
    assert_eq!(f.size, 5000);
    let mut d = ScanNode::new("docs", "/p/docs", true);
    d.size = 42;
    filetree::scan_cache::fill_metadata_from(&mut d, "me".into(), 7, 4096, 8);
    assert_eq!(d.size, 42);
    assert_eq!(d.extension, "");
    assert!(d.metadata_loaded);
}

#[test]
fn index_path_reaches_the_found_node_and_rescan_replaces_totals() {
    let mut root = ScanNode::new("root", "/root", true);
    let mut sub = ScanNode::new("sub", "/root/sub", true);
    sub.add_child(ScanNode::new("old.txt", "/root/sub/old.txt", false));
    root.add_child(ScanNode::new("a.txt", "/root/a.txt", false));
    root.add_child(sub);
    assert_eq!(root.find_index_path("/root", &env()), Some(vec![]));
    assert_eq!(root.find_index_path("/root/sub/old.txt", &env()), Some(vec![1, 0]));
    assert_eq!(root.find_index_path("/root/missing", &env()), None);
    assert_eq!(root.find_index_path("/elsewhere", &env()), None);

    let node = &mut root.children[1];
    node.owner = "me".into();
    let mut fresh = node.rescan_base();
    assert_eq!(fresh.owner, "me");
    assert!(fresh.children.is_empty());
    let mut f = ScanNode::new("new.bin", "/root/sub/new.bin", false);
    f.size = 10;
    fresh.add_child(f);
    fresh.size = 10;
    fresh.file_count = 1;
    node.take_rescan(fresh);
    assert_eq!(node.children.len(), 1);
    assert_eq!(node.children[0].name, "new.bin");
    assert_eq!(node.size, 10);
    assert_eq!(node.file_count, 1);
    assert!(node.scan_complete);
    assert_eq!(node.owner, "me");
}

#[test]
fn find_by_path_mut_edits_the_found_node_in_place() {
    let mut root = ScanNode::new("root", "/root", true);
    let mut sub = ScanNode::new("sub", "/root/sub", true);
    sub.add_child(ScanNode::new("f.txt", "/root/sub/f.txt", false));
    root.add_child(sub);
    match root.find_by_path_mut("/root/sub/f.txt", &env()) {
        Some(n) => n.size = 77,
        None => panic!("node not found"),
    }
    assert_eq!(root.children[0].children[0].size, 77);
    assert!(root.find_by_path_mut("/root/none", &env()).is_none());
    assert_eq!(root.find_by_path_mut("/root", &env()).map(|n| n.name.clone()), Some("root".to_string()));
}
