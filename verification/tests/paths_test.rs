use filetree::paths::{delete_denied_prefixes, delete_target_check, is_ancestor, is_delete_protected, is_under_scan_root, strip_private_prefix, DeniedPrefix};

fn denied() -> Vec<DeniedPrefix> {
    delete_denied_prefixes()
        .into_iter()
        .map(|p| DeniedPrefix { label: p.to_string(), resolved: p.to_string() })
        .collect()
}

const HOME: &str = "/Users/tester";

#[test]
fn test_is_under_scan_root() {
    let root = "/tmp/t1/scan";
    let child = "/tmp/t1/scan/child";
    assert!(is_under_scan_root(child, root));
    assert!(!is_under_scan_root("/tmp/t1/outside", root));
}

#[test]
fn test_delete_blocked_scan_root() {
    let scan_root = "/tmp/t2/project";
    let (protected, reason) = is_delete_protected(scan_root, scan_root, HOME, &denied());
    assert!(protected);
    assert!(reason.to_lowercase().contains("scan root"));
}

#[test]
fn test_delete_blocked_system_outside_scan_root() {
    let (protected, reason) = is_delete_protected("/usr/local/bin", "/tmp/t3", HOME, &denied());
    assert!(protected);
    assert!(reason.to_lowercase().contains("outside") || reason.to_lowercase().contains("protected"));
}

#[test]
fn test_delete_blocked_home() {
    let home = "/tmp/t4/home";
    let (protected, reason) = is_delete_protected(home, "/tmp/t4/scan", home, &denied());
    assert!(protected);
    assert!(reason.to_lowercase().contains("home"));
}

#[test]
fn test_delete_allowed_under_scan_root() {
    let (protected, reason) = is_delete_protected("/tmp/t5/scan/cache", "/tmp/t5/scan", HOME, &denied());
    assert!(!protected, "{reason}");
}

#[test]
fn test_delete_blocked_ancestor_of_scan_root() {
    let (protected, reason) = is_delete_protected("/tmp/t6/parent", "/tmp/t6/parent/child", HOME, &denied());
    assert!(protected);
    assert!(reason.to_lowercase().contains("ancestor"));
}

#[test]
fn delete_blocked_filesystem_root_and_system_prefix() {
    let (p, r) = is_delete_protected("/", "/tmp/t7", HOME, &denied());
    assert!(p);
    assert_eq!(r, "Cannot delete filesystem root");
    let (p, r) = is_delete_protected("/usr/local/bin", "/tmp/t7", HOME, &denied());
    assert!(p);
    assert_eq!(r, "Cannot delete protected system path: /usr");
    let (p, r) = is_delete_protected("/opt/x", "/tmp/t7", HOME, &denied());
    assert!(p);
    assert_eq!(r, "Path is outside the scan root");
}

#[test]
fn test_is_ancestor() {
    let ancestor = "/tmp/t8/parent";
    let descendant = "/tmp/t8/parent/child";
    assert!(is_ancestor(ancestor, descendant));
    assert!(!is_ancestor(descendant, ancestor));
    assert!(!is_ancestor(ancestor, ancestor));
}

#[test]
fn test_is_ancestor_self_not_ancestor() {
    let path = "/tmp/t9/dir";
    assert!(!is_ancestor(path, path));
}

#[test]
fn test_strip_private_prefix() {
    let p = strip_private_prefix("/private/var/tmp");
    assert_eq!(p, "/var/tmp");
}

#[test]
fn delete_target_check_refuses_in_order() {
    let d = denied();
    let check = |exists: bool, entry: Result<(bool, bool), String>, canonical: &str, expect_dir: bool| {
        delete_target_check(exists, entry, canonical, "/s", "/Users/t", &d, expect_dir)
    };
    assert_eq!(check(false, Err("gone".into()), "/s/a", false).as_deref(), Some("Path no longer exists"));
    assert_eq!(check(true, Err("denied".into()), "/s/a", false).as_deref(), Some("denied"));
    assert_eq!(
        check(false, Ok((true, false)), "/s/link", false).as_deref(),
        Some("Cannot delete symlinks (refuse to follow)")
    );
    assert_eq!(check(true, Ok((false, true)), "/s", true).as_deref(), Some("Cannot delete the scan root"));
    assert_eq!(
        check(true, Ok((false, false)), "/s/a", true).as_deref(),
        Some("Expected directory but path is no longer a directory")
    );
    assert_eq!(check(true, Ok((false, true)), "/s/a", false).as_deref(), Some("Expected file but path is no longer a file"));
    assert_eq!(check(true, Ok((false, true)), "/s/a", true), None);
    assert_eq!(check(true, Ok((false, false)), "/s/a.txt", false), None);
}
