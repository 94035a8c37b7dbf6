use filetree::fda::{
    build_fda_result, fda_fallback_probe, fda_from_probes, fda_probe_paths, friendly_terminal_name,
    non_macos_fda_result, terminal_app_name, ProbeOutcome,
};

#[test]
fn test_fda_probe_paths_defined() {
    assert!(fda_probe_paths("/Users/tester").len() >= 2);
}

#[test]
fn test_check_full_disk_access_non_macos() {
    let result = non_macos_fda_result();
    assert!(result.has_access);
    assert!(result.message.contains("macOS"));
}

#[test]
fn fda_test_test_build_fda_result_blocked() {
    let result = build_fda_result("Warp", vec!["/blocked".to_string()], 1);
    assert!(!result.has_access);
    assert!(!result.blocked_paths.is_empty());
    assert!(result.message.contains("Full Disk Access"));
    assert!(result.message.contains("Warp"));
    assert!(!result.inconclusive);
}

#[test]
fn test_build_fda_result_granted() {
    let result = build_fda_result("Terminal", vec![], 2);
    assert!(result.has_access);
    assert!(result.blocked_paths.is_empty());
    assert!(!result.inconclusive);
}

#[test]
fn fda_test_test_build_fda_result_inconclusive() {
    let result = build_fda_result("Terminal", vec![], 0);
    assert!(result.has_access);
    assert!(result.inconclusive);
    assert!(result.message.contains("Could not verify"));
}

#[test]
fn fda_test_test_friendly_terminal_name() {
    assert_eq!(friendly_terminal_name("Apple_Terminal"), "Terminal");
    assert_eq!(friendly_terminal_name("iTerm.app"), "iTerm");
    assert_eq!(friendly_terminal_name("Warp"), "Warp");
}

#[test]
fn test_get_terminal_app_name_env() {
    assert_eq!(terminal_app_name(Some("Apple_Terminal"), None), "Terminal");
    assert_eq!(terminal_app_name(Some("iTerm.app"), None), "iTerm");
}

#[test]
fn test_fda_message_includes_terminal_name() {
    let result = build_fda_result("Warp", vec!["/Library/Mail".to_string()], 1);
    assert!(!result.has_access);
    assert!(result.message.contains("Warp"));
}

#[test]
fn terminal_name_falls_back_to_bundle_then_phrase() {
    assert_eq!(terminal_app_name(Some(""), Some("com.apple.Terminal")), "Terminal");
    assert_eq!(terminal_app_name(None, Some("dev.warp.Warp")), "Warp");
    assert_eq!(terminal_app_name(None, None), "your terminal application");
    assert_eq!(friendly_terminal_name("My_Term"), "My Term");
}

#[test]
fn fallback_probe_uses_home_library() {
    assert_eq!(fda_fallback_probe(Some("/Users/tester")), "/Users/tester/Library");
    assert_eq!(fda_fallback_probe(None), "~/Library");
}

#[test]
fn probes_decide_access() {
    let probes = vec![
        ProbeOutcome { path: "/a".to_string(), exists: true, blocked: false },
        ProbeOutcome { path: "/b".to_string(), exists: true, blocked: true },
    ];
    let r = fda_from_probes("Warp", &probes, None);
    assert!(!r.has_access);
    assert_eq!(r.blocked_paths, vec!["/b".to_string()]);
}
