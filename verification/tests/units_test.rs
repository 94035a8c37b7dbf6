use filetree::charts::ascii_bar_chart;
use filetree::export::{csv_escape, is_sensitive_export_path};
use filetree::fda::{build_fda_result, friendly_terminal_name};
use filetree::menu::{dropdown_item_text, key_to_action, menu_bar_cells, menus, render_row, Action, Key, KeyPress, MenuItem, ViewMode};
use filetree::models::ScanProgress;
use filetree::paths::PathEnv;
use filetree::progress::{
    compute_eta, compute_rates, format_duration_hms, format_eta, progress_bar_fill, scan_progress_percent,
    truncate_progress_path, EtaState, RateSnapshot, RateTracker,
};
use filetree::scan_cache::{ErrorPolicy, OwnerCache, ProgressThrottle};
use filetree::scan_traverse::cloud_skip_roots_for;
use filetree::scanner::{parse_df_line, parse_volumes_from_df};
use filetree::theme::{themes, Theme};

fn env() -> PathEnv {
    PathEnv { home: "/Users/tester".to_string(), cwd: "/Users/tester".to_string() }
}

#[test]
fn charts_test_ascii_bar_chart_zero_size() {
    let items = vec![("empty".to_string(), 0), ("full".to_string(), 100)];
    let lines = ascii_bar_chart(&items, 10, Some(100));
    assert_eq!(lines.len(), 2);
    assert!(lines[0].contains("empty"));
    assert!(lines[0].contains("0 B"));
    assert!(lines[1].contains('█'));
}

#[test]
fn test_csv_escape_quotes() {
    assert_eq!(csv_escape("hello"), "hello");
    assert_eq!(csv_escape("a,b"), "\"a,b\"");
    assert_eq!(csv_escape("say \"hi\""), "\"say \"\"hi\"\"\"");
}

#[test]
fn export_test_is_sensitive_export_path_ssh() {
    assert!(is_sensitive_export_path("~/.ssh/authorized_keys", &env()));
}

#[test]
fn fda_test_friendly_terminal_name() {
    assert_eq!(friendly_terminal_name("Apple_Terminal"), "Terminal");
    assert_eq!(friendly_terminal_name("iTerm.app"), "iTerm");
    assert_eq!(friendly_terminal_name("Warp"), "Warp");
}

#[test]
fn fda_test_build_fda_result_blocked() {
    let result = build_fda_result("Warp", vec!["/blocked".to_string()], 1);
    assert!(!result.has_access);
    assert!(result.message.contains("Warp"));
    assert!(!result.inconclusive);
}

#[test]
fn fda_test_build_fda_result_inconclusive() {
    let result = build_fda_result("Terminal", vec![], 0);
    assert!(result.has_access);
    assert!(result.inconclusive);
}

#[test]
fn render_row_positions_cells_after_separators() {
    let (text, spans) = render_row(&vec!["AA".to_string(), "BBB".to_string()], 2);
    assert_eq!(text, "AA  BBB");
    assert_eq!(spans, vec![(0, 2), (4, 3)]);
}

#[test]
fn render_row_single_cell_starts_at_zero() {
    let (text, spans) = render_row(&vec!["X".to_string()], 3);
    assert_eq!(text, "X");
    assert_eq!(spans, vec![(0, 1)]);
}

#[test]
fn menu_bar_cells_match_menu_count() {
    assert_eq!(menu_bar_cells().len(), menus().len());
}

#[test]
fn dropdown_item_text_pads_to_inner_width() {
    let item = MenuItem { label: "Quit", key: "q", action: Action::Quit };
    let line = dropdown_item_text(&item, 12);
    assert_eq!(line.chars().count(), 12);
    assert!(line.starts_with("Quit"));
    assert!(line.ends_with('q'));
}

#[test]
fn key_to_action_maps_quit_and_views() {
    let q = KeyPress { code: Key::Char('q'), shift: false };
    assert_eq!(key_to_action(q), Some(Action::Quit));
    let v2 = KeyPress { code: Key::Char('2'), shift: false };
    assert_eq!(key_to_action(v2), Some(Action::SetView(ViewMode::TopFiles)));
}

#[test]
fn key_to_action_distinguishes_sort_direction() {
    let lower = KeyPress { code: Key::Char('s'), shift: false };
    assert_eq!(key_to_action(lower), Some(Action::CycleSort));
    let upper = KeyPress { code: Key::Char('S'), shift: true };
    assert_eq!(key_to_action(upper), Some(Action::ToggleSortDir));
}

#[test]
fn every_menu_item_action_is_unique_or_intentional() {
    for menu in menus() {
        assert!(!menu.items.is_empty(), "menu {} has no items", menu.title);
    }
}

#[test]
fn test_scan_progress_percent_from_bytes() {
    assert_eq!(scan_progress_percent(0, Some(1_000_000_000), false), 0);
    assert_eq!(scan_progress_percent(500_000_000, Some(1_000_000_000), false), 50);
    assert_eq!(scan_progress_percent(2_000_000_000, Some(1_000_000_000), false), 99);
    assert_eq!(scan_progress_percent(500_000_000, Some(1_000_000_000), true), 100);
    assert_eq!(scan_progress_percent(100, None, false), 0);
}

#[test]
fn test_format_duration_hms() {
    assert_eq!(format_duration_hms(0), "00:00:00");
    assert_eq!(format_duration_hms(65), "00:01:05");
    assert_eq!(format_duration_hms(3661), "01:01:01");
}

fn per_sec(r: Option<filetree::progress::Rate>) -> Option<f64> {
    r.map(|x| x.count() as f64 / (x.elapsed_ns() as f64 / 1e9))
}

#[test]
fn test_compute_rates() {
    let rates = compute_rates(0, 0, 10_000, 50, 2_000_000_000);
    assert_eq!(per_sec(rates.bytes_per_sec), Some(5000.0));
    assert_eq!(per_sec(rates.items_per_sec), Some(25.0));

    let slow = compute_rates(0, 0, 100, 1, 100_000_000);
    assert_eq!(slow.bytes_per_sec, None);

    let zero_delta = compute_rates(100, 10, 100, 10, 2_000_000_000);
    assert_eq!(zero_delta.bytes_per_sec, None);
    assert_eq!(zero_delta.items_per_sec, None);
}

#[test]
fn test_compute_eta_states() {
    // 100 000 bytes per second, measured over one second.
    let rate = compute_rates(0, 0, 100_000, 0, 1_000_000_000).bytes_per_sec;
    let slow = compute_rates(0, 0, 100, 0, 1_000_000_000).bytes_per_sec;
    assert_eq!(compute_eta(0, Some(1_000_000), rate, 500_000_000, false), EtaState::Calculating);
    assert_eq!(compute_eta(0, Some(1_000_000), rate, 3_000_000_000, false), EtaState::Remaining(10));
    assert_eq!(compute_eta(0, None, rate, 5_000_000_000, false), EtaState::Unknown);
    assert_eq!(compute_eta(1_000_000, Some(1_000_000), rate, 5_000_000_000, false), EtaState::Calculating);
    assert_eq!(compute_eta(1_000_000, Some(1_000_000), rate, 5_000_000_000, true), EtaState::Done);
    assert_eq!(compute_eta(0, Some(1_000_000), slow, 5_000_000_000, false), EtaState::Calculating);
}

#[test]
fn test_format_eta() {
    assert_eq!(format_eta(EtaState::Unknown), "—");
    assert_eq!(format_eta(EtaState::Calculating), "calculating…");
    assert_eq!(format_eta(EtaState::Remaining(125)), "00:02:05");
    assert_eq!(format_eta(EtaState::Done), "00:00:00");
}

#[test]
fn test_truncate_progress_path_utf8() {
    assert_eq!(truncate_progress_path("short", 10), "short");
    assert_eq!(truncate_progress_path("café-path-very-long-name", 8), "café-pa…");
}

#[test]
fn test_rate_tracker_monotonic_and_snapshot() {
    let mut tracker = RateTracker::new();
    tracker.record_at(0, 0, 0);
    tracker.record_at(2_000_000_000, 10_000, 50);
    let snap = tracker.snapshot();
    assert_eq!(per_sec(snap.bytes_per_sec), Some(5000.0));
    assert_eq!(per_sec(snap.items_per_sec), Some(25.0));

    tracker.record_at(3_000_000_000, 5_000, 60);
    let snap_after_regress = tracker.snapshot();
    assert_eq!(per_sec(snap_after_regress.bytes_per_sec), Some(5000.0));

    tracker.reset();
    assert_eq!(tracker.snapshot(), RateSnapshot::default());
}

#[test]
fn test_rate_tracker_window_trim() {
    let mut tracker = RateTracker::new();
    tracker.record_at(0, 0, 0);
    tracker.record_at(6_000_000_000, 60_000, 300);
    let snap = tracker.snapshot();
    assert_eq!(snap.bytes_per_sec, None);
}

#[test]
fn test_progress_bar_fill() {
    assert_eq!(progress_bar_fill(50, 20), 10);
    assert_eq!(progress_bar_fill(100, 20), 20);
}

#[test]
fn owner_cache_reuses_lookup() {
    let cache = OwnerCache::default();
    let first = cache.lookup(0);
    let second = cache.lookup(0);
    assert_eq!(first, second);
}

#[test]
fn error_policy_suppresses_repeated_permission_denials() {
    let policy = ErrorPolicy::default();
    let mut progress = ScanProgress::default();
    let path = "/private/var/root";
    policy.record(&mut progress, path, "Permission denied: /private/var/root (os error 13)".to_string());
    policy.record(&mut progress, path, "Permission denied: /private/var/spool (os error 13)".to_string());
    policy.record(&mut progress, path, "Permission denied: /private/var/audit (os error 13)".to_string());
    assert_eq!(progress.errors.len(), 2);
    assert!(progress.errors[1].contains("suppressed"));
}

#[test]
fn error_policy_skips_dev_paths() {
    let policy = ErrorPolicy::default();
    let mut progress = ScanProgress::default();
    let emit = policy.record_io(&mut progress, "/dev/fd", "Cannot read directory", false, "Bad file descriptor (os error 9)");
    assert!(!emit);
    assert!(progress.errors.is_empty());
}

#[test]
fn progress_throttle_batches_counters() {
    let throttle = ProgressThrottle::default();
    throttle.record_file(100);
    throttle.record_file(50);
    throttle.record_dir();
    let (items, bytes, dirs) = throttle.take_pending();
    assert_eq!(items, 2);
    assert_eq!(bytes, 150);
    assert_eq!(dirs, 1);
}

#[test]
fn cloud_roots_skipped_for_broad_scan_not_explicit() {
    let home = "/Users/tester";
    let broad = cloud_skip_roots_for("/", Some(home));
    assert!(broad.iter().any(|p| p.ends_with("Library/CloudStorage")));
    assert!(broad.iter().any(|p| p.ends_with("Library/Mobile Documents")));

    let explicit = format!("{home}/Library/CloudStorage/SomeProvider-account");
    assert!(cloud_skip_roots_for(&explicit, Some(home)).is_empty());
    assert!(cloud_skip_roots_for(&format!("{home}/Library/CloudStorage"), Some(home)).is_empty());
}

#[test]
fn test_parse_df_line_rejects_short() {
    assert!(parse_df_line("too few").is_none());
}

#[test]
fn test_parse_volumes_from_df_filters_devfs() {
    let stdout = "Filesystem 1024-blocks Used Available Capacity Mounted on\n\
                  devfs 1 1 0 100% /dev\n\
                  /dev/disk1 1000 500 500 50% /\n";
    let volumes = parse_volumes_from_df(stdout);
    assert_eq!(volumes.len(), 1);
    assert_eq!(volumes[0].mount_point, "/");
}

#[test]
fn default_is_classic() {
    assert_eq!(Theme::default(), themes()[0]);
    assert_eq!(Theme::default().name, "classic");
}

#[test]
fn from_name_is_case_insensitive() {
    let all = themes();
    assert_eq!(Theme::from_name("nord"), Some(all[1]));
    assert_eq!(Theme::from_name("NORD"), Some(all[1]));
    assert_eq!(Theme::from_name("Gruvbox"), Some(all[2]));
    assert_eq!(Theme::from_name("does-not-exist"), None);
}

#[test]
fn next_and_prev_wrap_around() {
    let all = themes();
    let first = all[0];
    let last = all[all.len() - 1];
    assert_eq!(first.prev(), last);
    assert_eq!(last.next(), first);
}

#[test]
fn next_then_prev_is_identity() {
    for theme in themes() {
        assert_eq!(theme.next().prev(), theme);
    }
}

#[test]
fn all_theme_names_are_unique() {
    let all = themes();
    for (i, a) in all.iter().enumerate() {
        for b in &all[i + 1..] {
            assert_ne!(a.name, b.name, "duplicate theme name: {}", a.name);
        }
    }
}

#[test]
fn cycle_visits_every_theme_once() {
    let all = themes();
    let mut seen = Vec::new();
    let mut theme = all[0];
    for _ in 0..all.len() {
        seen.push(theme.name);
        theme = theme.next();
    }
    assert_eq!(theme, all[0], "cycle should return to the start");
    assert_eq!(seen.len(), all.len());
}

#[test]
fn eleven_themes_cycle_in_order() {
    let names = [
        "classic", "nord", "gruvbox", "solarized", "dracula", "tokyo-night", "catppuccin", "one-dark", "monokai",
        "monochrome", "light",
    ];
    assert_eq!(themes().len(), 11);
    let mut t = Theme::default();
    for name in names {
        assert_eq!(t.name, name);
        assert_eq!(t.next().prev(), t);
        t = t.next();
    }
    assert_eq!(t, Theme::default());
    assert_eq!(Theme::from_name("Tokyo-Night").map(|t| t.name), Some("tokyo-night"));
}
