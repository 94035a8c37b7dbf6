use filetree::progress::{
    build_scan_progress_panel, compute_eta, compute_rates, format_duration_hms, format_eta, scan_panel_cancelled,
    scan_progress_bar_width, scan_progress_inner_width, scan_progress_path_max_chars, scan_progress_percent,
    truncate_progress_path, EtaState, Rate, RateSnapshot, ScanProgressPanelInput,
};

/// The activity bar shown without a known total, as the front end computes
/// it from the item count.
fn activity_fill(items: u64, bar_width: usize) -> usize {
    let bar_w = bar_width.max(4);
    let w = ((items as f64 + 1.0).log10() * (bar_w as f64 / 4.0)).round() as usize;
    w.clamp(1, bar_w.saturating_sub(1).max(1))
}

/// Rates of `bytes` and `items` per second.
fn rates(bytes: u64, items: u64) -> RateSnapshot {
    compute_rates(0, 0, bytes, items, 1_000_000_000)
}

#[allow(clippy::too_many_arguments)]
fn input(
    bytes_scanned: u64,
    scanned_items: u64,
    scanned_dirs: u64,
    current_path: &str,
    error_count: usize,
    volume_total: Option<u64>,
    elapsed_secs: u64,
    rates: RateSnapshot,
    bar_width: usize,
    path_max_chars: usize,
    max_line_width: usize,
    complete: bool,
    cancelled: bool,
) -> ScanProgressPanelInput {
    ScanProgressPanelInput {
        bytes_scanned,
        scanned_items,
        scanned_dirs,
        current_path: current_path.to_string(),
        error_count,
        volume_total,
        elapsed_ns: elapsed_secs * 1_000_000_000,
        rates,
        activity_fill: activity_fill(scanned_items, bar_width),
        bar_width,
        path_max_chars,
        max_line_width,
        complete,
        cancelled,
    }
}

fn assert_line_fits(line: &str, max_width: usize) {
    assert!(line.chars().count() <= max_width, "line too wide ({} > {}): {line}", line.chars().count(), max_width);
}

#[test]
fn test_build_scan_progress_panel_with_total() {
    let panel = build_scan_progress_panel(&input(
        500_000_000, 1200, 40, "/Users/me/Documents/report.pdf", 2, Some(1_000_000_000), 120,
        rates(50_000, 10), 20, 40, 80, false, false,
    ));
    assert_eq!(panel.title, "Scanning");
    assert!(panel.bar_line.contains("50%"));
    assert!(panel.data_line.contains(" / "));
    assert!(panel.items_line.contains("10.0 items/s"));
    assert!(panel.time_line.contains("Elapsed: 00:02:00"));
    assert!(panel.path_line.contains("Current:"));
    assert_eq!(panel.errors_line.as_deref(), Some("Errors: 2"));
}

#[test]
fn test_build_scan_progress_panel_without_total() {
    let panel = build_scan_progress_panel(&input(
        1_500_000, 10, 2, "/tmp", 0, None, 5, RateSnapshot::default(), 16, 30, 60, false, false,
    ));
    assert!(panel.bar_line.contains("scanning…"));
    assert!(panel.data_line.contains("scanned"));
    assert!(panel.errors_line.is_none());
}

#[test]
fn test_build_scan_progress_panel_cancelled() {
    let panel = build_scan_progress_panel(&input(
        100, 5, 1, "/tmp", 0, None, 3, RateSnapshot::default(), 10, 20, 40, false, true,
    ));
    assert_eq!(panel.title, "Cancelling…");
}

#[test]
fn test_build_scan_progress_panel_complete() {
    let panel = build_scan_progress_panel(&input(
        1_000_000_000, 1000, 10, "/", 0, Some(1_000_000_000), 60, rates(1_000_000, 20), 20, 40, 80, true, false,
    ));
    assert!(panel.bar_line.contains("100%"));
    assert!(panel.time_line.contains("ETA: 00:00:00"));
}

#[test]
fn test_scan_progress_layout_narrow_widths() {
    let path = "/Users/me/Development/filetree-mac/src/app.rs";
    for width in [20u16, 40, 80] {
        let inner = scan_progress_inner_width(width);
        let panel = build_scan_progress_panel(&input(
            500_000_000, 1200, 40, path, 0, Some(1_000_000_000), 120, rates(50_000, 10),
            scan_progress_bar_width(inner, "50%"), scan_progress_path_max_chars(inner), inner, false, false,
        ));
        assert_line_fits(&panel.bar_line, inner);
        assert_line_fits(&panel.data_line, inner);
        assert_line_fits(&panel.items_line, inner);
        assert_line_fits(&panel.time_line, inner);
        assert_line_fits(&panel.path_line, inner);
    }
}

#[test]
fn test_scan_panel_cancelled_immediate() {
    assert!(scan_panel_cancelled(true, false));
    assert!(scan_panel_cancelled(false, true));
    assert!(!scan_panel_cancelled(false, false));

    let panel = build_scan_progress_panel(&input(
        100, 5, 1, "/tmp", 0, None, 1, RateSnapshot::default(), 10, 20, 40, false, scan_panel_cancelled(true, false),
    ));
    assert_eq!(panel.title, "Cancelling…");
}

/// A rate in whole units per second.
fn per_sec(r: Option<Rate>) -> Option<u64> {
    r.map(|x| x.count() * 1_000_000_000 / x.elapsed_ns())
}

#[test]
fn test_progress_percent_integration() {
    assert_eq!(scan_progress_percent(250_000_000, Some(1_000_000_000), false), 25);
    assert_eq!(scan_progress_percent(900_000_000, Some(1_000_000_000), true), 100);
}

#[test]
fn test_rate_and_eta_integration() {
    let rates = compute_rates(0, 0, 20_000, 100, 4_000_000_000);
    assert_eq!(per_sec(rates.bytes_per_sec), Some(5000));
    assert_eq!(per_sec(rates.items_per_sec), Some(25));

    let eta = compute_eta(100_000, Some(1_000_000), rates.bytes_per_sec, 5_000_000_000, false);
    assert_eq!(eta, EtaState::Remaining(180));
    assert_eq!(format_eta(eta), "00:03:00");
}

#[test]
fn test_eta_states_integration() {
    let rate = compute_rates(0, 0, 1000, 0, 1_000_000_000).bytes_per_sec;
    assert_eq!(per_sec(rate), Some(1000));
    assert_eq!(compute_eta(0, None, rate, 5_000_000_000, false), EtaState::Unknown);
    assert_eq!(compute_eta(0, Some(1_000_000), rate, 1_000_000_000, false), EtaState::Calculating);
    assert_eq!(compute_eta(1_000_000, Some(1_000_000), rate, 5_000_000_000, true), EtaState::Done);
}

#[test]
fn test_duration_formatting() {
    assert_eq!(format_duration_hms(3723), "01:02:03");
}

#[test]
fn test_path_truncation_integration() {
    let long = "/Users/someone/Development/very/deep/nested/project/filetree-mac";
    let truncated = truncate_progress_path(long, 30);
    assert!(truncated.ends_with('…'));
    assert!(truncated.chars().count() <= 30);
}

#[test]
fn test_panel_lines_include_key_fields() {
    let panel = build_scan_progress_panel(&input(
        2_000_000_000,
        50_000,
        1_200,
        "/System/Library",
        0,
        Some(500_000_000_000),
        600,
        rates(1_000_000, 80),
        24,
        50,
        80,
        false,
        false,
    ));
    assert!(panel.data_line.starts_with("Data:"));
    assert!(panel.items_line.contains("items/s"));
    assert!(panel.time_line.contains("ETA:"));
    assert!(panel.path_line.contains("/System/Library"));
}

#[test]
fn test_cancel_requested_before_worker_ack() {
    assert!(scan_panel_cancelled(true, false));
    let panel = build_scan_progress_panel(&input(
        500,
        10,
        2,
        "/tmp",
        0,
        None,
        2,
        RateSnapshot::default(),
        10,
        20,
        40,
        false,
        scan_panel_cancelled(true, false),
    ));
    assert_eq!(panel.title, "Cancelling…");
}

#[test]
fn test_panel_cancelled_title() {
    let panel =
        build_scan_progress_panel(&input(100, 1, 0, "/tmp", 0, None, 2, RateSnapshot::default(), 10, 20, 40, false, true));
    assert_eq!(panel.title, "Cancelling…");
}

#[test]
fn test_panel_complete_eta_done() {
    let panel =
        build_scan_progress_panel(&input(1_000, 10, 1, "/", 0, Some(1_000), 5, rates(100, 2), 12, 30, 60, true, false));
    assert!(panel.bar_line.contains("100%"));
    assert!(panel.time_line.contains("ETA: 00:00:00"));
}

#[test]
fn test_panel_narrow_bar_width() {
    let inner = scan_progress_inner_width(20);
    let bar_w = scan_progress_bar_width(inner, "scanning…");
    assert!(bar_w >= 4);
    assert!(bar_w <= inner);

    let panel = build_scan_progress_panel(&input(
        1000,
        5,
        1,
        "/tmp/foo",
        0,
        None,
        3,
        RateSnapshot::default(),
        bar_w,
        scan_progress_path_max_chars(inner),
        inner,
        false,
        false,
    ));
    assert!(panel.bar_line.chars().count() <= inner);
    assert!(panel.path_line.chars().count() <= inner);
}
