use filetree::models::{PatchKind, ProgressSnapshot, ScanNode, ScanProgress, TreePatch};
use filetree::scan_bridge::{PollBatch, ScanBridge, ScanMessage, TerminalScanEvent, MAX_MESSAGES_PER_POLL};
use std::sync::mpsc;

fn sample_patch(path: &str) -> TreePatch {
    TreePatch { kind: PatchKind::Listed, node: ScanNode::new("dir", path, true) }
}

#[test]
fn test_poll_coalesces_patches_by_path() {
    let (tx, rx) = mpsc::channel();
    let bridge = ScanBridge::new(rx);

    let mut node_a = ScanNode::new("a", "/a", true);
    node_a.size = 1;
    let mut node_a2 = ScanNode::new("a", "/a", true);
    node_a2.size = 2;

    tx.send(ScanMessage::TreePatch(TreePatch { kind: PatchKind::Listed, node: node_a })).unwrap();
    tx.send(ScanMessage::TreePatch(TreePatch { kind: PatchKind::Listed, node: node_a2 })).unwrap();

    let batch = bridge.poll(MAX_MESSAGES_PER_POLL);
    assert_eq!(batch.patches.len(), 1);
    assert_eq!(batch.patch_for("/a").unwrap().node.size, 2);
}

#[test]
fn test_poll_terminal_stops_processing() {
    let (tx, rx) = mpsc::channel();
    let bridge = ScanBridge::new(rx);

    tx.send(ScanMessage::TreePatch(sample_patch("/late"))).unwrap();
    tx.send(ScanMessage::Complete { root: ScanNode::new("root", "/", true), progress: ScanProgress::default() })
        .unwrap();
    tx.send(ScanMessage::TreePatch(sample_patch("/ignored"))).unwrap();

    let batch = bridge.poll(MAX_MESSAGES_PER_POLL);
    assert!(batch.terminal.is_some());
    assert!(batch.patch_for("/ignored").is_none());
}

#[test]
fn test_poll_respects_message_budget() {
    let (tx, rx) = mpsc::channel();
    let bridge = ScanBridge::new(rx);

    for i in 0..200 {
        tx.send(ScanMessage::Progress(ProgressSnapshot {
            bytes_scanned: i,
            scanned_items: i,
            scanned_dirs: 0,
            error_count: 0,
            cancelled: false,
            is_complete: false,
            current_path: "/".to_string(),
            first_error: None,
        }))
        .unwrap();
    }

    let batch = bridge.poll(10);
    assert!(batch.progress.is_some());
    assert_eq!(batch.progress.unwrap().bytes_scanned, 9);
}

#[test]
fn patch_keys_compare_by_component() {
    let mut batch = PollBatch::new();
    assert!(batch.is_empty());
    let mut n1 = ScanNode::new("a", "/x/a", true);
    n1.size = 1;
    let mut n2 = ScanNode::new("a", "/x//a/", true);
    n2.size = 3;
    assert!(!batch.absorb(ScanMessage::TreePatch(TreePatch { kind: PatchKind::Listed, node: n1 })));
    assert!(!batch.absorb(ScanMessage::TreePatch(TreePatch { kind: PatchKind::Listed, node: n2 })));
    assert_eq!(batch.patches.len(), 1);
    assert_eq!(batch.patch_for("/x/a").unwrap().node.size, 3);
    assert!(batch.absorb(ScanMessage::Error("boom".to_string())));
    assert!(matches!(batch.terminal, Some(TerminalScanEvent::Error(ref e)) if e == "boom"));
}

#[test]
fn rescan_complete_is_not_a_full_scan() {
    let mut batch = PollBatch::new();
    let stop = batch.absorb(ScanMessage::RescanComplete {
        path: "/r/sub".to_string(),
        root: ScanNode::new("r", "/r", true),
        progress: ScanProgress::default(),
    });
    assert!(stop);
    assert!(matches!(batch.terminal, Some(TerminalScanEvent::Complete { full_scan: false, .. })));
}
