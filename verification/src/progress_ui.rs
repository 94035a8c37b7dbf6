//! Scan progress state for the status bar and the progress panel.

use vstd::prelude::*;
use crate::models::{opt_view, ProgressSnapshot, ScanProgress};
use crate::progress::scan_panel_cancelled;
use crate::scanner::{format_bytes, format_bytes_spec};
use crate::text::{decimal, push_decimal_wide, push_str, strs};

verus! {

/// The counters the UI shows while a scan runs.
#[derive(Debug, Clone)]
pub struct ProgressDisplay {
    pub bytes_scanned: u64,
    pub scanned_items: u64,
    pub scanned_dirs: u64,
    pub error_count: usize,
    pub worker_cancelled: bool,
    pub current_path: String,
}

impl Default for ProgressDisplay {
    /// All counters zero, no path.
    fn default() -> (r: ProgressDisplay)
        ensures
            r.bytes_scanned == 0 && r.scanned_items == 0 && r.scanned_dirs == 0,
            r.error_count == 0,
            !r.worker_cancelled,
            r.current_path@ == Seq::<char>::empty(),
    {
        ProgressDisplay {
            bytes_scanned: 0,
            scanned_items: 0,
            scanned_dirs: 0,
            error_count: 0,
            worker_cancelled: false,
            current_path: String::new(),
        }
    }
}

/// The status-bar text: the cancelling notice, or the counters (and the
/// error count when there are errors).
pub open spec fn status_line_spec(d: ProgressDisplay, cancel_requested: bool) -> Seq<char> {
    if cancel_requested || d.worker_cancelled {
        "Cancelling scan…"@
    } else {
        "Scanning… "@ + decimal(d.scanned_items as nat) + " items | "@ + format_bytes_spec(d.bytes_scanned as i64 as int)
            + " | "@ + decimal(d.scanned_dirs as nat) + " dirs"@
            + if d.error_count > 0 { " | "@ + decimal(d.error_count as nat) + " errors"@ } else { Seq::empty() }
    }
}

impl ProgressDisplay {
    /// Takes the counters of a progress snapshot.
    pub fn update_from_snapshot(&mut self, snapshot: &ProgressSnapshot)
        ensures
            final(self).bytes_scanned == snapshot.bytes_scanned,
            final(self).scanned_items == snapshot.scanned_items,
            final(self).scanned_dirs == snapshot.scanned_dirs,
            final(self).error_count == snapshot.error_count,
            final(self).worker_cancelled == snapshot.cancelled,
            final(self).current_path@ == snapshot.current_path@,
    {
        self.bytes_scanned = snapshot.bytes_scanned;
        self.scanned_items = snapshot.scanned_items;
        self.scanned_dirs = snapshot.scanned_dirs;
        self.error_count = snapshot.error_count;
        self.worker_cancelled = snapshot.cancelled;
        self.current_path = snapshot.current_path.clone();
    }

    /// The status-bar text (see `status_line_spec`).
    pub fn status_line(&self, cancel_requested: bool) -> (r: String)
        ensures
            r@ == status_line_spec(*self, cancel_requested),
    {
        if scan_panel_cancelled(cancel_requested, self.worker_cancelled) {
            return "Cancelling scan…".to_owned();
        }
        let mut s = "Scanning… ".to_owned();
        push_decimal_wide(&mut s, self.scanned_items as u128);
        push_str(&mut s, " items | ");
        let fb = format_bytes(self.bytes_scanned as i64);
        push_str(&mut s, fb.as_str());
        push_str(&mut s, " | ");
        push_decimal_wide(&mut s, self.scanned_dirs as u128);
        push_str(&mut s, " dirs");
        if self.error_count > 0 {
            push_str(&mut s, " | ");
            push_decimal_wide(&mut s, self.error_count as u128);
            push_str(&mut s, " errors");
        }
        assert(s@ =~= status_line_spec(*self, cancel_requested));
        s
    }
}

/// Full progress rebuilt from a snapshot for the end-of-scan dialogs: the
/// counters (the error count included), flags and path, and the first
/// error as the only stored error.
pub fn snapshot_to_scan_progress(snapshot: &ProgressSnapshot) -> (r: ScanProgress)
    ensures
        r.scanned_items == snapshot.scanned_items,
        r.scanned_dirs == snapshot.scanned_dirs,
        r.current_path@ == snapshot.current_path@,
        r.bytes_scanned == snapshot.bytes_scanned,
        r.is_complete == snapshot.is_complete,
        r.cancelled == snapshot.cancelled,
        opt_view(r.error) == opt_view(snapshot.first_error),
        r.error_count == snapshot.error_count,
        strs(r.errors@) == match snapshot.first_error {
            Some(e) => seq![e@],
            None => Seq::<Seq<char>>::empty(),
        },
{
    let mut errors: Vec<String> = Vec::new();
    let error = match &snapshot.first_error {
        Some(e) => {
            errors.push(e.clone());
            Some(e.clone())
        },
        None => None,
    };
    assert(strs(errors@) =~= match snapshot.first_error {
        Some(e) => seq![e@],
        None => Seq::<Seq<char>>::empty(),
    });
    ScanProgress {
        scanned_items: snapshot.scanned_items,
        scanned_dirs: snapshot.scanned_dirs,
        current_path: snapshot.current_path.clone(),
        bytes_scanned: snapshot.bytes_scanned,
        is_complete: snapshot.is_complete,
        cancelled: snapshot.cancelled,
        error,
        errors,
        error_count: snapshot.error_count,
    }
}

} // verus!
