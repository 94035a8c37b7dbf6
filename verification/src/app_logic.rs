//! Small decisions of the interactive front end, kept pure for testing.

use vstd::prelude::*;
use crate::scanner::{is_ws, is_ws_exec};
use crate::text::{chars_of, chars_eq};

verus! {

/// Confirm dialog: index 0 is "Yes", anything else is "No".
pub fn confirm_dialog_executes(selected: usize) -> (r: bool)
    ensures
        r == (selected == 0),
{
    selected == 0
}

/// How many whitespace characters `s` starts with.
pub open spec fn lead_ws(s: Seq<char>) -> nat
    decreases s.len(),
{
    if s.len() > 0 && is_ws(s[0]) { 1 + lead_ws(s.drop_first()) } else { 0 }
}

/// How many whitespace characters `s` ends with.
pub open spec fn trail_ws(s: Seq<char>) -> nat
    decreases s.len(),
{
    if s.len() > 0 && is_ws(s.last()) { 1 + trail_ws(s.drop_last()) } else { 0 }
}

/// `str::trim`: `s` without leading and trailing whitespace.
pub open spec fn trimmed(s: Seq<char>) -> Seq<char> {
    let t = s.skip(lead_ws(s) as int);
    t.take(t.len() - trail_ws(t))
}

proof fn lemma_lead_le(s: Seq<char>)
    ensures
        lead_ws(s) <= s.len(),
    decreases s.len(),
{
    if s.len() > 0 && is_ws(s[0]) {
        lemma_lead_le(s.drop_first());
    }
}

proof fn lemma_trail_le(s: Seq<char>)
    ensures
        trail_ws(s) <= s.len(),
    decreases s.len(),
{
    if s.len() > 0 && is_ws(s.last()) {
        lemma_trail_le(s.drop_last());
    }
}

/// The characters of `s` with surrounding whitespace removed.
pub fn trim_chars(s: &Vec<char>) -> (r: Vec<char>)
    ensures
        r@ == trimmed(s@),
{
    let n = s.len();
    let mut lo: usize = 0;
    assert(s@.skip(0) == s@);
    while lo < n && is_ws_exec(s[lo])
        invariant
            n == s@.len(),
            lo <= n,
            lead_ws(s@) == lo + lead_ws(s@.skip(lo as int)),
        decreases n - lo,
    {
        assert(s@.skip(lo as int)[0] == s@[lo as int]);
        assert(s@.skip(lo as int).drop_first() == s@.skip(lo + 1));
        lo = lo + 1;
    }
    let ghost t = s@.skip(lo as int);
    assert(lead_ws(t) == 0) by {
        if lo < n {
            assert(t[0] == s@[lo as int]);
        }
    }
    let mut hi: usize = n;
    assert(t.take(t.len() as int) == t);
    while hi > lo && is_ws_exec(s[hi - 1])
        invariant
            n == s@.len(),
            lo <= hi <= n,
            t == s@.skip(lo as int),
            trail_ws(t) == (n - hi) + trail_ws(t.take(hi - lo)),
        decreases hi,
    {
        let ghost u = t.take(hi - lo);
        assert(u.last() == s@[hi - 1]);
        assert(u.drop_last() == t.take(hi - 1 - lo));
        hi = hi - 1;
    }
    assert(trail_ws(t.take(hi - lo)) == 0) by {
        if hi > lo {
            assert(t.take(hi - lo).last() == s@[hi - 1]);
        }
    }
    let mut r: Vec<char> = Vec::new();
    for i in lo..hi
        invariant
            lo <= hi <= n,
            n == s@.len(),
            r@ == s@.subrange(lo as int, i as int),
    {
        r.push(s[i]);
        assert(s@.subrange(lo as int, i + 1) == s@.subrange(lo as int, i as int).push(s@[i as int]));
    }
    assert(r@ =~= trimmed(s@));
    r
}

/// Typed confirm: index 0 is "Confirm" and runs only when the input,
/// trimmed, is exactly the confirmation text.
pub fn typed_confirm_executes(selected: usize, input: &str, confirm_text: &str) -> (r: bool)
    ensures
        r == (selected == 0 && trimmed(input@) == confirm_text@),
{
    if selected != 0 {
        return false;
    }
    let t = trim_chars(&chars_of(input));
    chars_eq(&t, &chars_of(confirm_text))
}

/// The export dialog's choice: text, CSV, or redacted CSV; `None` for
/// Cancel (index 3 and beyond).
pub fn export_modal_selection(sel: usize) -> (r: Option<(&'static str, bool)>)
    ensures
        sel == 0 ==> r == Some(("text", false)),
        sel == 1 ==> r == Some(("csv", false)),
        sel == 2 ==> r == Some(("csv", true)),
        sel > 2 ==> r is None,
{
    if sel == 0 {
        Some(("text", false))
    } else if sel == 1 {
        Some(("csv", false))
    } else if sel == 2 {
        Some(("csv", true))
    } else {
        None
    }
}

/// Chart bar width for a pane: what is left after the labels and 14
/// columns of figures, between 4 and 40.
pub fn chart_bar_width(pane_width: u16, label_reserve: usize) -> (r: usize)
    requires
        label_reserve + 14 <= usize::MAX,
    ensures
        r == if pane_width as int - (label_reserve + 14) < 4 { 4 }
            else if pane_width as int - (label_reserve + 14) > 40 { 40 }
            else { pane_width as int - (label_reserve + 14) },
{
    let reserve = label_reserve + 14;
    let w = pane_width as usize;
    let left = if w > reserve { w - reserve } else { 0 };
    if left < 4 { 4 } else if left > 40 { 40 } else { left }
}

/// While a scan runs the tree view is rebuilt at most this often, in ms.
pub const TREE_REFRESH_INTERVAL_MS: u64 = 200;

/// Whether a changed tree is rebuilt for display now: at once when no scan
/// runs, otherwise once the refresh interval has passed since the last one.
pub fn tree_refresh_due(tree_dirty: bool, scan_in_progress: bool, since_last_ms: u64) -> (r: bool)
    ensures
        r == (tree_dirty && (!scan_in_progress || since_last_ms >= TREE_REFRESH_INTERVAL_MS)),
{
    tree_dirty && (!scan_in_progress || since_last_ms >= TREE_REFRESH_INTERVAL_MS)
}

/// Whether the event loop redraws on this tick: when something changed,
/// or on a tick while a scan runs or a notification shows.
pub fn tick_needs_redraw(dirty: bool, tick_elapsed: bool, scan_in_progress: bool, notification_active: bool) -> (r: bool)
    ensures
        r == (dirty || (tick_elapsed && (scan_in_progress || notification_active))),
{
    dirty || (tick_elapsed && (scan_in_progress || notification_active))
}

/// The table selection after a rebuild: the first row when nothing was
/// selected, the last row when the selection fell off the end, nothing for
/// an empty table.
pub fn clamp_table_selection(selected: Option<usize>, row_count: usize) -> (r: Option<usize>)
    ensures
        r == match selected {
            None => if row_count > 0 { Some(0usize) } else { None },
            Some(i) => if row_count == 0 { None } else if i >= row_count { Some((row_count - 1) as usize) } else { Some(i) },
        },
{
    match selected {
        None => if row_count > 0 { Some(0) } else { None },
        Some(idx) => {
            if idx >= row_count && row_count > 0 {
                Some(row_count - 1)
            } else if row_count == 0 {
                None
            } else {
                Some(idx)
            }
        },
    }
}

} // verus!
