//! Scan progress display: rates, ETA, and the lines of the progress panel.
//!
//! Times are whole nanoseconds. A rate is kept exactly, as a count over an
//! elapsed time; it is shown rounded to the nearest unit of the last digit
//! printed (halves up).

use vstd::prelude::*;
use std::time::Instant;
use crate::clock::{instant_now, nanos_since};
use crate::scanner::{format_bytes, format_bytes_spec};
use crate::text::{
    chars_of, decimal, push_char, push_decimal_wide, push_repeat, push_str, push_zero_padded,
    repeat_char, take_chars, truncate_chars, zero_padded,
};

verus! {

/// Content rows in the scan progress panel (excluding the top border).
pub const SCAN_PROGRESS_CONTENT_LINES: u16 = 6;

/// Total layout height: top border row plus content rows.
pub const SCAN_PROGRESS_PANEL_LINES: u16 = SCAN_PROGRESS_CONTENT_LINES + 1;

/// Shortest interval, in nanoseconds, over which a rate is measured.
pub const MIN_RATE_ELAPSED_NS: u64 = 500_000_000;

/// Scan time, in nanoseconds, before an ETA is estimated.
pub const MIN_ETA_ELAPSED_NS: u64 = 2_000_000_000;

/// Slowest byte rate, in bytes per second, that yields an ETA.
pub const MIN_ETA_RATE_BYTES: u64 = 4096;

/// A rate: `count` per `elapsed_ns` nanoseconds, measured over at least
/// `MIN_RATE_ELAPSED_NS`.
#[derive(Debug, Clone, Copy, PartialEq, Eq)]
pub struct Rate {
    count: u64,
    elapsed_ns: u64,
}

impl Rate {
    #[verifier::type_invariant]
    spec fn long_enough(self) -> bool {
        self.elapsed_ns >= MIN_RATE_ELAPSED_NS
    }

    /// The amount counted.
    pub closed spec fn count_spec(self) -> u64 {
        self.count
    }

    /// The interval it was counted over, in nanoseconds.
    pub closed spec fn elapsed_spec(self) -> u64 {
        self.elapsed_ns
    }

    /// The amount counted.
    pub fn count(&self) -> (r: u64)
        ensures
            r == self.count_spec(),
    {
        self.count
    }

    /// The interval it was counted over, in nanoseconds.
    pub fn elapsed_ns(&self) -> (r: u64)
        ensures
            r == self.elapsed_spec(),
            r >= MIN_RATE_ELAPSED_NS,
    {
        proof {
            use_type_invariant(self);
        }
        self.elapsed_ns
    }
}

/// Byte and item rates; `None` when nothing was measured.
#[derive(Debug, Clone, Copy, PartialEq, Eq)]
pub struct RateSnapshot {
    pub bytes_per_sec: Option<Rate>,
    pub items_per_sec: Option<Rate>,
}

impl Default for RateSnapshot {
    /// No rates.
    fn default() -> (r: RateSnapshot)
        ensures
            r.bytes_per_sec is None,
            r.items_per_sec is None,
    {
        RateSnapshot { bytes_per_sec: None, items_per_sec: None }
    }
}

/// A rate as (count, nanoseconds).
pub open spec fn rate_view(r: Option<Rate>) -> Option<(u64, u64)> {
    match r {
        Some(x) => Some((x.count_spec(), x.elapsed_spec())),
        None => None,
    }
}

/// `a - b`, or 0 when `b` is larger.
pub open spec fn sat_sub(a: u64, b: u64) -> u64 {
    if a >= b { (a - b) as u64 } else { 0 }
}

/// Rates from counter deltas over `elapsed_ns`: none under the minimum
/// interval, and none for a counter that did not grow.
pub open spec fn rates_spec(start_bytes: u64, start_items: u64, end_bytes: u64, end_items: u64, elapsed_ns: u64)
    -> (Option<(u64, u64)>, Option<(u64, u64)>)
{
    if elapsed_ns < MIN_RATE_ELAPSED_NS {
        (None, None)
    } else {
        let b = sat_sub(end_bytes, start_bytes);
        let i = sat_sub(end_items, start_items);
        (if b > 0 { Some((b, elapsed_ns)) } else { None }, if i > 0 { Some((i, elapsed_ns)) } else { None })
    }
}

/// Computes byte and item rates (see `rates_spec`).
pub fn compute_rates(start_bytes: u64, start_items: u64, end_bytes: u64, end_items: u64, elapsed_ns: u64) -> (r: RateSnapshot)
    ensures
        (rate_view(r.bytes_per_sec), rate_view(r.items_per_sec))
            == rates_spec(start_bytes, start_items, end_bytes, end_items, elapsed_ns),
{
    if elapsed_ns < MIN_RATE_ELAPSED_NS {
        return RateSnapshot { bytes_per_sec: None, items_per_sec: None };
    }
    let b = end_bytes.saturating_sub(start_bytes);
    let i = end_items.saturating_sub(start_items);
    RateSnapshot {
        bytes_per_sec: if b > 0 { Some(Rate { count: b, elapsed_ns }) } else { None },
        items_per_sec: if i > 0 { Some(Rate { count: i, elapsed_ns }) } else { None },
    }
}

/// One progress sample: when (nanoseconds since the tracker started), and
/// the byte and item counters.
#[derive(Debug, Clone, Copy)]
pub struct RateSample {
    pub at_ns: u64,
    pub bytes: u64,
    pub items: u64,
}

/// A sample as a value.
pub open spec fn sample_view(s: RateSample) -> (u64, u64, u64) {
    (s.at_ns, s.bytes, s.items)
}

/// The samples kept after one arrives at `at` (nanoseconds): a sample whose
/// counters went backwards is dropped; otherwise it is appended, samples
/// more than five seconds older than it are dropped, and only the newest
/// twenty are kept.
pub open spec fn push_sample_spec(ss: Seq<(u64, u64, u64)>, at: u64, bytes: u64, items: u64) -> Seq<(u64, u64, u64)> {
    if ss.len() > 0 && (bytes < ss.last().1 || items < ss.last().2) {
        ss
    } else {
        let s1 = ss.push((at, bytes, items)).filter(|s: (u64, u64, u64)| s.0 + 5_000_000_000 >= at);
        if s1.len() > 20 { s1.skip(s1.len() - 20) } else { s1 }
    }
}

/// The window a tracker keeps: at most twenty samples, none more than five
/// seconds older than the newest.
pub open spec fn window_ok(ss: Seq<(u64, u64, u64)>) -> bool {
    &&& ss.len() <= 20
    &&& forall|i: int| 0 <= i < ss.len() ==> (#[trigger] ss[i]).0 + 5_000_000_000 >= ss.last().0
}

/// A sample whose byte or item counter is below the newest kept sample's
/// leaves the samples as they were.
pub proof fn law_regressing_sample_ignored(ss: Seq<(u64, u64, u64)>, at: u64, bytes: u64, items: u64)
    requires
        ss.len() > 0,
        bytes < ss.last().1 || items < ss.last().2,
    ensures
        push_sample_spec(ss, at, bytes, items) == ss,
{
}

/// Recording a sample always leaves at most twenty samples, none more than
/// five seconds older than the newest, when that held before.
pub proof fn law_samples_stay_in_window(ss: Seq<(u64, u64, u64)>, at: u64, bytes: u64, items: u64)
    requires
        window_ok(ss),
    ensures
        window_ok(push_sample_spec(ss, at, bytes, items)),
{
    if !(ss.len() > 0 && (bytes < ss.last().1 || items < ss.last().2)) {
        let x = (at, bytes, items);
        let pred = |s: (u64, u64, u64)| s.0 + 5_000_000_000 >= at;
        let s0 = ss.push(x);
        let s1 = s0.filter(pred);
        s0.filter_lemma(pred);
        ss.lemma_filter_push(x, pred);
        assert(s1 == ss.filter(pred).push(x));
        assert(s1.last() == x);
        if s1.len() > 20 {
            let s2 = s1.skip(s1.len() - 20);
            assert(s2.last() == x);
            assert forall|i: int| 0 <= i < s2.len() implies (#[trigger] s2[i]).0 + 5_000_000_000 >= s2.last().0 by {
                assert(s2[i] == s1[i + s1.len() - 20]);
            }
        }
    }
}

/// Recent progress samples for measuring scan rates.
#[derive(Debug)]
pub struct RateTracker {
    base: Instant,
    samples: Vec<RateSample>,
}

impl RateTracker {
    /// The samples, oldest first.
    pub closed spec fn samples_view(&self) -> Seq<(u64, u64, u64)> {
        self.samples@.map_values(|s: RateSample| sample_view(s))
    }

    /// A tracker with no samples, timing from now.
    pub fn new() -> (r: RateTracker)
        ensures
            r.samples_view() == Seq::<(u64, u64, u64)>::empty(),
    {
        let r = RateTracker { base: instant_now(), samples: Vec::new() };
        assert(r.samples_view() =~= Seq::<(u64, u64, u64)>::empty());
        r
    }

    /// Forgets every sample.
    pub fn reset(&mut self)
        ensures
            final(self).samples_view() == Seq::<(u64, u64, u64)>::empty(),
    {
        self.samples = Vec::new();
        assert(self.samples_view() =~= Seq::<(u64, u64, u64)>::empty());
    }

    /// Records the counters now: as `record_at` does, at the time the clock
    /// gave.
    pub fn record(&mut self, bytes: u64, items: u64)
        ensures
            exists|at_ns: u64| final(self).samples_view() == push_sample_spec(old(self).samples_view(), at_ns, bytes, items),
            window_ok(old(self).samples_view()) ==> window_ok(final(self).samples_view()),
    {
        let at = nanos_since(&self.base);
        self.record_at(at, bytes, items);
    }

    /// Records the counters at `at_ns` nanoseconds after the tracker started
    /// (see `push_sample_spec`).
    pub fn record_at(&mut self, at_ns: u64, bytes: u64, items: u64)
        ensures
            final(self).samples_view() == push_sample_spec(old(self).samples_view(), at_ns, bytes, items),
            window_ok(old(self).samples_view()) ==> window_ok(final(self).samples_view()),
    {
        proof {
            if window_ok(self.samples_view()) {
                law_samples_stay_in_window(self.samples_view(), at_ns, bytes, items);
            }
        }
        let ghost ss = self.samples_view();
        let n = self.samples.len();
        if n > 0 {
            let last = self.samples[n - 1];
            assert(ss.last() == sample_view(last));
            if bytes < last.bytes || items < last.items {
                return;
            }
        }
        self.samples.push(RateSample { at_ns, bytes, items });
        let ghost s0 = ss.push((at_ns, bytes, items));
        assert(self.samples_view() =~= s0);
        let ghost pred = |s: (u64, u64, u64)| s.0 + 5_000_000_000 >= at_ns;
        let mut kept: Vec<RateSample> = Vec::new();
        assert(s0.take(0).filter(pred) =~= Seq::<(u64, u64, u64)>::empty());
        for i in 0..self.samples.len()
            invariant
                s0 == self.samples@.map_values(|s: RateSample| sample_view(s)),
                pred == (|s: (u64, u64, u64)| s.0 + 5_000_000_000 >= at_ns),
                kept@.map_values(|s: RateSample| sample_view(s)) == s0.take(i as int).filter(pred),
        {
            let s = self.samples[i];
            assert(s0.take(i + 1).drop_last() == s0.take(i as int));
            assert(s0.take(i + 1).last() == sample_view(s));
            proof {
                s0.take(i as int).lemma_filter_push(sample_view(s), pred);
                assert(s0.take(i + 1) == s0.take(i as int).push(sample_view(s)));
            }
            let ghost before = kept@.map_values(|s: RateSample| sample_view(s));
            assert(pred(sample_view(s)) == (s.at_ns + 5_000_000_000 >= at_ns));
            if s.at_ns as u128 + 5_000_000_000 >= at_ns as u128 {
                kept.push(s);
                assert(kept@.map_values(|s: RateSample| sample_view(s)) =~= before.push(sample_view(s)));
            }
        }
        assert(s0.take(s0.len() as int) == s0);
        let ghost s1 = s0.filter(pred);
        let k = kept.len();
        if k > 20 {
            let mut last20: Vec<RateSample> = Vec::new();
            for i in (k - 20)..k
                invariant
                    k == kept@.len(),
                    k > 20,
                    s1 == kept@.map_values(|s: RateSample| sample_view(s)),
                    last20@.map_values(|s: RateSample| sample_view(s)) == s1.subrange(k - 20, i as int),
            {
                let ghost before = last20@.map_values(|s: RateSample| sample_view(s));
                last20.push(kept[i]);
                assert(last20@.map_values(|s: RateSample| sample_view(s)) =~= before.push(sample_view(kept@[i as int])));
                assert(s1.subrange(k - 20, i + 1) =~= s1.subrange(k - 20, i as int).push(s1[i as int]));
            }
            assert(s1.subrange(k - 20, k as int) =~= s1.skip(k - 20));
            self.samples = last20;
        } else {
            self.samples = kept;
        }
    }

    /// The rates between the oldest and the newest sample; none with fewer
    /// than two samples (see `rates_spec`; a newest sample stamped before the
    /// oldest counts as no time elapsed).
    pub fn snapshot(&self) -> (r: RateSnapshot)
        ensures
            (rate_view(r.bytes_per_sec), rate_view(r.items_per_sec)) == if self.samples_view().len() >= 2 {
                let f = self.samples_view()[0];
                let l = self.samples_view().last();
                rates_spec(f.1, f.2, l.1, l.2, sat_sub(l.0, f.0))
            } else {
                (None, None)
            },
    {
        let n = self.samples.len();
        if n < 2 {
            return RateSnapshot { bytes_per_sec: None, items_per_sec: None };
        }
        let f = self.samples[0];
        let l = self.samples[n - 1];
        let elapsed = l.at_ns.saturating_sub(f.at_ns);
        compute_rates(f.bytes, f.items, l.bytes, l.items, elapsed)
    }
}

impl Default for RateTracker {
    /// A tracker with no samples, timing from now.
    fn default() -> (r: RateTracker)
        ensures
            r.samples_view() == Seq::<(u64, u64, u64)>::empty(),
    {
        RateTracker::new()
    }
}

} // verus!

verus! {

/// Inner text width for the progress panel (top border only, no sides).
pub fn scan_progress_inner_width(area_width: u16) -> (r: usize)
    ensures
        r == area_width,
{
    area_width as usize
}

/// Bar fill width after the brackets, a space and the percentage label:
/// between 4 and 50.
pub fn scan_progress_bar_width(inner_width: usize, pct_label: &str) -> (r: usize)
    ensures
        r == if inner_width - (3 + pct_label@.len()) < 4 { 4 }
            else if inner_width - (3 + pct_label@.len()) > 50 { 50 }
            else { inner_width - (3 + pct_label@.len()) },
{
    let n = chars_of(pct_label).len();
    let left: usize = if inner_width > n && inner_width - n > 3 { inner_width - n - 3 } else { 0 };
    if left < 4 { 4 } else if left > 50 { 50 } else { left }
}

/// Longest path shown on the `Current:` row: the width less nine columns,
/// at least one.
pub fn scan_progress_path_max_chars(inner_width: usize) -> (r: usize)
    ensures
        r == if inner_width > 10 { inner_width - 9 } else { 1 },
{
    if inner_width > 10 { inner_width - 9 } else { 1 }
}

/// Percent of the volume scanned, rounded to the nearest whole percent
/// (halves up), at most 99 until the scan completes; 100 when complete; 0
/// without a volume total.
pub open spec fn percent_spec(bytes_scanned: u64, volume_total: Option<u64>, complete: bool) -> u8 {
    if complete {
        100
    } else {
        match volume_total {
            Some(total) => if total > 0 {
                let p = (200 * bytes_scanned + total) / (2 * total);
                if p > 99 { 99 } else { p as u8 }
            } else {
                0
            },
            None => 0,
        }
    }
}

/// Progress percentage from bytes scanned against the volume total (see
/// `percent_spec`).
pub fn scan_progress_percent(bytes_scanned: u64, volume_total: Option<u64>, complete: bool) -> (r: u8)
    ensures
        r == percent_spec(bytes_scanned, volume_total, complete),
        !complete ==> r <= 99,
{
    if complete {
        return 100;
    }
    match volume_total {
        Some(total) => {
            if total > 0 {
                let p = (200 * (bytes_scanned as u128) + total as u128) / (2 * (total as u128));
                if p > 99 { 99 } else { p as u8 }
            } else {
                0
            }
        },
        None => 0,
    }
}

/// `HH:MM:SS`, each part at least two digits.
pub open spec fn hms(total: nat) -> Seq<char> {
    zero_padded(total / 3600, 2) + seq![':'] + zero_padded((total % 3600) / 60, 2) + seq![':']
        + zero_padded(total % 60, 2)
}

/// Formats whole seconds as `HH:MM:SS`.
pub fn format_duration_hms(total_secs: u64) -> (r: String)
    ensures
        r@ == hms(total_secs as nat),
{
    let mut s = String::new();
    push_zero_padded(&mut s, total_secs / 3600, 2);
    push_char(&mut s, ':');
    push_zero_padded(&mut s, (total_secs % 3600) / 60, 2);
    push_char(&mut s, ':');
    push_zero_padded(&mut s, total_secs % 60, 2);
    s
}

/// Nanoseconds rounded to the nearest whole second (halves up).
pub open spec fn round_secs(ns: u64) -> nat {
    ((ns + 500_000_000) / 1_000_000_000) as nat
}

/// The estimate of the remaining scan time.
#[derive(Debug, Clone, Copy, PartialEq, Eq, Structural)]
pub enum EtaState {
    Unknown,
    Calculating,
    /// Whole seconds left, rounded to the nearest second.
    Remaining(u64),
    Done,
}

impl EtaState {
    /// The fixed text of a state (empty for `Remaining`).
    pub open spec fn label_spec(self) -> &'static str {
        match self {
            EtaState::Unknown => "—",
            EtaState::Calculating => "calculating…",
            EtaState::Done => "00:00:00",
            EtaState::Remaining(_) => "",
        }
    }

    /// The fixed text of a state (empty for `Remaining`).
    pub fn label(self) -> (r: &'static str)
        ensures
            r == self.label_spec(),
    {
        match self {
            EtaState::Unknown => "—",
            EtaState::Calculating => "calculating…",
            EtaState::Done => "00:00:00",
            EtaState::Remaining(_) => "",
        }
    }
}

/// The remaining time as text: `HH:MM:SS` for an estimate, else the
/// state's label.
pub fn format_eta(state: EtaState) -> (r: String)
    ensures
        r@ == match state {
            EtaState::Remaining(s) => hms(s as nat),
            other => other.label_spec()@,
        },
{
    match state {
        EtaState::Remaining(secs) => format_duration_hms(secs),
        other => other.label().to_owned(),
    }
}

/// The ETA: done when complete; unknown without a volume total; still
/// calculating in the first two seconds, without a byte rate, below 4 KiB/s
/// or with nothing left; otherwise the bytes left over the rate, rounded to
/// the nearest second (halves up; at most `u64::MAX`).
pub open spec fn eta_spec(bytes_scanned: u64, volume_total: Option<u64>, rate: Option<(u64, u64)>, elapsed_ns: u64, complete: bool) -> EtaState {
    if complete {
        EtaState::Done
    } else {
        match volume_total {
            None => EtaState::Unknown,
            Some(total) => if elapsed_ns < MIN_ETA_ELAPSED_NS {
                EtaState::Calculating
            } else {
                match rate {
                    None => EtaState::Calculating,
                    Some((count, ns)) => if count * 1_000_000_000 < MIN_ETA_RATE_BYTES * ns {
                        EtaState::Calculating
                    } else {
                        let remaining = sat_sub(total, bytes_scanned);
                        if remaining == 0 {
                            EtaState::Calculating
                        } else {
                            let d = count * 1_000_000_000;
                            let q = remaining * ns;
                            let secs = q / d + if 2 * (q % d) >= d { 1int } else { 0int };
                            EtaState::Remaining(if secs > u64::MAX { u64::MAX } else { secs as u64 })
                        }
                    },
                }
            },
        }
    }
}

/// Estimates the remaining scan time (see `eta_spec`).
pub fn compute_eta(bytes_scanned: u64, volume_total: Option<u64>, bytes_per_sec: Option<Rate>, elapsed_ns: u64, complete: bool) -> (r: EtaState)
    ensures
        r == eta_spec(bytes_scanned, volume_total, rate_view(bytes_per_sec), elapsed_ns, complete),
{
    if complete {
        return EtaState::Done;
    }
    let total = match volume_total {
        Some(t) => t,
        None => return EtaState::Unknown,
    };
    if elapsed_ns < MIN_ETA_ELAPSED_NS {
        return EtaState::Calculating;
    }
    let rate = match bytes_per_sec {
        Some(r) => r,
        None => return EtaState::Calculating,
    };
    let count = rate.count() as u128;
    let ns = rate.elapsed_ns() as u128;
    if count * 1_000_000_000 < (MIN_ETA_RATE_BYTES as u128) * ns {
        return EtaState::Calculating;
    }
    let remaining = total.saturating_sub(bytes_scanned);
    if remaining == 0 {
        return EtaState::Calculating;
    }
    let d: u128 = count * 1_000_000_000;
    let rem = remaining as u128;
    assert(rem * ns < 0x1_0000_0000_0000_0000_0000_0000_0000_0000) by (nonlinear_arith)
        requires
            rem < 0x1_0000_0000_0000_0000,
            ns < 0x1_0000_0000_0000_0000;
    let q: u128 = rem * ns;
    assert(d >= 2);
    assert(q / d < q || q == 0) by (nonlinear_arith)
        requires d >= 2;
    let secs = q / d + if 2 * (q % d) >= d { 1 } else { 0 };
    EtaState::Remaining(if secs > u64::MAX as u128 { u64::MAX } else { secs as u64 })
}

} // verus!

verus! {

/// `a / b` rounded to the nearest integer, halves up.
pub open spec fn round_div(a: nat, b: nat) -> nat {
    a / b + if 2 * (a % b) >= b { 1nat } else { 0nat }
}

/// An item rate as text: whole items per second from 100 on, one decimal
/// from 1 on, two decimals below; a dash when there is none.
pub open spec fn item_rate_text(rate: Option<(u64, u64)>) -> Seq<char> {
    match rate {
        Some((c, ns)) => if c > 0 && ns > 0 {
            if c * 1_000_000_000 >= 100 * ns {
                decimal(round_div((c * 1_000_000_000) as nat, ns as nat)) + " items/s"@
            } else if c * 1_000_000_000 >= ns {
                let t = round_div((c * 10_000_000_000) as nat, ns as nat);
                decimal(t / 10) + seq!['.'] + decimal(t % 10) + " items/s"@
            } else {
                let t = round_div((c * 100_000_000_000) as nat, ns as nat);
                decimal(t / 100) + seq!['.'] + zero_padded(t % 100, 2) + " items/s"@
            }
        } else {
            "— items/s"@
        },
        None => "— items/s"@,
    }
}

fn round_div_exec(a: u128, b: u128) -> (r: u128)
    requires
        b >= 2,
        b <= u64::MAX,
    ensures
        r == round_div(a as nat, b as nat),
{
    assert(a / b < a || a == 0) by (nonlinear_arith)
        requires b >= 2;
    a / b + if 2 * (a % b) >= b { 1 } else { 0 }
}

/// Formats an item rate (see `item_rate_text`).
pub fn format_item_rate(rate: Option<Rate>) -> (r: String)
    ensures
        r@ == item_rate_text(rate_view(rate)),
{
    let mut s = String::new();
    match rate {
        Some(x) => {
            let c = x.count() as u128;
            let ns = x.elapsed_ns() as u128;
            if c > 0 {
                if c * 1_000_000_000 >= 100 * ns {
                    push_decimal_wide(&mut s, round_div_exec(c * 1_000_000_000, ns));
                } else if c * 1_000_000_000 >= ns {
                    let t = round_div_exec(c * 10_000_000_000, ns);
                    push_decimal_wide(&mut s, t / 10);
                    push_char(&mut s, '.');
                    push_decimal_wide(&mut s, t % 10);
                } else {
                    let t = round_div_exec(c * 100_000_000_000, ns);
                    push_decimal_wide(&mut s, t / 100);
                    push_char(&mut s, '.');
                    assert(t % 100 < 100);
                    push_zero_padded(&mut s, (t % 100) as u64, 2);
                }
                push_str(&mut s, " items/s");
                return s;
            }
        },
        None => {},
    }
    push_str(&mut s, "— items/s");
    s
}

/// A path cut to `max_chars` characters with a trailing ellipsis when it is
/// longer.
pub open spec fn truncated_path(path: Seq<char>, max_chars: nat) -> Seq<char> {
    if path.len() <= max_chars {
        path
    } else {
        take_chars(path, if max_chars > 0 { (max_chars - 1) as nat } else { 0 }) + seq!['…']
    }
}

/// Cuts a path for display (see `truncated_path`).
pub fn truncate_progress_path(path: &str, max_chars: usize) -> (r: String)
    ensures
        r@ == truncated_path(path@, max_chars as nat),
{
    let n = chars_of(path).len();
    if n <= max_chars {
        return path.to_owned();
    }
    let keep = if max_chars > 0 { max_chars - 1 } else { 0 };
    let mut s = truncate_chars(path, keep);
    push_char(&mut s, '…');
    s
}

/// `Data: <scanned> / <total>` with a volume total, else
/// `Data: <scanned> scanned`.
pub open spec fn data_line_spec(bytes_scanned: u64, volume_total: Option<u64>) -> Seq<char> {
    let scanned = format_bytes_spec(bytes_scanned as i64 as int);
    match volume_total {
        Some(t) => if t > 0 {
            "Data: "@ + scanned + " / "@ + format_bytes_spec(t as i64 as int)
        } else {
            "Data: "@ + scanned + " scanned"@
        },
        None => "Data: "@ + scanned + " scanned"@,
    }
}

/// The data row of the progress panel (see `data_line_spec`).
pub fn format_data_line(bytes_scanned: u64, volume_total: Option<u64>) -> (r: String)
    ensures
        r@ == data_line_spec(bytes_scanned, volume_total),
{
    let scanned = format_bytes(bytes_scanned as i64);
    let mut s = "Data: ".to_owned();
    push_str(&mut s, scanned.as_str());
    match volume_total {
        Some(t) => {
            if t > 0 {
                push_str(&mut s, " / ");
                let tf = format_bytes(t as i64);
                push_str(&mut s, tf.as_str());
                return s;
            }
        },
        None => {},
    }
    push_str(&mut s, " scanned");
    s
}

/// Whether the panel shows the cancelling state: as soon as cancel is
/// requested, or once the worker reports it.
pub fn scan_panel_cancelled(cancel_requested: bool, progress_cancelled: bool) -> (r: bool)
    ensures
        r == (cancel_requested || progress_cancelled),
{
    cancel_requested || progress_cancelled
}

/// Filled cells of a progress bar (at least four cells wide) for a
/// percentage.
pub fn progress_bar_fill(pct: u8, bar_width: usize) -> (r: usize)
    ensures
        r == if (pct as int) * (if bar_width < 4 { 4 } else { bar_width as int }) / 100 > (if bar_width < 4 { 4 } else { bar_width as int }) {
            (if bar_width < 4 { 4 } else { bar_width as int })
        } else {
            (pct as int) * (if bar_width < 4 { 4 } else { bar_width as int }) / 100
        },
{
    let w: usize = if bar_width < 4 { 4 } else { bar_width };
    let p = pct as u128;
    let wu = w as u128;
    assert(p * wu < 0x1_0000_0000_0000_0000_0000_0000_0000_0000) by (nonlinear_arith)
        requires p < 256, wu < 0x1_0000_0000_0000_0000;
    let f = p * wu / 100;
    if f > w as u128 { w } else { f as usize }
}

} // verus!

verus! {

/// The lines of the scan progress panel.
#[derive(Debug, Clone)]
pub struct ScanProgressPanel {
    pub title: String,
    pub bar_line: String,
    pub data_line: String,
    pub items_line: String,
    pub time_line: String,
    pub path_line: String,
    pub errors_line: Option<String>,
}

/// What the progress panel shows. `activity_fill` is the bar fill used when
/// there is no volume total (an activity indicator the caller computes from
/// the item count).
#[derive(Debug, Clone)]
pub struct ScanProgressPanelInput {
    pub bytes_scanned: u64,
    pub scanned_items: u64,
    pub scanned_dirs: u64,
    pub current_path: String,
    pub error_count: usize,
    pub volume_total: Option<u64>,
    pub elapsed_ns: u64,
    pub rates: RateSnapshot,
    pub activity_fill: usize,
    pub bar_width: usize,
    pub path_max_chars: usize,
    pub max_line_width: usize,
    pub complete: bool,
    pub cancelled: bool,
}

/// Whether a volume total is known.
pub open spec fn has_total(t: Option<u64>) -> bool {
    match t { Some(x) => x > 0, None => false }
}

/// The bar row: `[` filled and empty cells `]`, then the percentage (or
/// `scanning…` without a volume total). With a total the fill is the
/// percentage of the bar; without, the activity fill kept between one cell
/// and one short of the bar.
pub open spec fn bar_line_spec(i: ScanProgressPanelInput) -> Seq<char> {
    let pct = percent_spec(i.bytes_scanned, i.volume_total, i.complete);
    let label = if has_total(i.volume_total) { decimal(pct as nat) + seq!['%'] } else { "scanning…"@ };
    let bw: nat = if i.bar_width < 4 { 4 } else { i.bar_width as nat };
    let filled: nat = if has_total(i.volume_total) {
        let f = (pct as nat) * bw / 100;
        if f > bw { bw } else { f }
    } else {
        let hi: nat = if bw > 2 { (bw - 1) as nat } else { 1 };
        if i.activity_fill < 1 { 1 } else if i.activity_fill > hi { hi } else { i.activity_fill as nat }
    };
    seq!['['] + repeat_char('█', filled) + repeat_char('░', if filled < bw { (bw - filled) as nat } else { 0 })
        + "] "@ + label
}

/// The items row.
pub open spec fn items_line_spec(i: ScanProgressPanelInput) -> Seq<char> {
    "Items: "@ + decimal(i.scanned_items as nat) + " files | "@ + decimal(i.scanned_dirs as nat) + " dirs | rate: "@
        + item_rate_text(rate_view(i.rates.items_per_sec))
}

/// The time row: elapsed time (to the nearest second) and the ETA.
pub open spec fn time_line_spec(i: ScanProgressPanelInput) -> Seq<char> {
    let eta = eta_spec(i.bytes_scanned, i.volume_total, rate_view(i.rates.bytes_per_sec), i.elapsed_ns, i.complete);
    "Elapsed: "@ + hms(round_secs(i.elapsed_ns)) + " | ETA: "@ + match eta {
        EtaState::Remaining(s) => hms(s as nat),
        other => other.label_spec()@,
    }
}

/// The panel line width limit (at least one).
pub open spec fn max_w(i: ScanProgressPanelInput) -> nat {
    if i.max_line_width < 1 { 1 } else { i.max_line_width as nat }
}

/// Builds the progress panel: each row as its spec function gives it, cut to
/// the line width with an ellipsis when longer; the title shows the
/// cancelling state; the errors row only with errors.
pub fn build_scan_progress_panel(input: &ScanProgressPanelInput) -> (r: ScanProgressPanel)
    ensures
        r.title@ == (if input.cancelled { "Cancelling…"@ } else { "Scanning"@ }),
        r.bar_line@ == truncated_path(bar_line_spec(*input), max_w(*input)),
        r.data_line@ == truncated_path(data_line_spec(input.bytes_scanned, input.volume_total), max_w(*input)),
        r.items_line@ == truncated_path(items_line_spec(*input), max_w(*input)),
        r.time_line@ == truncated_path(time_line_spec(*input), max_w(*input)),
        r.path_line@ == truncated_path(
            "Current: "@ + truncated_path(input.current_path@, input.path_max_chars as nat), max_w(*input)),
        match r.errors_line {
            Some(e) => input.error_count > 0
                && e@ == truncated_path("Errors: "@ + decimal(input.error_count as nat), max_w(*input)),
            None => input.error_count == 0,
        },
{
    let total_known = match input.volume_total { Some(t) => t > 0, None => false };
    let pct = scan_progress_percent(input.bytes_scanned, input.volume_total, input.complete);
    let bw: usize = if input.bar_width < 4 { 4 } else { input.bar_width };
    let filled: usize = if total_known {
        progress_bar_fill(pct, bw)
    } else {
        let hi: usize = if bw > 2 { bw - 1 } else { 1 };
        if input.activity_fill < 1 { 1 } else if input.activity_fill > hi { hi } else { input.activity_fill }
    };
    let mut bar = String::new();
    push_char(&mut bar, '[');
    push_repeat(&mut bar, '█', filled);
    push_repeat(&mut bar, '░', if filled < bw { bw - filled } else { 0 });
    push_str(&mut bar, "] ");
    if total_known {
        push_decimal_wide(&mut bar, pct as u128);
        push_char(&mut bar, '%');
    } else {
        push_str(&mut bar, "scanning…");
    }
    proof {
        reveal_strlit("] ");
    }
    assert(bar@ =~= bar_line_spec(*input));
    let data = format_data_line(input.bytes_scanned, input.volume_total);
    let mut items = "Items: ".to_owned();
    push_decimal_wide(&mut items, input.scanned_items as u128);
    push_str(&mut items, " files | ");
    push_decimal_wide(&mut items, input.scanned_dirs as u128);
    push_str(&mut items, " dirs | rate: ");
    let rate = format_item_rate(input.rates.items_per_sec);
    push_str(&mut items, rate.as_str());
    assert(items@ =~= items_line_spec(*input));
    let secs = (input.elapsed_ns as u128 + 500_000_000) / 1_000_000_000;
    let elapsed = format_duration_hms(secs as u64);
    let eta = compute_eta(input.bytes_scanned, input.volume_total, input.rates.bytes_per_sec, input.elapsed_ns, input.complete);
    let mut time = "Elapsed: ".to_owned();
    push_str(&mut time, elapsed.as_str());
    push_str(&mut time, " | ETA: ");
    let eta_text = format_eta(eta);
    push_str(&mut time, eta_text.as_str());
    assert(time@ =~= time_line_spec(*input));
    let p = truncate_progress_path(input.current_path.as_str(), input.path_max_chars);
    let mut path = "Current: ".to_owned();
    push_str(&mut path, p.as_str());
    let mw: usize = if input.max_line_width < 1 { 1 } else { input.max_line_width };
    let errors_line = if input.error_count > 0 {
        let mut e = "Errors: ".to_owned();
        push_decimal_wide(&mut e, input.error_count as u128);
        Some(truncate_progress_path(e.as_str(), mw))
    } else {
        None
    };
    let title = if input.cancelled { "Cancelling…".to_owned() } else { "Scanning".to_owned() };
    ScanProgressPanel {
        title,
        bar_line: truncate_progress_path(bar.as_str(), mw),
        data_line: truncate_progress_path(data.as_str(), mw),
        items_line: truncate_progress_path(items.as_str(), mw),
        time_line: truncate_progress_path(time.as_str(), mw),
        path_line: truncate_progress_path(path.as_str(), mw),
        errors_line,
    }
}

proof fn lemma_truncated_fits(path: Seq<char>, max_chars: nat)
    requires
        max_chars >= 1,
    ensures
        truncated_path(path, max_chars).len() <= max_chars,
{
}

/// Every row of the progress panel fits the line width (taken as at least
/// one): a longer row is cut to exactly the width.
pub proof fn law_panel_rows_fit(line: Seq<char>, i: ScanProgressPanelInput)
    ensures
        truncated_path(line, max_w(i)).len() <= max_w(i),
        line.len() <= max_w(i) ==> truncated_path(line, max_w(i)) == line,
{
    lemma_truncated_fits(line, max_w(i));
}

} // verus!
