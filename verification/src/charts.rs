//! Text bar charts and legends for the side panel and the report views.
//!
//! Percentages are computed exactly on integers: a share is
//! `size * 100 / total`, shown with one decimal rounded to the nearest
//! tenth (halves up), and a bar of `width` cells fills
//! `size * width / total` cells rounded the same way.

use vstd::prelude::*;
use crate::models::{NodeModel, ScanNode, lemma_models_of_index, lemma_models_of_len, models_of, wadd};
use crate::order::{SortItem, item_view, items_view, sort_indices, sorted_order};
use crate::scanner::{format_bytes, format_bytes_spec};
use crate::text::{
    chars_of, decimal, pad_left, pad_right, push_char, push_decimal_wide, push_padded_left,
    push_padded_right, push_repeat, push_str, repeat_char, take_chars, truncate_chars,
};

verus! {

/// Tenths of a percent of `size` in `total`, rounded to the nearest tenth
/// (halves up).
pub open spec fn pct_tenths(size: nat, total: nat) -> nat {
    (1000 * size + total / 2) / total
}

/// The share of `size` in `total` as `{:5.1}` shows a percentage: one
/// decimal, right-aligned in five characters.
pub open spec fn pct_text(size: nat, total: nat) -> Seq<char> {
    let t = pct_tenths(size, total);
    pad_left(decimal(t / 10) + seq!['.'] + decimal(t % 10), 5)
}

/// Cells of a bar `width` wide filled for `size` out of `total`: none for
/// a zero size; otherwise the rounded share of the width, at least one and
/// at most `width` — except that, unless `min_block`, a share below 1% shows
/// no cell.
pub open spec fn fill_len(size: nat, total: nat, width: nat, min_block: bool) -> nat {
    if size == 0 {
        0
    } else if !min_block && 100 * size < total {
        0
    } else {
        let raw = (size * width + total / 2) / total;
        let m = if raw < 1 { 1 } else { raw };
        if m > width { width } else { m }
    }
}

/// A bar of `width` cells with the first `len` filled.
pub open spec fn bar_text(len: nat, width: nat) -> Seq<char> {
    repeat_char('█', len) + repeat_char('░', if len < width { (width - len) as nat } else { 0 })
}

/// One chart row: the label left-aligned in `lw` characters, the bar, the
/// size right-aligned in ten characters and the percentage.
pub open spec fn chart_line(label: Seq<char>, bar_len: nat, width: nat, size: u64, total: nat, lw: nat) -> Seq<char> {
    pad_right(label, lw) + seq![' '] + bar_text(bar_len, width) + seq![' ']
        + pad_left(format_bytes_spec(size as i64 as int), 10) + seq![' ', ' '] + pct_text(size as nat, total)
        + seq!['%']
}

pub(crate) fn pct_tenths_exec(size: u64, total: u64) -> (t: u128)
    requires
        total >= 1,
    ensures
        t == pct_tenths(size as nat, total as nat),
{
    let s = size as u128;
    let tt = total as u128;
    assert(1000 * s + tt / 2 < 0x1_0000_0000_0000_0000_0000_0000_0000_0000) by (nonlinear_arith)
        requires s < 0x1_0000_0000_0000_0000, tt < 0x1_0000_0000_0000_0000;
    (1000 * s + tt / 2) / tt
}

/// The number of filled cells (see `fill_len`).
pub fn bar_fill_len(size: u64, total: u64, width: usize, min_block: bool) -> (r: usize)
    requires
        total >= 1,
    ensures
        r == fill_len(size as nat, total as nat, width as nat, min_block),
{
    if size == 0 {
        return 0;
    }
    if !min_block && (size as u128) * 100 < total as u128 {
        return 0;
    }
    let s = size as u128;
    let t = total as u128;
    let w = width as u128;
    if s >= t {
        assert((s * w + t / 2) / (t as int) >= w) by (nonlinear_arith)
            requires s >= t, t >= 1, w >= 0;
        return width;
    }
    assert(s * w + t / 2 < 0x1_0000_0000_0000_0000_0000_0000_0000_0000) by (nonlinear_arith)
        requires s < t, t < 0x1_0000_0000_0000_0000, w < 0x1_0000_0000_0000_0000;
    let raw = (s * w + t / 2) / t;
    let m = if raw < 1 { 1 } else { raw };
    if m > w {
        width
    } else {
        m as usize
    }
}

/// Appends a bar (see `bar_text`).
fn push_bar(out: &mut String, len: usize, width: usize)
    ensures
        final(out)@ == old(out)@ + bar_text(len as nat, width as nat),
{
    push_repeat(out, '█', len);
    let rest = if len < width { width - len } else { 0 };
    push_repeat(out, '░', rest);
}

/// Appends a percentage (see `pct_text`).
pub(crate) fn push_pct(out: &mut String, size: u64, total: u64)
    requires
        total >= 1,
    ensures
        final(out)@ == old(out)@ + pct_text(size as nat, total as nat),
{
    let t = pct_tenths_exec(size, total);
    let mut num = String::new();
    push_decimal_wide(&mut num, t / 10);
    push_char(&mut num, '.');
    push_decimal_wide(&mut num, t % 10);
    push_padded_left(out, num.as_str(), 5);
}

/// One chart row (see `chart_line`).
fn chart_line_exec(label: &str, bar_len: usize, width: usize, size: u64, total: u64, lw: usize) -> (r: String)
    requires
        total >= 1,
    ensures
        r@ == chart_line(label@, bar_len as nat, width as nat, size, total as nat, lw as nat),
{
    let mut out = String::new();
    push_padded_right(&mut out, label, lw);
    push_char(&mut out, ' ');
    push_bar(&mut out, bar_len, width);
    push_char(&mut out, ' ');
    let fb = format_bytes(size as i64);
    push_padded_left(&mut out, fb.as_str(), 10);
    push_char(&mut out, ' ');
    push_char(&mut out, ' ');
    push_pct(&mut out, size, total);
    push_char(&mut out, '%');
    assert(out@ =~= chart_line(label@, bar_len as nat, width as nat, size, total as nat, lw as nat));
    out
}

} // verus!

verus! {

/// The values of a list of labelled sizes.
pub open spec fn items_of(v: Seq<(String, u64)>) -> Seq<(Seq<char>, u64)> {
    v.map_values(|p: (String, u64)| (p.0@, p.1))
}

/// The sum of the sizes (modulo 2^64).
pub open spec fn sum_sizes(items: Seq<(Seq<char>, u64)>) -> u64
    decreases items.len(),
{
    if items.len() == 0 { 0 } else { wadd(sum_sizes(items.drop_last()), items.last().1) }
}

/// The longest label, in characters (0 for none).
pub open spec fn max_chars(labels: Seq<Seq<char>>) -> nat
    decreases labels.len(),
{
    if labels.len() == 0 {
        0
    } else {
        let m = max_chars(labels.drop_last());
        if labels.last().len() > m { labels.last().len() } else { m }
    }
}

/// The label column width: the longest label (8 when there is none), at
/// most `cap`.
pub open spec fn label_width(labels: Seq<Seq<char>>, cap: nat) -> nat {
    let m = if labels.len() == 0 { 8 } else { max_chars(labels) };
    if m < cap { m } else { cap }
}

/// `ascii_bar_chart`: one row per item against `total` (the sum of the
/// sizes when absent; 1 when zero), labels cut to the label column (at most
/// 20), bars with at least one cell for a non-zero size.
pub open spec fn ascii_chart_spec(items: Seq<(Seq<char>, u64)>, width: nat, total: Option<u64>) -> Seq<Seq<char>> {
    if items.len() == 0 {
        seq!["(no data)"@]
    } else {
        let t0 = match total { Some(t) => t, None => sum_sizes(items) };
        let t: nat = if t0 == 0 { 1 } else { t0 as nat };
        let lw = label_width(items.map_values(|it: (Seq<char>, u64)| it.0), 20);
        items.map_values(|it: (Seq<char>, u64)|
            chart_line(take_chars(it.0, lw), fill_len(it.1 as nat, t, width, true), width, it.1, t, lw))
    }
}

fn sum_items(items: &Vec<(String, u64)>, from: usize) -> (r: u64)
    requires
        from <= items@.len(),
    ensures
        r == sum_sizes(items_of(items@).skip(from as int)),
{
    let ghost all = items_of(items@);
    let mut total: u64 = 0;
    assert(all.skip(from as int).take(0) =~= Seq::<(Seq<char>, u64)>::empty());
    for i in from..items.len()
        invariant
            from <= items@.len(),
            all == items_of(items@),
            total == sum_sizes(all.skip(from as int).take(i - from)),
    {
        let ghost part = all.skip(from as int);
        assert(part.take(i - from + 1).drop_last() == part.take(i - from));
        assert(part.take(i - from + 1).last() == all[i as int]);
        total = total.wrapping_add(items[i].1);
    }
    assert(all.skip(from as int).take(items@.len() - from) == all.skip(from as int));
    total
}

/// The label column width for the first `n` labels (see `label_width`).
fn label_width_exec(items: &Vec<(String, u64)>, n: usize, cap: usize) -> (r: usize)
    requires
        n <= items@.len(),
    ensures
        r == label_width(items_of(items@).take(n as int).map_values(|it: (Seq<char>, u64)| it.0), cap as nat),
{
    let ghost ls = items_of(items@).take(n as int).map_values(|it: (Seq<char>, u64)| it.0);
    if n == 0 {
        return if 8 < cap { 8 } else { cap };
    }
    let mut m: usize = 0;
    assert(ls.take(0) =~= Seq::<Seq<char>>::empty());
    for i in 0..n
        invariant
            n <= items@.len(),
            ls == items_of(items@).take(n as int).map_values(|it: (Seq<char>, u64)| it.0),
            m == max_chars(ls.take(i as int)),
    {
        assert(ls.take(i + 1).drop_last() == ls.take(i as int));
        assert(ls.take(i + 1).last() == items@[i as int].0@);
        let c = chars_of(items[i].0.as_str()).len();
        if c > m {
            m = c;
        }
    }
    assert(ls.take(n as int) == ls);
    if m < cap { m } else { cap }
}

/// A labelled bar chart of `items` (see `ascii_chart_spec`).
pub fn ascii_bar_chart(items: &Vec<(String, u64)>, width: usize, total: Option<u64>) -> (r: Vec<String>)
    ensures
        r@.map_values(|s: String| s@) == ascii_chart_spec(items_of(items@), width as nat, total),
{
    let mut out: Vec<String> = Vec::new();
    if items.len() == 0 {
        out.push("(no data)".to_owned());
        assert(out@.map_values(|s: String| s@) =~= seq!["(no data)"@]);
        return out;
    }
    let t0 = match total {
        Some(t) => t,
        None => sum_items(items, 0),
    };
    assert(items_of(items@).skip(0) == items_of(items@));
    let t: u64 = if t0 == 0 { 1 } else { t0 };
    let lw = label_width_exec(items, items.len(), 20);
    assert(items_of(items@).take(items@.len() as int) == items_of(items@));
    let ghost target = ascii_chart_spec(items_of(items@), width as nat, total);
    for i in 0..items.len()
        invariant
            items@.len() > 0,
            t >= 1,
            target == ascii_chart_spec(items_of(items@), width as nat, total),
            t as nat == (if t0 == 0 { 1 } else { t0 as nat }),
            t0 == match total { Some(x) => x, None => sum_sizes(items_of(items@)) },
            lw == label_width(items_of(items@).map_values(|it: (Seq<char>, u64)| it.0), 20),
            out@.map_values(|s: String| s@) == target.take(i as int),
    {
        let label = truncate_chars(items[i].0.as_str(), lw);
        let size = items[i].1;
        let bl = bar_fill_len(size, t, width, true);
        let line = chart_line_exec(label.as_str(), bl, width, size, t, lw);
        let ghost before = out@.map_values(|s: String| s@);
        out.push(line);
        assert(out@.map_values(|s: String| s@) =~= before.push(line@));
        assert(target.take(i + 1) =~= target.take(i as int).push(target[i as int]));
    }
    assert(target.take(items@.len() as int) =~= target);
    out
}

} // verus!

verus! {

/// The fill of the "(other)" row: at least one cell for a non-zero size.
pub open spec fn other_fill(other: u64, t: nat, width: nat) -> nat {
    let b = fill_len(other as nat, t, width, false);
    if other > 0 && b == 0 { 1 } else { b }
}

/// `labeled_pie_legend`: a header, one row per shown item (the first
/// `max_items`), then an "(other)" row for the rest; shares are of the
/// total of all items (1 when zero); labels cut to the label column (at
/// most 16).
pub open spec fn pie_legend_spec(items: Seq<(Seq<char>, u64)>, width: nat, max_items: nat) -> Seq<Seq<char>> {
    if items.len() == 0 {
        seq!["(no data)"@]
    } else {
        let k: nat = if items.len() < max_items { items.len() } else { max_items };
        let shown = items.take(k as int);
        let t0 = sum_sizes(items);
        let t: nat = if t0 == 0 { 1 } else { t0 as nat };
        let lw = label_width(shown.map_values(|it: (Seq<char>, u64)| it.0), 16);
        let header = pad_right("Type"@, lw) + " Share                         Size      %"@;
        let rows = shown.map_values(|it: (Seq<char>, u64)|
            chart_line(take_chars(it.0, lw), fill_len(it.1 as nat, t, width, false), width, it.1, t, lw));
        let tail = if items.len() > max_items {
            let other = sum_sizes(items.skip(max_items as int));
            seq![chart_line("(other)"@, other_fill(other, t, width), width, other, t, lw)]
        } else {
            Seq::<Seq<char>>::empty()
        };
        seq![header] + rows + tail
    }
}

/// A legend of labelled shares (see `pie_legend_spec`).
pub fn labeled_pie_legend(items: &Vec<(String, u64)>, width: usize, max_items: usize) -> (r: Vec<String>)
    ensures
        r@.map_values(|s: String| s@) == pie_legend_spec(items_of(items@), width as nat, max_items as nat),
{
    let mut out: Vec<String> = Vec::new();
    if items.len() == 0 {
        out.push("(no data)".to_owned());
        assert(out@.map_values(|s: String| s@) =~= seq!["(no data)"@]);
        return out;
    }
    let ghost all = items_of(items@);
    let k = if items.len() < max_items { items.len() } else { max_items };
    let t0 = sum_items(items, 0);
    assert(all.skip(0) == all);
    let t: u64 = if t0 == 0 { 1 } else { t0 };
    let lw = label_width_exec(items, k, 16);
    let mut header = String::new();
    push_padded_right(&mut header, "Type", lw);
    push_str(&mut header, " Share                         Size      %");
    out.push(header);
    let ghost shown = all.take(k as int);
    let ghost rows = shown.map_values(|it: (Seq<char>, u64)|
        chart_line(take_chars(it.0, lw as nat), fill_len(it.1 as nat, t as nat, width as nat, false), width as nat, it.1, t as nat, lw as nat));
    assert(out@.map_values(|s: String| s@) =~= seq![header@] + rows.take(0));
    for i in 0..k
        invariant
            k <= items@.len(),
            all == items_of(items@),
            shown == all.take(k as int),
            t >= 1,
            rows == shown.map_values(|it: (Seq<char>, u64)|
                chart_line(take_chars(it.0, lw as nat), fill_len(it.1 as nat, t as nat, width as nat, false), width as nat, it.1, t as nat, lw as nat)),
            out@.map_values(|s: String| s@) == seq![header@] + rows.take(i as int),
    {
        let label = truncate_chars(items[i].0.as_str(), lw);
        let size = items[i].1;
        let bl = bar_fill_len(size, t, width, false);
        let line = chart_line_exec(label.as_str(), bl, width, size, t, lw);
        let ghost before = out@.map_values(|s: String| s@);
        out.push(line);
        assert(shown[i as int] == all[i as int]);
        assert(out@.map_values(|s: String| s@) =~= before.push(line@));
        assert(rows.take(i + 1) =~= rows.take(i as int).push(rows[i as int]));
    }
    assert(rows.take(k as int) =~= rows);
    if items.len() > max_items {
        let other = sum_items(items, max_items);
        let b = bar_fill_len(other, t, width, false);
        let bl = if other > 0 && b == 0 { 1 } else { b };
        let line = chart_line_exec("(other)", bl, width, other, t, lw);
        let ghost before = out@.map_values(|s: String| s@);
        out.push(line);
        assert(out@.map_values(|s: String| s@) =~= before.push(line@));
    }
    proof {
        reveal_strlit("Type");
        reveal_strlit(" Share                         Size      %");
    }
    assert(out@.map_values(|s: String| s@) =~= pie_legend_spec(all, width as nat, max_items as nat));
    out
}

} // verus!

verus! {

use crate::models::sum_size;

/// Sort keys that order children by size.
pub open spec fn size_order_keys(cs: Seq<NodeModel>) -> Seq<(Seq<char>, int)> {
    cs.map_values(|c: NodeModel| (Seq::<char>::empty(), c.size as int))
}

/// The children a chart shows: largest first (equal sizes in listing
/// order), at most `max_items`.
pub open spec fn chart_children(m: NodeModel, max_items: nat) -> Seq<NodeModel> {
    let order = sorted_order(size_order_keys(m.children), true);
    let k: nat = if max_items < order.len() { max_items } else { order.len() };
    order.take(k as int).map_values(|i: usize| m.children[i as int])
}

/// A child's chart label: a directory or file marker, then the name.
pub open spec fn icon_name(c: NodeModel) -> Seq<char> {
    (if c.is_dir { "[D]"@ } else { "[F]"@ }) + seq![' '] + c.name
}

/// `labeled_children_chart`: for a file, its name and size; for an empty
/// folder, its name and a note; otherwise the name, a totals line, a blank
/// line, a header and one row per shown child (shares of the folder size,
/// or of the children's sizes when that is zero; 1 when both are), then a
/// count of the children left out.
pub open spec fn children_chart_spec(m: NodeModel, width: nat, max_items: nat) -> Seq<Seq<char>> {
    if !m.is_dir {
        seq![m.name + "  (file)"@, "Size: "@ + format_bytes_spec(m.size as i64 as int)]
    } else if m.children.len() == 0 {
        seq![m.name, "(empty folder)"@]
    } else {
        let shown = chart_children(m, max_items);
        let t0 = if m.size > 0 { m.size } else { sum_size(m.children) };
        let t: nat = if t0 == 0 { 1 } else { t0 as nat };
        let names = shown.map_values(|c: NodeModel| c.name);
        let lw0: nat = if shown.len() == 0 { 8 } else { max_chars(names) + 2 };
        let lw: nat = if lw0 < 18 { lw0 } else { 18 };
        let header = seq![
            m.name,
            "Total: "@ + format_bytes_spec(m.size as i64 as int) + "  |  "@ + decimal(m.children.len()) + " item(s)"@,
            Seq::<char>::empty(),
            pad_right("Name"@, lw) + " Size bar                      Size      %"@
        ];
        let rows = shown.map_values(|c: NodeModel|
            chart_line(take_chars(icon_name(c), lw + 2), fill_len(c.size as nat, t, width, false), width, c.size, t, lw + 2));
        let tail = if m.children.len() > max_items {
            seq!["… and "@ + decimal((m.children.len() - max_items) as nat) + " more"@]
        } else {
            Seq::<Seq<char>>::empty()
        };
        header + rows + tail
    }
}

/// A labelled chart of a folder's largest children (see
/// `children_chart_spec`).
#[verifier::spinoff_prover]
#[verifier::rlimit(50)]
pub fn labeled_children_chart(node: &ScanNode, width: usize, max_items: usize) -> (r: Vec<String>)
    ensures
        r@.map_values(|s: String| s@) == children_chart_spec(node.model(), width as nat, max_items as nat),
{
    let ghost m = node.model();
    let mut out: Vec<String> = Vec::new();
    proof {
        lemma_models_of_len(node.children@);
    }
    if !node.is_dir {
        let mut a = node.name.clone();
        push_str(&mut a, "  (file)");
        let mut b = "Size: ".to_owned();
        let fb = format_bytes(node.size as i64);
        push_str(&mut b, fb.as_str());
        out.push(a);
        out.push(b);
        assert(out@.map_values(|s: String| s@) =~= children_chart_spec(m, width as nat, max_items as nat));
        return out;
    }
    if node.children.len() == 0 {
        out.push(node.name.clone());
        out.push("(empty folder)".to_owned());
        assert(out@.map_values(|s: String| s@) =~= children_chart_spec(m, width as nat, max_items as nat));
        return out;
    }
    let n = node.children.len();
    let mut keys: Vec<SortItem> = Vec::new();
    let ghost ks = size_order_keys(m.children);
    for i in 0..n
        invariant
            n == node.children@.len(),
            m == node.model(),
            m.children.len() == n,
            ks == size_order_keys(m.children),
            items_view(keys@) == ks.take(i as int),
    {
        proof {
            lemma_models_of_index(node.children@, i as int);
        }
        let item = SortItem { text: Vec::new(), num: node.children[i].size as i128 };
        let ghost before = items_view(keys@);
        assert(item.text@ =~= Seq::<char>::empty());
        keys.push(item);
        assert(items_view(keys@) =~= before.push(item_view(item)));
        assert(ks.take(i + 1) =~= ks.take(i as int).push(ks[i as int]));
    }
    assert(ks.take(n as int) =~= ks);
    let p = sort_indices(&keys, true);
    let k = if max_items < p.len() { max_items } else { p.len() };
    let ghost shown = chart_children(m, max_items as nat);
    assert(shown.len() == k);
    let t0: u64 = if node.size > 0 {
        node.size
    } else {
        let mut s: u64 = 0;
        for i in 0..n
            invariant
                n == node.children@.len(),
                m == node.model(),
                m.children.len() == n,
                s == sum_size(m.children.take(i as int)),
        {
            proof {
                lemma_models_of_index(node.children@, i as int);
            }
            assert(m.children.take(i + 1).drop_last() == m.children.take(i as int));
            s = s.wrapping_add(node.children[i].size);
        }
        assert(m.children.take(n as int) == m.children);
        s
    };
    let t: u64 = if t0 == 0 { 1 } else { t0 };
    let mut mx: usize = 0;
    let ghost names = shown.map_values(|c: NodeModel| c.name);
    assert(names.take(0) =~= Seq::<Seq<char>>::empty());
    for i in 0..k
        invariant
            k <= p@.len(),
            p@ == sorted_order(ks, true),
            p@.len() == n,
            n == node.children@.len(),
            m == node.model(),
            m.children.len() == n,
            ks == size_order_keys(m.children),
            shown == chart_children(m, max_items as nat),
            shown.len() == k,
            names == shown.map_values(|c: NodeModel| c.name),
            mx == max_chars(names.take(i as int)),
            forall|j: int| 0 <= j < p@.len() ==> #[trigger] p@[j] < n,
    {
        let c = p[i];
        proof {
            lemma_models_of_index(node.children@, c as int);
        }
        assert(names.take(i + 1).drop_last() == names.take(i as int));
        assert(names.take(i + 1).last() == node.children@[c as int].name@);
        let len = chars_of(node.children[c].name.as_str()).len();
        if len > mx {
            mx = len;
        }
    }
    assert(names.take(k as int) == names);
    let lw: usize = if k == 0 { 8 } else if mx >= 16 { 18 } else { mx + 2 };
    out.push(node.name.clone());
    let mut total_line = "Total: ".to_owned();
    let fb = format_bytes(node.size as i64);
    push_str(&mut total_line, fb.as_str());
    push_str(&mut total_line, "  |  ");
    push_decimal_wide(&mut total_line, n as u128);
    push_str(&mut total_line, " item(s)");
    out.push(total_line);
    out.push(String::new());
    let mut header = String::new();
    push_padded_right(&mut header, "Name", lw);
    push_str(&mut header, " Size bar                      Size      %");
    out.push(header);
    proof {
        reveal_strlit("Total: ");
        reveal_strlit("  |  ");
        reveal_strlit(" item(s)");
        reveal_strlit("Name");
        reveal_strlit(" Size bar                      Size      %");
    }
    let ghost head = out@.map_values(|s: String| s@);
    let ghost rows = shown.map_values(|c: NodeModel|
        chart_line(take_chars(icon_name(c), (lw + 2) as nat), fill_len(c.size as nat, t as nat, width as nat, false), width as nat, c.size, t as nat, (lw + 2) as nat));
    assert(out@.map_values(|s: String| s@) =~= head + rows.take(0));
    for i in 0..k
        invariant
            k <= p@.len(),
            p@ == sorted_order(ks, true),
            p@.len() == n,
            n == node.children@.len(),
            m == node.model(),
            m.children.len() == n,
            ks == size_order_keys(m.children),
            shown == chart_children(m, max_items as nat),
            shown.len() == k,
            lw <= 18,
            t >= 1,
            rows == shown.map_values(|c: NodeModel|
                chart_line(take_chars(icon_name(c), (lw + 2) as nat), fill_len(c.size as nat, t as nat, width as nat, false), width as nat, c.size, t as nat, (lw + 2) as nat)),
            out@.map_values(|s: String| s@) == head + rows.take(i as int),
            forall|j: int| 0 <= j < p@.len() ==> #[trigger] p@[j] < n,
    {
        let c = p[i];
        proof {
            lemma_models_of_index(node.children@, c as int);
        }
        let child = &node.children[c];
        let mut label = if child.is_dir { "[D]".to_owned() } else { "[F]".to_owned() };
        push_char(&mut label, ' ');
        push_str(&mut label, child.name.as_str());
        proof {
            reveal_strlit("[D]");
            reveal_strlit("[F]");
        }
        assert(label@ == icon_name(child.model()));
        let name = truncate_chars(label.as_str(), lw + 2);
        let bl = bar_fill_len(child.size, t, width, false);
        let line = chart_line_exec(name.as_str(), bl, width, child.size, t, lw + 2);
        let ghost before = out@.map_values(|s: String| s@);
        out.push(line);
        assert(shown[i as int] == child.model());
        assert(out@.map_values(|s: String| s@) =~= before.push(line@));
        assert(rows.take(i + 1) =~= rows.take(i as int).push(rows[i as int]));
    }
    assert(rows.take(k as int) =~= rows);
    if n > max_items {
        let mut more = "… and ".to_owned();
        push_decimal_wide(&mut more, (n - max_items) as u128);
        push_str(&mut more, " more");
        let ghost before = out@.map_values(|s: String| s@);
        out.push(more);
        assert(out@.map_values(|s: String| s@) =~= before.push(more@));
        proof {
            reveal_strlit("… and ");
            reveal_strlit(" more");
        }
    }
    assert(out@.map_values(|s: String| s@) =~= children_chart_spec(m, width as nat, max_items as nat));
    out
}

} // verus!
