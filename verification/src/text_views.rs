//! The text shown in the status line and in the scrolling views: largest
//! files, extensions, and the volume table.

use vstd::prelude::*;
use crate::charts::{ascii_bar_chart, ascii_chart_spec, items_of, labeled_pie_legend, pct_text, pie_legend_spec, push_pct};
use crate::models::{descendants_of, ref_models, sum_size, ExtensionStats, NodeModel, ScanNode, SortKey, VolumeInfo};
use crate::paths::{file_name, file_name_of};
use crate::scanner::{collect_extension_stats, collect_largest_files, ext_groups, format_bytes, format_bytes_spec, group_keys, size_keys, sized_files, stats_view};
use crate::order::sorted_order;
use crate::text::{decimal, pad_left, pad_right, push_decimal, push_padded_left, push_padded_right, push_repeat, push_str, repeat_char, string_of, strs, take_chars, truncate_chars};
use crate::tree_view::{pct1, RowModel, TreeRow};
use crate::menu::ViewMode;

verus! {

/// The status line after a scan: root path, total size, counts, settings
/// and sort.
pub open spec fn status_spec(m: NodeModel, show_hidden: bool, follow_symlinks: bool, key: SortKey, reverse: bool) -> Seq<char> {
    "Path: "@ + m.path + " | Total: "@ + format_bytes_spec(m.size as i64 as int)
        + " | Files: "@ + pad_left(decimal(m.file_count as nat), 6)
        + " | Folders: "@ + pad_left(decimal(m.folder_count as nat), 6)
        + " | Hidden: "@ + (if show_hidden { "ON"@ } else { "OFF"@ })
        + " | Follow symlinks: "@ + (if follow_symlinks { "ON"@ } else { "OFF"@ })
        + " | Sort: "@ + key.label_spec()@ + " "@ + (if reverse { "↓"@ } else { "↑"@ })
}

/// The status line (see `status_spec`).
pub fn status_line(root: &ScanNode, show_hidden: bool, follow_symlinks: bool, key: SortKey, reverse: bool) -> (r: String)
    ensures
        r@ == status_spec(root.model(), show_hidden, follow_symlinks, key, reverse),
{
    let mut s = "Path: ".to_owned();
    push_str(&mut s, root.path.as_str());
    push_str(&mut s, " | Total: ");
    let fb = format_bytes(root.size as i64);
    push_str(&mut s, fb.as_str());
    push_str(&mut s, " | Files: ");
    let mut n = String::new();
    push_decimal(&mut n, root.file_count);
    push_padded_left(&mut s, n.as_str(), 6);
    push_str(&mut s, " | Folders: ");
    let mut d = String::new();
    push_decimal(&mut d, root.folder_count);
    push_padded_left(&mut s, d.as_str(), 6);
    push_str(&mut s, " | Hidden: ");
    push_str(&mut s, if show_hidden { "ON" } else { "OFF" });
    push_str(&mut s, " | Follow symlinks: ");
    push_str(&mut s, if follow_symlinks { "ON" } else { "OFF" });
    push_str(&mut s, " | Sort: ");
    push_str(&mut s, key.label());
    push_str(&mut s, " ");
    push_str(&mut s, if reverse { "↓" } else { "↑" });
    s
}

/// The status while a scan starts: what is being done, and how to stop it.
pub fn scan_status(rescan: bool, path: &str) -> (r: String)
    ensures
        r@ == (if rescan { "Rescanning "@ } else { "Scanning "@ }) + path@ + " (press c to cancel)"@,
{
    let mut s = if rescan { "Rescanning ".to_owned() } else { "Scanning ".to_owned() };
    push_str(&mut s, path);
    push_str(&mut s, " (press c to cancel)");
    s
}

/// The status after a cancelled scan.
pub fn cancelled_status(full_scan: bool) -> (r: String)
    ensures
        r@ == if full_scan { "Scan cancelled (partial results)"@ } else { "Rescan cancelled (partial results)"@ },
{
    if full_scan { "Scan cancelled (partial results)".to_owned() } else { "Rescan cancelled (partial results)".to_owned() }
}

/// The filter bar's text: the filter in use, or `none`.
pub fn filter_bar_text(filter: &str) -> (r: String)
    ensures
        r@ == "Filter: "@ + (if filter@.len() == 0 { "none"@ } else { filter@ }),
{
    let mut s = "Filter: ".to_owned();
    if filter.is_empty() {
        push_str(&mut s, "none");
    } else {
        push_str(&mut s, filter);
    }
    s
}

/// The banner shown when Full Disk Access is missing or unknown.
pub fn fda_banner_text(message: &str) -> (r: String)
    ensures
        r@ == message@ + " — Scan is running. [o] Open Settings  [Esc] Dismiss"@,
{
    let mut s = message.to_owned();
    push_str(&mut s, " — Scan is running. [o] Open Settings  [Esc] Dismiss");
    s
}

/// The `n` largest files under `m`, largest first (see
/// `collect_largest_files`).
pub open spec fn largest_spec(m: NodeModel, n: nat) -> Seq<NodeModel> {
    let fs = sized_files(descendants_of(m));
    let order = sorted_order(size_keys(fs), true);
    Seq::new(if n < fs.len() { n } else { fs.len() }, |i: int| fs[order[i] as int])
}

/// The file name of a path, or nothing.
pub open spec fn name_or_empty(p: Seq<char>) -> Seq<char> {
    match file_name_of(p) {
        Some(n) => n,
        None => Seq::empty(),
    }
}

/// One line of the largest-files list: rank, size, share and path.
pub open spec fn file_line(i: int, f: NodeModel, total: u64) -> Seq<char> {
    pad_left(decimal((i + 1) as nat), 3) + ". "@ + pad_left(format_bytes_spec(f.size as i64 as int), 10)
        + "  ("@ + pct_text(f.size as nat, total as nat) + "%)  "@ + take_chars(f.path, 56)
}

/// The largest-files view: title, a chart of the top 20, one line per file
/// of the top 100 (shares of their summed size, at least 1), and the file
/// count; a notice when nothing was scanned.
pub open spec fn top_files_spec(root: Option<NodeModel>) -> Seq<Seq<char>> {
    match root {
        None => seq!["No scan data"@],
        Some(m) => {
            let fs = largest_spec(m, 100);
            let sum = sum_size(fs);
            let total: u64 = if sum < 1 { 1 } else { sum };
            let n20: int = if fs.len() < 20 { fs.len() as int } else { 20 };
            let items = Seq::new(n20 as nat, |i: int| (name_or_empty(fs[i].path), fs[i].size));
            seq!["Top 100 Largest Files"@, "Labeled size chart (top 20)"@, Seq::empty()]
                + ascii_chart_spec(items, 32, Some(total))
                + seq![Seq::empty()]
                + Seq::new(fs.len(), |i: int| file_line(i, fs[i], total))
                + seq!["Total files scanned: "@ + decimal(m.file_count as nat)]
        },
    }
}

fn file_line_exec(i: usize, f: &ScanNode, total: u64) -> (r: String)
    requires
        total >= 1,
        i < 1000,
    ensures
        r@ == file_line(i as int, f.model(), total),
{
    let mut s = String::new();
    let mut rank = String::new();
    push_decimal(&mut rank, (i + 1) as u64);
    push_padded_left(&mut s, rank.as_str(), 3);
    push_str(&mut s, ". ");
    let fb = format_bytes(f.size as i64);
    push_padded_left(&mut s, fb.as_str(), 10);
    push_str(&mut s, "  (");
    push_pct(&mut s, f.size, total);
    push_str(&mut s, "%)  ");
    let p = truncate_chars(f.path.as_str(), 56);
    push_str(&mut s, p.as_str());
    s
}

/// The largest-files view (see `top_files_spec`).
pub fn top_files_lines(root: Option<&ScanNode>) -> (r: Vec<String>)
    ensures
        strs(r@) == top_files_spec(match root { Some(n) => Some(n.model()), None => None }),
{
    let mut out: Vec<String> = Vec::new();
    let root = match root {
        None => {
            out.push("No scan data".to_owned());
            assert(strs(out@) =~= seq!["No scan data"@]);
            return out;
        },
        Some(r) => r,
    };
    let files = collect_largest_files(root, 100);
    let ghost fs = largest_spec(root.model(), 100);
    assert(ref_models(files@) =~= fs);
    let mut sum: u64 = 0;
    for i in 0..files.len()
        invariant
            ref_models(files@) == fs,
            sum == sum_size(fs.take(i as int)),
    {
        assert(fs.take(i + 1).drop_last() =~= fs.take(i as int));
        sum = sum.wrapping_add(files[i].size);
    }
    assert(fs.take(files.len() as int) =~= fs);
    let total: u64 = if sum < 1 { 1 } else { sum };
    let n20: usize = if files.len() < 20 { files.len() } else { 20 };
    let mut items: Vec<(String, u64)> = Vec::new();
    for i in 0..n20
        invariant
            n20 <= files@.len(),
            ref_models(files@) == fs,
            items@.len() == i,
            forall|j: int| 0 <= j < i ==> (#[trigger] items@[j]).0@ == name_or_empty(fs[j].path) && items@[j].1 == fs[j].size,
    {
        let f = files[i];
        let name = match file_name(f.path.as_str()) {
            Some(n) => string_of(&n),
            None => String::new(),
        };
        items.push((name, f.size));
    }
    let ghost want = Seq::new(n20 as nat, |i: int| (name_or_empty(fs[i].path), fs[i].size));
    assert(items_of(items@) =~= want);
    out.push("Top 100 Largest Files".to_owned());
    out.push("Labeled size chart (top 20)".to_owned());
    out.push(String::new());
    let mut chart = ascii_bar_chart(&items, 32, Some(total));
    let ghost head = strs(out@);
    let ghost ch = strs(chart@);
    assert(ch == ascii_chart_spec(want, 32, Some(total)));
    out.append(&mut chart);
    out.push(String::new());
    let ghost mid = strs(out@);
    assert(mid =~= head + ch + seq![Seq::<char>::empty()]);
    assert(files@.len() <= 100);
    for i in 0..files.len()
        invariant
            files@.len() <= 100,
            total >= 1,
            ref_models(files@) == fs,
            strs(out@) == mid + Seq::new(i as nat, |k: int| file_line(k, fs[k], total)),
    {
        assert(ref_models(files@)[i as int] == files@[i as int].model());
        let line = file_line_exec(i, files[i], total);
        let ghost before = strs(out@);
        out.push(line);
        assert(strs(out@) =~= before.push(file_line(i as int, fs[i as int], total)));
        assert(strs(out@) =~= mid + Seq::new((i + 1) as nat, |k: int| file_line(k, fs[k], total)));
    }
    let mut last = "Total files scanned: ".to_owned();
    push_decimal(&mut last, root.file_count);
    let ghost body = strs(out@);
    out.push(last);
    proof {
        let m = root.model();
        assert(body == mid + Seq::new(fs.len(), |k: int| file_line(k, fs[k], total)));
        assert(strs(out@) =~= body + seq!["Total files scanned: "@ + decimal(m.file_count as nat)]);
        assert(sum_size(fs) == sum);
    }
    assert(strs(out@) =~= top_files_spec(Some(root.model())));
    out
}

} // verus!

verus! {

/// Size and count per extension under `m`, largest total first (see
/// `collect_extension_stats`).
pub open spec fn ext_stats_spec(m: NodeModel) -> Seq<(Seq<char>, u64, u64)> {
    let gs = ext_groups(descendants_of(m));
    let order = sorted_order(group_keys(gs), true);
    Seq::new(gs.len(), |i: int| gs[order[i] as int])
}

/// The label of an extension group: the extension, or `(no extension)`.
pub open spec fn ext_display(e: Seq<char>) -> Seq<char> {
    if e.len() == 0 { "(no extension)"@ } else { e }
}

/// The sum of the groups' sizes (modulo 2^64).
pub open spec fn sum_group_sizes(gs: Seq<(Seq<char>, u64, u64)>) -> u64
    decreases gs.len(),
{
    if gs.len() == 0 { 0 } else { crate::models::wadd(sum_group_sizes(gs.drop_last()), gs.last().1) }
}

/// One detail line of the extensions view.
pub open spec fn ext_line(g: (Seq<char>, u64, u64), total: u64) -> Seq<char> {
    let label = if g.0.len() == 0 { ext_display(g.0) } else { seq!['.'] + g.0 };
    "  "@ + pad_right(label, 12) + " "@ + pad_left(format_bytes_spec(g.1 as i64 as int), 10) + "  "@
        + pad_left(decimal(g.2 as nat), 6) + " files  ("@ + pct1(g.1 as nat, total as nat) + "%)"@
}

/// The extensions view: a legend of the twelve largest groups, then
/// details of the first thirty (shares of the summed size, at least 1); a
/// notice when nothing was scanned.
pub open spec fn extensions_spec(root: Option<NodeModel>) -> Seq<Seq<char>> {
    match root {
        None => seq!["No scan data"@],
        Some(m) => {
            let st = ext_stats_spec(m);
            let sum = sum_group_sizes(st);
            let total: u64 = if sum < 1 { 1 } else { sum };
            let items = Seq::new(st.len(), |i: int| (ext_display(st[i].0), st[i].1));
            let n30: nat = if st.len() < 30 { st.len() } else { 30 };
            seq!["Extensions — pie chart (labeled)"@, Seq::empty()]
                + pie_legend_spec(items, 32, 12)
                + seq![Seq::empty(), "Details"@]
                + Seq::new(n30, |i: int| ext_line(st[i], total))
        },
    }
}

fn ext_line_exec(s: &ExtensionStats, total: u64) -> (r: String)
    requires
        total >= 1,
    ensures
        r@ == ext_line(stats_view(*s), total),
{
    let label = if s.extension.as_str().is_empty() {
        s.display_name()
    } else {
        let mut l = ".".to_owned();
        push_str(&mut l, s.extension.as_str());
        l
    };
    let mut out = "  ".to_owned();
    push_padded_right(&mut out, label.as_str(), 12);
    push_str(&mut out, " ");
    let fb = format_bytes(s.total_size as i64);
    push_padded_left(&mut out, fb.as_str(), 10);
    push_str(&mut out, "  ");
    let mut c = String::new();
    push_decimal(&mut c, s.file_count);
    push_padded_left(&mut out, c.as_str(), 6);
    push_str(&mut out, " files  (");
    let t = crate::charts::pct_tenths_exec(s.total_size, total);
    crate::text::push_decimal_wide(&mut out, t / 10);
    crate::text::push_char(&mut out, '.');
    crate::text::push_decimal_wide(&mut out, t % 10);
    push_str(&mut out, "%)");
    proof {
        reveal_strlit(".");
    }
    assert(out@ =~= ext_line(stats_view(*s), total));
    out
}

/// The extensions view (see `extensions_spec`).
pub fn extension_lines(root: Option<&ScanNode>) -> (r: Vec<String>)
    ensures
        strs(r@) == extensions_spec(match root { Some(n) => Some(n.model()), None => None }),
{
    let mut out: Vec<String> = Vec::new();
    let root = match root {
        None => {
            out.push("No scan data".to_owned());
            assert(strs(out@) =~= seq!["No scan data"@]);
            return out;
        },
        Some(r) => r,
    };
    let stats = collect_extension_stats(root);
    let ghost st = ext_stats_spec(root.model());
    assert(stats@.map_values(|s: ExtensionStats| stats_view(s)) =~= st);
    let mut sum: u64 = 0;
    let mut items: Vec<(String, u64)> = Vec::new();
    for i in 0..stats.len()
        invariant
            stats@.map_values(|s: ExtensionStats| stats_view(s)) == st,
            sum == sum_group_sizes(st.take(i as int)),
            items@.len() == i,
            forall|j: int| 0 <= j < i ==> (#[trigger] items@[j]).0@ == ext_display(st[j].0) && items@[j].1 == st[j].1,
    {
        assert(st[i as int] == stats_view(stats@[i as int]));
        assert(st.take(i + 1).drop_last() =~= st.take(i as int));
        sum = sum.wrapping_add(stats[i].total_size);
        items.push((stats[i].display_name(), stats[i].total_size));
    }
    assert(st.take(stats.len() as int) =~= st);
    let total: u64 = if sum < 1 { 1 } else { sum };
    let ghost want = Seq::new(st.len(), |i: int| (ext_display(st[i].0), st[i].1));
    assert(items_of(items@) =~= want);
    out.push("Extensions — pie chart (labeled)".to_owned());
    out.push(String::new());
    let mut legend = labeled_pie_legend(&items, 32, 12);
    let ghost head = strs(out@);
    let ghost lg = strs(legend@);
    assert(lg == pie_legend_spec(want, 32, 12));
    out.append(&mut legend);
    out.push(String::new());
    out.push("Details".to_owned());
    let ghost mid = strs(out@);
    assert(mid =~= head + lg + seq![Seq::<char>::empty(), "Details"@]);
    let n30: usize = if stats.len() < 30 { stats.len() } else { 30 };
    for i in 0..n30
        invariant
            n30 <= stats@.len(),
            total >= 1,
            stats@.map_values(|s: ExtensionStats| stats_view(s)) == st,
            strs(out@) == mid + Seq::new(i as nat, |k: int| ext_line(st[k], total)),
    {
        assert(st[i as int] == stats_view(stats@[i as int]));
        let line = ext_line_exec(&stats[i], total);
        let ghost before = strs(out@);
        out.push(line);
        assert(strs(out@) =~= before.push(ext_line(st[i as int], total)));
        assert(strs(out@) =~= mid + Seq::new((i + 1) as nat, |k: int| ext_line(st[k], total)));
    }
    assert(strs(out@) =~= extensions_spec(Some(root.model())));
    out
}

/// Filled cells of a volume's twelve-cell bar: the used share in twelfths,
/// rounded down (none for an empty volume).
pub open spec fn volume_cells(used: u64, total: u64) -> nat {
    if total == 0 { 0 } else { ((12 * used as nat) / (total as nat)) as nat }
}

/// The table row of a volume: name, mount point, total, used and free
/// sizes, used share and bar, and the mount point again.
pub open spec fn volume_row_spec(v: (Seq<char>, Seq<char>, u64, u64, u64)) -> RowModel {
    let (name, mount, total, used, free) = v;
    RowModel {
        display_name: name,
        path: mount,
        size: format_bytes_spec(total as i64 as int),
        allocated: format_bytes_spec(used as i64 as int),
        pct_parent: format_bytes_spec(free as i64 as int),
        pct_disk: (if total == 0 { "0.0"@ } else { pct1(used as nat, total as nat) }) + "%"@,
        bar: repeat_char('█', volume_cells(used, total)) + repeat_char('░', (12 - volume_cells(used, total)) as nat),
        files: mount,
        folders: Seq::empty(),
        ext: Seq::empty(),
        mtime: 0,
        owner: Seq::empty(),
    }
}

/// The row of a volume (see `volume_row_spec`); its used bytes may not
/// exceed its total.
pub fn volume_row(v: &VolumeInfo) -> (r: TreeRow)
    requires
        v.used_bytes <= v.total_bytes,
    ensures
        r.view() == volume_row_spec(crate::scanner::volume_view(*v)),
{
    let cells: usize = if v.total_bytes == 0 {
        0
    } else {
        let u = v.used_bytes as u128;
        let t = v.total_bytes as u128;
        assert((u * 12) as int / (t as int) <= 12) by (nonlinear_arith)
            requires
                u <= t,
                t >= 1,
        ;
        (u * 12 / t) as usize
    };
    assert(cells == volume_cells(v.used_bytes, v.total_bytes));
    let mut bar = String::new();
    push_repeat(&mut bar, '█', cells);
    push_repeat(&mut bar, '░', 12 - cells);
    let mut pct = String::new();
    if v.total_bytes == 0 {
        push_str(&mut pct, "0.0");
    } else {
        let t = crate::charts::pct_tenths_exec(v.used_bytes, v.total_bytes);
        crate::text::push_decimal_wide(&mut pct, t / 10);
        crate::text::push_char(&mut pct, '.');
        crate::text::push_decimal_wide(&mut pct, t % 10);
    }
    crate::text::push_char(&mut pct, '%');
    proof {
        reveal_strlit("%");
    }
    let r = TreeRow {
        display_name: v.name.clone(),
        path: v.mount_point.clone(),
        size: format_bytes(v.total_bytes as i64),
        allocated: format_bytes(v.used_bytes as i64),
        pct_parent: format_bytes(v.free_bytes as i64),
        pct_disk: pct,
        bar,
        files: v.mount_point.clone(),
        folders: String::new(),
        ext: String::new(),
        mtime: 0,
        owner: String::new(),
    };
    proof {
        let w = volume_row_spec(crate::scanner::volume_view(*v));
        assert(r.view().pct_disk =~= w.pct_disk);
        assert(r.view().bar =~= w.bar);
    }
    r
}

} // verus!

verus! {

/// The chart beside the table: its title and lines for the current view.
/// `focus` is the node the tree view shows (the selected one, else the
/// root); `selected_volume` the name of the selected volume.
pub open spec fn chart_spec(
    view: ViewMode,
    root: Option<NodeModel>,
    focus: Option<NodeModel>,
    volumes: Seq<(Seq<char>, Seq<char>, u64, u64, u64)>,
    selected_volume: Option<Seq<char>>,
    width: nat,
) -> (Seq<char>, Seq<Seq<char>>) {
    match view {
        ViewMode::Volumes => {
            let items = Seq::new(volumes.len(), |i: int| (
                if selected_volume == Some(volumes[i].0) { "> "@ + volumes[i].0 } else { volumes[i].0 },
                volumes[i].3,
            ));
            ("Drive usage"@, seq!["Mounted volumes"@] + ascii_chart_spec(items, width, None)
                + seq![Seq::empty(), "Press Enter on a volume to scan it"@])
        },
        ViewMode::TopFiles => ("Top files chart"@, match root {
            Some(m) => {
                let fs = largest_spec(m, 20);
                ascii_chart_spec(Seq::new(fs.len(), |i: int| (name_or_empty(fs[i].path), fs[i].size)), width, None)
            },
            None => seq!["No scan data"@],
        }),
        ViewMode::Extensions => ("Extensions chart"@, match root {
            Some(m) => {
                let st = ext_stats_spec(m);
                let n: nat = if st.len() < 12 { st.len() } else { 12 };
                pie_legend_spec(Seq::new(n, |i: int| (ext_display(st[i].0), st[i].1)), width, 12)
            },
            None => seq!["No scan data"@],
        }),
        ViewMode::Tree => match focus {
            Some(n) => ("Bar chart — "@ + n.name, crate::charts::children_chart_spec(n, width, 16)),
            None => ("Folder breakdown"@, seq!["No chart for this view"@]),
        },
    }
}

/// The chart beside the table (see `chart_spec`).
pub fn chart_panel(
    view: ViewMode,
    root: Option<&ScanNode>,
    focus: Option<&ScanNode>,
    volumes: &Vec<VolumeInfo>,
    selected_volume: Option<&str>,
    width: usize,
) -> (r: (String, Vec<String>))
    ensures
        (r.0@, strs(r.1@)) == chart_spec(
            view,
            match root { Some(n) => Some(n.model()), None => None },
            match focus { Some(n) => Some(n.model()), None => None },
            volumes@.map_values(|v: VolumeInfo| crate::scanner::volume_view(v)),
            match selected_volume { Some(s) => Some(s@), None => None },
            width as nat,
        ),
{
    match view {
        ViewMode::Volumes => {
            let ghost vs = volumes@.map_values(|v: VolumeInfo| crate::scanner::volume_view(v));
            let ghost sel = match selected_volume { Some(s) => Some(s@), None => None };
            let mut items: Vec<(String, u64)> = Vec::new();
            for i in 0..volumes.len()
                invariant
                    vs == volumes@.map_values(|v: VolumeInfo| crate::scanner::volume_view(v)),
                    sel == (match selected_volume { Some(s) => Some(s@), None => None }),
                    items_of(items@) == Seq::new(i as nat, |k: int| (
                        if sel == Some(vs[k].0) { "> "@ + vs[k].0 } else { vs[k].0 },
                        vs[k].3,
                    )),
            {
                let v = &volumes[i];
                let marked = match selected_volume {
                    Some(s) => crate::text::chars_eq(&crate::text::chars_of(s), &crate::text::chars_of(v.name.as_str())),
                    None => false,
                };
                let label = if marked {
                    let mut l = "> ".to_owned();
                    push_str(&mut l, v.name.as_str());
                    l
                } else {
                    v.name.clone()
                };
                let ghost before = items_of(items@);
                items.push((label, v.used_bytes));
                assert(items_of(items@) =~= before.push((
                    if sel == Some(vs[i as int].0) { "> "@ + vs[i as int].0 } else { vs[i as int].0 },
                    vs[i as int].3,
                )));
                assert(items_of(items@) =~= Seq::new((i + 1) as nat, |k: int| (
                    if sel == Some(vs[k].0) { "> "@ + vs[k].0 } else { vs[k].0 },
                    vs[k].3,
                )));
            }
            let mut lines: Vec<String> = Vec::new();
            lines.push("Mounted volumes".to_owned());
            let mut chart = ascii_bar_chart(&items, width, None);
            let ghost ch = strs(chart@);
            lines.append(&mut chart);
            lines.push(String::new());
            lines.push("Press Enter on a volume to scan it".to_owned());
            assert(strs(lines@) =~= seq!["Mounted volumes"@] + ch + seq![Seq::<char>::empty(), "Press Enter on a volume to scan it"@]);
            ("Drive usage".to_owned(), lines)
        },
        ViewMode::TopFiles => {
            let lines = match root {
                Some(r) => {
                    let files = collect_largest_files(r, 20);
                    let ghost fs = largest_spec(r.model(), 20);
                    assert(ref_models(files@) =~= fs);
                    let mut items: Vec<(String, u64)> = Vec::new();
                    for i in 0..files.len()
                        invariant
                            ref_models(files@) == fs,
                            items_of(items@) == Seq::new(i as nat, |k: int| (name_or_empty(fs[k].path), fs[k].size)),
                    {
                        let f = files[i];
                        assert(ref_models(files@)[i as int] == f.model());
                        let name = match file_name(f.path.as_str()) {
                            Some(n) => string_of(&n),
                            None => String::new(),
                        };
                        let ghost before = items_of(items@);
                        assert(name@ == name_or_empty(fs[i as int].path));
                        items.push((name, f.size));
                        assert(items_of(items@) =~= before.push((name_or_empty(fs[i as int].path), fs[i as int].size)));
                        assert(items_of(items@) =~= Seq::new((i + 1) as nat, |k: int| (name_or_empty(fs[k].path), fs[k].size)));
                    }
                    ascii_bar_chart(&items, width, None)
                },
                None => {
                    let v = vec!["No scan data".to_owned()];
                    assert(strs(v@) =~= seq!["No scan data"@]);
                    v
                },
            };
            ("Top files chart".to_owned(), lines)
        },
        ViewMode::Extensions => {
            let lines = match root {
                Some(r) => {
                    let stats = collect_extension_stats(r);
                    let ghost st = ext_stats_spec(r.model());
                    assert(stats@.map_values(|s: ExtensionStats| stats_view(s)) =~= st);
                    let n: usize = if stats.len() < 12 { stats.len() } else { 12 };
                    let mut items: Vec<(String, u64)> = Vec::new();
                    for i in 0..n
                        invariant
                            n <= stats@.len(),
                            stats@.map_values(|s: ExtensionStats| stats_view(s)) == st,
                            items_of(items@) == Seq::new(i as nat, |k: int| (ext_display(st[k].0), st[k].1)),
                    {
                        assert(st[i as int] == stats_view(stats@[i as int]));
                        let ghost before = items_of(items@);
                        let dn = stats[i].display_name();
                        assert(dn@ == ext_display(st[i as int].0));
                        items.push((dn, stats[i].total_size));
                        assert(items_of(items@) =~= before.push((ext_display(st[i as int].0), st[i as int].1)));
                        assert(items_of(items@) =~= Seq::new((i + 1) as nat, |k: int| (ext_display(st[k].0), st[k].1)));
                    }
                    labeled_pie_legend(&items, width, 12)
                },
                None => {
                    let v = vec!["No scan data".to_owned()];
                    assert(strs(v@) =~= seq!["No scan data"@]);
                    v
                },
            };
            ("Extensions chart".to_owned(), lines)
        },
        ViewMode::Tree => {
            match focus {
                Some(n) => {
                    let mut t = "Bar chart — ".to_owned();
                    push_str(&mut t, n.name.as_str());
                    (t, crate::charts::labeled_children_chart(n, width, 16))
                },
                None => {
                    let v = vec!["No chart for this view".to_owned()];
                    assert(strs(v@) =~= seq!["No chart for this view"@]);
                    ("Folder breakdown".to_owned(), v)
                },
            }
        },
    }
}

/// The visible part of a text view: the scroll offset kept within the
/// lines (the viewport counted as at least one line), the title hint
/// showing the position when the text scrolls, and the visible lines cut to
/// the pane's width.
pub open spec fn window_spec(lines: Seq<Seq<char>>, scroll: u16, rows: u16, max_chars: nat) -> (u16, Seq<char>, Seq<Seq<char>>) {
    let visible: int = if rows >= 1 { rows as int } else { 1 };
    let max_scroll: int = if lines.len() >= visible { lines.len() - visible } else { 0 };
    let s: u16 = if scroll > max_scroll { max_scroll as u16 } else { scroll };
    let hint = if max_scroll > 0 {
        " (↑/↓ scroll "@ + decimal(s as nat) + "/"@ + decimal(max_scroll as nat) + ")"@
    } else {
        Seq::empty()
    };
    let start: int = if s < lines.len() { s as int } else { lines.len() as int };
    let end: int = if start + visible < lines.len() { start + visible } else { lines.len() as int };
    (s, hint, lines.subrange(start, end).map_values(|l: Seq<char>| take_chars(l, max_chars)))
}

/// The visible part of a text view (see `window_spec`).
#[verifier::spinoff_prover]
#[verifier::rlimit(40)]
pub fn text_window(lines: &Vec<String>, scroll: u16, rows: u16, max_chars: usize) -> (r: (u16, String, Vec<String>))
    ensures
        (r.0, r.1@, strs(r.2@)) == window_spec(strs(lines@), scroll, rows, max_chars as nat),
{
    let visible: usize = if rows >= 1 { rows as usize } else { 1 };
    let max_scroll: usize = if lines.len() >= visible { lines.len() - visible } else { 0 };
    let s: u16 = if scroll as usize > max_scroll { max_scroll as u16 } else { scroll };
    let mut hint = String::new();
    if max_scroll > 0 {
        push_str(&mut hint, " (↑/↓ scroll ");
        push_decimal(&mut hint, s as u64);
        push_str(&mut hint, "/");
        push_decimal(&mut hint, max_scroll as u64);
        push_str(&mut hint, ")");
    }
    let start: usize = if (s as usize) < lines.len() { s as usize } else { lines.len() };
    let end: usize = if start + visible < lines.len() { start + visible } else { lines.len() };
    let ghost all = strs(lines@);
    let ghost want = all.subrange(start as int, end as int).map_values(|l: Seq<char>| take_chars(l, max_chars as nat));
    let mut out: Vec<String> = Vec::new();
    for i in start..end
        invariant
            start <= end <= lines@.len(),
            all == strs(lines@),
            want == all.subrange(start as int, end as int).map_values(|l: Seq<char>| take_chars(l, max_chars as nat)),
            strs(out@) == want.take(i - start),
    {
        let t = truncate_chars(lines[i].as_str(), max_chars);
        let ghost before = strs(out@);
        out.push(t);
        assert(want[i - start] == take_chars(all[i as int], max_chars as nat));
        assert(strs(out@) =~= before.push(want[i - start]));
        assert(want.take(i + 1 - start) =~= want.take(i - start).push(want[i - start]));
    }
    assert(want.take(end - start) =~= want);
    (s, hint, out)
}

} // verus!
