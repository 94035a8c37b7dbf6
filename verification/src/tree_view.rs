//! The rows of the tree view: the scanned tree walked depth first through
//! the expanded directories, children in the chosen sort order, each row
//! with its branch drawing, sizes, shares and counts.

use vstd::prelude::*;
use crate::charts::{pct_tenths, pct_tenths_exec};
use crate::models::{lemma_models_of_index, lemma_models_of_len, sorted_child_models, child_sort_keys, NodeModel, ScanNode, SortKey};
use crate::order::{sorted_order, sorted_perm};
use crate::paths::{components, comps_eq, cv, path_components};
use crate::scanner::{format_bytes, format_bytes_spec};
use vstd::string::StrSliceExecFns;
use crate::text::{decimal, push_char, push_decimal, push_decimal_wide, push_repeat, push_str, repeat_char, strs};

verus! {

/// One row of the tree table. `mtime` is left for the front end to show
/// in local time.
#[derive(Debug, Clone)]
pub struct TreeRow {
    pub display_name: String,
    pub path: String,
    pub size: String,
    pub allocated: String,
    pub pct_parent: String,
    pub pct_disk: String,
    pub bar: String,
    pub files: String,
    pub folders: String,
    pub ext: String,
    pub mtime: i64,
    pub owner: String,
}

/// The value of a row.
pub struct RowModel {
    pub display_name: Seq<char>,
    pub path: Seq<char>,
    pub size: Seq<char>,
    pub allocated: Seq<char>,
    pub pct_parent: Seq<char>,
    pub pct_disk: Seq<char>,
    pub bar: Seq<char>,
    pub files: Seq<char>,
    pub folders: Seq<char>,
    pub ext: Seq<char>,
    pub mtime: i64,
    pub owner: Seq<char>,
}

impl TreeRow {
    pub open spec fn view(&self) -> RowModel {
        RowModel {
            display_name: self.display_name@,
            path: self.path@,
            size: self.size@,
            allocated: self.allocated@,
            pct_parent: self.pct_parent@,
            pct_disk: self.pct_disk@,
            bar: self.bar@,
            files: self.files@,
            folders: self.folders@,
            ext: self.ext@,
            mtime: self.mtime,
            owner: self.owner@,
        }
    }
}

/// The values of a list of rows.
pub open spec fn rows_view(rs: Seq<TreeRow>) -> Seq<RowModel> {
    rs.map_values(|r: TreeRow| r.view())
}

/// What the walk needs besides the tree: the expanded directories, the
/// filter text and the paths it matched (with their ancestors), and the
/// sort order. Paths are compared component by component.
pub struct TreeViewConfig {
    pub expanded: Vec<String>,
    pub filter: String,
    pub filter_paths: Vec<String>,
    pub sort_key: SortKey,
    pub sort_reverse: bool,
}

/// The walk's settings as values.
pub struct ViewCfg {
    pub expanded: Seq<Seq<char>>,
    pub filter: Seq<char>,
    pub filter_paths: Seq<Seq<char>>,
    pub sort_key: SortKey,
    pub sort_reverse: bool,
    pub root_size: u64,
}

/// Whether `p` is one of `set` (component by component).
pub open spec fn path_in(set: Seq<Seq<char>>, p: Seq<char>) -> bool {
    exists|i: int| 0 <= i < set.len() && path_components(#[trigger] set[i]) == path_components(p)
}

/// Whether a node is shown under the filter.
pub open spec fn shown(c: ViewCfg, p: Seq<char>) -> bool {
    c.filter.len() == 0 || path_in(c.filter_paths, p)
}

/// Whether sizes are known enough to show: a finished or non-directory
/// node, or one with some size already counted.
pub open spec fn show_metrics(m: NodeModel) -> bool {
    m.scan_complete || !m.is_dir || m.size > 0 || m.allocated > 0
}

/// A share as `{:.1}` shows a percentage: tenths rounded, one decimal.
pub open spec fn pct1(size: nat, total: nat) -> Seq<char> {
    let t = pct_tenths(size, total);
    decimal(t / 10) + seq!['.'] + decimal(t % 10)
}

/// The share of the parent's size: all of it for the root (when not
/// empty), nothing for an empty parent.
pub open spec fn parent_pct(m: NodeModel, parent: Option<NodeModel>) -> Seq<char> {
    (match parent {
        None => if m.size > 0 { "100.0"@ } else { "0.0"@ },
        Some(p) => if p.size == 0 { "0.0"@ } else { pct1(m.size as nat, p.size as nat) },
    }) + "%"@
}

/// The share of the whole scan: a dash when the scan is empty.
pub open spec fn disk_pct(m: NodeModel, root_size: u64) -> Seq<char> {
    if root_size == 0 {
        "—"@
    } else if show_metrics(m) {
        pct1(m.size as nat, root_size as nat) + "%"@
    } else {
        "…"@
    }
}

/// Filled cells of the ten-cell bar: the share of the scan in tenths,
/// rounded down, at least one.
pub open spec fn bar_cells(size: u64, root_size: u64) -> nat {
    if size >= root_size {
        10
    } else {
        let f: nat = ((10 * size as nat) / (root_size as nat)) as nat;
        if f < 1 { 1 } else { f }
    }
}

/// The ten-cell bar of the share of the scan.
pub open spec fn bar_spec(m: NodeModel, root_size: u64) -> Seq<char> {
    if root_size == 0 || m.size == 0 {
        repeat_char('░', 10)
    } else if !show_metrics(m) {
        "…"@
    } else {
        repeat_char('█', bar_cells(m.size, root_size)) + repeat_char('░', (10 - bar_cells(m.size, root_size)) as nat)
    }
}

/// The name column: indentation, branch, expansion marker, kind, name, and
/// marks for symlinks and unfinished directories.
pub open spec fn display_spec(m: NodeModel, prefix: Seq<char>, is_last: bool, is_root: bool, expanded: bool) -> Seq<char> {
    let line_prefix = if is_root { Seq::empty() } else { prefix };
    let branch = if is_root { Seq::empty() } else if is_last { "└── "@ } else { "├── "@ };
    let marker = if m.is_dir { if expanded { "v "@ } else { "> "@ } } else { "  "@ };
    let icon = if m.is_dir { "[D]"@ } else { "[F]"@ };
    line_prefix + branch + marker + icon + m.name
        + (if m.is_symlink { " →"@ } else { Seq::empty() })
        + (if m.is_dir && !m.scan_complete { " …"@ } else { Seq::empty() })
}

/// The row of one node.
pub open spec fn row_spec(m: NodeModel, parent: Option<NodeModel>, prefix: Seq<char>, is_last: bool, is_root: bool, c: ViewCfg) -> RowModel {
    RowModel {
        display_name: display_spec(m, prefix, is_last, is_root, path_in(c.expanded, m.path)),
        path: m.path,
        size: if show_metrics(m) { format_bytes_spec(m.size as i64 as int) } else { "…"@ },
        allocated: if show_metrics(m) { format_bytes_spec(m.allocated as i64 as int) } else { "…"@ },
        pct_parent: if show_metrics(m) { parent_pct(m, parent) } else { "…"@ },
        pct_disk: disk_pct(m, c.root_size),
        bar: bar_spec(m, c.root_size),
        files: decimal(m.file_count as nat),
        folders: decimal(m.folder_count as nat),
        ext: if m.is_dir { Seq::empty() } else { m.extension },
        mtime: m.mtime,
        owner: m.owner,
    }
}

/// The rows of a node and, when it is an expanded directory, of its
/// children in sort order; nothing when the filter hides it.
pub open spec fn node_rows(m: NodeModel, parent: Option<NodeModel>, prefix: Seq<char>, is_last: bool, is_root: bool, c: ViewCfg) -> Seq<RowModel>
    decreases m, 0int,
{
    if !shown(c, m.path) {
        Seq::empty()
    } else {
        seq![row_spec(m, parent, prefix, is_last, is_root, c)] + (if m.is_dir && path_in(c.expanded, m.path) {
            let order = sorted_order(child_sort_keys(c.sort_key, m), c.sort_reverse);
            child_rows(m.children, m, order, 0, prefix + (if is_last { "    "@ } else { "│   "@ }), c)
        } else {
            Seq::empty()
        })
    }
}

/// The rows of the children at `order[i..]` (positions into `cs`).
pub open spec fn child_rows(cs: Seq<NodeModel>, parent: NodeModel, order: Seq<usize>, i: int, prefix: Seq<char>, c: ViewCfg) -> Seq<RowModel>
    decreases cs, order.len() - i,
{
    if i < 0 || i >= order.len() {
        Seq::empty()
    } else if order[i] < cs.len() {
        node_rows(cs[order[i] as int], Some(parent), prefix, i == order.len() - 1, false, c)
            + child_rows(cs, parent, order, i + 1, prefix, c)
    } else {
        child_rows(cs, parent, order, i + 1, prefix, c)
    }
}

/// The rows of the whole tree view.
pub open spec fn tree_rows_spec(root: NodeModel, c: ViewCfg) -> Seq<RowModel> {
    node_rows(root, None, Seq::empty(), true, true, c)
}

/// The walk's settings as values, for a scan of `root_size` bytes.
pub open spec fn cfg_view(cfg: TreeViewConfig, root_size: u64) -> ViewCfg {
    ViewCfg {
        expanded: strs(cfg.expanded@),
        filter: cfg.filter@,
        filter_paths: strs(cfg.filter_paths@),
        sort_key: cfg.sort_key,
        sort_reverse: cfg.sort_reverse,
        root_size,
    }
}

/// Whether a path is in a list given as components.
fn in_comps(set: &Vec<Vec<Vec<char>>>, pc: &Vec<Vec<char>>, Ghost(strs_set): Ghost<Seq<Seq<char>>>, Ghost(p): Ghost<Seq<char>>) -> (r: bool)
    requires
        set@.len() == strs_set.len(),
        forall|i: int| 0 <= i < set@.len() ==> cv(#[trigger] set@[i]@) == path_components(strs_set[i]),
        cv(pc@) == path_components(p),
    ensures
        r == path_in(strs_set, p),
{
    for i in 0..set.len()
        invariant
            set@.len() == strs_set.len(),
            forall|i: int| 0 <= i < set@.len() ==> cv(#[trigger] set@[i]@) == path_components(strs_set[i]),
            cv(pc@) == path_components(p),
            forall|j: int| 0 <= j < i ==> path_components(#[trigger] strs_set[j]) != path_components(p),
    {
        assert(cv(set@[i as int]@) == path_components(strs_set[i as int]));
        if comps_eq(&set[i], pc) {
            return true;
        }
    }
    false
}

/// The components of each path.
fn comps_list(v: &Vec<String>) -> (r: Vec<Vec<Vec<char>>>)
    ensures
        r@.len() == v@.len(),
        forall|i: int| 0 <= i < r@.len() ==> cv(#[trigger] r@[i]@) == path_components(strs(v@)[i]),
{
    let mut r: Vec<Vec<Vec<char>>> = Vec::new();
    for i in 0..v.len()
        invariant
            r@.len() == i,
            forall|j: int| 0 <= j < i ==> cv(#[trigger] r@[j]@) == path_components(strs(v@)[j]),
    {
        let c = components(v[i].as_str());
        assert(strs(v@)[i as int] == v@[i as int]@);
        r.push(c);
    }
    r
}

/// Precomputed walk settings.
struct Walk {
    expanded: Vec<Vec<Vec<char>>>,
    filter_on: bool,
    filter_paths: Vec<Vec<Vec<char>>>,
    sort_key: SortKey,
    sort_reverse: bool,
    root_size: u64,
}

impl Walk {
    spec fn matches(&self, c: ViewCfg) -> bool {
        &&& self.expanded@.len() == c.expanded.len()
        &&& forall|i: int| 0 <= i < self.expanded@.len() ==> cv(#[trigger] self.expanded@[i]@) == path_components(c.expanded[i])
        &&& self.filter_on == (c.filter.len() != 0)
        &&& self.filter_paths@.len() == c.filter_paths.len()
        &&& forall|i: int| 0 <= i < self.filter_paths@.len() ==> cv(#[trigger] self.filter_paths@[i]@) == path_components(c.filter_paths[i])
        &&& self.sort_key == c.sort_key
        &&& self.sort_reverse == c.sort_reverse
        &&& self.root_size == c.root_size
    }
}

/// `{:.1}` of a share (see `pct1`).
fn push_pct1(out: &mut String, size: u64, total: u64)
    requires
        total >= 1,
    ensures
        final(out)@ == old(out)@ + pct1(size as nat, total as nat),
{
    let t = pct_tenths_exec(size, total);
    push_decimal_wide(out, t / 10);
    push_char(out, '.');
    push_decimal_wide(out, t % 10);
}

fn metrics_shown(node: &ScanNode) -> (r: bool)
    ensures
        r == show_metrics(node.model()),
{
    node.scan_complete || !node.is_dir || node.size > 0 || node.allocated > 0
}

fn display_exec(node: &ScanNode, prefix: &String, is_last: bool, is_root: bool, expanded: bool) -> (r: String)
    ensures
        r@ == display_spec(node.model(), prefix@, is_last, is_root, expanded),
{
    let mut name = String::new();
    if !is_root {
        push_str(&mut name, prefix.as_str());
        if is_last {
            push_str(&mut name, "└── ");
        } else {
            push_str(&mut name, "├── ");
        }
    }
    if node.is_dir {
        if expanded {
            push_str(&mut name, "v ");
        } else {
            push_str(&mut name, "> ");
        }
        push_str(&mut name, "[D]");
    } else {
        push_str(&mut name, "  ");
        push_str(&mut name, "[F]");
    }
    push_str(&mut name, node.name.as_str());
    if node.is_symlink {
        push_str(&mut name, " →");
    }
    if node.is_dir && !node.scan_complete {
        push_str(&mut name, " …");
    }
    assert(name@ =~= display_spec(node.model(), prefix@, is_last, is_root, expanded));
    name
}

fn parent_pct_exec(node: &ScanNode, parent: Option<&ScanNode>) -> (r: String)
    ensures
        r@ == parent_pct(node.model(), match parent { Some(p) => Some(p.model()), None => None }),
{
    let mut s = String::new();
    match parent {
        None => {
            if node.size > 0 {
                push_str(&mut s, "100.0");
            } else {
                push_str(&mut s, "0.0");
            }
        },
        Some(p) => {
            if p.size == 0 {
                push_str(&mut s, "0.0");
            } else {
                push_pct1(&mut s, node.size, p.size);
            }
        },
    }
    push_char(&mut s, '%');
    proof {
        reveal_strlit("%");
    }
    assert(s@ =~= parent_pct(node.model(), match parent { Some(p) => Some(p.model()), None => None }));
    s
}

fn disk_pct_exec(node: &ScanNode, show: bool, root_size: u64) -> (r: String)
    requires
        show == show_metrics(node.model()),
    ensures
        r@ == disk_pct(node.model(), root_size),
{
    if root_size == 0 {
        "—".to_owned()
    } else if show {
        let mut s = String::new();
        push_pct1(&mut s, node.size, root_size);
        push_char(&mut s, '%');
        proof {
            reveal_strlit("%");
        }
        assert(s@ =~= disk_pct(node.model(), root_size));
        s
    } else {
        "…".to_owned()
    }
}

fn bar_exec(node: &ScanNode, show: bool, root_size: u64) -> (r: String)
    requires
        show == show_metrics(node.model()),
    ensures
        r@ == bar_spec(node.model(), root_size),
{
    if root_size == 0 || node.size == 0 {
        let mut s = String::new();
        push_repeat(&mut s, '░', 10);
        assert(s@ =~= repeat_char('░', 10));
        s
    } else if !show {
        "…".to_owned()
    } else {
        let f: usize = if node.size >= root_size {
            10
        } else {
            let sz = node.size as u128;
            let t = root_size as u128;
            assert((sz * 10) as int / (t as int) < 10) by (nonlinear_arith)
                requires
                    sz < t,
                    t >= 1,
            ;
            let q = (sz * 10 / t) as usize;
            if q < 1 { 1 } else { q }
        };
        assert(f == bar_cells(node.size, root_size));
        let mut s = String::new();
        push_repeat(&mut s, '█', f);
        push_repeat(&mut s, '░', 10 - f);
        s
    }
}

fn row_of(node: &ScanNode, parent: Option<&ScanNode>, prefix: &String, is_last: bool, is_root: bool, expanded: bool, root_size: u64) -> (r: TreeRow)
    ensures
        ({
            let m = node.model();
            let v = r.view();
            &&& v.display_name == display_spec(m, prefix@, is_last, is_root, expanded)
            &&& v.path == m.path
            &&& v.size == (if show_metrics(m) { format_bytes_spec(m.size as i64 as int) } else { "…"@ })
            &&& v.allocated == (if show_metrics(m) { format_bytes_spec(m.allocated as i64 as int) } else { "…"@ })
            &&& v.pct_parent == (if show_metrics(m) {
                    parent_pct(m, match parent { Some(p) => Some(p.model()), None => None })
                } else {
                    "…"@
                })
            &&& v.pct_disk == disk_pct(m, root_size)
            &&& v.bar == bar_spec(m, root_size)
            &&& v.files == decimal(m.file_count as nat)
            &&& v.folders == decimal(m.folder_count as nat)
            &&& v.ext == (if m.is_dir { Seq::empty() } else { m.extension })
            &&& v.mtime == m.mtime
            &&& v.owner == m.owner
        }),
{
    let show = metrics_shown(node);
    let display_name = display_exec(node, prefix, is_last, is_root, expanded);
    let size = if show { format_bytes(node.size as i64) } else { "…".to_owned() };
    let allocated = if show { format_bytes(node.allocated as i64) } else { "…".to_owned() };
    let pct_parent = if show { parent_pct_exec(node, parent) } else { "…".to_owned() };
    let pct_disk = disk_pct_exec(node, show, root_size);
    let bar = bar_exec(node, show, root_size);
    let mut files = String::new();
    push_decimal(&mut files, node.file_count);
    let mut folders = String::new();
    push_decimal(&mut folders, node.folder_count);
    let ext = if node.is_dir { String::new() } else { node.extension.clone() };
    TreeRow {
        display_name,
        path: node.path.clone(),
        size,
        allocated,
        pct_parent,
        pct_disk,
        bar,
        files,
        folders,
        ext,
        mtime: node.mtime,
        owner: node.owner.clone(),
    }
}

#[verifier::rlimit(60)]
#[verifier::spinoff_prover]
fn walk(node: &ScanNode, parent: Option<&ScanNode>, prefix: &String, is_last: bool, is_root: bool, w: &Walk, Ghost(c): Ghost<ViewCfg>, rows: &mut Vec<TreeRow>)
    requires
        w.matches(c),
    ensures
        rows_view(final(rows)@) == rows_view(old(rows)@) + node_rows(
            node.model(),
            match parent { Some(p) => Some(p.model()), None => None },
            prefix@,
            is_last,
            is_root,
            c,
        ),
    decreases node,
{
    let ghost start = rows_view(rows@);
    let ghost pm = match parent { Some(p) => Some(p.model()), None => None };
    let pc = components(node.path.as_str());
    if w.filter_on {
        let vis = in_comps(&w.filter_paths, &pc, Ghost(c.filter_paths), Ghost(node.path@));
        if !vis {
            assert(rows_view(rows@) =~= start + Seq::<RowModel>::empty());
            return;
        }
    }
    let expanded = in_comps(&w.expanded, &pc, Ghost(c.expanded), Ghost(node.path@));
    let row = row_of(node, parent, prefix, is_last, is_root, expanded, w.root_size);
    assert(row.view() == row_spec(node.model(), pm, prefix@, is_last, is_root, c));
    rows.push(row);
    assert(rows_view(rows@) =~= start + seq![row_spec(node.model(), pm, prefix@, is_last, is_root, c)]);
    if node.is_dir && expanded {
        let order = node.sorted_child_order(w.sort_key, w.sort_reverse);
        let mut child_prefix = prefix.clone();
        if is_last {
            push_str(&mut child_prefix, "    ");
        } else {
            push_str(&mut child_prefix, "│   ");
        }
        let ghost m = node.model();
        let ghost ord = order@;
        let ghost mid = rows_view(rows@);
        proof {
            lemma_models_of_len(node.children@);
        }
        let n = order.len();
        for i in 0..n
            invariant
                n == ord.len(),
                ord == order@,
                ord == sorted_order(child_sort_keys(c.sort_key, m), c.sort_reverse),
                sorted_perm(ord, child_sort_keys(c.sort_key, m), c.sort_reverse),
                m == node.model(),
                m.children.len() == node.children@.len(),
                w.matches(c),
                child_rows(m.children, m, ord, 0, child_prefix@, c)
                    == rows_view(rows@).skip(mid.len() as int) + child_rows(m.children, m, ord, i as int, child_prefix@, c),
                rows_view(rows@).len() >= mid.len(),
                rows_view(rows@).take(mid.len() as int) == mid,
        {
            let k = order[i];
            assert(ord[i as int] < child_sort_keys(c.sort_key, m).len());
            proof {
                lemma_models_of_index(node.children@, k as int);
            }
            assert(decreases_to!(node => node.children));
            let ghost before = rows_view(rows@);
            let last = i + 1 == n;
            walk(&node.children[k], Some(node), &child_prefix, last, false, w, Ghost(c), rows);
            proof {
                assert(node.children@[k as int].model() == m.children[k as int]);
                let sub = node_rows(m.children[k as int], Some(m), child_prefix@, last, false, c);
                assert(rows_view(rows@) == before + sub);
                assert(child_rows(m.children, m, ord, i as int, child_prefix@, c)
                    == sub + child_rows(m.children, m, ord, i + 1, child_prefix@, c));
                assert(rows_view(rows@).skip(mid.len() as int) =~= before.skip(mid.len() as int) + sub);
                assert(rows_view(rows@).take(mid.len() as int) =~= before.take(mid.len() as int));
            }
        }
        proof {
            assert(rows_view(rows@) =~= mid + rows_view(rows@).skip(mid.len() as int));
        }
    }
}

/// The rows of the tree view for `root` (see `tree_rows_spec`).
pub fn build_tree_rows(root: &ScanNode, cfg: &TreeViewConfig) -> (r: Vec<TreeRow>)
    ensures
        rows_view(r@) == tree_rows_spec(root.model(), cfg_view(*cfg, root.size)),
{
    let w = Walk {
        expanded: comps_list(&cfg.expanded),
        filter_on: !cfg.filter.as_str().is_empty(),
        filter_paths: comps_list(&cfg.filter_paths),
        sort_key: cfg.sort_key,
        sort_reverse: cfg.sort_reverse,
        root_size: root.size,
    };
    let ghost c = cfg_view(*cfg, root.size);
    let mut rows: Vec<TreeRow> = Vec::new();
    let prefix = String::new();
    walk(root, None, &prefix, true, true, &w, Ghost(c), &mut rows);
    assert(rows_view(rows@) =~= tree_rows_spec(root.model(), c));
    rows
}

} // verus!

verus! {

/// The ancestors of a path, nearest first, as `Path::parent` gives them
/// one after the other (each shorter than the one before).
pub open spec fn ancestors(p: Seq<char>) -> Seq<Seq<char>>
    decreases p.len(),
{
    match crate::paths::parent_spec(p) {
        Some(q) => if q.len() < p.len() { seq![q] + ancestors(q) } else { Seq::empty() },
        None => Seq::empty(),
    }
}

/// Each node's path followed by its ancestors, in order.
pub open spec fn with_ancestors(ms: Seq<NodeModel>) -> Seq<Seq<char>>
    decreases ms.len(),
{
    if ms.len() == 0 {
        Seq::empty()
    } else {
        with_ancestors(ms.drop_last()) + seq![ms.last().path] + ancestors(ms.last().path)
    }
}

/// The paths a filter keeps in the tree view: every node whose name
/// contains the filter text (ignoring case) and all its ancestors; none
/// when the filter is empty.
pub open spec fn filter_paths_spec(root: NodeModel, filter: Seq<char>) -> Seq<Seq<char>> {
    if filter.len() == 0 {
        Seq::empty()
    } else {
        with_ancestors(crate::models::filter_named(seq![root] + crate::models::descendants_of(root), filter, false))
    }
}

fn push_ancestors(p: &String, out: &mut Vec<String>)
    ensures
        strs(final(out)@) == strs(old(out)@) + ancestors(p@),
{
    let ghost start = strs(out@);
    let mut cur = p.clone();
    loop
        invariant
            strs(out@) + ancestors(cur@) == start + ancestors(p@),
        ensures
            strs(out@) == start + ancestors(p@),
        decreases cur@.len(),
    {
        match crate::paths::parent_path(cur.as_str()) {
            Some(q) => {
                if q.as_str().unicode_len() < cur.as_str().unicode_len() {
                    let ghost before = strs(out@);
                    let ghost c0 = cur@;
                    out.push(q.clone());
                    assert(strs(out@) =~= before.push(q@));
                    assert(ancestors(c0) == seq![q@] + ancestors(q@));
                    assert(strs(out@) + ancestors(q@) =~= before + ancestors(c0));
                    cur = q;
                } else {
                    assert(ancestors(cur@) =~= Seq::<Seq<char>>::empty());
                    assert(strs(out@) =~= strs(out@) + ancestors(cur@));
                    break;
                }
            },
            None => {
                assert(ancestors(cur@) =~= Seq::<Seq<char>>::empty());
                assert(strs(out@) =~= strs(out@) + ancestors(cur@));
                break;
            },
        }
    }
}

/// The paths a filter keeps (see `filter_paths_spec`), each once.
pub fn filter_match_paths(root: &ScanNode, filter: &str) -> (r: Vec<String>)
    ensures
        distinct_paths(strs(r@)),
        forall|q: Seq<char>| path_in(strs(r@), q) == path_in(filter_paths_spec(root.model(), filter@), q),
{
    let mut out: Vec<String> = Vec::new();
    if filter.is_empty() {
        assert(strs(out@) =~= Seq::<Seq<char>>::empty());
        return out;
    }
    let matches = root.filter_by_name(filter, false);
    let ghost ms = crate::models::ref_models(matches@);
    assert(ms.take(0) =~= Seq::<NodeModel>::empty());
    assert(strs(out@) =~= Seq::<Seq<char>>::empty());
    for i in 0..matches.len()
        invariant
            ms == crate::models::ref_models(matches@),
            strs(out@) == with_ancestors(ms.take(i as int)),
    {
        let m = matches[i];
        let ghost before = strs(out@);
        out.push(m.path.clone());
        assert(strs(out@) =~= before + seq![m.path@]);
        push_ancestors(&m.path, &mut out);
        assert(ms.take(i + 1).drop_last() =~= ms.take(i as int));
        assert(ms.take(i + 1).last() == m.model());
    }
    assert(ms.take(matches.len() as int) =~= ms);
    dedup_paths(&out)
}

} // verus!

verus! {

/// Whether `p` is one of `set`, compared component by component (see
/// `path_in`).
pub fn path_listed(set: &Vec<String>, p: &str) -> (r: bool)
    ensures
        r == path_in(strs(set@), p@),
{
    let comps = comps_list(set);
    let pc = components(p);
    in_comps(&comps, &pc, Ghost(strs(set@)), Ghost(p@))
}

/// No two paths of `s` name the same place (component by component): a
/// set of paths.
pub open spec fn distinct_paths(s: Seq<Seq<char>>) -> bool {
    forall|i: int, j: int| 0 <= i < j < s.len()
        ==> path_components(#[trigger] s[i]) != path_components(#[trigger] s[j])
}

/// `s` without the paths that name the same place as `p`.
pub open spec fn without_path(s: Seq<Seq<char>>, p: Seq<char>) -> Seq<Seq<char>> {
    s.filter(|q: Seq<char>| path_components(q) != path_components(p))
}

/// Adds `p` to the set of expanded paths unless it is in it already.
pub fn expand_path(set: &mut Vec<String>, p: String)
    ensures
        strs(final(set)@) == if path_in(strs(old(set)@), p@) { strs(old(set)@) } else { strs(old(set)@).push(p@) },
        distinct_paths(strs(old(set)@)) ==> distinct_paths(strs(final(set)@)),
        path_in(strs(final(set)@), p@),
{
    if !path_listed(set, p.as_str()) {
        let ghost before = strs(set@);
        set.push(p);
        proof {
            assert(strs(set@) =~= before.push(p@));
            let n = before.len() as int;
            assert(strs(set@)[n] == p@);
        }
    }
}

/// Removes `p` (every path naming the same place) from the set of expanded
/// paths.
pub fn collapse_path(set: &mut Vec<String>, p: &str)
    ensures
        strs(final(set)@) == without_path(strs(old(set)@), p@),
        !path_in(strs(final(set)@), p@),
        distinct_paths(strs(old(set)@)) ==> distinct_paths(strs(final(set)@)),
{
    let ghost all = strs(set@);
    let ghost pred = |q: Seq<char>| path_components(q) != path_components(p@);
    let pc = components(p);
    let mut kept: Vec<String> = Vec::new();
    assert(all.take(0).filter(pred) =~= Seq::<Seq<char>>::empty());
    for i in 0..set.len()
        invariant
            all == strs(set@),
            pred == (|q: Seq<char>| path_components(q) != path_components(p@)),
            cv(pc@) == path_components(p@),
            strs(kept@) == all.take(i as int).filter(pred),
    {
        let q = set[i].clone();
        proof {
            all.take(i as int).lemma_filter_push(all[i as int], pred);
            assert(all.take(i + 1) == all.take(i as int).push(all[i as int]));
        }
        let qc = components(q.as_str());
        if !comps_eq(&qc, &pc) {
            let ghost before = strs(kept@);
            kept.push(q);
            assert(strs(kept@) =~= before.push(all[i as int]));
        }
    }
    assert(all.take(all.len() as int) == all);
    let ghost r = all.filter(pred);
    proof {
        all.filter_lemma(pred);
        assert forall|k: int| 0 <= k < r.len() implies path_components(#[trigger] r[k]) != path_components(p@) by {
            assert(pred(r[k]));
        }
        if distinct_paths(all) {
            lemma_filter_keeps_distinct(all, pred);
        }
    }
    *set = kept;
}

proof fn lemma_filter_keeps_distinct(s: Seq<Seq<char>>, pred: spec_fn(Seq<char>) -> bool)
    requires
        distinct_paths(s),
    ensures
        distinct_paths(s.filter(pred)),
        forall|k: int| 0 <= k < s.filter(pred).len() ==> s.contains(#[trigger] s.filter(pred)[k]),
    decreases s.len(),
{
    reveal(Seq::filter);
    if s.len() > 0 {
        let d = s.drop_last();
        assert forall|i: int, j: int| 0 <= i < j < d.len() implies path_components(#[trigger] d[i]) != path_components(#[trigger] d[j]) by {
            assert(d[i] == s[i] && d[j] == s[j]);
        }
        lemma_filter_keeps_distinct(d, pred);
        let f = d.filter(pred);
        assert forall|k: int| 0 <= k < f.len() implies s.contains(#[trigger] f[k]) by {
            assert(d.contains(f[k]));
            let w = choose|w: int| 0 <= w < d.len() && d[w] == f[k];
            assert(s[w] == f[k]);
        }
        if pred(s.last()) {
            let g = f.push(s.last());
            assert(s.filter(pred) == g);
            assert forall|k: int| 0 <= k < f.len() implies path_components(#[trigger] f[k]) != path_components(s.last()) by {
                assert(d.contains(f[k]));
                let w = choose|w: int| 0 <= w < d.len() && d[w] == f[k];
                assert(s[w] == d[w]);
                assert(path_components(s[w]) != path_components(s[s.len() - 1]));
            }
            assert forall|i: int, j: int| 0 <= i < j < g.len() implies path_components(#[trigger] g[i]) != path_components(#[trigger] g[j]) by {
                if j == g.len() - 1 {
                    assert(g[i] == f[i]);
                } else {
                    assert(g[i] == f[i] && g[j] == f[j]);
                }
            }
            assert forall|k: int| 0 <= k < g.len() implies s.contains(#[trigger] g[k]) by {
                if k == g.len() - 1 {
                    assert(s[s.len() - 1] == g[k]);
                } else {
                    assert(g[k] == f[k]);
                }
            }
        } else {
            assert(s.filter(pred) == f);
        }
    }
}

proof fn lemma_path_in_push(s: Seq<Seq<char>>, p: Seq<char>, q: Seq<char>)
    ensures
        path_in(s.push(p), q) == (path_in(s, q) || path_components(p) == path_components(q)),
{
    let t = s.push(p);
    if path_in(s, q) {
        let w = choose|w: int| 0 <= w < s.len() && path_components(#[trigger] s[w]) == path_components(q);
        assert(t[w] == s[w]);
    }
    if path_components(p) == path_components(q) {
        assert(t[s.len() as int] == p);
    }
    if path_in(t, q) {
        let w = choose|w: int| 0 <= w < t.len() && path_components(#[trigger] t[w]) == path_components(q);
        if w < s.len() {
            assert(t[w] == s[w]);
        }
    }
}

/// The paths of `items` as a set: no path twice (component by component),
/// and the same paths present.
pub fn dedup_paths(items: &Vec<String>) -> (r: Vec<String>)
    ensures
        distinct_paths(strs(r@)),
        forall|q: Seq<char>| path_in(strs(r@), q) == path_in(strs(items@), q),
{
    let mut r: Vec<String> = Vec::new();
    let ghost all = strs(items@);
    for i in 0..items.len()
        invariant
            all == strs(items@),
            distinct_paths(strs(r@)),
            forall|q: Seq<char>| path_in(strs(r@), q) == path_in(all.take(i as int), q),
    {
        let x = items[i].clone();
        let ghost before = strs(r@);
        expand_path(&mut r, x);
        proof {
            assert(all.take(i + 1) == all.take(i as int).push(all[i as int]));
            assert forall|q: Seq<char>| path_in(strs(r@), q) == path_in(all.take(i + 1), q) by {
                lemma_path_in_push(all.take(i as int), all[i as int], q);
                lemma_path_in_push(before, all[i as int], q);
                if path_in(before, all[i as int]) && path_components(all[i as int]) == path_components(q) {
                    let w = choose|w: int| 0 <= w < before.len() && path_components(#[trigger] before[w]) == path_components(all[i as int]);
                    assert(path_components(before[w]) == path_components(q));
                }
            }
        }
    }
    assert(all.take(all.len() as int) == all);
    r
}

/// Expands `p` when it is collapsed and collapses it when it is expanded.
pub fn toggle_path(set: &mut Vec<String>, p: String)
    ensures
        strs(final(set)@) == if path_in(strs(old(set)@), p@) {
            without_path(strs(old(set)@), p@)
        } else {
            strs(old(set)@).push(p@)
        },
        path_in(strs(final(set)@), p@) == !path_in(strs(old(set)@), p@),
        distinct_paths(strs(old(set)@)) ==> distinct_paths(strs(final(set)@)),
{
    if path_listed(set, p.as_str()) {
        collapse_path(set, p.as_str());
    } else {
        expand_path(set, p);
    }
}

} // verus!

verus! {

/// The directories expanded when a full scan finishes: the root and its
/// child directories.
pub open spec fn auto_expand_spec(m: NodeModel) -> Seq<Seq<char>> {
    seq![m.path] + m.children.filter(|c: NodeModel| c.is_dir).map_values(|c: NodeModel| c.path)
}

/// The directories to expand after a full scan (see `auto_expand_spec`).
pub fn auto_expand_paths(root: &ScanNode) -> (r: Vec<String>)
    ensures
        strs(r@) == auto_expand_spec(root.model()),
{
    let mut out: Vec<String> = Vec::new();
    out.push(root.path.clone());
    let ghost cs = root.model().children;
    let pred = |c: NodeModel| c.is_dir;
    proof {
        lemma_models_of_len(root.children@);
        assert(cs.take(0) =~= Seq::<NodeModel>::empty());
    }
    assert(strs(out@) =~= seq![root.path@] + cs.take(0).filter(|c: NodeModel| c.is_dir).map_values(|c: NodeModel| c.path));
    for i in 0..root.children.len()
        invariant
            cs == root.model().children,
            cs.len() == root.children@.len(),
            strs(out@) == seq![root.path@] + cs.take(i as int).filter(|c: NodeModel| c.is_dir).map_values(|c: NodeModel| c.path),
    {
        proof {
            lemma_models_of_index(root.children@, i as int);
            cs.take(i as int).lemma_filter_push(cs[i as int], |c: NodeModel| c.is_dir);
            assert(cs.take(i + 1) == cs.take(i as int).push(cs[i as int]));
        }
        let ghost before = strs(out@);
        if root.children[i].is_dir {
            out.push(root.children[i].path.clone());
            assert(strs(out@) =~= before.push(root.children@[i as int].path@));
        }
        assert(strs(out@) =~= seq![root.path@] + cs.take(i + 1).filter(|c: NodeModel| c.is_dir).map_values(|c: NodeModel| c.path));
    }
    assert(cs.take(root.children.len() as int) =~= cs);
    out
}

} // verus!
