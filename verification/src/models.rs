//! The scan tree and the values the scanner hands to the UI.

use vstd::prelude::*;
use crate::paths::{comps_eq, cv, file_name, file_name_of, key_spec, lexical_key, rel_after, strip_prefix_comps, PathEnv};
use crate::order::{item_view, items_view, sort_indices, sorted_order, sorted_perm, SortItem};
use crate::text::{chars_eq, chars_of, contains_chars, contains_seq, lowercase, strs, to_lowercase};

verus! {

/// The column a listing is sorted by.
#[derive(Debug, Clone, Copy, PartialEq, Eq, Hash, Structural)]
pub enum SortKey {
    Name,
    Size,
    Allocated,
    Date,
    Extension,
    Owner,
    Percent,
}

impl SortKey {
    /// Every sort key, in cycle order.
    pub fn all() -> (v: Vec<SortKey>)
        ensures
            v@ == seq![SortKey::Name, SortKey::Size, SortKey::Allocated, SortKey::Date,
                SortKey::Extension, SortKey::Owner, SortKey::Percent],
    {
        let v = vec![
            SortKey::Name,
            SortKey::Size,
            SortKey::Allocated,
            SortKey::Date,
            SortKey::Extension,
            SortKey::Owner,
            SortKey::Percent,
        ];
        assert(v@ =~= seq![SortKey::Name, SortKey::Size, SortKey::Allocated, SortKey::Date,
                SortKey::Extension, SortKey::Owner, SortKey::Percent]);
        v
    }

    /// The lower-case label shown for the key.
    pub open spec fn label_spec(self) -> &'static str {
        match self {
            SortKey::Name => "name",
            SortKey::Size => "size",
            SortKey::Allocated => "allocated",
            SortKey::Date => "date",
            SortKey::Extension => "extension",
            SortKey::Owner => "owner",
            SortKey::Percent => "percent",
        }
    }

    /// The lower-case label shown for the key.
    pub fn label(self) -> (r: &'static str)
        ensures
            r == self.label_spec(),
    {
        match self {
            SortKey::Name => "name",
            SortKey::Size => "size",
            SortKey::Allocated => "allocated",
            SortKey::Date => "date",
            SortKey::Extension => "extension",
            SortKey::Owner => "owner",
            SortKey::Percent => "percent",
        }
    }
}

/// One file or directory of the scan tree. `mtime` is in whole seconds
/// since the epoch (0 when unknown).
#[derive(Debug)]
pub struct ScanNode {
    pub name: String,
    pub path: String,
    pub is_dir: bool,
    pub size: u64,
    pub allocated: u64,
    pub file_count: u64,
    pub folder_count: u64,
    pub mtime: i64,
    pub owner: String,
    pub extension: String,
    pub is_symlink: bool,
    pub symlink_target: String,
    pub children: Vec<ScanNode>,
    pub scan_complete: bool,
    /// When false, owner/mtime/extension are filled on first UI access.
    pub metadata_loaded: bool,
}

/// The mathematical value of a node: the same fields, strings as character
/// sequences, children as a sequence of values.
pub struct NodeModel {
    pub name: Seq<char>,
    pub path: Seq<char>,
    pub is_dir: bool,
    pub size: u64,
    pub allocated: u64,
    pub file_count: u64,
    pub folder_count: u64,
    pub mtime: i64,
    pub owner: Seq<char>,
    pub extension: Seq<char>,
    pub is_symlink: bool,
    pub symlink_target: Seq<char>,
    pub children: Seq<NodeModel>,
    pub scan_complete: bool,
    pub metadata_loaded: bool,
}

impl ScanNode {
    /// The value of this node and everything under it.
    pub open spec fn model(self) -> NodeModel
        decreases self,
    {
        NodeModel {
            name: self.name@,
            path: self.path@,
            is_dir: self.is_dir,
            size: self.size,
            allocated: self.allocated,
            file_count: self.file_count,
            folder_count: self.folder_count,
            mtime: self.mtime,
            owner: self.owner@,
            extension: self.extension@,
            is_symlink: self.is_symlink,
            symlink_target: self.symlink_target@,
            children: models_of(self.children@),
            scan_complete: self.scan_complete,
            metadata_loaded: self.metadata_loaded,
        }
    }
}

impl Clone for ScanNode {
    /// A deep copy of the node and everything under it.
    fn clone(&self) -> (r: Self)
        ensures
            r.model() == self.model(),
        decreases self,
    {
        let mut children: Vec<ScanNode> = Vec::new();
        let n = self.children.len();
        for i in 0..n
            invariant
                n == self.children@.len(),
                models_of(children@) == models_of(self.children@.take(i as int)),
        {
            assert(decreases_to!(self => self.children));
            let c = self.children[i].clone();
            proof {
                lemma_models_of_push(children@, c);
                assert(self.children@.take(i + 1) == self.children@.take(i as int).push(self.children@[i as int]));
                lemma_models_of_push(self.children@.take(i as int), self.children@[i as int]);
            }
            children.push(c);
        }
        assert(self.children@.take(n as int) == self.children@);
        ScanNode {
            name: self.name.clone(),
            path: self.path.clone(),
            is_dir: self.is_dir,
            size: self.size,
            allocated: self.allocated,
            file_count: self.file_count,
            folder_count: self.folder_count,
            mtime: self.mtime,
            owner: self.owner.clone(),
            extension: self.extension.clone(),
            is_symlink: self.is_symlink,
            symlink_target: self.symlink_target.clone(),
            children,
            scan_complete: self.scan_complete,
            metadata_loaded: self.metadata_loaded,
        }
    }
}

/// The values of a sequence of nodes.
pub open spec fn models_of(cs: Seq<ScanNode>) -> Seq<NodeModel>
    decreases cs,
{
    if cs.len() == 0 {
        Seq::empty()
    } else {
        models_of(cs.drop_last()).push(cs.last().model())
    }
}

pub proof fn lemma_models_of_len(cs: Seq<ScanNode>)
    ensures
        models_of(cs).len() == cs.len(),
    decreases cs.len(),
{
    if cs.len() > 0 {
        lemma_models_of_len(cs.drop_last());
    }
}

pub proof fn lemma_models_of_index(cs: Seq<ScanNode>, i: int)
    requires
        0 <= i < cs.len(),
    ensures
        models_of(cs)[i] == cs[i].model(),
        models_of(cs).len() == cs.len(),
    decreases cs.len(),
{
    lemma_models_of_len(cs);
    if i < cs.len() - 1 {
        lemma_models_of_index(cs.drop_last(), i);
    }
}

/// `models_of` is determined by the element values.
pub proof fn lemma_models_of_ext(a: Seq<ScanNode>, b: Seq<NodeModel>)
    requires
        a.len() == b.len(),
        forall|i: int| 0 <= i < a.len() ==> #[trigger] a[i].model() == b[i],
    ensures
        models_of(a) == b,
    decreases a.len(),
{
    if a.len() > 0 {
        lemma_models_of_ext(a.drop_last(), b.drop_last());
        assert(models_of(a.drop_last()) == b.drop_last());
        assert(a[a.len() - 1].model() == b[a.len() - 1]);
        assert(b == b.drop_last().push(b.last()));
    } else {
        assert(b =~= Seq::<NodeModel>::empty());
    }
}

pub proof fn lemma_models_of_push(cs: Seq<ScanNode>, c: ScanNode)
    ensures
        models_of(cs.push(c)) == models_of(cs).push(c.model()),
{
    assert(cs.push(c).drop_last() == cs);
}

pub proof fn lemma_models_of_update(cs: Seq<ScanNode>, i: int, c: ScanNode)
    requires
        0 <= i < cs.len(),
    ensures
        models_of(cs.update(i, c)) == models_of(cs).update(i, c.model()),
{
    lemma_models_of_len(cs);
    let u = cs.update(i, c);
    let m = models_of(cs).update(i, c.model());
    assert forall|j: int| 0 <= j < u.len() implies #[trigger] u[j].model() == m[j] by {
        lemma_models_of_index(cs, j);
    }
    lemma_models_of_ext(u, m);
}

/// A node with no children, as `ScanNode::new` builds it.
pub open spec fn fresh_model(name: Seq<char>, path: Seq<char>, is_dir: bool) -> NodeModel {
    NodeModel {
        name: name,
        path: path,
        is_dir: is_dir,
        size: 0,
        allocated: 0,
        file_count: 0,
        folder_count: 0,
        mtime: 0,
        owner: Seq::empty(),
        extension: Seq::empty(),
        is_symlink: false,
        symlink_target: Seq::empty(),
        children: Seq::empty(),
        scan_complete: false,
        metadata_loaded: false,
    }
}

/// `t` with the statistics of `s` (sizes, counts, mtime, owner, extension,
/// symlink fields, completion and metadata flags); name, path, kind and
/// children stay those of `t`.
pub open spec fn with_stats(t: NodeModel, s: NodeModel) -> NodeModel {
    NodeModel {
        size: s.size,
        allocated: s.allocated,
        file_count: s.file_count,
        folder_count: s.folder_count,
        mtime: s.mtime,
        owner: s.owner,
        extension: s.extension,
        is_symlink: s.is_symlink,
        symlink_target: s.symlink_target,
        scan_complete: s.scan_complete,
        metadata_loaded: s.metadata_loaded,
        ..t
    }
}

/// `t` with children `cs`.
pub open spec fn with_children(t: NodeModel, cs: Seq<NodeModel>) -> NodeModel {
    NodeModel { children: cs, ..t }
}

/// `t` with `c` appended to its children.
pub open spec fn with_child(t: NodeModel, c: NodeModel) -> NodeModel {
    NodeModel { children: t.children.push(c), ..t }
}

/// `s` without its children.
pub open spec fn stub(s: NodeModel) -> NodeModel {
    NodeModel { children: Seq::empty(), ..s }
}

/// The largest index below `n` of a child whose path has file name `nm`.
pub open spec fn last_named(cs: Seq<NodeModel>, n: int, nm: Seq<char>) -> Option<int>
    decreases n,
{
    if n <= 0 {
        None
    } else if file_name_of(cs[n - 1].path) == Some(nm) {
        Some(n - 1)
    } else {
        last_named(cs, n - 1, nm)
    }
}

/// The position that a patch child with path `p` is matched to: the last of
/// the first `n` existing children with the same file name (none when the
/// path has no file name).
pub open spec fn match_index(cs: Seq<NodeModel>, n: int, p: Seq<char>) -> Option<int> {
    match file_name_of(p) {
        Some(nm) => last_named(cs, n, nm),
        None => None,
    }
}

/// Listing merge: each patch child, in order, updates the statistics of its
/// match among the first `n` children in place, or is appended without its
/// own children.
pub open spec fn listed_fold(cs: Seq<NodeModel>, n: int, ps: Seq<NodeModel>) -> Seq<NodeModel>
    decreases ps.len(),
{
    if ps.len() == 0 {
        cs
    } else {
        let st = listed_fold(cs, n, ps.drop_last());
        let p = ps.last();
        match match_index(st, n, p.path) {
            Some(i) => st.update(i, with_stats(st[i], p)),
            None => st.push(stub(p)),
        }
    }
}

/// Subtree merge of `s` into `t`: statistics copied, then every child of `s`
/// merged into its match among `t`'s existing children, or appended whole.
pub open spec fn merged(t: NodeModel, s: NodeModel) -> NodeModel
    decreases s,
{
    NodeModel {
        children: merge_fold(t.children, t.children.len() as int, s.children),
        ..with_stats(t, s)
    }
}

/// The children part of `merged`, one source child at a time.
pub open spec fn merge_fold(cs: Seq<NodeModel>, n: int, ps: Seq<NodeModel>) -> Seq<NodeModel>
    decreases ps,
{
    if ps.len() == 0 {
        cs
    } else {
        let st = merge_fold(cs, n, ps.drop_last());
        let p = ps.last();
        match match_index(st, n, p.path) {
            Some(i) => if 0 <= i < st.len() { st.update(i, merged(st[i], p)) } else { st },
            None => st.push(p),
        }
    }
}

/// What kind of live update a patch carries.
#[derive(Debug, Clone, Copy, PartialEq, Eq, Structural)]
pub enum PatchKind {
    /// Direct children listed; grandchildren are not materialised.
    Listed,
    /// Full or partial subtree under `node`.
    Subtree,
}

/// A live update for the tree shown while a scan runs.
#[derive(Debug)]
pub struct TreePatch {
    pub kind: PatchKind,
    pub node: ScanNode,
}

/// The result of applying a patch to a node.
pub open spec fn patched(t: NodeModel, kind: PatchKind, s: NodeModel) -> NodeModel {
    match kind {
        PatchKind::Listed => NodeModel {
            children: listed_fold(t.children, t.children.len() as int, s.children),
            ..with_stats(t, s)
        },
        PatchKind::Subtree => merged(t, s),
    }
}

} // verus!

verus! {

/// The position `match_index` gives, computed on the nodes themselves.
fn find_match(cs: &Vec<ScanNode>, n: usize, p: &str) -> (r: Option<usize>)
    requires
        n <= cs.len(),
    ensures
        match r {
            Some(i) => i < n && match_index(models_of(cs@), n as int, p@) == Some(i as int),
            None => match_index(models_of(cs@), n as int, p@) is None,
        },
{
    let nm = match file_name(p) {
        Some(nm) => nm,
        None => return None,
    };
    let ghost ms = models_of(cs@);
    proof {
        lemma_models_of_len(cs@);
    }
    let mut j = n;
    while j > 0
        invariant
            j <= n <= cs@.len(),
            ms == models_of(cs@),
            ms.len() == cs@.len(),
            file_name_of(p@) == Some(nm@),
            last_named(ms, n as int, nm@) == last_named(ms, j as int, nm@),
        decreases j,
    {
        let k = j - 1;
        proof {
            lemma_models_of_index(cs@, k as int);
        }
        match file_name(cs[k].path.as_str()) {
            Some(cn) => {
                if chars_eq(&cn, &nm) {
                    return Some(k);
                }
            },
            None => {},
        }
        j = k;
    }
    None
}

impl ScanNode {
    /// A node with the given name, path and kind and everything else empty.
    pub fn new(name: &str, path: &str, is_dir: bool) -> (r: ScanNode)
        ensures
            r.model() == fresh_model(name@, path@, is_dir),
    {
        let r = ScanNode {
            name: name.to_owned(),
            path: path.to_owned(),
            is_dir,
            size: 0,
            allocated: 0,
            file_count: 0,
            folder_count: 0,
            mtime: 0,
            owner: String::new(),
            extension: String::new(),
            is_symlink: false,
            symlink_target: String::new(),
            children: Vec::new(),
            scan_complete: false,
            metadata_loaded: false,
        };
        assert(models_of(r.children@) =~= Seq::<NodeModel>::empty());
        r
    }

    /// Whether owner/mtime/extension still have to be read.
    pub fn needs_metadata(&self) -> (r: bool)
        ensures
            r == !self.metadata_loaded,
    {
        !self.metadata_loaded
    }

    /// Appends a child.
    pub fn add_child(&mut self, child: ScanNode)
        ensures
            final(self).model() == with_child(old(self).model(), child.model()),
    {
        proof {
            lemma_models_of_push(self.children@, child);
        }
        self.children.push(child);
    }

    /// Copies the statistics of `other` onto this node.
    fn copy_stats_from(&mut self, other: &ScanNode)
        ensures
            final(self).model() == with_stats(old(self).model(), other.model()),
    {
        self.size = other.size;
        self.allocated = other.allocated;
        self.file_count = other.file_count;
        self.folder_count = other.folder_count;
        self.mtime = other.mtime;
        self.owner = other.owner.clone();
        self.extension = other.extension.clone();
        self.is_symlink = other.is_symlink;
        self.symlink_target = other.symlink_target.clone();
        self.scan_complete = other.scan_complete;
        self.metadata_loaded = other.metadata_loaded;
    }

    /// A copy of the node without its children.
    fn stub_copy(&self) -> (r: ScanNode)
        ensures
            r.model() == stub(self.model()),
    {
        let r = ScanNode {
            name: self.name.clone(),
            path: self.path.clone(),
            is_dir: self.is_dir,
            size: self.size,
            allocated: self.allocated,
            file_count: self.file_count,
            folder_count: self.folder_count,
            mtime: self.mtime,
            owner: self.owner.clone(),
            extension: self.extension.clone(),
            is_symlink: self.is_symlink,
            symlink_target: self.symlink_target.clone(),
            children: Vec::new(),
            scan_complete: self.scan_complete,
            metadata_loaded: self.metadata_loaded,
        };
        assert(models_of(r.children@) =~= Seq::<NodeModel>::empty());
        r
    }

    /// Merges a fully scanned subtree in place, copying a node only where it
    /// does not exist yet.
    fn merge_subtree(&mut self, source: &ScanNode)
        ensures
            final(self).model() == merged(old(self).model(), source.model()),
        decreases source,
    {
        self.copy_stats_from(source);
        let n = self.children.len();
        let ghost orig = models_of(self.children@);
        let ghost srcs = models_of(source.children@);
        let ghost stats = self.model();
        proof {
            lemma_models_of_len(self.children@);
            lemma_models_of_len(source.children@);
            assert(source.children@.take(0) =~= Seq::<ScanNode>::empty());
        }
        for i in 0..source.children.len()
            invariant
                n <= self.children@.len(),
                orig.len() == n,
                srcs == models_of(source.children@),
                srcs.len() == source.children@.len(),
                self.model() == with_children(stats, models_of(self.children@)),
                models_of(self.children@) == merge_fold(orig, n as int, models_of(source.children@.take(i as int))),
        {
            let ghost st = models_of(self.children@);
            let ghost pre = source.children@.take(i as int);
            proof {
                assert(source.children@.take(i + 1) == pre.push(source.children@[i as int]));
                lemma_models_of_push(pre, source.children@[i as int]);
                assert(models_of(source.children@.take(i + 1)).drop_last() == models_of(pre));
                lemma_models_of_len(self.children@);
            }
            let p = &source.children[i];
            assert(decreases_to!(source => source.children));
            match find_match(&self.children, n, p.path.as_str()) {
                Some(idx) => {
                    proof {
                        lemma_models_of_index(self.children@, idx as int);
                    }
                    let ghost before = self.children@;
                    self.children[idx].merge_subtree(p);
                    proof {
                        lemma_models_of_update(before, idx as int, self.children@[idx as int]);
                        assert(self.children@ == before.update(idx as int, self.children@[idx as int]));
                    }
                },
                None => {
                    let c = p.clone();
                    proof {
                        lemma_models_of_push(self.children@, c);
                    }
                    self.children.push(c);
                },
            }
        }
        assert(source.children@.take(source.children@.len() as int) == source.children@);
    }

    /// Applies a live scan patch without discarding deeper cached children:
    /// the node takes the patch's statistics, and each patch child updates
    /// its namesake among the existing children (a listing copies statistics
    /// only; a subtree merges recursively) or is appended (a listing child
    /// without its own children).
    pub fn apply_patch(&mut self, patch: &TreePatch)
        ensures
            final(self).model() == patched(old(self).model(), patch.kind, patch.node.model()),
    {
        match patch.kind {
            PatchKind::Listed => {
                self.copy_stats_from(&patch.node);
                let n = self.children.len();
                let ghost orig = models_of(self.children@);
                let pcs = &patch.node.children;
                let ghost stats = self.model();
                proof {
                    lemma_models_of_len(self.children@);
                    assert(pcs@.take(0) =~= Seq::<ScanNode>::empty());
                }
                for i in 0..pcs.len()
                    invariant
                        n <= self.children@.len(),
                        orig.len() == n,
                        pcs == &patch.node.children,
                        self.model() == with_children(stats, models_of(self.children@)),
                        models_of(self.children@) == listed_fold(orig, n as int, models_of(pcs@.take(i as int))),
                {
                    let ghost pre = pcs@.take(i as int);
                    proof {
                        assert(pcs@.take(i + 1) == pre.push(pcs@[i as int]));
                        lemma_models_of_push(pre, pcs@[i as int]);
                        assert(models_of(pcs@.take(i + 1)).drop_last() == models_of(pre));
                        lemma_models_of_len(self.children@);
                    }
                    let p = &pcs[i];
                    match find_match(&self.children, n, p.path.as_str()) {
                        Some(idx) => {
                            proof {
                                lemma_models_of_index(self.children@, idx as int);
                            }
                            let ghost before = self.children@;
                            self.children[idx].copy_stats_from(p);
                            proof {
                                lemma_models_of_update(before, idx as int, self.children@[idx as int]);
                                assert(self.children@ == before.update(idx as int, self.children@[idx as int]));
                            }
                        },
                        None => {
                            let c = p.stub_copy();
                            proof {
                                lemma_models_of_push(self.children@, c);
                            }
                            self.children.push(c);
                        },
                    }
                }
                assert(pcs@.take(pcs@.len() as int) == pcs@);
            },
            PatchKind::Subtree => {
                self.merge_subtree(&patch.node);
            },
        }
    }
}

} // verus!

verus! {

proof fn lemma_last_named_range(cs: Seq<NodeModel>, n: int, nm: Seq<char>)
    requires
        0 <= n <= cs.len(),
    ensures
        match last_named(cs, n, nm) {
            Some(i) => 0 <= i < n && file_name_of(cs[i].path) == Some(nm),
            None => forall|j: int| 0 <= j < n ==> file_name_of(#[trigger] cs[j].path) != Some(nm),
        },
    decreases n,
{
    if n > 0 {
        lemma_last_named_range(cs, n - 1, nm);
    }
}

proof fn lemma_last_named_same_paths(a: Seq<NodeModel>, b: Seq<NodeModel>, n: int, nm: Seq<char>)
    requires
        0 <= n <= a.len(),
        n <= b.len(),
        forall|i: int| 0 <= i < n ==> #[trigger] a[i].path == b[i].path,
    ensures
        last_named(a, n, nm) == last_named(b, n, nm),
    decreases n,
{
    if n > 0 {
        assert(a[n - 1].path == b[n - 1].path);
        lemma_last_named_same_paths(a, b, n - 1, nm);
    }
}

/// A listing merge keeps every existing child at its place with its name,
/// path and own children, and only appends.
proof fn lemma_listed_fold_shape(cs: Seq<NodeModel>, n: int, ps: Seq<NodeModel>)
    requires
        0 <= n <= cs.len(),
    ensures
        listed_fold(cs, n, ps).len() >= cs.len(),
        forall|i: int| 0 <= i < cs.len() ==> {
            &&& (#[trigger] listed_fold(cs, n, ps)[i]).path == cs[i].path
            &&& listed_fold(cs, n, ps)[i].name == cs[i].name
            &&& listed_fold(cs, n, ps)[i].children == cs[i].children
        },
    decreases ps.len(),
{
    if ps.len() > 0 {
        lemma_listed_fold_shape(cs, n, ps.drop_last());
        let st = listed_fold(cs, n, ps.drop_last());
        let p = ps.last();
        match file_name_of(p.path) {
            Some(nm) => lemma_last_named_range(st, n, nm),
            None => {},
        }
    }
}

/// After a listing merge, every listed child that has a file name has a
/// namesake among the children.
proof fn lemma_listed_fold_names(cs: Seq<NodeModel>, n: int, ps: Seq<NodeModel>, k: int)
    requires
        0 <= n <= cs.len(),
        0 <= k < ps.len(),
        file_name_of(ps[k].path) is Some,
    ensures
        exists|j: int| 0 <= j < listed_fold(cs, n, ps).len()
            && file_name_of((#[trigger] listed_fold(cs, n, ps)[j]).path) == file_name_of(ps[k].path),
    decreases ps.len(),
{
    let st = listed_fold(cs, n, ps.drop_last());
    let p = ps.last();
    lemma_listed_fold_shape(cs, n, ps.drop_last());
    let r = listed_fold(cs, n, ps);
    let nm = file_name_of(p.path);
    if nm is Some {
        lemma_last_named_range(st, n, nm->0);
    }
    if k == ps.len() - 1 {
        match match_index(st, n, p.path) {
            Some(i) => {
                assert(r[i].path == st[i].path);
                assert(file_name_of(r[i].path) == file_name_of(ps[k].path));
            },
            None => {
                assert(r[st.len() as int] == stub(p));
                assert(file_name_of(r[st.len() as int].path) == file_name_of(ps[k].path));
            },
        }
    } else {
        assert(ps.drop_last()[k] == ps[k]);
        lemma_listed_fold_names(cs, n, ps.drop_last(), k);
        let j = choose|j: int| 0 <= j < st.len() && file_name_of((#[trigger] st[j]).path) == file_name_of(ps[k].path);
        assert(r[j].path == st[j].path);
        assert(file_name_of(r[j].path) == file_name_of(ps[k].path));
    }
}

/// A listing whose every child already has a namesake among the first `n`
/// children adds no child and keeps every path.
proof fn lemma_listed_fold_no_growth(cs: Seq<NodeModel>, n: int, ps: Seq<NodeModel>)
    requires
        0 <= n <= cs.len(),
        forall|k: int| 0 <= k < ps.len() ==> match_index(cs, n, (#[trigger] ps[k]).path) is Some,
    ensures
        listed_fold(cs, n, ps).len() == cs.len(),
        forall|i: int| 0 <= i < cs.len() ==> (#[trigger] listed_fold(cs, n, ps)[i]).path == cs[i].path,
    decreases ps.len(),
{
    if ps.len() > 0 {
        assert forall|k: int| 0 <= k < ps.drop_last().len() implies match_index(cs, n, (#[trigger] ps.drop_last()[k]).path) is Some by {
            assert(ps.drop_last()[k] == ps[k]);
        }
        lemma_listed_fold_no_growth(cs, n, ps.drop_last());
        let st = listed_fold(cs, n, ps.drop_last());
        let p = ps.last();
        assert(match_index(cs, n, ps[ps.len() - 1].path) is Some);
        match file_name_of(p.path) {
            Some(nm) => {
                lemma_last_named_same_paths(st, cs, n, nm);
                lemma_last_named_range(st, n, nm);
            },
            None => {},
        }
    }
}

/// Applying a listing keeps the node's name and path, keeps every existing
/// child in place with its name, path and own children (the deeper levels
/// cached from earlier patches), and only ever appends children.
pub proof fn law_listing_keeps_deeper_levels(t: NodeModel, s: NodeModel)
    ensures
        patched(t, PatchKind::Listed, s).name == t.name,
        patched(t, PatchKind::Listed, s).path == t.path,
        patched(t, PatchKind::Listed, s).children.len() >= t.children.len(),
        forall|i: int| 0 <= i < t.children.len() ==> {
            &&& (#[trigger] patched(t, PatchKind::Listed, s).children[i]).path == t.children[i].path
            &&& patched(t, PatchKind::Listed, s).children[i].name == t.children[i].name
            &&& patched(t, PatchKind::Listed, s).children[i].children == t.children[i].children
        },
{
    lemma_listed_fold_shape(t.children, t.children.len() as int, s.children);
}

/// Re-applying a listing with the same child paths adds no child: the first
/// application already placed a namesake of every listed child.
pub proof fn law_listing_reapply_adds_nothing(t: NodeModel, s: NodeModel, s2: NodeModel)
    requires
        s2.children.len() == s.children.len(),
        forall|k: int| 0 <= k < s.children.len() ==> (#[trigger] s2.children[k]).path == s.children[k].path,
        forall|k: int| 0 <= k < s.children.len() ==> file_name_of((#[trigger] s.children[k]).path) is Some,
    ensures
        patched(patched(t, PatchKind::Listed, s), PatchKind::Listed, s2).children.len()
            == patched(t, PatchKind::Listed, s).children.len(),
{
    let once = patched(t, PatchKind::Listed, s);
    let cs = once.children;
    lemma_listed_fold_shape(t.children, t.children.len() as int, s.children);
    assert forall|k: int| 0 <= k < s2.children.len() implies match_index(cs, cs.len() as int, (#[trigger] s2.children[k]).path) is Some by {
        assert(s2.children[k].path == s.children[k].path);
        lemma_listed_fold_names(t.children, t.children.len() as int, s.children, k);
        let nm = file_name_of(s.children[k].path)->0;
        let j = choose|j: int| 0 <= j < cs.len() && file_name_of((#[trigger] cs[j]).path) == file_name_of(s.children[k].path);
        lemma_last_named_range(cs, cs.len() as int, nm);
    }
    lemma_listed_fold_no_growth(cs, cs.len() as int, s2.children);
}

/// Every child has a file name, and no two children share one.
pub open spec fn distinct_file_names(ps: Seq<NodeModel>) -> bool {
    &&& forall|k: int| 0 <= k < ps.len() ==> file_name_of((#[trigger] ps[k]).path) is Some
    &&& forall|a: int, b: int| 0 <= a < b < ps.len()
        ==> file_name_of((#[trigger] ps[a]).path) != file_name_of((#[trigger] ps[b]).path)
}

/// Whether some child of `ps` has file name `nm`.
pub open spec fn named_in(ps: Seq<NodeModel>, nm: Option<Seq<char>>) -> bool {
    exists|a: int| 0 <= a < ps.len() && file_name_of((#[trigger] ps[a]).path) == nm
}

proof fn lemma_last_named_skip(r: Seq<NodeModel>, n: int, m: int, nm: Seq<char>)
    requires
        0 <= n <= m <= r.len(),
        forall|i: int| n <= i < m ==> file_name_of((#[trigger] r[i]).path) != Some(nm),
    ensures
        last_named(r, m, nm) == last_named(r, n, nm),
    decreases m - n,
{
    if m > n {
        assert(file_name_of(r[m - 1].path) != Some(nm));
        lemma_last_named_skip(r, n, m - 1, nm);
    }
}

/// A listing whose every child matches a child that already has its
/// statistics changes nothing.
proof fn lemma_listed_fold_fixed(cs: Seq<NodeModel>, n: int, ps: Seq<NodeModel>)
    requires
        0 <= n <= cs.len(),
        forall|k: int| 0 <= k < ps.len() ==> match match_index(cs, n, (#[trigger] ps[k]).path) {
            Some(i) => with_stats(cs[i], ps[k]) == cs[i],
            None => false,
        },
    ensures
        listed_fold(cs, n, ps) == cs,
    decreases ps.len(),
{
    if ps.len() > 0 {
        let q = ps.drop_last();
        assert forall|k: int| 0 <= k < q.len() implies match match_index(cs, n, (#[trigger] q[k]).path) {
            Some(i) => with_stats(cs[i], q[k]) == cs[i],
            None => false,
        } by {
            assert(q[k] == ps[k]);
        }
        lemma_listed_fold_fixed(cs, n, q);
        let p = ps.last();
        assert(match match_index(cs, n, ps[ps.len() - 1].path) {
            Some(i) => with_stats(cs[i], ps[ps.len() - 1]) == cs[i],
            None => false,
        });
        let nm = file_name_of(p.path)->0;
        lemma_last_named_range(cs, n, nm);
        let i = match_index(cs, n, p.path)->0;
        assert(cs.update(i, with_stats(cs[i], p)) =~= cs);
    }
}

/// One listing pass over `cs` (matching among all of `cs`) with distinctly
/// named children: the first children keep their paths; every appended
/// child is named like a listed one; and every listed child now matches a
/// child that carries its statistics.
proof fn lemma_listed_fold_settles(cs: Seq<NodeModel>, ps: Seq<NodeModel>)
    requires
        distinct_file_names(ps),
    ensures
        listed_fold(cs, cs.len() as int, ps).len() >= cs.len(),
        forall|i: int| 0 <= i < cs.len() ==> (#[trigger] listed_fold(cs, cs.len() as int, ps)[i]).path == cs[i].path,
        forall|i: int| cs.len() <= i < listed_fold(cs, cs.len() as int, ps).len()
            ==> named_in(ps, file_name_of((#[trigger] listed_fold(cs, cs.len() as int, ps)[i]).path)),
        forall|k: int| 0 <= k < ps.len() ==> match match_index(
            listed_fold(cs, cs.len() as int, ps), listed_fold(cs, cs.len() as int, ps).len() as int, (#[trigger] ps[k]).path) {
            Some(i) => with_stats(listed_fold(cs, cs.len() as int, ps)[i], ps[k]) == listed_fold(cs, cs.len() as int, ps)[i],
            None => false,
        },
    decreases ps.len(),
{
    let n = cs.len() as int;
    lemma_listed_fold_shape(cs, n, ps);
    if ps.len() > 0 {
        let q = ps.drop_last();
        let j = ps.len() - 1;
        let p = ps.last();
        assert forall|k: int| 0 <= k < q.len() implies file_name_of((#[trigger] q[k]).path) is Some by {
            assert(q[k] == ps[k]);
        }
        assert forall|a: int, b: int| 0 <= a < b < q.len() implies file_name_of((#[trigger] q[a]).path) != file_name_of((#[trigger] q[b]).path) by {
            assert(q[a] == ps[a] && q[b] == ps[b]);
        }
        lemma_listed_fold_settles(cs, q);
        let r = listed_fold(cs, n, q);
        let r2 = listed_fold(cs, n, ps);
        assert(file_name_of(ps[j].path) is Some);
        let nmj = file_name_of(p.path)->0;
        // Every child past the first `n` of `r` is named like an earlier listed child.
        assert forall|i: int| n <= i < r.len() implies file_name_of((#[trigger] r[i]).path) != Some(nmj) by {
            assert(named_in(q, file_name_of(r[i].path)));
            let a = choose|a: int| 0 <= a < q.len() && file_name_of((#[trigger] q[a]).path) == file_name_of(r[i].path);
            assert(q[a] == ps[a]);
            assert(file_name_of(ps[a].path) != file_name_of(ps[j].path));
        }
        lemma_last_named_range(r, n, nmj);
        match match_index(r, n, p.path) {
            Some(ij) => {
                assert(r2 == r.update(ij, with_stats(r[ij], p)));
                assert forall|i: int| cs.len() <= i < r2.len() implies named_in(ps, file_name_of((#[trigger] r2[i]).path)) by {
                    assert(r2[i].path == r[i].path);
                    assert(named_in(q, file_name_of(r[i].path)));
                    let a = choose|a: int| 0 <= a < q.len() && file_name_of((#[trigger] q[a]).path) == file_name_of(r[i].path);
                    assert(q[a] == ps[a]);
                }
                assert forall|k: int| 0 <= k < ps.len() implies match match_index(r2, r2.len() as int, (#[trigger] ps[k]).path) {
                    Some(i) => with_stats(r2[i], ps[k]) == r2[i],
                    None => false,
                } by {
                    let nmk = file_name_of(ps[k].path)->0;
                    lemma_last_named_same_paths(r2, r, r2.len() as int, nmk);
                    if k < j {
                        assert(q[k] == ps[k]);
                        let ik = match_index(r, r.len() as int, q[k].path)->0;
                        lemma_last_named_range(r, r.len() as int, nmk);
                        assert(file_name_of(ps[k].path) != file_name_of(ps[j].path));
                        assert(ik != ij);
                    } else {
                        lemma_last_named_skip(r, n, r.len() as int, nmj);
                    }
                }
            },
            None => {
                assert(r2 == r.push(stub(p)));
                let st = stub(p);
                assert(with_stats(st, p) == st);
                assert forall|i: int| cs.len() <= i < r2.len() implies named_in(ps, file_name_of((#[trigger] r2[i]).path)) by {
                    if i < r.len() {
                        assert(r2[i] == r[i]);
                        assert(named_in(q, file_name_of(r[i].path)));
                        let a = choose|a: int| 0 <= a < q.len() && file_name_of((#[trigger] q[a]).path) == file_name_of(r[i].path);
                        assert(q[a] == ps[a]);
                    } else {
                        assert(r2[i] == st);
                        assert(file_name_of(ps[j].path) == file_name_of(r2[i].path));
                    }
                }
                assert forall|k: int| 0 <= k < ps.len() implies match match_index(r2, r2.len() as int, (#[trigger] ps[k]).path) {
                    Some(i) => with_stats(r2[i], ps[k]) == r2[i],
                    None => false,
                } by {
                    let nmk = file_name_of(ps[k].path)->0;
                    if k < j {
                        assert(q[k] == ps[k]);
                        assert(file_name_of(ps[k].path) != file_name_of(ps[j].path));
                        assert(r2[r.len() as int] == st);
                        assert(file_name_of(r2[r.len() as int].path) != Some(nmk));
                        lemma_last_named_same_paths(r2, r, r.len() as int, nmk);
                        lemma_last_named_range(r, r.len() as int, nmk);
                    } else {
                        assert(r2[r.len() as int] == st);
                    }
                }
            },
        }
    }
}

/// Applying the same listing twice gives what applying it once gives, when
/// the listed children have distinct file names: the second pass finds
/// every listed child already in place with its statistics.
pub proof fn law_listing_apply_twice(t: NodeModel, s: NodeModel)
    requires
        distinct_file_names(s.children),
    ensures
        patched(patched(t, PatchKind::Listed, s), PatchKind::Listed, s) == patched(t, PatchKind::Listed, s),
{
    let once = patched(t, PatchKind::Listed, s);
    lemma_listed_fold_settles(t.children, s.children);
    lemma_listed_fold_fixed(once.children, once.children.len() as int, s.children);
    assert(patched(once, PatchKind::Listed, s) =~= once);
}

/// A subtree merge keeps every existing child at its place with its name
/// and path, and only appends.
proof fn lemma_merge_fold_shape(cs: Seq<NodeModel>, n: int, ps: Seq<NodeModel>)
    requires
        0 <= n <= cs.len(),
    ensures
        merge_fold(cs, n, ps).len() >= cs.len(),
        forall|i: int| 0 <= i < cs.len() ==> {
            &&& (#[trigger] merge_fold(cs, n, ps)[i]).path == cs[i].path
            &&& merge_fold(cs, n, ps)[i].name == cs[i].name
        },
    decreases ps.len(),
{
    if ps.len() > 0 {
        lemma_merge_fold_shape(cs, n, ps.drop_last());
        let st = merge_fold(cs, n, ps.drop_last());
        let p = ps.last();
        match file_name_of(p.path) {
            Some(nm) => {
                lemma_last_named_range(st, n, nm);
                match last_named(st, n, nm) {
                    Some(i) => {
                        assert(merged(st[i], p).path == st[i].path);
                        assert(merged(st[i], p).name == st[i].name);
                    },
                    None => {},
                }
            },
            None => {},
        }
    }
}

/// Applying a subtree patch keeps the node's name and path and every
/// existing child in place with its name and path; children are only ever
/// appended.
pub proof fn law_subtree_keeps_children(t: NodeModel, s: NodeModel)
    ensures
        patched(t, PatchKind::Subtree, s).name == t.name,
        patched(t, PatchKind::Subtree, s).path == t.path,
        patched(t, PatchKind::Subtree, s).children.len() >= t.children.len(),
        forall|i: int| 0 <= i < t.children.len() ==> {
            &&& (#[trigger] patched(t, PatchKind::Subtree, s).children[i]).path == t.children[i].path
            &&& patched(t, PatchKind::Subtree, s).children[i].name == t.children[i].name
        },
{
    lemma_merge_fold_shape(t.children, t.children.len() as int, s.children);
}

} // verus!

verus! {

/// A node followed by all its descendants, children in order (depth first).
pub open spec fn pre(m: NodeModel) -> Seq<NodeModel>
    decreases m,
{
    seq![m] + pre_list(m.children)
}

/// `pre` of each node of the list, concatenated in order.
pub open spec fn pre_list(cs: Seq<NodeModel>) -> Seq<NodeModel>
    decreases cs,
{
    if cs.len() == 0 {
        Seq::empty()
    } else {
        pre_list(cs.drop_last()) + pre(cs.last())
    }
}

/// `pre` of each node of the list, concatenated from the last node to the
/// first: the order in which a stack seeded with the children visits them.
pub open spec fn rev_pre_list(cs: Seq<NodeModel>) -> Seq<NodeModel>
    decreases cs.len(),
{
    if cs.len() == 0 {
        Seq::empty()
    } else {
        pre(cs.last()) + rev_pre_list(cs.drop_last())
    }
}

/// All descendants of `m` (not `m` itself) in iteration order.
pub open spec fn descendants_of(m: NodeModel) -> Seq<NodeModel> {
    rev_pre_list(m.children)
}

/// The values of a list of node references.
pub open spec fn ref_models<'a>(v: Seq<&'a ScanNode>) -> Seq<NodeModel> {
    v.map_values(|r: &'a ScanNode| r.model())
}

fn collect_pre<'a>(node: &'a ScanNode, out: &mut Vec<&'a ScanNode>)
    ensures
        ref_models(final(out)@) == ref_models(old(out)@) + pre(node.model()),
    decreases node,
{
    let ghost start = ref_models(out@);
    out.push(node);
    assert(ref_models(out@) =~= start + seq![node.model()]);
    let n = node.children.len();
    proof {
        lemma_models_of_len(node.children@);
        assert(node.children@.take(0) =~= Seq::<ScanNode>::empty());
        assert(models_of(node.children@.take(0)) =~= Seq::<NodeModel>::empty());
    }
    for i in 0..n
        invariant
            n == node.children@.len(),
            ref_models(out@) == start + seq![node.model()] + pre_list(models_of(node.children@.take(i as int))),
    {
        assert(decreases_to!(node => node.children));
        let ghost before = ref_models(out@);
        collect_pre(&node.children[i], out);
        proof {
            let pre_i = node.children@.take(i as int);
            assert(node.children@.take(i + 1) == pre_i.push(node.children@[i as int]));
            lemma_models_of_push(pre_i, node.children@[i as int]);
            let ms = models_of(node.children@.take(i + 1));
            assert(ms.drop_last() == models_of(pre_i));
            assert(ms.last() == node.children@[i as int].model());
            assert(pre_list(ms) == pre_list(models_of(pre_i)) + pre(node.children@[i as int].model()));
            assert(ref_models(out@) =~= start + seq![node.model()] + pre_list(ms));
        }
    }
    assert(node.children@.take(n as int) == node.children@);
    assert(node.model().children == models_of(node.children@));
    assert(ref_models(out@) =~= start + pre(node.model()));
}

impl ScanNode {
    /// Every node below this one, in the order the scan views walk them:
    /// the last child's subtree first, each subtree depth first with its
    /// children in order.
    pub fn iter_descendants(&self) -> (r: Vec<&ScanNode>)
        ensures
            ref_models(r@) == descendants_of(self.model()),
    {
        let mut out: Vec<&ScanNode> = Vec::new();
        let n = self.children.len();
        let mut k = n;
        proof {
            lemma_models_of_len(self.children@);
        }
        assert(ref_models(out@) =~= Seq::<NodeModel>::empty());
        assert(self.children@.skip(n as int) =~= Seq::<ScanNode>::empty());
        assert(models_of(self.children@).take(n as int) =~= models_of(self.children@));
        while k > 0
            invariant
                k <= n,
                n == self.children@.len(),
                models_of(self.children@).len() == n,
                rev_pre_list(models_of(self.children@)) == ref_models(out@) + rev_pre_list(models_of(self.children@).take(k as int)),
            decreases k,
        {
            k = k - 1;
            let ghost before = ref_models(out@);
            collect_pre(&self.children[k], &mut out);
            proof {
                let ms = models_of(self.children@);
                lemma_models_of_index(self.children@, k as int);
                assert(ms.take(k + 1).drop_last() == ms.take(k as int));
                assert(ms.take(k + 1).last() == self.children@[k as int].model());
                assert(rev_pre_list(ms.take(k + 1)) == pre(self.children@[k as int].model()) + rev_pre_list(ms.take(k as int)));
                assert(ref_models(out@) == before + pre(self.children@[k as int].model()));
            }
        }
        assert(models_of(self.children@).take(0) =~= Seq::<NodeModel>::empty());
        assert(ref_models(out@) =~= descendants_of(self.model()));
        out
    }
}

} // verus!

verus! {

/// Whether a node's name matches a filter pattern: plain containment when
/// case-sensitive, otherwise containment after lower-casing both.
pub open spec fn name_matches(name: Seq<char>, pattern: Seq<char>, case_sensitive: bool) -> bool {
    if case_sensitive {
        contains_seq(name, pattern)
    } else {
        contains_seq(lowercase(name), lowercase(pattern))
    }
}

/// The nodes of `ms` whose names match, in order.
pub open spec fn filter_named(ms: Seq<NodeModel>, pattern: Seq<char>, case_sensitive: bool) -> Seq<NodeModel>
    decreases ms.len(),
{
    if ms.len() == 0 {
        Seq::empty()
    } else {
        let p = filter_named(ms.drop_last(), pattern, case_sensitive);
        if name_matches(ms.last().name, pattern, case_sensitive) { p.push(ms.last()) } else { p }
    }
}

/// The smallest index of a child whose path has file name `nm`.
pub open spec fn first_named(cs: Seq<NodeModel>, nm: Seq<char>) -> Option<int>
    decreases cs.len(),
{
    if cs.len() == 0 {
        None
    } else {
        match first_named(cs.drop_last(), nm) {
            Some(i) => Some(i),
            None => if file_name_of(cs.last().path) == Some(nm) { Some(cs.len() - 1) } else { None },
        }
    }
}

/// Following the names of `rel` one level at a time from `m`.
pub open spec fn descend(m: NodeModel, rel: Seq<Seq<char>>) -> Option<NodeModel>
    decreases rel.len(),
{
    if rel.len() == 0 {
        Some(m)
    } else {
        match first_named(m.children, rel[0]) {
            Some(i) => descend(m.children[i], rel.drop_first()),
            None => None,
        }
    }
}

/// The node reached from `m` by taking child `ix[0]`, then child `ix[1]` of
/// that, and so on; none when an index is out of range.
pub open spec fn at_indices(m: NodeModel, ix: Seq<usize>) -> Option<NodeModel>
    decreases ix.len(),
{
    if ix.len() == 0 {
        Some(m)
    } else {
        match at_indices(m, ix.drop_last()) {
            Some(n) => if ix.last() < n.children.len() { Some(n.children[ix.last() as int]) } else { None },
            None => None,
        }
    }
}

/// `m` with the node at child positions `ix` (see `at_indices`) replaced by
/// `new`; `m` itself when a position is out of range.
pub open spec fn replace_at(m: NodeModel, ix: Seq<usize>, new: NodeModel) -> NodeModel
    decreases ix.len(),
{
    if ix.len() == 0 {
        new
    } else if ix[0] < m.children.len() {
        NodeModel {
            children: m.children.update(ix[0] as int, replace_at(m.children[ix[0] as int], ix.drop_first(), new)),
            ..m
        }
    } else {
        m
    }
}

/// `at_indices`, following the positions from the first one.
pub open spec fn at_first(m: NodeModel, ix: Seq<usize>) -> Option<NodeModel>
    decreases ix.len(),
{
    if ix.len() == 0 {
        Some(m)
    } else if ix[0] < m.children.len() {
        at_first(m.children[ix[0] as int], ix.drop_first())
    } else {
        None
    }
}

proof fn lemma_at_first_push(m: NodeModel, ix: Seq<usize>, i: usize)
    ensures
        at_first(m, ix.push(i)) == match at_first(m, ix) {
            Some(n) => if i < n.children.len() { Some(n.children[i as int]) } else { None },
            None => None,
        },
    decreases ix.len(),
{
    if ix.len() > 0 {
        assert(ix.push(i).drop_first() == ix.drop_first().push(i));
        assert(ix.push(i)[0] == ix[0]);
        if ix[0] < m.children.len() {
            lemma_at_first_push(m.children[ix[0] as int], ix.drop_first(), i);
        }
    } else {
        let p = ix.push(i);
        assert(p[0] == i);
        assert(p.drop_first() =~= Seq::<usize>::empty());
        if i < m.children.len() {
            assert(at_first(m.children[i as int], p.drop_first()) == Some(m.children[i as int]));
        }
    }
}

/// Following positions from the last one or from the first one reaches the
/// same node.
proof fn lemma_at_indices_first(m: NodeModel, ix: Seq<usize>)
    ensures
        at_indices(m, ix) == at_first(m, ix),
    decreases ix.len(),
{
    if ix.len() > 0 {
        lemma_at_indices_first(m, ix.drop_last());
        lemma_at_first_push(m, ix.drop_last(), ix.last());
        assert(ix.drop_last().push(ix.last()) == ix);
    }
}

/// Where `find_by_path` lands: the node itself when the lexical keys agree,
/// else the descent along the part of the path's key below the node's key.
pub open spec fn find_spec(m: NodeModel, path: Seq<char>, home: Seq<char>, cwd: Seq<char>) -> Option<NodeModel> {
    let key = key_spec(path, home, cwd);
    let sk = key_spec(m.path, home, cwd);
    if key == sk {
        Some(m)
    } else {
        match rel_after(key, sk) {
            Some(rel) => descend(m, rel),
            None => None,
        }
    }
}

/// The first child whose path has file name `nm`.
pub fn first_child_named(cs: &Vec<ScanNode>, nm: &Vec<char>) -> (r: Option<usize>)
    ensures
        match r {
            Some(i) => i < cs@.len() && first_named(models_of(cs@), nm@) == Some(i as int),
            None => first_named(models_of(cs@), nm@) is None,
        },
{
    let ghost ms = models_of(cs@);
    proof {
        lemma_models_of_len(cs@);
    }
    for i in 0..cs.len()
        invariant
            ms == models_of(cs@),
            ms.len() == cs@.len(),
            first_named(ms.take(i as int), nm@) is None,
    {
        proof {
            lemma_models_of_index(cs@, i as int);
            assert(ms.take(i + 1).drop_last() == ms.take(i as int));
        }
        let hit = match file_name(cs[i].path.as_str()) {
            Some(cn) => chars_eq(&cn, nm),
            None => false,
        };
        if hit {
            proof {
                assert(first_named(ms.take(i + 1), nm@) == Some(i as int));
                lemma_first_named_prefix(ms, i as int + 1, nm@, i as int);
            }
            return Some(i);
        }
    }
    assert(ms.take(cs@.len() as int) == ms);
    None
}

proof fn lemma_first_named_prefix(ms: Seq<NodeModel>, k: int, nm: Seq<char>, j: int)
    requires
        0 <= k <= ms.len(),
        first_named(ms.take(k), nm) == Some(j),
    ensures
        first_named(ms, nm) == Some(j),
    decreases ms.len() - k,
{
    if k < ms.len() {
        assert(ms.take(k + 1).drop_last() == ms.take(k));
        assert(first_named(ms.take(k + 1), nm) == Some(j));
        lemma_first_named_prefix(ms, k + 1, nm, j);
    } else {
        assert(ms.take(k) == ms);
    }
}

impl ScanNode {
    /// The node at `path`, found by descending one component per level from
    /// this node (lexical keys, so `/private/var` and `/var` agree).
    #[verifier::spinoff_prover]
    pub fn find_by_path(&self, path: &str, env: &PathEnv) -> (r: Option<&ScanNode>)
        ensures
            match r {
                Some(n) => find_spec(self.model(), path@, env.home@, env.cwd@) == Some(n.model()),
                None => find_spec(self.model(), path@, env.home@, env.cwd@) is None,
            },
    {
        let key = lexical_key(path, env);
        let self_key = lexical_key(self.path.as_str(), env);
        if comps_eq(&key, &self_key) {
            return Some(self);
        }
        let rel = match strip_prefix_comps(&key, &self_key) {
            Some(rel) => rel,
            None => return None,
        };
        let mut node: &ScanNode = self;
        assert(cv(rel@).skip(0) == cv(rel@));
        for k in 0..rel.len()
            invariant
                descend(self.model(), cv(rel@)) == descend(node.model(), cv(rel@).skip(k as int)),
                cv(key@) == key_spec(path@, env.home@, env.cwd@),
                cv(self_key@) == key_spec(self.path@, env.home@, env.cwd@),
                cv(key@) != cv(self_key@),
                rel_after(cv(key@), cv(self_key@)) == Some(cv(rel@)),
        {
            let ghost rest = cv(rel@).skip(k as int);
            assert(rest[0] == rel@[k as int]@);
            assert(rest.drop_first() == cv(rel@).skip(k + 1));
            match first_child_named(&node.children, &rel[k]) {
                Some(i) => {
                    proof {
                        lemma_models_of_index(node.children@, i as int);
                    }
                    node = &node.children[i];
                },
                None => {
                    assert(rest.len() > 0);
                    assert(node.model().children == models_of(node.children@));
                    assert(descend(node.model(), rest) is None);
                    assert(descend(self.model(), cv(rel@)) is None);
                    assert(cv(key@) != cv(self_key@));
                    return None;
                },
            }
        }
        assert(cv(rel@).skip(rel@.len() as int) =~= Seq::<Seq<char>>::empty());
        Some(node)
    }

    /// The child positions leading from this node to the node that
    /// `find_by_path` finds (empty for this node itself), so that a caller
    /// can reach that node mutably; none when it finds none.
    pub fn find_index_path(&self, path: &str, env: &PathEnv) -> (r: Option<Vec<usize>>)
        ensures
            match r {
                Some(ix) => find_spec(self.model(), path@, env.home@, env.cwd@) is Some
                    && at_indices(self.model(), ix@) == find_spec(self.model(), path@, env.home@, env.cwd@),
                None => find_spec(self.model(), path@, env.home@, env.cwd@) is None,
            },
    {
        let key = lexical_key(path, env);
        let self_key = lexical_key(self.path.as_str(), env);
        let mut ixs: Vec<usize> = Vec::new();
        if comps_eq(&key, &self_key) {
            return Some(ixs);
        }
        let rel = match strip_prefix_comps(&key, &self_key) {
            Some(rel) => rel,
            None => return None,
        };
        let mut node: &ScanNode = self;
        assert(cv(rel@).skip(0) == cv(rel@));
        for k in 0..rel.len()
            invariant
                descend(self.model(), cv(rel@)) == descend(node.model(), cv(rel@).skip(k as int)),
                at_indices(self.model(), ixs@) == Some(node.model()),
                cv(key@) == key_spec(path@, env.home@, env.cwd@),
                cv(self_key@) == key_spec(self.path@, env.home@, env.cwd@),
                cv(key@) != cv(self_key@),
                rel_after(cv(key@), cv(self_key@)) == Some(cv(rel@)),
        {
            let ghost rest = cv(rel@).skip(k as int);
            assert(rest[0] == rel@[k as int]@);
            assert(rest.drop_first() == cv(rel@).skip(k + 1));
            match first_child_named(&node.children, &rel[k]) {
                Some(i) => {
                    proof {
                        lemma_models_of_index(node.children@, i as int);
                        lemma_models_of_len(node.children@);
                    }
                    let ghost before = ixs@;
                    ixs.push(i);
                    assert(ixs@.drop_last() == before);
                    node = &node.children[i];
                },
                None => {
                    assert(rest.len() > 0);
                    assert(node.model().children == models_of(node.children@));
                    assert(descend(node.model(), rest) is None);
                    assert(descend(self.model(), cv(rel@)) is None);
                    assert(cv(key@) != cv(self_key@));
                    return None;
                },
            }
        }
        assert(cv(rel@).skip(rel@.len() as int) =~= Seq::<Seq<char>>::empty());
        Some(ixs)
    }

    /// Finds the node `find_by_path` finds and hands it out mutably: the
    /// tree afterwards is the old one with that node replaced by what the
    /// caller left in it; none, and the tree untouched, when there is no
    /// such node.
    pub fn find_by_path_mut(&mut self, path: &str, env: &PathEnv) -> (r: Option<&mut ScanNode>)
        ensures
            match r {
                Some(n) => find_spec(old(self).model(), path@, env.home@, env.cwd@) == Some(n.model())
                    && exists|ix: Seq<usize>| #[trigger] at_first(old(self).model(), ix) == Some(n.model())
                        && final(self).model() == replace_at(old(self).model(), ix, final(n).model()),
                None => find_spec(old(self).model(), path@, env.home@, env.cwd@) is None
                    && final(self).model() == old(self).model(),
            },
    {
        match self.find_index_path(path, env) {
            Some(ix) => {
                proof {
                    lemma_at_indices_first(self.model(), ix@);
                    assert(ix@.skip(0) == ix@);
                }
                let n = node_at_mut(self, &ix, 0);
                Some(n)
            },
            None => None,
        }
    }

    /// The node a rescan fills: a directory with this node's name, path,
    /// owner, mtime and metadata flag, and nothing else yet.
    pub fn rescan_base(&self) -> (r: ScanNode)
        ensures
            r.model() == (NodeModel {
                owner: self.owner@,
                mtime: self.mtime,
                metadata_loaded: self.metadata_loaded,
                ..fresh_model(self.name@, self.path@, true)
            }),
    {
        let mut r = ScanNode::new(self.name.as_str(), self.path.as_str(), true);
        r.owner = self.owner.clone();
        r.mtime = self.mtime;
        r.metadata_loaded = self.metadata_loaded;
        r
    }

    /// Takes the result of rescanning this directory: its children and
    /// totals (size, allocated, file and folder counts), and marks the node
    /// complete; every other field stays.
    pub fn take_rescan(&mut self, fresh: ScanNode)
        ensures
            final(self).model() == (NodeModel {
                children: fresh.model().children,
                size: fresh.size,
                allocated: fresh.allocated,
                file_count: fresh.file_count,
                folder_count: fresh.folder_count,
                scan_complete: true,
                ..old(self).model()
            }),
    {
        self.children = fresh.children;
        self.size = fresh.size;
        self.allocated = fresh.allocated;
        self.file_count = fresh.file_count;
        self.folder_count = fresh.folder_count;
        self.scan_complete = true;
    }

    /// This node followed (when `case_sensitive` is false, case-insensitively)
    /// by every descendant, in `iter_descendants` order, whose name contains
    /// `pattern`.
    pub fn filter_by_name(&self, pattern: &str, case_sensitive: bool) -> (r: Vec<&ScanNode>)
        ensures
            ref_models(r@) == filter_named(seq![self.model()] + descendants_of(self.model()), pattern@, case_sensitive),
    {
        let pat_s = if case_sensitive { pattern.to_owned() } else { to_lowercase(pattern) };
        let pat = chars_of(pat_s.as_str());
        let mut all: Vec<&ScanNode> = Vec::new();
        all.push(self);
        let mut rest = self.iter_descendants();
        all.append(&mut rest);
        let ghost ms = seq![self.model()] + descendants_of(self.model());
        assert(ref_models(all@) =~= ms);
        let mut out: Vec<&ScanNode> = Vec::new();
        assert(ms.take(0) =~= Seq::<NodeModel>::empty());
        for i in 0..all.len()
            invariant
                ref_models(all@) == ms,
                pat_s@ == if case_sensitive { pattern@ } else { lowercase(pattern@) },
                pat@ == pat_s@,
                ref_models(out@) == filter_named(ms.take(i as int), pattern@, case_sensitive),
        {
            let node = all[i];
            let nm = if case_sensitive { node.name.clone() } else { to_lowercase(node.name.as_str()) };
            let nmc = chars_of(nm.as_str());
            assert(ms.take(i + 1).drop_last() == ms.take(i as int));
            assert(ms.take(i + 1).last() == node.model());
            if contains_chars(&nmc, &pat) {
                let ghost before = ref_models(out@);
                out.push(node);
                assert(ref_models(out@) =~= before.push(node.model()));
            }
        }
        assert(ms.take(all@.len() as int) == ms);
        out
    }

    /// A patch carrying this node and its direct children, the children
    /// without their own children.
    pub fn listing_patch(&self) -> (r: TreePatch)
        ensures
            r.kind == PatchKind::Listed,
            r.node.model() == with_children(self.model(), self.model().children.map_values(|c: NodeModel| stub(c))),
    {
        let mut node = self.stub_copy();
        let n = self.children.len();
        proof {
            lemma_models_of_len(self.children@);
        }
        let ghost target = self.model().children.map_values(|c: NodeModel| stub(c));
        assert(models_of(node.children@) =~= target.take(0));
        for i in 0..n
            invariant
                n == self.children@.len(),
                target.len() == n,
                target == self.model().children.map_values(|c: NodeModel| stub(c)),
                node.model() == with_children(stub(self.model()), models_of(node.children@)),
                models_of(node.children@) == target.take(i as int),
        {
            let c = self.children[i].stub_copy();
            proof {
                lemma_models_of_index(self.children@, i as int);
                lemma_models_of_push(node.children@, c);
                assert(target.take(i + 1) == target.take(i as int).push(target[i as int]));
            }
            node.children.push(c);
        }
        assert(target.take(n as int) == target);
        TreePatch { kind: PatchKind::Listed, node }
    }

    /// A patch carrying a copy of this whole subtree.
    pub fn subtree_patch(&self) -> (r: TreePatch)
        ensures
            r.kind == PatchKind::Subtree,
            r.node.model() == self.model(),
    {
        TreePatch { kind: PatchKind::Subtree, node: self.clone() }
    }
}

} // verus!

verus! {

/// `a + b` modulo 2^64.
pub open spec fn wadd(a: u64, b: u64) -> u64 {
    vstd::wrapping::u64_specs::wrapping_add(a, b)
}

/// The sum of the children's sizes (modulo 2^64).
pub open spec fn sum_size(cs: Seq<NodeModel>) -> u64
    decreases cs.len(),
{
    if cs.len() == 0 { 0 } else { wadd(sum_size(cs.drop_last()), cs.last().size) }
}

/// The sum of the children's allocated sizes (modulo 2^64).
pub open spec fn sum_allocated(cs: Seq<NodeModel>) -> u64
    decreases cs.len(),
{
    if cs.len() == 0 { 0 } else { wadd(sum_allocated(cs.drop_last()), cs.last().allocated) }
}

/// The sum of the children's file counts (modulo 2^64).
pub open spec fn sum_files(cs: Seq<NodeModel>) -> u64
    decreases cs.len(),
{
    if cs.len() == 0 { 0 } else { wadd(sum_files(cs.drop_last()), cs.last().file_count) }
}

/// The sum of the children's folder counts (modulo 2^64).
pub open spec fn sum_folders(cs: Seq<NodeModel>) -> u64
    decreases cs.len(),
{
    if cs.len() == 0 { 0 } else { wadd(sum_folders(cs.drop_last()), cs.last().folder_count) }
}

/// How many of the children are directories.
pub open spec fn count_dirs(cs: Seq<NodeModel>) -> nat
    decreases cs.len(),
{
    if cs.len() == 0 { 0 } else { count_dirs(cs.drop_last()) + if cs.last().is_dir { 1nat } else { 0nat } }
}

pub proof fn lemma_count_dirs_le(cs: Seq<NodeModel>)
    ensures
        count_dirs(cs) <= cs.len(),
    decreases cs.len(),
{
    if cs.len() > 0 {
        lemma_count_dirs_le(cs.drop_last());
    }
}

/// A directory's totals recomputed from its children: sizes, allocated
/// sizes and file counts summed; folder count is the children's folder
/// counts plus the number of child directories (all modulo 2^64).
pub open spec fn rollup(m: NodeModel) -> NodeModel {
    NodeModel {
        size: sum_size(m.children),
        allocated: sum_allocated(m.children),
        file_count: sum_files(m.children),
        folder_count: wadd(sum_folders(m.children), count_dirs(m.children) as u64),
        ..m
    }
}

/// Recomputes a directory's totals from its children.
pub fn rollup_node(node: &mut ScanNode)
    ensures
        final(node).model() == rollup(old(node).model()),
{
    let ghost ms = models_of(node.children@);
    proof {
        lemma_models_of_len(node.children@);
    }
    let mut size: u64 = 0;
    let mut allocated: u64 = 0;
    let mut files: u64 = 0;
    let mut folders: u64 = 0;
    let mut dirs: u64 = 0;
    let n = node.children.len();
    for i in 0..n
        invariant
            n == node.children@.len(),
            ms == models_of(node.children@),
            ms.len() == n,
            size == sum_size(ms.take(i as int)),
            allocated == sum_allocated(ms.take(i as int)),
            files == sum_files(ms.take(i as int)),
            folders == sum_folders(ms.take(i as int)),
            dirs == count_dirs(ms.take(i as int)),
            dirs <= i,
    {
        proof {
            lemma_models_of_index(node.children@, i as int);
            assert(ms.take(i + 1).drop_last() == ms.take(i as int));
            assert(ms.take(i + 1).last() == node.children@[i as int].model());
        }
        let c = &node.children[i];
        size = size.wrapping_add(c.size);
        allocated = allocated.wrapping_add(c.allocated);
        files = files.wrapping_add(c.file_count);
        folders = folders.wrapping_add(c.folder_count);
        if c.is_dir {
            dirs = dirs + 1;
        }
    }
    assert(ms.take(n as int) == ms);
    node.size = size;
    node.allocated = allocated;
    node.file_count = files;
    node.folder_count = folders.wrapping_add(dirs);
}

/// The tree after rolling up the node at `rel` (names below `m`) and then
/// every node on the way back up to `m`; `None` when the path does not
/// lead to a node, in which case nothing changes.
pub open spec fn rolled(m: NodeModel, rel: Seq<Seq<char>>) -> Option<NodeModel>
    decreases rel.len(),
{
    if rel.len() == 0 {
        Some(rollup(m))
    } else {
        match first_named(m.children, rel[0]) {
            Some(i) => match rolled(m.children[i], rel.drop_first()) {
                Some(c) => Some(rollup(with_children(m, m.children.update(i, c)))),
                None => None,
            },
            None => None,
        }
    }
}

/// The tree after `rollup_chain` for `path`: unchanged unless the path's key
/// equals the root's key or lies below it along existing nodes.
pub open spec fn rollup_chain_spec(m: NodeModel, path: Seq<char>, home: Seq<char>, cwd: Seq<char>) -> NodeModel {
    let key = key_spec(path, home, cwd);
    let rk = key_spec(m.path, home, cwd);
    if key == rk {
        rollup(m)
    } else {
        match rel_after(key, rk) {
            Some(rel) => match rolled(m, rel) {
                Some(r) => r,
                None => m,
            },
            None => m,
        }
    }
}

fn rollup_descend(node: &mut ScanNode, rel: &Vec<Vec<char>>, k: usize) -> (ok: bool)
    requires
        k <= rel@.len(),
    ensures
        match rolled(old(node).model(), cv(rel@).skip(k as int)) {
            Some(r) => ok && final(node).model() == r,
            None => !ok && final(node).model() == old(node).model(),
        },
    decreases rel@.len() - k,
{
    let ghost rest = cv(rel@).skip(k as int);
    if k == rel.len() {
        assert(rest.len() == 0);
        rollup_node(node);
        return true;
    }
    assert(rest[0] == rel@[k as int]@);
    assert(rest.drop_first() == cv(rel@).skip(k + 1));
    match first_child_named(&node.children, &rel[k]) {
        Some(idx) => {
            proof {
                lemma_models_of_index(node.children@, idx as int);
            }
            let ghost before = node.children@;
            let ghost old_model = node.model();
            let ok = rollup_descend(&mut node.children[idx], rel, k + 1);
            proof {
                assert(node.children@ == before.update(idx as int, node.children@[idx as int]));
                lemma_models_of_update(before, idx as int, node.children@[idx as int]);
                if !ok {
                    lemma_models_of_index(before, idx as int);
                    assert(models_of(node.children@) =~= models_of(before));
                    assert(node.model() == old_model);
                }
            }
            if ok {
                rollup_node(node);
                true
            } else {
                false
            }
        },
        None => false,
    }
}

/// Recomputes the totals of the node at `target_path` and of every ancestor
/// up to `root`, bottom-up, descending one component per level.
pub fn rollup_path(root: &mut ScanNode, target_path: &str, env: &PathEnv)
    ensures
        final(root).model() == rollup_chain_spec(old(root).model(), target_path@, env.home@, env.cwd@),
{
    let root_key = lexical_key(root.path.as_str(), env);
    let target_key = lexical_key(target_path, env);
    if comps_eq(&root_key, &target_key) {
        rollup_node(root);
        return;
    }
    match strip_prefix_comps(&target_key, &root_key) {
        Some(rel) => {
            assert(cv(rel@).skip(0) == cv(rel@));
            let _ = rollup_descend(root, &rel, 0);
        },
        None => {},
    }
}

} // verus!

verus! {

/// Maximum number of scan errors kept in memory (further errors are only
/// counted, in `error_count`).
pub const MAX_STORED_SCAN_ERRORS: usize = 32;

/// One more error counted (the count stops at `usize::MAX`).
pub open spec fn bump(n: usize) -> usize {
    if n < usize::MAX { (n + 1) as usize } else { n }
}

/// Lightweight progress update for the UI thread.
#[derive(Debug, Clone)]
pub struct ProgressSnapshot {
    pub bytes_scanned: u64,
    pub scanned_items: u64,
    pub scanned_dirs: u64,
    pub error_count: usize,
    pub cancelled: bool,
    pub is_complete: bool,
    pub current_path: String,
    pub first_error: Option<String>,
}

/// Full scan counters and the capped error list.
#[derive(Debug, Clone)]
pub struct ScanProgress {
    pub scanned_items: u64,
    pub scanned_dirs: u64,
    pub current_path: String,
    pub bytes_scanned: u64,
    pub is_complete: bool,
    pub cancelled: bool,
    pub error: Option<String>,
    pub errors: Vec<String>,
    /// Every error recorded, stored or not.
    pub error_count: usize,
}

/// The view of an optional string.
pub open spec fn opt_view(o: Option<String>) -> Option<Seq<char>> {
    match o {
        Some(s) => Some(s@),
        None => None,
    }
}

impl Default for ScanProgress {
    fn default() -> (r: Self)
        ensures
            r.scanned_items == 0 && r.scanned_dirs == 0 && r.bytes_scanned == 0,
            r.current_path@ == Seq::<char>::empty(),
            !r.is_complete && !r.cancelled,
            r.error is None,
            r.errors@.len() == 0,
            r.error_count == 0,
    {
        ScanProgress {
            scanned_items: 0,
            scanned_dirs: 0,
            current_path: String::new(),
            bytes_scanned: 0,
            is_complete: false,
            cancelled: false,
            error: None,
            errors: Vec::new(),
            error_count: 0,
        }
    }
}

fn clone_opt_string(o: &Option<String>) -> (r: Option<String>)
    ensures
        opt_view(r) == opt_view(*o),
{
    match o {
        Some(s) => Some(s.clone()),
        None => None,
    }
}

impl ScanProgress {
    /// Records an error: the first one is also kept as `error`, at most
    /// `MAX_STORED_SCAN_ERRORS` are stored, and every one is counted.
    pub fn push_error(&mut self, message: String)
        ensures
            opt_view(final(self).error) == (match old(self).error {
                Some(e) => Some(e@),
                None => Some(message@),
            }),
            strs(final(self).errors@) == if old(self).errors@.len() < MAX_STORED_SCAN_ERRORS {
                strs(old(self).errors@).push(message@)
            } else {
                strs(old(self).errors@)
            },
            final(self).scanned_items == old(self).scanned_items,
            final(self).scanned_dirs == old(self).scanned_dirs,
            final(self).bytes_scanned == old(self).bytes_scanned,
            final(self).current_path == old(self).current_path,
            final(self).is_complete == old(self).is_complete,
            final(self).cancelled == old(self).cancelled,
            final(self).error_count == bump(old(self).error_count),
    {
        if self.error_count < usize::MAX {
            self.error_count = self.error_count + 1;
        }
        if self.error.is_none() {
            self.error = Some(message.clone());
        }
        if self.errors.len() < MAX_STORED_SCAN_ERRORS {
            let ghost before = strs(self.errors@);
            self.errors.push(message);
            assert(strs(self.errors@) =~= before.push(message@));
        }
    }

    /// The lightweight copy sent to the UI thread.
    pub fn snapshot(&self) -> (r: ProgressSnapshot)
        ensures
            r.bytes_scanned == self.bytes_scanned,
            r.scanned_items == self.scanned_items,
            r.scanned_dirs == self.scanned_dirs,
            r.error_count == self.error_count,
            r.cancelled == self.cancelled,
            r.is_complete == self.is_complete,
            r.current_path@ == self.current_path@,
            opt_view(r.first_error) == opt_view(self.error),
    {
        ProgressSnapshot {
            bytes_scanned: self.bytes_scanned,
            scanned_items: self.scanned_items,
            scanned_dirs: self.scanned_dirs,
            error_count: self.error_count,
            cancelled: self.cancelled,
            is_complete: self.is_complete,
            current_path: self.current_path.clone(),
            first_error: clone_opt_string(&self.error),
        }
    }
}

/// A mounted volume and its usage in bytes.
#[derive(Debug, Clone)]
pub struct VolumeInfo {
    pub name: String,
    pub mount_point: String,
    pub total_bytes: u64,
    pub used_bytes: u64,
    pub free_bytes: u64,
}

/// Size totals for one file extension.
#[derive(Debug, Clone)]
pub struct ExtensionStats {
    pub extension: String,
    pub total_size: u64,
    pub file_count: u64,
}

impl ExtensionStats {
    /// The extension, or `(no extension)` when it is empty.
    pub fn display_name(&self) -> (r: String)
        ensures
            r@ == if self.extension@.len() == 0 { "(no extension)"@ } else { self.extension@ },
    {
        if self.extension.as_str().is_empty() {
            "(no extension)".to_owned()
        } else {
            self.extension.clone()
        }
    }
}

} // verus!

verus! {

/// The comparison key of child `c` of `parent` for a sort column: names,
/// extensions and owners compare lower-cased, sizes and dates numerically,
/// and percentages of the parent by size (all equal when the parent is
/// empty).
pub open spec fn sort_item_of(k: SortKey, parent: NodeModel, c: NodeModel) -> (Seq<char>, int) {
    match k {
        SortKey::Name => (lowercase(c.name), 0),
        SortKey::Size => (Seq::empty(), c.size as int),
        SortKey::Allocated => (Seq::empty(), c.allocated as int),
        SortKey::Date => (Seq::empty(), c.mtime as int),
        SortKey::Extension => (lowercase(c.extension), 0),
        SortKey::Owner => (lowercase(c.owner), 0),
        SortKey::Percent => (Seq::empty(), if parent.size == 0 { 0 } else { c.size as int }),
    }
}

/// The sort keys of all children of `m`.
pub open spec fn child_sort_keys(k: SortKey, m: NodeModel) -> Seq<(Seq<char>, int)> {
    m.children.map_values(|c: NodeModel| sort_item_of(k, m, c))
}

fn sort_item_exec(k: SortKey, parent: &ScanNode, c: &ScanNode) -> (r: SortItem)
    ensures
        item_view(r) == sort_item_of(k, parent.model(), c.model()),
{
    match k {
        SortKey::Name => {
            let t = to_lowercase(c.name.as_str());
            SortItem { text: chars_of(t.as_str()), num: 0 }
        },
        SortKey::Size => SortItem { text: Vec::new(), num: c.size as i128 },
        SortKey::Allocated => SortItem { text: Vec::new(), num: c.allocated as i128 },
        SortKey::Date => SortItem { text: Vec::new(), num: c.mtime as i128 },
        SortKey::Extension => {
            let t = to_lowercase(c.extension.as_str());
            SortItem { text: chars_of(t.as_str()), num: 0 }
        },
        SortKey::Owner => {
            let t = to_lowercase(c.owner.as_str());
            SortItem { text: chars_of(t.as_str()), num: 0 }
        },
        SortKey::Percent => SortItem { text: Vec::new(), num: if parent.size == 0 { 0 } else { c.size as i128 } },
    }
}

/// The children of `m` in the order a listing sorted by `key` shows them.
pub open spec fn sorted_child_models(key: SortKey, reverse: bool, m: NodeModel) -> Seq<NodeModel> {
    sorted_order(child_sort_keys(key, m), reverse).map_values(|i: usize| m.children[i as int])
}

impl ScanNode {
    /// The positions of the children in display order for a sort column:
    /// ascending (descending when `reverse`), ties in their original order.
    pub fn sorted_child_order(&self, key: SortKey, reverse: bool) -> (p: Vec<usize>)
        ensures
            sorted_perm(p@, child_sort_keys(key, self.model()), reverse),
            p@ == sorted_order(child_sort_keys(key, self.model()), reverse),
    {
        let mut keys: Vec<SortItem> = Vec::new();
        let n = self.children.len();
        let ghost target = child_sort_keys(key, self.model());
        proof {
            lemma_models_of_len(self.children@);
        }
        for i in 0..n
            invariant
                n == self.children@.len(),
                target == child_sort_keys(key, self.model()),
                target.len() == n,
                items_view(keys@) == target.take(i as int),
        {
            let it = sort_item_exec(key, self, &self.children[i]);
            proof {
                lemma_models_of_index(self.children@, i as int);
            }
            let ghost before = items_view(keys@);
            keys.push(it);
            assert(items_view(keys@) =~= before.push(item_view(it)));
            assert(target.take(i + 1) =~= target.take(i as int).push(target[i as int]));
        }
        assert(target.take(n as int) == target);
        sort_indices(&keys, reverse)
    }

    /// The children in display order for a sort column (see
    /// `sorted_child_order`).
    pub fn sorted_children(&self, key: SortKey, reverse: bool) -> (r: Vec<&ScanNode>)
        ensures
            ref_models(r@) == sorted_child_models(key, reverse, self.model()),
            r@.len() == self.children@.len(),
            key == SortKey::Size || key == SortKey::Allocated || key == SortKey::Date ==>
                forall|i: int, j: int| 0 <= i < j < r@.len() ==> if reverse {
                    column_value(key, (#[trigger] r@[i]).model()) >= column_value(key, (#[trigger] r@[j]).model())
                } else {
                    column_value(key, r@[i].model()) <= column_value(key, r@[j].model())
                },
            key == SortKey::Name || key == SortKey::Extension || key == SortKey::Owner ==>
                forall|i: int, j: int| 0 <= i < j < r@.len() ==> if reverse {
                    crate::order::lex_order(column_text(key, (#[trigger] r@[j]).model()), column_text(key, (#[trigger] r@[i]).model())) <= 0
                } else {
                    crate::order::lex_order(column_text(key, r@[i].model()), column_text(key, r@[j].model())) <= 0
                },
    {
        let p = self.sorted_child_order(key, reverse);
        let mut out: Vec<&ScanNode> = Vec::new();
        proof {
            lemma_models_of_len(self.children@);
        }
        for i in 0..p.len()
            invariant
                sorted_perm(p@, child_sort_keys(key, self.model()), reverse),
                self.children@.len() == p@.len(),
                p@ == sorted_order(child_sort_keys(key, self.model()), reverse),
                out@.len() == i,
                forall|j: int| 0 <= j < i ==> (#[trigger] out@[j]).model() == self.model().children[p@[j] as int],
        {
            let k = p[i];
            assert(k < self.children@.len());
            proof {
                lemma_models_of_index(self.children@, k as int);
            }
            out.push(&self.children[k]);
        }
        assert(ref_models(out@) =~= sorted_child_models(key, reverse, self.model()));
        proof {
            if key == SortKey::Size || key == SortKey::Allocated || key == SortKey::Date {
                law_numeric_columns_sort_by_value(self.model(), key, reverse, p@);
                assert forall|i: int, j: int| 0 <= i < j < out@.len() implies if reverse {
                    column_value(key, (#[trigger] out@[i]).model()) >= column_value(key, (#[trigger] out@[j]).model())
                } else {
                    column_value(key, out@[i].model()) <= column_value(key, out@[j].model())
                } by {
                    assert(out@[i].model() == self.model().children[p@[i] as int]);
                    assert(out@[j].model() == self.model().children[p@[j] as int]);
                }
            }
            if key == SortKey::Name || key == SortKey::Extension || key == SortKey::Owner {
                law_text_columns_sort_by_text(self.model(), key, reverse, p@);
                assert forall|i: int, j: int| 0 <= i < j < out@.len() implies if reverse {
                    crate::order::lex_order(column_text(key, (#[trigger] out@[j]).model()), column_text(key, (#[trigger] out@[i]).model())) <= 0
                } else {
                    crate::order::lex_order(column_text(key, out@[i].model()), column_text(key, out@[j].model())) <= 0
                } by {
                    assert(out@[i].model() == self.model().children[p@[i] as int]);
                    assert(out@[j].model() == self.model().children[p@[j] as int]);
                }
            }
        }
        out
    }
}

} // verus!

verus! {

/// Whether `f` and `o` agree on every field but the children.
spec fn same_but_children(f: ScanNode, o: ScanNode) -> bool {
    &&& f.name == o.name
    &&& f.path == o.path
    &&& f.is_dir == o.is_dir
    &&& f.size == o.size
    &&& f.allocated == o.allocated
    &&& f.file_count == o.file_count
    &&& f.folder_count == o.folder_count
    &&& f.mtime == o.mtime
    &&& f.owner == o.owner
    &&& f.extension == o.extension
    &&& f.is_symlink == o.is_symlink
    &&& f.symlink_target == o.symlink_target
    &&& f.scan_complete == o.scan_complete
    &&& f.metadata_loaded == o.metadata_loaded
}

proof fn lemma_child_replaced(o: ScanNode, i: int)
    requires
        0 <= i < o.children@.len(),
    ensures
        forall|f: ScanNode, c: ScanNode| #![trigger f.model(), c.model()]
            same_but_children(f, o) && f.children@ == o.children@.update(i, c)
            ==> f.model() == (NodeModel { children: o.model().children.update(i, c.model()), ..o.model() }),
{
    assert forall|f: ScanNode, c: ScanNode| #![trigger f.model(), c.model()]
        same_but_children(f, o) && f.children@ == o.children@.update(i, c)
        implies f.model() == (NodeModel { children: o.model().children.update(i, c.model()), ..o.model() }) by {
        lemma_models_of_update(o.children@, i, c);
    }
}

/// The node at positions `ix` from `k` on, handed out mutably; the tree
/// afterwards is the old one with that node replaced.
fn node_at_mut<'a>(node: &'a mut ScanNode, ix: &Vec<usize>, k: usize) -> (r: &'a mut ScanNode)
    requires
        k <= ix@.len(),
        at_first(old(node).model(), ix@.skip(k as int)) is Some,
    ensures
        at_first(old(node).model(), ix@.skip(k as int)) == Some(r.model()),
        final(node).model() == replace_at(old(node).model(), ix@.skip(k as int), final(r).model()),
    decreases ix@.len() - k,
{
    if k == ix.len() {
        assert(ix@.skip(k as int) =~= Seq::<usize>::empty());
        node
    } else {
        let i = ix[k];
        let ghost rest = ix@.skip(k as int);
        assert(rest[0] == i);
        assert(rest.drop_first() == ix@.skip(k + 1));
        proof {
            lemma_models_of_len(node.children@);
            lemma_models_of_index(node.children@, i as int);
            lemma_child_replaced(*node, i as int);
        }
        let ghost old_m = node.model();
        let child = &mut node.children[i];
        let ghost fc = *final(child);
        let r = node_at_mut(child, ix, k + 1);
        // The child's final value is the old child with the target replaced.
        assert(fc.model() == replace_at(old_m.children[i as int], rest.drop_first(), final(r).model()));
        r
    }
}

} // verus!

verus! {

/// The text a name filter compares: the text itself, or its lower-cased
/// form when the filter ignores case.
pub open spec fn filter_text(s: Seq<char>, case_sensitive: bool) -> Seq<char> {
    if case_sensitive { s } else { lowercase(s) }
}

/// The name filter keeps exactly the nodes whose (lower-cased, unless the
/// filter is case-sensitive) name holds the pattern somewhere, at any
/// position, in their original order: every node with an occurrence
/// anywhere in its name is kept, and every kept node is one of the input
/// nodes with such an occurrence.
pub proof fn law_filter_is_substring_match(ms: Seq<NodeModel>, pattern: Seq<char>, case_sensitive: bool)
    ensures
        forall|k: int, i: int| #![trigger ms[k], filter_text(ms[k].name, case_sensitive).subrange(i, i + filter_text(pattern, case_sensitive).len())]
            0 <= k < ms.len() && 0 <= i
            && i + filter_text(pattern, case_sensitive).len() <= filter_text(ms[k].name, case_sensitive).len()
            && filter_text(ms[k].name, case_sensitive).subrange(i, i + filter_text(pattern, case_sensitive).len())
                == filter_text(pattern, case_sensitive)
            ==> filter_named(ms, pattern, case_sensitive).contains(ms[k]),
        forall|j: int| 0 <= j < filter_named(ms, pattern, case_sensitive).len() ==> {
            let x = #[trigger] filter_named(ms, pattern, case_sensitive)[j];
            &&& ms.contains(x)
            &&& exists|i: int| 0 <= i && i + filter_text(pattern, case_sensitive).len() <= filter_text(x.name, case_sensitive).len()
                && #[trigger] filter_text(x.name, case_sensitive).subrange(i, i + filter_text(pattern, case_sensitive).len())
                    == filter_text(pattern, case_sensitive)
        },
        filter_named(ms, pattern, case_sensitive).len() <= ms.len(),
    decreases ms.len(),
{
    let p = filter_text(pattern, case_sensitive);
    if ms.len() > 0 {
        let d = ms.drop_last();
        law_filter_is_substring_match(d, pattern, case_sensitive);
        let f = filter_named(d, pattern, case_sensitive);
        let last = ms.last();
        let r = filter_named(ms, pattern, case_sensitive);
        assert(name_matches(last.name, pattern, case_sensitive) == contains_seq(filter_text(last.name, case_sensitive), p));
        assert forall|k: int, i: int| #![trigger ms[k], filter_text(ms[k].name, case_sensitive).subrange(i, i + p.len())]
            0 <= k < ms.len() && 0 <= i && i + p.len() <= filter_text(ms[k].name, case_sensitive).len()
            && filter_text(ms[k].name, case_sensitive).subrange(i, i + p.len()) == p
            implies r.contains(ms[k]) by {
            if k < ms.len() - 1 {
                assert(d[k] == ms[k]);
                assert(f.contains(d[k]));
                let w = choose|w: int| 0 <= w < f.len() && f[w] == d[k];
                if name_matches(last.name, pattern, case_sensitive) {
                    assert(r == f.push(last));
                    assert(r[w] == f[w]);
                } else {
                    assert(r == f);
                }
            } else {
                assert(contains_seq(filter_text(last.name, case_sensitive), p));
                assert(r == f.push(last));
                assert(r[f.len() as int] == last);
            }
        }
        assert forall|j: int| 0 <= j < r.len() implies {
            let x = #[trigger] r[j];
            &&& ms.contains(x)
            &&& exists|i: int| 0 <= i && i + p.len() <= filter_text(x.name, case_sensitive).len()
                && #[trigger] filter_text(x.name, case_sensitive).subrange(i, i + p.len()) == p
        } by {
            if name_matches(last.name, pattern, case_sensitive) {
                assert(r == f.push(last));
                if j < f.len() {
                    assert(r[j] == f[j]);
                    let x = f[j];
                    assert(d.contains(x));
                    let w = choose|w: int| 0 <= w < d.len() && d[w] == x;
                    assert(ms[w] == x);
                } else {
                    assert(r[j] == last);
                    assert(ms[ms.len() - 1] == last);
                    let i = choose|i: int| 0 <= i <= filter_text(last.name, case_sensitive).len() - p.len()
                        && #[trigger] filter_text(last.name, case_sensitive).subrange(i, i + p.len()) == p;
                }
            } else {
                assert(r == f);
                let x = f[j];
                assert(d.contains(x));
                let w = choose|w: int| 0 <= w < d.len() && d[w] == x;
                assert(ms[w] == x);
            }
        }
    }
}

} // verus!

verus! {

/// The value a numeric sort column orders by: size, allocated bytes or
/// modification time.
pub open spec fn column_value(key: SortKey, c: NodeModel) -> int {
    match key {
        SortKey::Size => c.size as int,
        SortKey::Allocated => c.allocated as int,
        SortKey::Date => c.mtime as int,
        _ => 0,
    }
}

/// The text a text sort column orders by: the lower-cased name, extension
/// or owner.
pub open spec fn column_text(key: SortKey, c: NodeModel) -> Seq<char> {
    match key {
        SortKey::Name => lowercase(c.name),
        SortKey::Extension => lowercase(c.extension),
        SortKey::Owner => lowercase(c.owner),
        _ => Seq::empty(),
    }
}

/// Under the name, extension and owner columns, children come in
/// dictionary order of the lower-cased text (reversed when `reverse`), and
/// every sort lists each child exactly once.
pub proof fn law_text_columns_sort_by_text(m: NodeModel, key: SortKey, reverse: bool, p: Seq<usize>)
    requires
        crate::order::sorted_perm(p, child_sort_keys(key, m), reverse),
    ensures
        p.len() == m.children.len(),
        forall|i: int| 0 <= i < p.len() ==> #[trigger] p[i] < m.children.len(),
        forall|i: int, j: int| 0 <= i < j < p.len() ==> #[trigger] p[i] != #[trigger] p[j],
        key == SortKey::Name || key == SortKey::Extension || key == SortKey::Owner ==>
            forall|i: int, j: int| #![trigger p[i], p[j]] 0 <= i < j < p.len() ==> {
                let a = column_text(key, m.children[p[i] as int]);
                let b = column_text(key, m.children[p[j] as int]);
                &&& !reverse ==> crate::order::lex_order(a, b) <= 0
                &&& reverse ==> crate::order::lex_order(b, a) <= 0
            },
{
    let keys = child_sort_keys(key, m);
    assert forall|i: int, j: int| 0 <= i < j < p.len() implies #[trigger] p[i] != #[trigger] p[j] by {
        let x = p[i] as int;
        let y = p[j] as int;
        assert(crate::order::before(keys, reverse, x, y));
        crate::order::lemma_lex_antisym(keys[x].0, keys[x].0);
    }
    if key == SortKey::Name || key == SortKey::Extension || key == SortKey::Owner {
        assert forall|i: int, j: int| #![trigger p[i], p[j]] 0 <= i < j < p.len() implies {
            let a = column_text(key, m.children[p[i] as int]);
            let b = column_text(key, m.children[p[j] as int]);
            &&& !reverse ==> crate::order::lex_order(a, b) <= 0
            &&& reverse ==> crate::order::lex_order(b, a) <= 0
        } by {
            let x = p[i] as int;
            let y = p[j] as int;
            assert(crate::order::before(keys, reverse, x, y));
            assert(keys[x] == sort_item_of(key, m, m.children[x]));
            assert(keys[y] == sort_item_of(key, m, m.children[y]));
            assert(keys[x].0 == column_text(key, m.children[x]));
            assert(keys[y].0 == column_text(key, m.children[y]));
            assert(keys[x].1 == 0 && keys[y].1 == 0);
        }
    }
}

/// Under the size, allocated and date columns, children come in order of
/// that value: ascending (descending when `reverse`) whatever their other
/// fields; children with equal values keep their original order.
pub proof fn law_numeric_columns_sort_by_value(m: NodeModel, key: SortKey, reverse: bool, p: Seq<usize>)
    requires
        key == SortKey::Size || key == SortKey::Allocated || key == SortKey::Date,
        crate::order::sorted_perm(p, child_sort_keys(key, m), reverse),
    ensures
        forall|i: int, j: int| #![trigger p[i], p[j]] 0 <= i < j < p.len() ==> {
            let a = column_value(key, m.children[p[i] as int]);
            let b = column_value(key, m.children[p[j] as int]);
            &&& !reverse ==> a <= b
            &&& reverse ==> a >= b
            &&& a == b ==> p[i] < p[j]
        },
{
    let keys = child_sort_keys(key, m);
    assert forall|i: int, j: int| #![trigger p[i], p[j]] 0 <= i < j < p.len() implies {
        let a = column_value(key, m.children[p[i] as int]);
        let b = column_value(key, m.children[p[j] as int]);
        &&& !reverse ==> a <= b
        &&& reverse ==> a >= b
        &&& a == b ==> p[i] < p[j]
    } by {
        let x = p[i] as int;
        let y = p[j] as int;
        assert(crate::order::before(keys, reverse, x, y));
        assert(keys[x] == sort_item_of(key, m, m.children[x]));
        assert(keys[y] == sort_item_of(key, m, m.children[y]));
        assert(keys[x].0 == Seq::<char>::empty() && keys[y].0 == Seq::<char>::empty());
        assert(crate::order::lex_order(Seq::<char>::empty(), Seq::<char>::empty()) == 0);
        assert(keys[x].1 == column_value(key, m.children[x]));
        assert(keys[y].1 == column_value(key, m.children[y]));
    }
}

} // verus!
