//! The tree shown while a scan runs: live patches merged in place, and
//! patches that arrive before their parent held back until it is present.

use vstd::prelude::*;
use crate::models::{
    descend, first_child_named, first_named, lemma_models_of_index, lemma_models_of_update,
    models_of, patched, rollup_chain_spec, stub, with_child, with_children, NodeModel, PatchKind,
    ScanNode, TreePatch,
};
use crate::paths::{
    components, comps_eq, cv, file_name, file_name_of, key_spec, lexical_key, parent_path,
    parent_spec, path_components, rel_after, strip_prefix_comps, PathEnv,
};
use crate::scanner::DirectoryScanner;

verus! {

/// A patch as a value: its kind and the value of its node.
pub open spec fn patch_view(p: TreePatch) -> (PatchKind, NodeModel) {
    (p.kind, p.node.model())
}

/// Where the node for `path` sits below `m`: the names to follow from `m`
/// (none when the lexical keys agree), provided every step exists.
pub open spec fn locate(m: NodeModel, path: Seq<char>, home: Seq<char>, cwd: Seq<char>) -> Option<Seq<Seq<char>>> {
    match rel_after(key_spec(path, home, cwd), key_spec(m.path, home, cwd)) {
        Some(rel) => if descend(m, rel) is Some { Some(rel) } else { None },
        None => None,
    }
}

/// The node a patch adds under its parent: a listing's children lose
/// their own children, a subtree comes whole.
pub open spec fn new_child(kind: PatchKind, s: NodeModel) -> NodeModel {
    match kind {
        PatchKind::Listed => with_children(s, s.children.map_values(|c: NodeModel| stub(c))),
        PatchKind::Subtree => s,
    }
}

/// The patch applied under its parent `t`: to the first child whose file
/// name is the patch path's, else appended as a new child.
pub open spec fn attached(t: NodeModel, kind: PatchKind, s: NodeModel) -> NodeModel {
    let idx = match file_name_of(s.path) {
        Some(nm) => first_named(t.children, nm),
        None => None,
    };
    match idx {
        Some(i) => with_children(t, t.children.update(i, patched(t.children[i], kind, s))),
        None => with_child(t, new_child(kind, s)),
    }
}

/// `m` with the node reached by following `rel` replaced by the patch
/// applied to it (`attach` false) or under it (`attach` true).
pub open spec fn edit_at(m: NodeModel, rel: Seq<Seq<char>>, attach: bool, kind: PatchKind, s: NodeModel) -> NodeModel
    decreases rel.len(),
{
    if rel.len() == 0 {
        if attach { attached(m, kind, s) } else { patched(m, kind, s) }
    } else {
        match first_named(m.children, rel[0]) {
            Some(i) => if 0 <= i < m.children.len() {
                with_children(m, m.children.update(i, edit_at(m.children[i], rel.drop_first(), attach, kind, s)))
            } else {
                m
            },
            None => m,
        }
    }
}

/// Merging one patch into the tree `m`, or `None` when it cannot merge yet:
/// onto the root when the keys agree; else onto the node at the patch path
/// (then rolling up totals along the path); else under its parent when the
/// parent is present (then rolling up along the patch path).
pub open spec fn merge_spec(m: NodeModel, kind: PatchKind, s: NodeModel, home: Seq<char>, cwd: Seq<char>) -> Option<NodeModel> {
    let path = s.path;
    if key_spec(m.path, home, cwd) == key_spec(path, home, cwd) {
        Some(patched(m, kind, s))
    } else {
        match locate(m, path, home, cwd) {
            Some(rel) => Some(rollup_chain_spec(edit_at(m, rel, false, kind, s), path, home, cwd)),
            None => match parent_spec(path) {
                None => None,
                Some(pp) => if path_components(pp) == path_components(path) {
                    None
                } else {
                    match locate(m, pp, home, cwd) {
                        Some(prel) => Some(rollup_chain_spec(edit_at(m, prel, true, kind, s), path, home, cwd)),
                        None => None,
                    }
                },
            },
        }
    }
}

proof fn lemma_first_named_range(cs: Seq<NodeModel>, nm: Seq<char>)
    ensures
        match first_named(cs, nm) {
            Some(i) => 0 <= i < cs.len(),
            None => true,
        },
    decreases cs.len(),
{
    if cs.len() > 0 {
        lemma_first_named_range(cs.drop_last(), nm);
    }
}

/// Whether following the names of `rel` from `node` reaches a node.
fn descends(node: &ScanNode, rel: &Vec<Vec<char>>) -> (b: bool)
    ensures
        b == descend(node.model(), cv(rel@)) is Some,
{
    let mut cur: &ScanNode = node;
    assert(cv(rel@).skip(0) == cv(rel@));
    for k in 0..rel.len()
        invariant
            descend(node.model(), cv(rel@)) == descend(cur.model(), cv(rel@).skip(k as int)),
    {
        let ghost rest = cv(rel@).skip(k as int);
        assert(rest[0] == rel@[k as int]@);
        assert(rest.drop_first() == cv(rel@).skip(k + 1));
        match first_child_named(&cur.children, &rel[k]) {
            Some(i) => {
                proof {
                    lemma_models_of_index(cur.children@, i as int);
                }
                cur = &cur.children[i];
            },
            None => {
                return false;
            },
        }
    }
    assert(cv(rel@).skip(rel@.len() as int) =~= Seq::<Seq<char>>::empty());
    true
}

/// The names leading from `node` to the node for `path`, when it exists.
fn locate_exec(node: &ScanNode, path: &str, env: &PathEnv) -> (r: Option<Vec<Vec<char>>>)
    ensures
        match r {
            Some(rel) => locate(node.model(), path@, env.home@, env.cwd@) == Some(cv(rel@)),
            None => locate(node.model(), path@, env.home@, env.cwd@) is None,
        },
{
    let key = lexical_key(path, env);
    let node_key = lexical_key(node.path.as_str(), env);
    match strip_prefix_comps(&key, &node_key) {
        Some(rel) => {
            if descends(node, &rel) {
                Some(rel)
            } else {
                None
            }
        },
        None => None,
    }
}

/// The node a patch adds under its parent.
fn new_child_exec(patch: &TreePatch) -> (r: ScanNode)
    ensures
        r.model() == new_child(patch.kind, patch.node.model()),
{
    match patch.kind {
        PatchKind::Listed => patch.node.listing_patch().node,
        PatchKind::Subtree => patch.node.subtree_patch().node,
    }
}

/// Applies the patch under `node` (see `attached`).
fn attach_child(node: &mut ScanNode, patch: &TreePatch)
    ensures
        final(node).model() == attached(old(node).model(), patch.kind, patch.node.model()),
{
    let idx = match file_name(patch.node.path.as_str()) {
        Some(nm) => first_child_named(&node.children, &nm),
        None => None,
    };
    match idx {
        Some(i) => {
            proof {
                lemma_models_of_index(node.children@, i as int);
            }
            let ghost before = node.children@;
            node.children[i].apply_patch(patch);
            proof {
                assert(node.children@ == before.update(i as int, node.children@[i as int]));
                lemma_models_of_update(before, i as int, node.children@[i as int]);
            }
        },
        None => {
            let c = new_child_exec(patch);
            node.add_child(c);
        },
    }
}

/// Applies the patch at (or under) the node reached from `node` by the
/// names `rel[k..]`, which must exist.
fn edit_node(node: &mut ScanNode, rel: &Vec<Vec<char>>, k: usize, attach: bool, patch: &TreePatch)
    requires
        k <= rel@.len(),
        descend(old(node).model(), cv(rel@).skip(k as int)) is Some,
    ensures
        final(node).model() == edit_at(old(node).model(), cv(rel@).skip(k as int), attach, patch.kind, patch.node.model()),
    decreases rel@.len() - k,
{
    let ghost rest = cv(rel@).skip(k as int);
    if k == rel.len() {
        assert(rest.len() == 0);
        if attach {
            attach_child(node, patch);
        } else {
            node.apply_patch(patch);
        }
        return;
    }
    assert(rest[0] == rel@[k as int]@);
    assert(rest.drop_first() == cv(rel@).skip(k + 1));
    proof {
        lemma_first_named_range(old(node).model().children, rest[0]);
    }
    match first_child_named(&node.children, &rel[k]) {
        Some(i) => {
            proof {
                lemma_models_of_index(node.children@, i as int);
            }
            let ghost before = node.children@;
            edit_node(&mut node.children[i], rel, k + 1, attach, patch);
            proof {
                assert(node.children@ == before.update(i as int, node.children@[i as int]));
                lemma_models_of_update(before, i as int, node.children@[i as int]);
            }
        },
        None => {},
    }
}

/// Merges one patch into the tree `full`; false (and `full` unchanged) when
/// its place is not in the tree yet. See `merge_spec`.
pub fn try_merge(full: &mut ScanNode, patch: &TreePatch, scanner: &DirectoryScanner) -> (ok: bool)
    ensures
        match merge_spec(old(full).model(), patch.kind, patch.node.model(), scanner.env.home@, scanner.env.cwd@) {
            Some(m) => ok && final(full).model() == m,
            None => !ok && final(full).model() == old(full).model(),
        },
{
    let env = &scanner.env;
    let path = patch.node.path.as_str();
    let full_key = lexical_key(full.path.as_str(), env);
    let patch_key = lexical_key(path, env);
    if comps_eq(&full_key, &patch_key) {
        full.apply_patch(patch);
        return true;
    }
    match locate_exec(full, path, env) {
        Some(rel) => {
            assert(cv(rel@).skip(0) == cv(rel@));
            edit_node(full, &rel, 0, false, patch);
            scanner.rollup_chain(full, path);
            return true;
        },
        None => {},
    }
    let pp = match parent_path(path) {
        Some(pp) => pp,
        None => return false,
    };
    if comps_eq(&components(pp.as_str()), &components(path)) {
        return false;
    }
    match locate_exec(full, pp.as_str(), env) {
        Some(prel) => {
            assert(cv(prel@).skip(0) == cv(prel@));
            edit_node(full, &prel, 0, true, patch);
            scanner.rollup_chain(full, path);
            true
        },
        None => false,
    }
}

} // verus!

verus! {

/// A group of held-back patches: the key of the path they wait on, and the
/// patches in arrival order.
pub closed spec fn group_view(g: OrphanGroup) -> (Seq<Seq<char>>, Seq<(PatchKind, NodeModel)>) {
    (cv(g.key@), g.patches@.map_values(|p: TreePatch| patch_view(p)))
}

/// The held-back patches, group by group.
pub open spec fn groups_view(gs: Seq<OrphanGroup>) -> Seq<(Seq<Seq<char>>, Seq<(PatchKind, NodeModel)>)> {
    gs.map_values(|g: OrphanGroup| group_view(g))
}

/// The key a held-back patch waits on: that of its parent path, or of its
/// own path when it has no parent.
pub open spec fn orphan_key(s: NodeModel, home: Seq<char>, cwd: Seq<char>) -> Seq<Seq<char>> {
    match parent_spec(s.path) {
        Some(pp) => key_spec(pp, home, cwd),
        None => key_spec(s.path, home, cwd),
    }
}

/// The position of the group with key `k`.
pub open spec fn find_group(os: Seq<(Seq<Seq<char>>, Seq<(PatchKind, NodeModel)>)>, k: Seq<Seq<char>>) -> Option<int>
    decreases os.len(),
{
    if os.len() == 0 {
        None
    } else {
        match find_group(os.drop_last(), k) {
            Some(i) => Some(i),
            None => if os.last().0 == k { Some(os.len() - 1) } else { None },
        }
    }
}

/// No two groups share a key.
pub open spec fn keys_distinct(os: Seq<(Seq<Seq<char>>, Seq<(PatchKind, NodeModel)>)>) -> bool {
    forall|i: int, j: int| 0 <= i < j < os.len() ==> #[trigger] os[i].0 != #[trigger] os[j].0
}

/// Holding back one patch: appended to the group for its key, or a new
/// group at the end.
pub open spec fn buffer_spec(
    os: Seq<(Seq<Seq<char>>, Seq<(PatchKind, NodeModel)>)>,
    p: (PatchKind, NodeModel),
    home: Seq<char>,
    cwd: Seq<char>,
) -> Seq<(Seq<Seq<char>>, Seq<(PatchKind, NodeModel)>)> {
    let k = orphan_key(p.1, home, cwd);
    match find_group(os, k) {
        Some(i) => os.update(i, (os[i].0, os[i].1.push(p))),
        None => os.push((k, seq![p])),
    }
}

/// Holding back several patches, in order.
pub open spec fn buffer_all(
    os: Seq<(Seq<Seq<char>>, Seq<(PatchKind, NodeModel)>)>,
    ps: Seq<(PatchKind, NodeModel)>,
    home: Seq<char>,
    cwd: Seq<char>,
) -> Seq<(Seq<Seq<char>>, Seq<(PatchKind, NodeModel)>)>
    decreases ps.len(),
{
    if ps.len() == 0 {
        os
    } else {
        buffer_spec(buffer_all(os, ps.drop_last(), home, cwd), ps.last(), home, cwd)
    }
}

/// How many patches are held back.
pub open spec fn total(os: Seq<(Seq<Seq<char>>, Seq<(PatchKind, NodeModel)>)>) -> nat
    decreases os.len(),
{
    if os.len() == 0 { 0 } else { total(os.drop_last()) + os.last().1.len() }
}

/// Retrying held-back patches in order against `m`: the resulting tree, the
/// keys of the patches that merged (in order), and the patches that did not.
pub open spec fn retry(m: NodeModel, ps: Seq<(PatchKind, NodeModel)>, home: Seq<char>, cwd: Seq<char>)
    -> (NodeModel, Seq<Seq<Seq<char>>>, Seq<(PatchKind, NodeModel)>)
    decreases ps.len(),
{
    if ps.len() == 0 {
        (m, Seq::empty(), Seq::empty())
    } else {
        let (m1, ks, rb) = retry(m, ps.drop_last(), home, cwd);
        let p = ps.last();
        match merge_spec(m1, p.0, p.1, home, cwd) {
            Some(m2) => (m2, ks.push(key_spec(p.1.path, home, cwd)), rb),
            None => (m1, ks, rb.push(p)),
        }
    }
}

/// Draining the work list of merged keys (last first): each key's group is
/// taken out and retried; patches that merge add their own key to the work
/// list, the others are held back again.
pub open spec fn resolve(
    m: NodeModel,
    os: Seq<(Seq<Seq<char>>, Seq<(PatchKind, NodeModel)>)>,
    work: Seq<Seq<Seq<char>>>,
    home: Seq<char>,
    cwd: Seq<char>,
) -> (NodeModel, Seq<(Seq<Seq<char>>, Seq<(PatchKind, NodeModel)>)>)
    decreases total(os), work.len(),
    via resolve_decreases
{
    if work.len() == 0 {
        (m, os)
    } else {
        let k = work.last();
        let w = work.drop_last();
        match find_group(os, k) {
            None => resolve(m, os, w, home, cwd),
            Some(i) => if 0 <= i < os.len() {
                let (m2, ks, rb) = retry(m, os[i].1, home, cwd);
                resolve(m2, buffer_all(os.remove(i), rb, home, cwd), w + ks, home, cwd)
            } else {
                (m, os)
            },
        }
    }
}

#[via_fn]
proof fn resolve_decreases(
    m: NodeModel,
    os: Seq<(Seq<Seq<char>>, Seq<(PatchKind, NodeModel)>)>,
    work: Seq<Seq<Seq<char>>>,
    home: Seq<char>,
    cwd: Seq<char>,
) {
    if work.len() > 0 {
        let k = work.last();
        match find_group(os, k) {
            None => {},
            Some(i) => if 0 <= i < os.len() {
                let (m2, ks, rb) = retry(m, os[i].1, home, cwd);
                lemma_retry_len(m, os[i].1, home, cwd);
                lemma_total_remove(os, i);
                lemma_total_buffer_all(os.remove(i), rb, home, cwd);
            },
        }
    }
}

proof fn lemma_retry_len(m: NodeModel, ps: Seq<(PatchKind, NodeModel)>, home: Seq<char>, cwd: Seq<char>)
    ensures
        retry(m, ps, home, cwd).1.len() + retry(m, ps, home, cwd).2.len() == ps.len(),
    decreases ps.len(),
{
    if ps.len() > 0 {
        lemma_retry_len(m, ps.drop_last(), home, cwd);
    }
}

proof fn lemma_total_update(
    os: Seq<(Seq<Seq<char>>, Seq<(PatchKind, NodeModel)>)>,
    i: int,
    g: (Seq<Seq<char>>, Seq<(PatchKind, NodeModel)>),
)
    requires
        0 <= i < os.len(),
    ensures
        total(os.update(i, g)) == total(os) - os[i].1.len() + g.1.len(),
    decreases os.len(),
{
    if i < os.len() - 1 {
        lemma_total_update(os.drop_last(), i, g);
        assert(os.update(i, g).drop_last() == os.drop_last().update(i, g));
    } else {
        assert(os.update(i, g).drop_last() == os.drop_last());
    }
}

proof fn lemma_total_remove(os: Seq<(Seq<Seq<char>>, Seq<(PatchKind, NodeModel)>)>, i: int)
    requires
        0 <= i < os.len(),
    ensures
        total(os.remove(i)) == total(os) - os[i].1.len(),
    decreases os.len(),
{
    if i < os.len() - 1 {
        lemma_total_remove(os.drop_last(), i);
        assert(os.remove(i) == os.drop_last().remove(i).push(os.last()));
        assert(os.remove(i).drop_last() == os.drop_last().remove(i));
    } else {
        assert(os.remove(i) == os.drop_last());
    }
}

proof fn lemma_find_group_range(os: Seq<(Seq<Seq<char>>, Seq<(PatchKind, NodeModel)>)>, k: Seq<Seq<char>>)
    ensures
        match find_group(os, k) {
            Some(i) => 0 <= i < os.len() && os[i].0 == k,
            None => forall|j: int| 0 <= j < os.len() ==> #[trigger] os[j].0 != k,
        },
    decreases os.len(),
{
    if os.len() > 0 {
        lemma_find_group_range(os.drop_last(), k);
        if find_group(os.drop_last(), k) is None {
            assert forall|j: int| 0 <= j < os.len() - 1 implies #[trigger] os[j].0 != k by {
                assert(os.drop_last()[j] == os[j]);
            }
        }
    }
}

proof fn lemma_total_buffer(
    os: Seq<(Seq<Seq<char>>, Seq<(PatchKind, NodeModel)>)>,
    p: (PatchKind, NodeModel),
    home: Seq<char>,
    cwd: Seq<char>,
)
    ensures
        total(buffer_spec(os, p, home, cwd)) == total(os) + 1,
        keys_distinct(os) ==> keys_distinct(buffer_spec(os, p, home, cwd)),
{
    let k = orphan_key(p.1, home, cwd);
    lemma_find_group_range(os, k);
    match find_group(os, k) {
        Some(i) => {
            lemma_total_update(os, i, (os[i].0, os[i].1.push(p)));
            let b = buffer_spec(os, p, home, cwd);
            if keys_distinct(os) {
                assert forall|a: int, c: int| 0 <= a < c < b.len() implies #[trigger] b[a].0 != #[trigger] b[c].0 by {
                    assert(b[a].0 == os[a].0);
                    assert(b[c].0 == os[c].0);
                }
            }
        },
        None => {
            let b = os.push((k, seq![p]));
            assert(b.drop_last() == os);
            if keys_distinct(os) {
                assert forall|a: int, c: int| 0 <= a < c < b.len() implies #[trigger] b[a].0 != #[trigger] b[c].0 by {
                    if c == os.len() {
                        assert(os[a].0 != k);
                    } else {
                        assert(os[a].0 != os[c].0);
                    }
                }
            }
        },
    }
}

proof fn lemma_total_buffer_all(
    os: Seq<(Seq<Seq<char>>, Seq<(PatchKind, NodeModel)>)>,
    ps: Seq<(PatchKind, NodeModel)>,
    home: Seq<char>,
    cwd: Seq<char>,
)
    ensures
        total(buffer_all(os, ps, home, cwd)) == total(os) + ps.len(),
        keys_distinct(os) ==> keys_distinct(buffer_all(os, ps, home, cwd)),
    decreases ps.len(),
{
    if ps.len() > 0 {
        lemma_total_buffer_all(os, ps.drop_last(), home, cwd);
        lemma_total_buffer(buffer_all(os, ps.drop_last(), home, cwd), ps.last(), home, cwd);
    }
}

/// Patches held back under one key.
pub struct OrphanGroup {
    key: Vec<Vec<char>>,
    patches: Vec<TreePatch>,
}

} // verus!

verus! {

/// The value of an optional tree.
pub open spec fn root_model(r: Option<ScanNode>) -> Option<NodeModel> {
    match r {
        Some(n) => Some(n.model()),
        None => None,
    }
}

/// The values of a list of patches.
pub open spec fn pviews(v: Seq<TreePatch>) -> Seq<(PatchKind, NodeModel)> {
    v.map_values(|p: TreePatch| patch_view(p))
}

/// The key sequences of a list of component lists.
pub open spec fn keys_view(v: Seq<Vec<Vec<char>>>) -> Seq<Seq<Seq<char>>> {
    v.map_values(|k: Vec<Vec<char>>| cv(k@))
}

/// One patch arriving at the live tree (see `TreeState::apply_patch`): the
/// new tree (the patch node itself when there was none), the held-back
/// patches, and whether the patch merged. A merged patch then releases the
/// patches waiting on its key (`resolve`); one that cannot merge is held
/// back under the key of its parent.
pub open spec fn apply_spec(
    root: Option<NodeModel>,
    os: Seq<(Seq<Seq<char>>, Seq<(PatchKind, NodeModel)>)>,
    kind: PatchKind,
    s: NodeModel,
    home: Seq<char>,
    cwd: Seq<char>,
) -> (Option<NodeModel>, Seq<(Seq<Seq<char>>, Seq<(PatchKind, NodeModel)>)>, bool) {
    let k = key_spec(s.path, home, cwd);
    match root {
        None => {
            let (m, os2) = resolve(s, os, seq![k], home, cwd);
            (Some(m), os2, true)
        },
        Some(m) => match merge_spec(m, kind, s, home, cwd) {
            Some(m2) => {
                let (m3, os2) = resolve(m2, os, seq![k], home, cwd);
                (Some(m3), os2, true)
            },
            None => (Some(m), buffer_spec(os, (kind, s), home, cwd), false),
        },
    }
}

/// The live scan tree, whether it changed since it was last drawn, and the
/// patches that arrived before their parent.
pub struct TreeState {
    pub root: Option<ScanNode>,
    pub dirty: bool,
    orphans: Vec<OrphanGroup>,
}

impl TreeState {
    /// The held-back patches, group by group.
    pub closed spec fn held(&self) -> Seq<(Seq<Seq<char>>, Seq<(PatchKind, NodeModel)>)> {
        groups_view(self.orphans@)
    }

    /// The value of the live tree.
    pub closed spec fn tree(&self) -> Option<NodeModel> {
        root_model(self.root)
    }

    /// Whether the tree changed since it was last drawn.
    pub closed spec fn is_dirty(&self) -> bool {
        self.dirty
    }

    /// No key has two groups.
    pub open spec fn wf(&self) -> bool {
        keys_distinct(self.held())
    }

    /// Installs a complete tree. Held-back patches are dropped: the complete
    /// tree supersedes them.
    pub fn set_root(&mut self, root: ScanNode)
        ensures
            final(self).tree() == Some(root.model()),
            final(self).is_dirty(),
            final(self).held() == Seq::<(Seq<Seq<char>>, Seq<(PatchKind, NodeModel)>)>::empty(),
            final(self).wf(),
    {
        self.root = Some(root);
        self.dirty = true;
        self.orphans = Vec::new();
        assert(groups_view(self.orphans@) =~= Seq::<(Seq<Seq<char>>, Seq<(PatchKind, NodeModel)>)>::empty());
    }

    /// Merges a live patch (see `apply_spec`); returns whether it merged.
    pub fn apply_patch(&mut self, patch: TreePatch, scanner: &DirectoryScanner) -> (merged: bool)
        requires
            old(self).wf(),
        ensures
            final(self).wf(),
            apply_spec(old(self).tree(), old(self).held(), patch.kind, patch.node.model(),
                scanner.env.home@, scanner.env.cwd@) == (final(self).tree(), final(self).held(), merged),
            final(self).is_dirty() == (old(self).is_dirty() || merged),
    {
        let key = lexical_key(patch.node.path.as_str(), &scanner.env);
        let taken = self.root.take();
        match taken {
            None => {
                self.root = Some(patch.node);
                self.dirty = true;
                self.resolve_orphans_for(key, scanner);
                true
            },
            Some(full) => {
                let mut full = full;
                if try_merge(&mut full, &patch, scanner) {
                    self.root = Some(full);
                    self.dirty = true;
                    self.resolve_orphans_for(key, scanner);
                    true
                } else {
                    self.root = Some(full);
                    let ghost pv = patch_view(patch);
                    self.buffer_orphan(patch, scanner);
                    proof {
                        lemma_total_buffer(old(self).held(), pv, scanner.env.home@, scanner.env.cwd@);
                    }
                    false
                }
            },
        }
    }

    /// Releases the patches waiting on `merged_key` (and, in turn, on the
    /// keys of the patches that merge); see `resolve`.
    fn resolve_orphans_for(&mut self, merged_key: Vec<Vec<char>>, scanner: &DirectoryScanner)
        requires
            old(self).tree() is Some,
            old(self).wf(),
        ensures
            final(self).wf(),
            final(self).tree() is Some,
            resolve(old(self).tree()->0, old(self).held(), seq![cv(merged_key@)],
                scanner.env.home@, scanner.env.cwd@) == (final(self).tree()->0, final(self).held()),
            old(self).is_dirty() ==> final(self).is_dirty(),
    {
        let ghost home = scanner.env.home@;
        let ghost cwd = scanner.env.cwd@;
        let mut full = self.root.take().unwrap();
        let ghost target = resolve(full.model(), self.held(), seq![cv(merged_key@)], home, cwd);
        let mut work: Vec<Vec<Vec<char>>> = Vec::new();
        work.push(merged_key);
        assert(keys_view(work@) =~= seq![cv(merged_key@)]);
        while work.len() > 0
            invariant
                home == scanner.env.home@,
                cwd == scanner.env.cwd@,
                keys_distinct(self.held()),
                resolve(full.model(), self.held(), keys_view(work@), home, cwd) == target,
                old(self).is_dirty() ==> self.dirty,
            decreases total(self.held()), work.len(),
        {
            let ghost work_before = keys_view(work@);
            let key = work.pop().unwrap();
            assert(keys_view(work@) =~= work_before.drop_last());
            assert(work_before.last() == cv(key@));
            match self.find_group_exec(&key) {
                None => {},
                Some(i) => {
                    let ghost os = self.held();
                    proof {
                        lemma_find_group_range(os, cv(key@));
                    }
                    let group = self.orphans.remove(i);
                    assert(self.held() =~= os.remove(i as int));
                    let ghost gp = group_view(group).1;
                    assert(gp == os[i as int].1);
                    let ghost m0 = full.model();
                    let ghost w0 = keys_view(work@);
                    let ghost mut ks: Seq<Seq<Seq<char>>> = Seq::empty();
                    let OrphanGroup { key: _, patches } = group;
                    let ghost pv = patches@;
                    assert(gp == pv.map_values(|p: TreePatch| patch_view(p)));
                    let mut rebuffer: Vec<TreePatch> = Vec::new();
                    assert(gp.take(0) =~= Seq::<(PatchKind, NodeModel)>::empty());
                    assert(pviews(rebuffer@) =~= Seq::<(PatchKind, NodeModel)>::empty());
                    assert(keys_view(work@) =~= w0 + ks);
                    for patch in it: patches.into_iter()
                        invariant
                            it.seq() == pv,
                            gp == pv.map_values(|p: TreePatch| patch_view(p)),
                            home == scanner.env.home@,
                            cwd == scanner.env.cwd@,
                            keys_view(work@) == w0 + ks,
                            retry(m0, gp.take(it.index() as int), home, cwd) == (full.model(), ks, pviews(rebuffer@)),
                    {
                        let ghost k = it.index() as int;
                        assert(gp.take(k + 1).drop_last() == gp.take(k));
                        assert(gp.take(k + 1).last() == patch_view(patch));
                        let ghost rb_before = pviews(rebuffer@);
                        if try_merge(&mut full, &patch, scanner) {
                            let pk = lexical_key(patch.node.path.as_str(), &scanner.env);
                            let ghost wb = keys_view(work@);
                            work.push(pk);
                            proof {
                                assert(keys_view(work@) =~= wb.push(cv(pk@)));
                                ks = ks.push(cv(pk@));
                                assert(keys_view(work@) =~= w0 + ks);
                            }
                        } else {
                            rebuffer.push(patch);
                            assert(pviews(rebuffer@) =~= rb_before.push(patch_view(patch)));
                        }
                    }
                    assert(gp.take(gp.len() as int) == gp);
                    let ghost rb = pviews(rebuffer@);
                    proof {
                        lemma_retry_len(m0, gp, home, cwd);
                        lemma_total_remove(os, i as int);
                        lemma_total_buffer_all(os.remove(i as int), rb, home, cwd);
                        assert(keys_distinct(os.remove(i as int))) by {
                            let r = os.remove(i as int);
                            assert forall|a: int, c: int| 0 <= a < c < r.len() implies #[trigger] r[a].0 != #[trigger] r[c].0 by {
                                let a2 = if a < i { a } else { a + 1 };
                                let c2 = if c < i { c } else { c + 1 };
                                assert(r[a] == os[a2]);
                                assert(r[c] == os[c2]);
                            }
                        }
                    }
                    let ghost base = self.held();
                    assert(base == os.remove(i as int));
                    assert(rb.take(0) =~= Seq::<(PatchKind, NodeModel)>::empty());
                    let ghost rv = rebuffer@;
                    for patch in it2: rebuffer.into_iter()
                        invariant
                            it2.seq() == rv,
                            rb == rv.map_values(|p: TreePatch| patch_view(p)),
                            home == scanner.env.home@,
                            cwd == scanner.env.cwd@,
                            self.held() == buffer_all(base, rb.take(it2.index() as int), home, cwd),
                            self.dirty == old(self).is_dirty() || self.dirty,
                    {
                        let ghost k = it2.index() as int;
                        assert(rb.take(k + 1).drop_last() == rb.take(k));
                        assert(rb.take(k + 1).last() == patch_view(patch));
                        self.buffer_orphan(patch, scanner);
                    }
                    assert(rb.take(rb.len() as int) == rb);
                    proof {
                        lemma_total_buffer_all(base, rb, home, cwd);
                    }
                    self.dirty = true;
                },
            }
        }
        self.root = Some(full);
    }

    /// The position of the group for `key`.
    fn find_group_exec(&self, key: &Vec<Vec<char>>) -> (r: Option<usize>)
        ensures
            match r {
                Some(i) => i < self.orphans@.len() && find_group(self.held(), cv(key@)) == Some(i as int),
                None => find_group(self.held(), cv(key@)) is None,
            },
    {
        let ghost os = self.held();
        for i in 0..self.orphans.len()
            invariant
                os == groups_view(self.orphans@),
                os.len() == self.orphans@.len(),
                find_group(os.take(i as int), cv(key@)) is None,
        {
            assert(os.take(i + 1).drop_last() == os.take(i as int));
            assert(os[i as int].0 == cv(self.orphans@[i as int].key@));
            if comps_eq(&self.orphans[i].key, key) {
                assert(find_group(os.take(i + 1), cv(key@)) == Some(i as int));
                proof {
                    lemma_find_group_prefix(os, i as int + 1, cv(key@), i as int);
                }
                return Some(i);
            }
        }
        assert(os.take(os.len() as int) == os);
        None
    }

    /// Holds a patch back under the key of its parent path.
    fn buffer_orphan(&mut self, patch: TreePatch, scanner: &DirectoryScanner)
        ensures
            final(self).held() == buffer_spec(old(self).held(), patch_view(patch), scanner.env.home@, scanner.env.cwd@),
            final(self).tree() == old(self).tree(),
            final(self).is_dirty() == old(self).is_dirty(),
    {
        let key = match parent_path(patch.node.path.as_str()) {
            Some(pp) => lexical_key(pp.as_str(), &scanner.env),
            None => lexical_key(patch.node.path.as_str(), &scanner.env),
        };
        let ghost os = self.held();
        let ghost p = patch_view(patch);
        match self.find_group_exec(&key) {
            Some(i) => {
                let mut group = self.orphans.remove(i);
                let ghost gv = group_view(group);
                group.patches.push(patch);
                assert(group_view(group) == (gv.0, gv.1.push(p))) by {
                    assert(group_view(group).1 =~= gv.1.push(p));
                }
                self.orphans.insert(i, group);
                assert(groups_view(self.orphans@) =~= os.update(i as int, (os[i as int].0, os[i as int].1.push(p))));
            },
            None => {
                let mut patches: Vec<TreePatch> = Vec::new();
                patches.push(patch);
                let group = OrphanGroup { key, patches };
                assert(group_view(group) == (orphan_key(p.1, scanner.env.home@, scanner.env.cwd@), seq![p])) by {
                    assert(group_view(group).1 =~= seq![p]);
                }
                self.orphans.push(group);
                assert(groups_view(self.orphans@) =~= os.push((orphan_key(p.1, scanner.env.home@, scanner.env.cwd@), seq![p])));
            },
        }
    }
}

proof fn lemma_find_group_prefix(
    os: Seq<(Seq<Seq<char>>, Seq<(PatchKind, NodeModel)>)>,
    k: int,
    key: Seq<Seq<char>>,
    j: int,
)
    requires
        0 <= k <= os.len(),
        find_group(os.take(k), key) == Some(j),
    ensures
        find_group(os, key) == Some(j),
    decreases os.len() - k,
{
    if k < os.len() {
        assert(os.take(k + 1).drop_last() == os.take(k));
        lemma_find_group_prefix(os, k + 1, key, j);
    } else {
        assert(os.take(k) == os);
    }
}

} // verus!

verus! {

proof fn lemma_resolve_total(
    m: NodeModel,
    os: Seq<(Seq<Seq<char>>, Seq<(PatchKind, NodeModel)>)>,
    work: Seq<Seq<Seq<char>>>,
    home: Seq<char>,
    cwd: Seq<char>,
)
    ensures
        total(resolve(m, os, work, home, cwd).1) <= total(os),
        keys_distinct(os) ==> keys_distinct(resolve(m, os, work, home, cwd).1),
    decreases total(os), work.len(),
{
    if work.len() > 0 {
        let k = work.last();
        let w = work.drop_last();
        match find_group(os, k) {
            None => lemma_resolve_total(m, os, w, home, cwd),
            Some(i) => if 0 <= i < os.len() {
                let (m2, ks, rb) = retry(m, os[i].1, home, cwd);
                lemma_retry_len(m, os[i].1, home, cwd);
                lemma_total_remove(os, i);
                lemma_total_buffer_all(os.remove(i), rb, home, cwd);
                if keys_distinct(os) {
                    let r = os.remove(i);
                    assert forall|a: int, c: int| 0 <= a < c < r.len() implies #[trigger] r[a].0 != #[trigger] r[c].0 by {
                        let a2 = if a < i { a } else { a + 1 };
                        let c2 = if c < i { c } else { c + 1 };
                        assert(r[a] == os[a2]);
                        assert(r[c] == os[c2]);
                    }
                }
                lemma_resolve_total(m2, buffer_all(os.remove(i), rb, home, cwd), w + ks, home, cwd);
            },
        }
    }
}

/// A patch that cannot merge leaves the tree as it was and is held back:
/// exactly one more patch waits.
pub proof fn law_unmerged_patch_is_held(
    root: Option<NodeModel>,
    os: Seq<(Seq<Seq<char>>, Seq<(PatchKind, NodeModel)>)>,
    kind: PatchKind,
    s: NodeModel,
    home: Seq<char>,
    cwd: Seq<char>,
)
    requires
        !apply_spec(root, os, kind, s, home, cwd).2,
    ensures
        apply_spec(root, os, kind, s, home, cwd).0 == root,
        total(apply_spec(root, os, kind, s, home, cwd).1) == total(os) + 1,
{
    lemma_total_buffer(os, (kind, s), home, cwd);
}

/// A patch that merges never adds waiting patches: releasing the patches
/// that waited on it can only shrink the set.
pub proof fn law_merged_patch_releases(
    root: Option<NodeModel>,
    os: Seq<(Seq<Seq<char>>, Seq<(PatchKind, NodeModel)>)>,
    kind: PatchKind,
    s: NodeModel,
    home: Seq<char>,
    cwd: Seq<char>,
)
    requires
        apply_spec(root, os, kind, s, home, cwd).2,
    ensures
        total(apply_spec(root, os, kind, s, home, cwd).1) <= total(os),
        apply_spec(root, os, kind, s, home, cwd).0 is Some,
{
    let k = key_spec(s.path, home, cwd);
    match root {
        None => lemma_resolve_total(s, os, seq![k], home, cwd),
        Some(m) => match merge_spec(m, kind, s, home, cwd) {
            Some(m2) => lemma_resolve_total(m2, os, seq![k], home, cwd),
            None => {},
        },
    }
}

/// The first patch for an empty tree becomes the tree.
pub proof fn law_first_patch_becomes_root(
    os: Seq<(Seq<Seq<char>>, Seq<(PatchKind, NodeModel)>)>,
    kind: PatchKind,
    s: NodeModel,
    home: Seq<char>,
    cwd: Seq<char>,
)
    requires
        os.len() == 0,
    ensures
        apply_spec(None, os, kind, s, home, cwd) == (Some(s), os, true),
{
    let k = key_spec(s.path, home, cwd);
    assert(find_group(os, k) is None);
    assert(seq![k].drop_last() =~= Seq::<Seq<Seq<char>>>::empty());
    assert(resolve(s, os, Seq::<Seq<Seq<char>>>::empty(), home, cwd) == (s, os));
    assert(resolve(s, os, seq![k], home, cwd) == resolve(s, os, seq![k].drop_last(), home, cwd));
}

impl Default for TreeState {
    /// No tree, nothing changed, nothing held back.
    fn default() -> (r: TreeState)
        ensures
            r.tree() is None,
            !r.is_dirty(),
            r.held() == Seq::<(Seq<Seq<char>>, Seq<(PatchKind, NodeModel)>)>::empty(),
            r.wf(),
    {
        let r = TreeState { root: None, dirty: false, orphans: Vec::new() };
        assert(groups_view(r.orphans@) =~= Seq::<(Seq<Seq<char>>, Seq<(PatchKind, NodeModel)>)>::empty());
        r
    }
}

} // verus!
