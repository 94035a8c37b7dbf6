//! Traversal decisions: which directories to enter, and the node built for
//! each listed entry. Listing, stat calls and the parallel walk are
//! file-system work done by the caller, which hands in what it found.

use vstd::prelude::*;
use crate::macos_dir::{BulkEntry, entry_view};
use crate::models::{fresh_model, NodeModel, ScanNode};
use crate::paths::{components, comps_eq, comps_under, join_path, join_spec, path_components, path_under};
use crate::scan_cache::{extension_spec, get_file_extension, ProgressThrottle};
use crate::text::{push_str, strs};

verus! {

/// Deepest directory level entered; a safety net against cycles.
pub const MAX_SCAN_DEPTH: usize = 512;

/// The cloud File Provider roots under the home directory.
pub open spec fn cloud_roots_spec(home: Option<Seq<char>>) -> Seq<Seq<char>> {
    match home {
        Some(h) => seq![join_spec(h, "Library/CloudStorage"@), join_spec(h, "Library/Mobile Documents"@)],
        None => Seq::empty(),
    }
}

/// Cloud roots not to descend into for a scan of `scan_root`: none when the
/// scan targets cloud storage (at or under such a root), else all of them.
pub open spec fn cloud_skip_spec(scan_root: Seq<char>, home: Option<Seq<char>>) -> Seq<Seq<char>> {
    let roots = cloud_roots_spec(home);
    if exists|i: int| 0 <= i < roots.len() && path_under(path_components(scan_root), path_components(#[trigger] roots[i])) {
        Seq::empty()
    } else {
        roots
    }
}

/// The cloud roots to skip (see `cloud_skip_spec`); `home` as the
/// environment gives it.
pub fn cloud_skip_roots_for(scan_root: &str, home: Option<&str>) -> (r: Vec<String>)
    ensures
        strs(r@) == cloud_skip_spec(scan_root@, match home { Some(h) => Some(h@), None => None }),
{
    let mut roots: Vec<String> = Vec::new();
    match home {
        Some(h) => {
            roots.push(join_path(h, "Library/CloudStorage"));
            roots.push(join_path(h, "Library/Mobile Documents"));
        },
        None => {},
    }
    let ghost hv = match home { Some(h) => Some(h@), None => None };
    let ghost rs = cloud_roots_spec(hv);
    assert(strs(roots@) =~= rs);
    let sc = components(scan_root);
    for i in 0..roots.len()
        invariant
            rs == cloud_roots_spec(hv),
            hv == (match home { Some(h) => Some(h@), None => None }),
            strs(roots@) == rs,
            crate::paths::cv(sc@) == path_components(scan_root@),
            forall|j: int| 0 <= j < i ==> !path_under(path_components(scan_root@), path_components(#[trigger] rs[j])),
    {
        let rc = components(roots[i].as_str());
        assert(rs[i as int] == roots@[i as int]@);
        if comps_under(&sc, &rc) {
            assert(path_under(path_components(scan_root@), path_components(rs[i as int])));
            let r: Vec<String> = Vec::new();
            assert(strs(r@) =~= Seq::<Seq<char>>::empty());
            return r;
        }
    }
    roots
}

/// Why a directory is not entered before its identity is checked: outside
/// the scan root (when following symlinks, as the caller determined), or
/// strictly inside a cloud root. `None` to go on.
pub open spec fn pre_visit_spec(path: Seq<char>, allowed: bool, cloud: Seq<Seq<char>>) -> Option<Seq<char>> {
    if !allowed {
        Some("Skipping directory outside scan root: "@ + path)
    } else if exists|i: int| 0 <= i < cloud.len() && path_components(path) != path_components(#[trigger] cloud[i])
        && path_under(path_components(path), path_components(cloud[i])) {
        Some("Skipped cloud storage (dataless; not traversed — scan it directly to include): "@ + path)
    } else {
        None
    }
}

fn prefixed(prefix: &str, path: &str) -> (r: String)
    ensures
        r@ == prefix@ + path@,
{
    let mut s = prefix.to_owned();
    push_str(&mut s, path);
    s
}

/// The first checks on a directory (see `pre_visit_spec`).
pub fn pre_visit_check(path: &str, allowed: bool, cloud: &Vec<String>) -> (r: Option<String>)
    ensures
        match r {
            Some(m) => pre_visit_spec(path@, allowed, strs(cloud@)) == Some(m@),
            None => pre_visit_spec(path@, allowed, strs(cloud@)) is None,
        },
{
    if !allowed {
        return Some(prefixed("Skipping directory outside scan root: ", path));
    }
    let pc = components(path);
    for i in 0..cloud.len()
        invariant
            allowed,
            crate::paths::cv(pc@) == path_components(path@),
            forall|j: int| 0 <= j < i ==> !(path_components(path@) != path_components(#[trigger] strs(cloud@)[j])
                && path_under(path_components(path@), path_components(strs(cloud@)[j]))),
    {
        let rc = components(cloud[i].as_str());
        assert(strs(cloud@)[i as int] == cloud@[i as int]@);
        if !comps_eq(&pc, &rc) && comps_under(&pc, &rc) {
            assert(path_components(path@) != path_components(strs(cloud@)[i as int])
                && path_under(path_components(path@), path_components(strs(cloud@)[i as int])));
            return Some(prefixed("Skipped cloud storage (dataless; not traversed — scan it directly to include): ", path));
        }
    }
    None
}

/// Why a directory already entered (same device and inode) is skipped:
/// `None` on its first visit.
pub fn cycle_check(path: &str, first_visit: bool) -> (r: Option<String>)
    ensures
        match r {
            Some(m) => !first_visit && m@ == "Skipping already-visited directory (cycle or mount loop): "@ + path@,
            None => first_visit,
        },
{
    if first_visit {
        None
    } else {
        Some(prefixed("Skipping already-visited directory (cycle or mount loop): ", path))
    }
}

/// Why a directory past the depth limit is skipped: `None` within it.
pub fn depth_check(path: &str, depth: usize) -> (r: Option<String>)
    ensures
        match r {
            Some(m) => depth > MAX_SCAN_DEPTH && m@ == "Skipping directory past max depth 512: "@ + path@,
            None => depth <= MAX_SCAN_DEPTH,
        },
{
    if depth > MAX_SCAN_DEPTH {
        Some(prefixed("Skipping directory past max depth 512: ", path))
    } else {
        None
    }
}

/// The message for a listed entry skipped because it leads outside the scan
/// root.
pub fn outside_entry_message(path: &str) -> (r: String)
    ensures
        r@ == "Skipping entry outside scan root: "@ + path@,
{
    prefixed("Skipping entry outside scan root: ", path)
}

/// What the caller learned about the target of a followed symlink: whether
/// it is a directory, whether it lies under the scan root, and its size and
/// 512-byte blocks when its metadata could be read.
#[derive(Debug, Clone, Copy)]
pub struct SymlinkTarget {
    pub is_dir: bool,
    pub allowed: bool,
    pub meta: Option<(u64, u64)>,
}

/// The node built for a listed entry: a followed symlink takes its target's
/// kind; a file gets its extension and, unless it is an unfollowed symlink,
/// a symlink to a target outside the scan root, or a symlink whose target
/// could not be read, its sizes and a file count of one (a followed symlink
/// taking its target's sizes). Names, paths and flags come from the entry.
pub open spec fn child_spec(e: BulkEntry, follow: bool, t: SymlinkTarget) -> NodeModel {
    let is_dir = if e.is_symlink && follow { t.is_dir } else { e.is_dir };
    let base = NodeModel { is_symlink: e.is_symlink, ..fresh_model(e.name@, e.path@, is_dir) };
    if is_dir {
        base
    } else {
        let ext = extension_spec(e.name@);
        if e.is_symlink && !follow {
            NodeModel { extension: ext, ..base }
        } else if e.is_symlink {
            if !t.allowed {
                NodeModel { extension: ext, ..base }
            } else {
                match t.meta {
                    Some((size, blocks)) => NodeModel {
                        size,
                        allocated: vstd::wrapping::u64_specs::wrapping_mul(blocks, 512),
                        file_count: 1,
                        extension: ext,
                        ..base
                    },
                    None => NodeModel { extension: ext, ..base },
                }
            }
        } else {
            NodeModel { size: e.size, allocated: e.allocated, file_count: 1, extension: ext, ..base }
        }
    }
}

/// Builds the node for a listed entry (see `child_spec`) and counts a file
/// in the progress throttle.
pub fn build_child_from_entry(entry: BulkEntry, follow_symlinks: bool, target: SymlinkTarget, throttle: &ProgressThrottle)
    -> (r: ScanNode)
    ensures
        r.model() == child_spec(entry, follow_symlinks, target),
{
    let ghost e0 = entry;
    let BulkEntry { name, path, is_dir, is_symlink, size, allocated } = entry;
    let is_dir = if is_symlink && follow_symlinks { target.is_dir } else { is_dir };
    let extension = if is_dir { String::new() } else { get_file_extension(name.as_str()) };
    let mut child = ScanNode::new(name.as_str(), path.as_str(), is_dir);
    child.is_symlink = is_symlink;
    if !is_dir {
        if is_symlink && !follow_symlinks {
            child.size = 0;
            child.allocated = 0;
        } else if is_symlink {
            if !target.allowed {
                child.size = 0;
                child.allocated = 0;
            } else {
                match target.meta {
                    Some((s, b)) => {
                        child.size = s;
                        child.allocated = b.wrapping_mul(512);
                        child.file_count = 1;
                    },
                    None => {},
                }
            }
        } else {
            child.size = size;
            child.allocated = allocated;
            child.file_count = 1;
        }
        child.extension = extension;
        throttle.record_file(child.size);
    }
    assert(child.model() =~= child_spec(e0, follow_symlinks, target));
    child
}

/// What `symlink_metadata` gave for a file: whether it is a symlink (and
/// where it points, empty when unreadable), its size and 512-byte blocks.
#[derive(Debug, Clone)]
pub struct FileMeta {
    pub is_symlink: bool,
    pub link_target: String,
    pub size: u64,
    pub blocks: u64,
}

/// A single scanned file's node after its metadata: on success the symlink
/// flag and target, sizes (a symlink's are its target's when followed and
/// under the scan root, and zero otherwise), the extension and a file count
/// of one; on failure unchanged. Also the message to record: the failure,
/// or a followed symlink pointing outside the scan root.
pub open spec fn file_meta_spec(
    m: NodeModel,
    meta: Result<FileMeta, String>,
    follow: bool,
    allowed: bool,
    target: Option<(u64, u64)>,
) -> (NodeModel, Option<Seq<char>>) {
    match meta {
        Err(e) => (m, Some("Cannot read file "@ + m.path + ": "@ + e@)),
        Ok(fm) => {
            let ext = extension_spec(m.name);
            if fm.is_symlink {
                let base = NodeModel { is_symlink: true, symlink_target: fm.link_target@, extension: ext, file_count: 1, ..m };
                if follow && !allowed {
                    (NodeModel { size: 0, allocated: 0, ..base }, Some("Skipping symlink target outside scan root: "@ + m.path))
                } else if follow {
                    match target {
                        Some((s, b)) => (NodeModel { size: s, allocated: vstd::wrapping::u64_specs::wrapping_mul(b, 512), ..base }, None),
                        None => (NodeModel { size: 0, allocated: 0, ..base }, None),
                    }
                } else {
                    (NodeModel { size: 0, allocated: 0, ..base }, None)
                }
            } else {
                (NodeModel {
                    is_symlink: false,
                    size: fm.size,
                    allocated: vstd::wrapping::u64_specs::wrapping_mul(fm.blocks, 512),
                    extension: ext,
                    file_count: 1,
                    ..m
                }, None)
            }
        },
    }
}

/// Applies a scanned file's metadata (see `file_meta_spec`); returns the
/// message to record, if any.
pub fn apply_file_meta(
    node: &mut ScanNode,
    meta: Result<FileMeta, String>,
    follow_symlinks: bool,
    allowed: bool,
    target: Option<(u64, u64)>,
) -> (r: Option<String>)
    ensures
        (final(node).model(), match r { Some(s) => Some(s@), None => None })
            == file_meta_spec(old(node).model(), meta, follow_symlinks, allowed, target),
{
    match meta {
        Err(e) => {
            let mut s = "Cannot read file ".to_owned();
            push_str(&mut s, node.path.as_str());
            push_str(&mut s, ": ");
            push_str(&mut s, e.as_str());
            Some(s)
        },
        Ok(fm) => {
            let mut msg: Option<String> = None;
            node.is_symlink = fm.is_symlink;
            if fm.is_symlink {
                node.symlink_target = fm.link_target;
                if follow_symlinks {
                    if !allowed {
                        msg = Some(prefixed("Skipping symlink target outside scan root: ", node.path.as_str()));
                        node.size = 0;
                        node.allocated = 0;
                    } else {
                        match target {
                            Some((s, b)) => {
                                node.size = s;
                                node.allocated = b.wrapping_mul(512);
                            },
                            None => {
                                node.size = 0;
                                node.allocated = 0;
                            },
                        }
                    }
                } else {
                    node.size = 0;
                    node.allocated = 0;
                }
            } else {
                node.size = fm.size;
                node.allocated = fm.blocks.wrapping_mul(512);
            }
            node.extension = get_file_extension(node.name.as_str());
            node.file_count = 1;
            msg
        },
    }
}

} // verus!
