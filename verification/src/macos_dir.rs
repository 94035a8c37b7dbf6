//! Directory listings: the records of the macOS bulk attribute call, and
//! the entry built for each listed file.
//!
//! The call itself (and the portable `read_dir` listing) is file-system
//! work done by the caller; this module reads the bytes it returns.

use vstd::prelude::*;
use vstd::utf8::{decode_utf8, valid_utf8};
use crate::paths::{join_path, join_spec};
use crate::text::{chars_of, string_of};

verus! {

/// One directory entry with the sizes the listing gave.
#[derive(Debug, Clone)]
pub struct BulkEntry {
    pub name: String,
    pub path: String,
    pub is_dir: bool,
    pub is_symlink: bool,
    pub size: u64,
    pub allocated: u64,
}

/// An entry as a value: name, path, kind flags and sizes.
pub open spec fn entry_view(e: BulkEntry) -> (Seq<char>, Seq<char>, bool, bool, u64, u64) {
    (e.name@, e.path@, e.is_dir, e.is_symlink, e.size, e.allocated)
}

/// The values of a list of entries.
pub open spec fn entries_view(v: Seq<BulkEntry>) -> Seq<(Seq<char>, Seq<char>, bool, bool, u64, u64)> {
    v.map_values(|e: BulkEntry| entry_view(e))
}

/// Text from UTF-8 bytes.
///
/// Trusted: calls `std::str::from_utf8`, which std documents as succeeding
/// exactly on valid UTF-8; the text then decodes those bytes.
#[verifier::external_body]
fn utf8_text(bytes: &[u8]) -> (r: Option<String>)
    ensures
        match r {
            Some(s) => valid_utf8(bytes@) && s@ == decode_utf8(bytes@),
            None => !valid_utf8(bytes@),
        },
{
    std::str::from_utf8(bytes).ok().map(|s| s.to_string())
}

/// The little-endian 32-bit number at `at`.
pub open spec fn le32(b: Seq<u8>, at: int) -> nat {
    (b[at] + 256 * b[at + 1] + 65536 * b[at + 2] + 16777216 * b[at + 3]) as nat
}

/// The little-endian 64-bit number at `at`.
pub open spec fn le64(b: Seq<u8>, at: int) -> nat {
    le32(b, at) + 4294967296 * le32(b, at + 4)
}

/// `pos` rounded up to a multiple of `a`.
pub open spec fn align_up(pos: nat, a: nat) -> nat {
    ((pos + a - 1) / (a as int) * a) as nat
}

/// Vnode type codes of the bulk call.
pub open spec fn vnode_dir() -> nat { 1 }

/// Vnode type code of a symbolic link.
pub open spec fn vnode_link() -> nat { 3 }

/// An entry from a listing: directories carry no sizes.
pub open spec fn make_entry(parent: Seq<char>, name: Seq<char>, is_dir: bool, is_symlink: bool, size: u64, allocated: u64)
    -> (Seq<char>, Seq<char>, bool, bool, u64, u64)
{
    (name, join_spec(parent, name), is_dir, is_symlink, if is_dir { 0 } else { size }, if is_dir { 0 } else { allocated })
}

/// One record of the bulk call, read as the scanner reads it: a 4-byte
/// length, then a 4-byte name length and that many name bytes, the object
/// type (4 bytes, aligned to 4), the permissions (4 bytes, skipped), then the
/// data length and the allocated size (8 bytes each, aligned to 8, each 0
/// when it does not fit). `None` when the name or the type does not fit, or
/// the name is not UTF-8.
pub open spec fn record_spec(parent: Seq<char>, rec: Seq<u8>) -> Option<(Seq<char>, Seq<char>, bool, bool, u64, u64)> {
    let len = rec.len();
    if 8 > len {
        None
    } else {
        let name_len = le32(rec, 4);
        if 8 + name_len > len {
            None
        } else {
            let name_bytes = rec.subrange(8, 8 + name_len as int);
            let p2 = align_up(8 + name_len, 4);
            if p2 + 4 > len {
                None
            } else {
                let objtype = le32(rec, p2 as int);
                let p4 = align_up(align_up(p2 + 4, 4) + 4, 8);
                let size: nat = if p4 + 8 <= len { le64(rec, p4 as int) } else { 0 };
                let p5: nat = if p4 + 8 <= len { p4 + 8 } else { p4 };
                let p6 = align_up(p5, 8);
                let alloc: nat = if p6 + 8 <= len { le64(rec, p6 as int) } else { 0 };
                if valid_utf8(name_bytes) {
                    Some(make_entry(parent, decode_utf8(name_bytes), objtype == vnode_dir(), objtype == vnode_link(),
                        size as u64, alloc as u64))
                } else {
                    None
                }
            }
        }
    }
}

fn le32_exec(b: &[u8], at: usize) -> (r: u64)
    requires
        at + 4 <= b@.len(),
    ensures
        r == le32(b@, at as int),
{
    (b[at] as u64) + 256 * (b[at + 1] as u64) + 65536 * (b[at + 2] as u64) + 16777216 * (b[at + 3] as u64)
}

fn le64_exec(b: &[u8], at: usize) -> (r: u64)
    requires
        at + 8 <= b@.len(),
        b@.len() <= isize::MAX,
    ensures
        r == le64(b@, at as int),
{
    let lo = le32_exec(b, at);
    let hi = le32_exec(b, at + 4);
    assert(hi < 4294967296);
    assert(lo + 4294967296 * hi <= u64::MAX) by (nonlinear_arith)
        requires lo < 4294967296, hi < 4294967296;
    lo + 4294967296 * hi
}

fn align_up_exec(pos: usize, a: usize) -> (r: usize)
    requires
        a >= 1,
        pos + a <= usize::MAX,
    ensures
        r == align_up(pos as nat, a as nat),
        r >= pos,
        r < pos + a,
{
    let q = (pos + a - 1) / a;
    assert(q * a <= pos + a - 1 && q * a >= pos) by (nonlinear_arith)
        requires a >= 1, q == (pos + a - 1) / (a as int);
    q * a
}

/// Reads one bulk record (see `record_spec`).
pub fn parse_record(parent: &str, rec: &[u8]) -> (r: Option<BulkEntry>)
    requires
        rec@.len() <= isize::MAX,
    ensures
        match r {
            Some(e) => record_spec(parent@, rec@) == Some(entry_view(e)),
            None => record_spec(parent@, rec@) is None,
        },
{
    let len = rec.len();
    if 8 > len {
        return None;
    }
    let name_len = le32_exec(rec, 4) as usize;
    if name_len > len - 8 {
        return None;
    }
    let name_bytes = vstd::slice::slice_subrange(rec, 8, 8 + name_len);
    let name = utf8_text(name_bytes);
    let p2 = align_up_exec(8 + name_len, 4);
    if p2 > len || len - p2 < 4 {
        return None;
    }
    let objtype = le32_exec(rec, p2);
    let p3 = align_up_exec(p2 + 4, 4) + 4;
    let p4 = align_up_exec(p3, 8);
    let fits_size = p4 <= len && len - p4 >= 8;
    let size: u64 = if fits_size { le64_exec(rec, p4) } else { 0 };
    let p5: usize = if fits_size { p4 + 8 } else { p4 };
    let p6 = align_up_exec(p5, 8);
    let alloc: u64 = if p6 <= len && len - p6 >= 8 { le64_exec(rec, p6) } else { 0 };
    match name {
        Some(n) => {
            let is_dir = objtype == 1;
            let is_symlink = objtype == 3;
            let path = join_path(parent, n.as_str());
            Some(BulkEntry {
                name: n,
                path,
                is_dir,
                is_symlink,
                size: if is_dir { 0 } else { size },
                allocated: if is_dir { 0 } else { alloc },
            })
        },
        None => None,
    }
}

} // verus!

verus! {

/// The entries of one bulk-call buffer holding `count` records from
/// `offset` on: records are read in order while one's 4-byte length fits, is
/// at least 4 and stays inside the buffer; records that do not parse and the
/// `.` and `..` entries are skipped.
pub open spec fn bulk_spec(parent: Seq<char>, buf: Seq<u8>, count: nat, offset: nat)
    -> Seq<(Seq<char>, Seq<char>, bool, bool, u64, u64)>
    decreases count,
{
    if count == 0 || offset + 4 > buf.len() {
        Seq::empty()
    } else {
        let rl = le32(buf, offset as int);
        if rl < 4 || offset + rl > buf.len() {
            Seq::empty()
        } else {
            let rest = bulk_spec(parent, buf, (count - 1) as nat, offset + rl);
            match record_spec(parent, buf.subrange(offset as int, (offset + rl) as int)) {
                Some(e) => if e.0 != "."@ && e.0 != ".."@ { seq![e] + rest } else { rest },
                None => rest,
            }
        }
    }
}

/// Reads the records of one bulk-call buffer (see `bulk_spec`).
pub fn parse_bulk_buffer(parent: &str, buf: &[u8], count: usize) -> (r: Vec<BulkEntry>)
    requires
        buf@.len() <= isize::MAX,
    ensures
        entries_view(r@) == bulk_spec(parent@, buf@, count as nat, 0),
{
    let mut out: Vec<BulkEntry> = Vec::new();
    let mut offset: usize = 0;
    let mut k: usize = 0;
    let mut stop = false;
    let ghost total = bulk_spec(parent@, buf@, count as nat, 0);
    assert(entries_view(out@) =~= Seq::<(Seq<char>, Seq<char>, bool, bool, u64, u64)>::empty());
    while k < count && !stop
        invariant
            buf@.len() <= isize::MAX,
            k <= count,
            offset <= buf@.len(),
            total == entries_view(out@) + bulk_spec(parent@, buf@, (count - k) as nat, offset as nat),
            stop ==> bulk_spec(parent@, buf@, (count - k) as nat, offset as nat).len() == 0,
        decreases count - k, if stop { 0int } else { 1int },
    {
        if buf.len() - offset < 4 {
            stop = true;
            assert(bulk_spec(parent@, buf@, (count - k) as nat, offset as nat).len() == 0);
        } else {
            let rl = le32_exec(buf, offset) as usize;
            if rl < 4 || rl > buf.len() - offset {
                stop = true;
                assert(bulk_spec(parent@, buf@, (count - k) as nat, offset as nat).len() == 0);
            } else {
                let rec = vstd::slice::slice_subrange(buf, offset, offset + rl);
                match parse_record(parent, rec) {
                    Some(e) => {
                        let nc = chars_of(e.name.as_str());
                        let dot = nc.len() == 1 && nc[0] == '.';
                        let dotdot = nc.len() == 2 && nc[0] == '.' && nc[1] == '.';
                        proof {
                            reveal_strlit(".");
                            reveal_strlit("..");
                            if e.name@ == "."@ { assert(nc@[0] == '.'); }
                            if dot { assert(nc@ =~= "."@); }
                            if e.name@ == ".."@ { assert(nc@[0] == '.' && nc@[1] == '.'); }
                            if dotdot { assert(nc@ =~= ".."@); }
                        }
                        if !dot && !dotdot {
                            let ghost before = entries_view(out@);
                            out.push(e);
                            assert(entries_view(out@) =~= before.push(entry_view(e)));
                        }
                    },
                    None => {},
                }
                offset = offset + rl;
                k = k + 1;
            }
        }
    }
    proof {
        if k == count {
            assert(bulk_spec(parent@, buf@, 0, offset as nat) =~= Seq::<(Seq<char>, Seq<char>, bool, bool, u64, u64)>::empty());
        }
        assert(bulk_spec(parent@, buf@, (count - k) as nat, offset as nat) =~= Seq::<(Seq<char>, Seq<char>, bool, bool, u64, u64)>::empty());
    }
    assert(entries_view(out@) =~= total);
    out
}

/// Whether a file name is hidden (starts with a dot).
pub open spec fn is_hidden(name: Seq<char>) -> bool {
    name.len() > 0 && name[0] == '.'
}

/// The entries to list: all of them when hidden files are shown, else those
/// whose names do not start with a dot, in order.
pub open spec fn visible(es: Seq<(Seq<char>, Seq<char>, bool, bool, u64, u64)>, show_hidden: bool)
    -> Seq<(Seq<char>, Seq<char>, bool, bool, u64, u64)>
{
    if show_hidden { es } else { es.filter(|e: (Seq<char>, Seq<char>, bool, bool, u64, u64)| !is_hidden(e.0)) }
}

/// Drops hidden entries unless they are shown (see `visible`).
pub fn filter_hidden(entries: Vec<BulkEntry>, show_hidden: bool) -> (r: Vec<BulkEntry>)
    ensures
        entries_view(r@) == visible(entries_view(entries@), show_hidden),
{
    if show_hidden {
        return entries;
    }
    let ghost es = entries_view(entries@);
    let ghost pred = |e: (Seq<char>, Seq<char>, bool, bool, u64, u64)| !is_hidden(e.0);
    let mut out: Vec<BulkEntry> = Vec::new();
    assert(es.take(0).filter(pred) =~= Seq::<(Seq<char>, Seq<char>, bool, bool, u64, u64)>::empty());
    for e in it: entries.into_iter()
        invariant
            it.seq() == entries@,
            es == entries_view(entries@),
            pred == (|e: (Seq<char>, Seq<char>, bool, bool, u64, u64)| !is_hidden(e.0)),
            entries_view(out@) == es.take(it.index() as int).filter(pred),
    {
        let ghost i = it.index();
        assert(es[i as int] == entry_view(e));
        proof {
            es.take(i as int).lemma_filter_push(entry_view(e), pred);
            assert(es.take(i + 1) == es.take(i as int).push(entry_view(e)));
        }
        let nc = chars_of(e.name.as_str());
        let hidden = nc.len() > 0 && nc[0] == '.';
        if !hidden {
            let ghost before = entries_view(out@);
            out.push(e);
            assert(entries_view(out@) =~= before.push(entry_view(e)));
        }
    }
    assert(es.take(es.len() as int) == es);
    out
}

/// The entry for one file of a portable `read_dir` listing: a symlink is
/// never a directory; a directory carries no sizes; a file carries its size
/// and 512-byte blocks (both zero when its metadata could not be read).
pub fn listing_entry(name: String, path: String, is_symlink: bool, type_is_dir: bool, meta: Option<(u64, u64)>) -> (r: BulkEntry)
    ensures
        r.name@ == name@,
        r.path@ == path@,
        r.is_symlink == is_symlink,
        r.is_dir == (!is_symlink && type_is_dir),
        (r.size, r.allocated) == if r.is_dir { (0u64, 0u64) } else {
            match meta {
                Some((size, blocks)) => (size, vstd::wrapping::u64_specs::wrapping_mul(blocks, 512)),
                None => (0u64, 0u64),
            }
        },
{
    let is_dir = if is_symlink { false } else { type_is_dir };
    let (size, allocated) = if is_dir {
        (0, 0)
    } else {
        match meta {
            Some((s, b)) => (s, b.wrapping_mul(512)),
            None => (0, 0),
        }
    };
    BulkEntry { name, path, is_dir, is_symlink, size, allocated }
}

} // verus!
