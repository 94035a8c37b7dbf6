//! Scan reports: the text and CSV exports, and the checks that warn about
//! sensitive paths.

use vstd::prelude::*;
use crate::models::{
    descendants_of, lemma_models_of_index, lemma_models_of_len, lemma_models_of_push, models_of,
    ref_models, NodeModel, ScanNode,
};
use crate::paths::{
    absolute_spec, components, comps_under, expand_user_path, file_name, file_name_of, join_comps,
    path_components, path_under, PathEnv, cv,
};
use crate::text::{chars_of, contains_chars, contains_seq, is_prefix_of, push_char, push_str, starts_with_chars, strs};

verus! {

/// Path fragments that mark protected macOS locations.
pub open spec fn sensitive_markers() -> Seq<Seq<char>> {
    seq![
        "/Library/Mail"@,
        "/Library/Safari"@,
        "/Library/Application Support/com.apple.TCC"@,
        "/Library/Containers/"@
    ]
}

/// Paths below the home directory that hold secrets.
pub open spec fn sensitive_home_segments() -> Seq<Seq<char>> {
    seq![".ssh"@, ".gnupg"@, ".aws"@, ".config/gcloud"@, "authorized_keys"@, ".netrc"@, ".docker"@]
}

/// The markers (see `sensitive_markers`).
pub fn sensitive_path_markers() -> (r: Vec<&'static str>)
    ensures
        r@.map_values(|s: &'static str| s@) == sensitive_markers(),
{
    let r = vec!["/Library/Mail", "/Library/Safari", "/Library/Application Support/com.apple.TCC", "/Library/Containers/"];
    assert(r@.map_values(|s: &'static str| s@) =~= sensitive_markers());
    r
}

/// The home segments (see `sensitive_home_segments`).
pub fn sensitive_home_segment_list() -> (r: Vec<&'static str>)
    ensures
        r@.map_values(|s: &'static str| s@) == sensitive_home_segments(),
{
    let r = vec![".ssh", ".gnupg", ".aws", ".config/gcloud", "authorized_keys", ".netrc", ".docker"];
    assert(r@.map_values(|s: &'static str| s@) =~= sensitive_home_segments());
    r
}

/// Whether a path contains one of the markers.
pub open spec fn has_marker(p: Seq<char>) -> bool {
    exists|i: int| 0 <= i < sensitive_markers().len() && contains_seq(p, #[trigger] sensitive_markers()[i])
}

/// Whether a descendant's path is sensitive: a marker, or both `/Library/`
/// and `/Containers/`.
pub open spec fn sensitive_node_path(p: Seq<char>) -> bool {
    has_marker(p) || (contains_seq(p, "/Library/"@) && contains_seq(p, "/Containers/"@))
}

/// Whether a scan tree touches protected locations: some descendant's path
/// is sensitive, or the root's path holds a marker.
pub open spec fn has_sensitive_spec(m: NodeModel) -> bool {
    (exists|i: int| 0 <= i < descendants_of(m).len() && sensitive_node_path(#[trigger] descendants_of(m)[i].path))
        || has_marker(m.path)
}

fn has_marker_exec(p: &Vec<char>) -> (r: bool)
    ensures
        r == has_marker(p@),
{
    let ms = sensitive_path_markers();
    for i in 0..ms.len()
        invariant
            ms@.map_values(|s: &'static str| s@) == sensitive_markers(),
            forall|j: int| 0 <= j < i ==> !contains_seq(p@, #[trigger] sensitive_markers()[j]),
    {
        assert(sensitive_markers()[i as int] == ms@[i as int]@);
        if contains_chars(p, &chars_of(ms[i])) {
            return true;
        }
    }
    false
}

/// Whether the scan tree touches protected locations (see
/// `has_sensitive_spec`).
pub fn has_sensitive_paths(root: &ScanNode) -> (r: bool)
    ensures
        r == has_sensitive_spec(root.model()),
{
    let all = root.iter_descendants();
    let ghost ds = descendants_of(root.model());
    for i in 0..all.len()
        invariant
            ref_models(all@) == ds,
            ds == descendants_of(root.model()),
            forall|j: int| 0 <= j < i ==> !sensitive_node_path(#[trigger] ds[j].path),
    {
        let p = chars_of(all[i].path.as_str());
        assert(ds[i as int] == all@[i as int].model());
        if has_marker_exec(&p) {
            assert(sensitive_node_path(descendants_of(root.model())[i as int].path));
            return true;
        }
        if contains_chars(&p, &chars_of("/Library/")) && contains_chars(&p, &chars_of("/Containers/")) {
            assert(sensitive_node_path(descendants_of(root.model())[i as int].path));
            return true;
        }
    }
    has_marker_exec(&chars_of(root.path.as_str()))
}

/// The warning shown before exporting a tree that touches protected
/// locations.
pub open spec fn warning_text() -> Seq<char> {
    "This export may contain sensitive paths, owners, and timestamps from protected macOS locations. Share exports carefully."@
}

/// The export warning, when the tree touches protected locations.
pub fn export_warning(root: &ScanNode) -> (r: Option<String>)
    ensures
        match r {
            Some(w) => has_sensitive_spec(root.model()) && w@ == warning_text(),
            None => !has_sensitive_spec(root.model()),
        },
{
    if has_sensitive_paths(root) {
        Some("This export may contain sensitive paths, owners, and timestamps from protected macOS locations. Share exports carefully.".to_owned())
    } else {
        None
    }
}

/// Whether exporting to `path` writes into a secret-holding place under the
/// home directory: the path (with `~` expanded and made absolute) lies under
/// the home directory, and either its part below home is one of the secret
/// segments or lies under one, or its file name starts with a dot.
pub open spec fn sensitive_export_spec(path: Seq<char>, home: Seq<char>, cwd: Seq<char>) -> bool {
    let e = absolute_spec(path, home, cwd);
    let ec = path_components(e);
    let hc = path_components(home);
    if path_under(ec, hc) {
        let rel = join_comps(ec.skip(hc.len() as int));
        (exists|i: int| 0 <= i < sensitive_home_segments().len() && (rel == #[trigger] sensitive_home_segments()[i]
            || is_prefix_of(sensitive_home_segments()[i].push('/'), rel)))
            || (match file_name_of(e) { Some(n) => n.len() > 0 && n[0] == '.', None => false })
    } else {
        false
    }
}

/// Whether an export target is a sensitive place (see
/// `sensitive_export_spec`); `env.home` is the home directory (`/` when
/// unknown).
pub fn is_sensitive_export_path(path: &str, env: &PathEnv) -> (r: bool)
    ensures
        r == sensitive_export_spec(path@, env.home@, env.cwd@),
{
    let e = expand_user_path(path, env);
    let ec = components(e.as_str());
    let hc = components(env.home.as_str());
    if !comps_under(&ec, &hc) {
        return false;
    }
    let mut rel = String::new();
    let ghost rs = cv(ec@).skip(hc@.len() as int);
    assert(rs.take(0) =~= Seq::<Seq<char>>::empty());
    for i in hc.len()..ec.len()
        invariant
            hc@.len() <= ec@.len(),
            rs == cv(ec@).skip(hc@.len() as int),
            rel@ == join_comps(rs.take(i - hc@.len())),
    {
        let k = i - hc.len();
        let ghost t = rs.take(k + 1);
        assert(t.drop_last() == rs.take(k as int));
        assert(t.last() == ec@[i as int]@);
        if k > 0 {
            push_char(&mut rel, '/');
        }
        let c = &ec[i];
        crate::text::push_chars(&mut rel, c);
        proof {
            if k == 0 {
                assert(t =~= seq![ec@[i as int]@]);
            }
        }
        assert(rel@ =~= join_comps(t));
    }
    assert(rs.take(ec@.len() - hc@.len()) == rs);
    let relc = chars_of(rel.as_str());
    assert(cv(hc@).len() == hc@.len());
    assert(rs == path_components(absolute_spec(path@, env.home@, env.cwd@)).skip(path_components(env.home@).len() as int));
    let segs = sensitive_home_segment_list();
    for i in 0..segs.len()
        invariant
            segs@.map_values(|s: &'static str| s@) == sensitive_home_segments(),
            relc@ == join_comps(rs),
            rs == path_components(absolute_spec(path@, env.home@, env.cwd@)).skip(path_components(env.home@).len() as int),
            path_under(path_components(absolute_spec(path@, env.home@, env.cwd@)), path_components(env.home@)),
            forall|j: int| 0 <= j < i ==> !(relc@ == #[trigger] sensitive_home_segments()[j]
                || is_prefix_of(sensitive_home_segments()[j].push('/'), relc@)),
    {
        let sc = chars_of(segs[i]);
        assert(sc@ == sensitive_home_segments()[i as int]);
        let mut slash = sc.clone();
        slash.push('/');
        assert(slash@ == sensitive_home_segments()[i as int].push('/'));
        if crate::text::chars_eq(&relc, &sc) || starts_with_chars(&relc, &slash) {
            assert(relc@ == sensitive_home_segments()[i as int]
                || is_prefix_of(sensitive_home_segments()[i as int].push('/'), relc@));
            return true;
        }
    }
    match file_name(e.as_str()) {
        Some(n) => n.len() > 0 && n[0] == '.',
        None => false,
    }
}

/// `s` as a CSV field: quoted (with quotes doubled) when it holds a comma,
/// a quote or a newline.
pub open spec fn csv_field(s: Seq<char>) -> Seq<char> {
    if s.contains(',') || s.contains('"') || s.contains('\n') {
        seq!['"'] + s.map_values(|c: char| if c == '"' { seq!['"', '"'] } else { seq![c] }).flatten() + seq!['"']
    } else {
        s
    }
}

/// Escapes a CSV field (see `csv_field`).
pub fn csv_escape(s: &str) -> (r: String)
    ensures
        r@ == csv_field(s@),
{
    let c = chars_of(s);
    let mut special = false;
    for i in 0..c.len()
        invariant
            special == (c@.take(i as int).contains(',') || c@.take(i as int).contains('"') || c@.take(i as int).contains('\n')),
    {
        let ghost t = c@.take(i + 1);
        assert(t == c@.take(i as int).push(c@[i as int]));
        assert(forall|x: char| t.contains(x) == (c@.take(i as int).contains(x) || c@[i as int] == x)) by {
            assert forall|x: char| t.contains(x) == (c@.take(i as int).contains(x) || c@[i as int] == x) by {
                if t.contains(x) {
                    let k = choose|k: int| 0 <= k < t.len() && t[k] == x;
                    if k < i {
                        assert(c@.take(i as int)[k] == x);
                    }
                }
                if c@.take(i as int).contains(x) {
                    let k = choose|k: int| 0 <= k < i && c@.take(i as int)[k] == x;
                    assert(t[k] == x);
                }
                if c@[i as int] == x {
                    assert(t[i as int] == x);
                }
            }
        }
        if c[i] == ',' || c[i] == '"' || c[i] == '\n' {
            special = true;
        }
    }
    assert(c@.take(c@.len() as int) == c@);
    if !special {
        return s.to_owned();
    }
    let mut out = String::new();
    push_char(&mut out, '"');
    let ghost q = |x: char| if x == '"' { seq!['"', '"'] } else { seq![x] };
    assert(c@.take(0).map_values(q).flatten() =~= Seq::<char>::empty());
    for i in 0..c.len()
        invariant
            q == (|x: char| if x == '"' { seq!['"', '"'] } else { seq![x] }),
            out@ == seq!['"'] + c@.take(i as int).map_values(q).flatten(),
    {
        let ghost before = c@.take(i as int).map_values(q);
        assert(c@.take(i + 1).map_values(q) =~= before.push(q(c@[i as int])));
        proof {
            before.lemma_flatten_push(q(c@[i as int]));
        }
        if c[i] == '"' {
            push_char(&mut out, '"');
            push_char(&mut out, '"');
        } else {
            push_char(&mut out, c[i]);
        }
        assert(out@ =~= seq!['"'] + c@.take(i + 1).map_values(q).flatten());
    }
    assert(c@.take(c@.len() as int) == c@);
    push_char(&mut out, '"');
    out
}

} // verus!

verus! {

use crate::scan_cache::{extension_spec, get_file_extension};
use crate::paths::{rel_text, relative_text};
use crate::scanner::{format_bytes, format_bytes_spec};
use crate::text::{decimal, push_decimal_wide};

/// The report format for a requested one: `auto` picks CSV for a path whose
/// extension is `csv` (case kept), else text; any other request stands.
pub open spec fn report_format_spec(fmt: Seq<char>, path: Seq<char>) -> Seq<char> {
    if fmt == "auto"@ {
        if crate::scan_cache::path_extension_of(path) == Some("csv"@) { "csv"@ } else { "text"@ }
    } else {
        fmt
    }
}

/// Chooses the report format (see `report_format_spec`).
pub fn report_format(fmt: &str, path: &str) -> (r: String)
    ensures
        r@ == report_format_spec(fmt@, path@),
{
    if crate::text::chars_eq(&chars_of(fmt), &chars_of("auto")) {
        let is_csv = match crate::scan_cache::extension_of_path(path) {
            Some(e) => crate::text::chars_eq(&e, &chars_of("csv")),
            None => false,
        };
        if is_csv { "csv".to_owned() } else { "text".to_owned() }
    } else {
        fmt.to_owned()
    }
}

/// The UTC date and time of `secs` seconds since the epoch as
/// `%Y-%m-%dT%H:%M:%S`, or empty when out of range (as chrono formats it).
pub uninterp spec fn utc_timestamp(secs: i64) -> Seq<char>;

/// Formats a UTC timestamp.
///
/// Trusted: calls `chrono::DateTime::from_timestamp` and formats the result
/// with `%Y-%m-%dT%H:%M:%S` (empty when out of range); the contract only
/// names the text, a function of `secs` alone.
#[verifier::external_body]
fn utc_timestamp_text(secs: i64) -> (r: String)
    ensures
        r@ == utc_timestamp(secs),
{
    chrono::DateTime::from_timestamp(secs, 0).map(|dt| dt.format("%Y-%m-%dT%H:%M:%S").to_string()).unwrap_or_default()
}

/// The local date and time now, as `%Y-%m-%dT%H:%M:%S`.
///
/// Trusted: calls `chrono::Local::now` and formats it; the value depends on
/// the clock and the time zone, so nothing is promised of it.
#[verifier::external_body]
fn local_now_text() -> String {
    chrono::Local::now().format("%Y-%m-%dT%H:%M:%S").to_string()
}

/// The exported nodes: `m`, then, depth first, each child that is not
/// listed in `outside` with its own exported nodes (a listed child's whole
/// subtree is left out).
pub open spec fn xpre(m: NodeModel, outside: Seq<Seq<char>>) -> Seq<NodeModel>
    decreases m,
{
    seq![m] + xpre_list(m.children, outside)
}

/// `xpre` over a list of children, skipping those listed in `outside`.
pub open spec fn xpre_list(cs: Seq<NodeModel>, outside: Seq<Seq<char>>) -> Seq<NodeModel>
    decreases cs,
{
    if cs.len() == 0 {
        Seq::empty()
    } else {
        xpre_list(cs.drop_last(), outside) + if outside.contains(cs.last().path) {
            Seq::<NodeModel>::empty()
        } else {
            xpre(cs.last(), outside)
        }
    }
}

fn listed(outside: &Vec<String>, p: &str) -> (r: bool)
    ensures
        r == strs(outside@).contains(p@),
{
    let pc = chars_of(p);
    for i in 0..outside.len()
        invariant
            pc@ == p@,
            forall|j: int| 0 <= j < i ==> strs(outside@)[j] != p@,
    {
        if crate::text::chars_eq(&chars_of(outside[i].as_str()), &pc) {
            assert(strs(outside@)[i as int] == p@);
            return true;
        }
    }
    false
}

fn collect_export<'a>(node: &'a ScanNode, outside: &Vec<String>, out: &mut Vec<&'a ScanNode>)
    ensures
        ref_models(final(out)@) == ref_models(old(out)@) + xpre(node.model(), strs(outside@)),
    decreases node,
{
    let ghost o = strs(outside@);
    let ghost start = ref_models(out@);
    out.push(node);
    assert(ref_models(out@) =~= start + seq![node.model()]);
    let n = node.children.len();
    proof {
        lemma_models_of_len(node.children@);
        assert(models_of(node.children@.take(0)) =~= Seq::<NodeModel>::empty());
    }
    for i in 0..n
        invariant
            n == node.children@.len(),
            o == strs(outside@),
            ref_models(out@) == start + seq![node.model()] + xpre_list(models_of(node.children@.take(i as int)), o),
    {
        assert(decreases_to!(node => node.children));
        let ghost pre_i = node.children@.take(i as int);
        proof {
            assert(node.children@.take(i + 1) == pre_i.push(node.children@[i as int]));
            lemma_models_of_push(pre_i, node.children@[i as int]);
        }
        let ghost ms = models_of(node.children@.take(i + 1));
        assert(ms.drop_last() == models_of(pre_i));
        assert(ms.last() == node.children@[i as int].model());
        let ghost before = ref_models(out@);
        if !listed(outside, node.children[i].path.as_str()) {
            collect_export(&node.children[i], outside, out);
        }
        assert(ref_models(out@) =~= start + seq![node.model()] + xpre_list(ms, o));
    }
    assert(node.children@.take(n as int) == node.children@);
    assert(ref_models(out@) =~= start + xpre(node.model(), o));
}

/// The scan root the export is relative to: the given one, or the tree's
/// root path when none is given.
pub open spec fn effective_root(root: NodeModel, scan_root: Seq<char>) -> Seq<char> {
    if scan_root.len() == 0 { root.path } else { scan_root }
}

/// The paths to leave out: those given, unless there is no scan root at all.
pub open spec fn effective_outside(root: NodeModel, scan_root: Seq<char>, outside: Seq<Seq<char>>) -> Seq<Seq<char>> {
    if effective_root(root, scan_root).len() == 0 { Seq::empty() } else { outside }
}

/// One CSV row for a node: its path (below the scan root when redacted, or
/// the whole path when it is not below), name, kind, sizes, share of its
/// parent as the report computes it without a parent (100 for a non-empty
/// node, else 0), counts, owner (none when redacted), extension (derived
/// from the name for a file without one), modification time (UTC, empty
/// when unknown) and whether it is a symlink.
pub open spec fn csv_row(m: NodeModel, root_path: Seq<char>, redact: bool) -> Seq<char> {
    csv_head(m, root_path, redact) + csv_nums(m) + csv_tail(m, redact)
}

/// The path a CSV row shows: below the scan root when redacted (the whole
/// path when it is not below it), else the whole path.
pub open spec fn csv_path_text(m: NodeModel, root_path: Seq<char>, redact: bool) -> Seq<char> {
    if redact {
        match rel_text(m.path, root_path) { Some(t) => t, None => m.path }
    } else {
        m.path
    }
}

/// Path, name and kind, each followed by a comma.
pub open spec fn csv_head(m: NodeModel, root_path: Seq<char>, redact: bool) -> Seq<char> {
    let pathv = csv_path_text(m, root_path, redact);
    csv_field(pathv) + seq![','] + csv_field(m.name) + seq![','] + (if m.is_dir { "directory"@ } else { "file"@ })
        + seq![',']
}

/// Sizes, share and counts, each followed by a comma.
pub open spec fn csv_nums(m: NodeModel) -> Seq<char> {
    decimal(m.size as nat) + seq![','] + decimal(m.allocated as nat) + seq![',']
        + (if m.size > 0 { "100.00"@ } else { "0.00"@ }) + seq![','] + decimal(m.file_count as nat) + seq![',']
        + decimal(m.folder_count as nat) + seq![',']
}

/// Owner, extension, time and the symlink flag, then the line end.
pub open spec fn csv_tail(m: NodeModel, redact: bool) -> Seq<char> {
    let owner = if redact { Seq::<char>::empty() } else { m.owner };
    let ext = if m.extension.len() == 0 && !m.is_dir { extension_spec(m.name) } else { m.extension };
    let mt = if m.mtime > 0 { utc_timestamp(m.mtime) } else { Seq::<char>::empty() };
    csv_field(owner) + seq![','] + csv_field(ext) + seq![','] + mt + seq![','] + (if m.is_symlink { "true"@ } else { "false"@ })
        + seq!['\n']
}

/// The CSV header line.
pub open spec fn csv_header() -> Seq<char> {
    "path,name,type,size,allocated,percent_of_parent,file_count,folder_count,owner,extension,mtime,is_symlink\n"@
}

/// The rows of a list of nodes, concatenated.
pub open spec fn csv_rows(ns: Seq<NodeModel>, root_path: Seq<char>, redact: bool) -> Seq<char>
    decreases ns.len(),
{
    if ns.len() == 0 { Seq::empty() } else { csv_rows(ns.drop_last(), root_path, redact) + csv_row(ns.last(), root_path, redact) }
}

fn csv_head_exec(node: &ScanNode, root_path: &str, redact: bool) -> (r: String)
    ensures
        r@ == csv_head(node.model(), root_path@, redact),
{
    let pathv = if redact {
        match relative_text(node.path.as_str(), root_path) {
            Some(t) => t,
            None => node.path.clone(),
        }
    } else {
        node.path.clone()
    };
    let mut s = csv_escape(pathv.as_str());
    push_char(&mut s, ',');
    let nm = csv_escape(node.name.as_str());
    push_str(&mut s, nm.as_str());
    push_char(&mut s, ',');
    push_str(&mut s, if node.is_dir { "directory" } else { "file" });
    push_char(&mut s, ',');
    s
}

fn csv_nums_exec(node: &ScanNode) -> (r: String)
    ensures
        r@ == csv_nums(node.model()),
{
    let mut s = String::new();
    push_decimal_wide(&mut s, node.size as u128);
    push_char(&mut s, ',');
    push_decimal_wide(&mut s, node.allocated as u128);
    push_char(&mut s, ',');
    push_str(&mut s, if node.size > 0 { "100.00" } else { "0.00" });
    push_char(&mut s, ',');
    push_decimal_wide(&mut s, node.file_count as u128);
    push_char(&mut s, ',');
    push_decimal_wide(&mut s, node.folder_count as u128);
    push_char(&mut s, ',');
    s
}

fn csv_tail_exec(node: &ScanNode, redact: bool) -> (r: String)
    ensures
        r@ == csv_tail(node.model(), redact),
{
    let owner = if redact { String::new() } else { node.owner.clone() };
    let ext = if node.extension.as_str().is_empty() && !node.is_dir {
        get_file_extension(node.name.as_str())
    } else {
        node.extension.clone()
    };
    let mt = if node.mtime > 0 { utc_timestamp_text(node.mtime) } else { String::new() };
    let mut s = csv_escape(owner.as_str());
    push_char(&mut s, ',');
    let ex = csv_escape(ext.as_str());
    push_str(&mut s, ex.as_str());
    push_char(&mut s, ',');
    push_str(&mut s, mt.as_str());
    push_char(&mut s, ',');
    push_str(&mut s, if node.is_symlink { "true" } else { "false" });
    push_char(&mut s, '\n');
    s
}

fn csv_row_exec(node: &ScanNode, root_path: &str, redact: bool) -> (r: String)
    ensures
        r@ == csv_row(node.model(), root_path@, redact),
{
    let mut s = csv_head_exec(node, root_path, redact);
    let b = csv_nums_exec(node);
    push_str(&mut s, b.as_str());
    let c = csv_tail_exec(node, redact);
    push_str(&mut s, c.as_str());
    s
}

/// The CSV report: the header, then one row per exported node in
/// depth-first order. Nodes listed in `outside` (with their subtrees) are
/// left out: the caller lists the tree paths that, canonicalised, are not
/// under the scan root (`scan_root`, or the tree's root when empty). Owners
/// are taken from the nodes (the caller fills unread ones first).
pub fn export_csv(root: &ScanNode, scan_root: &str, redact: bool, outside: &Vec<String>) -> (r: String)
    ensures
        r@ == csv_header() + csv_rows(
            xpre(root.model(), effective_outside(root.model(), scan_root@, strs(outside@))),
            effective_root(root.model(), scan_root@), redact),
{
    let eff: String = if scan_root.is_empty() { root.path.clone() } else { scan_root.to_owned() };
    let none: Vec<String> = Vec::new();
    let skip: &Vec<String> = if eff.as_str().is_empty() { &none } else { outside };
    assert(strs(skip@) == effective_outside(root.model(), scan_root@, strs(outside@))) by {
        assert(strs(none@) =~= Seq::<Seq<char>>::empty());
    }
    let mut nodes: Vec<&ScanNode> = Vec::new();
    collect_export(root, skip, &mut nodes);
    assert(ref_models(nodes@) =~= xpre(root.model(), strs(skip@)));
    let ghost ns = ref_models(nodes@);
    let mut out = "path,name,type,size,allocated,percent_of_parent,file_count,folder_count,owner,extension,mtime,is_symlink\n".to_owned();
    assert(ns.take(0) =~= Seq::<NodeModel>::empty());
    for i in 0..nodes.len()
        invariant
            ns == ref_models(nodes@),
            out@ == csv_header() + csv_rows(ns.take(i as int), eff@, redact),
    {
        assert(ns.take(i + 1).drop_last() == ns.take(i as int));
        assert(ns.take(i + 1).last() == nodes@[i as int].model());
        let row = csv_row_exec(nodes[i], eff.as_str(), redact);
        push_str(&mut out, row.as_str());
        assert(out@ =~= csv_header() + csv_rows(ns.take(i + 1), eff@, redact));
    }
    assert(ns.take(nodes@.len() as int) == ns);
    out
}

} // verus!

verus! {

use crate::order::{SortItem, item_view, items_view, sort_indices, sorted_order};
use crate::paths::{comp_ends, component_depth, is_normal_exec, root_comp};
use crate::text::{pad_left, pad_right, push_padded_left, push_padded_right, push_repeat, repeat_char, take_chars, truncate_chars};

/// A component's sort code: a tag ordering the root before `.`, `.` before
/// `..`, and those before names, then (for a name) its characters, then a
/// NUL end mark; so comparing codes character by character compares
/// components as paths do.
pub open spec fn comp_code(c: Seq<char>) -> Seq<char> {
    if c == root_comp() {
        seq!['\u{1}', '\u{0}']
    } else if c == seq!['.'] {
        seq!['\u{2}', '\u{0}']
    } else if c == seq!['.', '.'] {
        seq!['\u{3}', '\u{0}']
    } else {
        seq!['\u{4}'] + c + seq!['\u{0}']
    }
}

/// A path's sort code: its components' codes in order.
pub open spec fn path_code(p: Seq<char>) -> Seq<char> {
    path_components(p).map_values(|c: Seq<char>| comp_code(c)).flatten()
}

/// Sort keys ordering nodes by path.
pub open spec fn path_keys(ns: Seq<NodeModel>) -> Seq<(Seq<char>, int)> {
    ns.map_values(|m: NodeModel| (path_code(m.path), 0int))
}

/// Sort keys ordering nodes by depth (components after the root).
pub open spec fn depth_keys(ns: Seq<NodeModel>) -> Seq<(Seq<char>, int)> {
    ns.map_values(|m: NodeModel| (Seq::<char>::empty(), comp_ends(m.path).len() as int))
}

/// The text report's order: by depth, and by path within a depth (a stable
/// sort by path followed by a stable sort by depth).
pub open spec fn text_order(ns: Seq<NodeModel>) -> Seq<NodeModel> {
    let l1 = sorted_order(path_keys(ns), false).map_values(|i: usize| ns[i as int]);
    sorted_order(depth_keys(l1), false).map_values(|j: usize| l1[j as int])
}

fn comp_code_exec(c: &Vec<char>, out: &mut Vec<char>)
    ensures
        final(out)@ == old(out)@ + comp_code(c@),
{
    let is_root = c.len() == 1 && c[0] == '/';
    let is_dot = c.len() == 1 && c[0] == '.';
    let is_dd = c.len() == 2 && c[0] == '.' && c[1] == '.';
    assert(is_root == (c@ == root_comp())) by {
        if c@ == root_comp() { assert(c@[0] == '/'); }
        if is_root { assert(c@ =~= root_comp()); }
    }
    assert(is_dot == (c@ == seq!['.'])) by {
        if c@ == seq!['.'] { assert(c@[0] == '.'); }
        if is_dot { assert(c@ =~= seq!['.']); }
    }
    assert(is_dd == (c@ == seq!['.', '.'])) by {
        if c@ == seq!['.', '.'] { assert(c@[0] == '.' && c@[1] == '.'); }
        if is_dd { assert(c@ =~= seq!['.', '.']); }
    }
    let ghost start = out@;
    if is_root {
        out.push('\u{1}');
    } else if is_dot {
        out.push('\u{2}');
    } else if is_dd {
        out.push('\u{3}');
    } else {
        out.push('\u{4}');
        for i in 0..c.len()
            invariant
                out@ == start + seq!['\u{4}'] + c@.take(i as int),
        {
            out.push(c[i]);
            assert(c@.take(i + 1) == c@.take(i as int).push(c@[i as int]));
        }
        assert(c@.take(c@.len() as int) == c@);
    }
    out.push('\u{0}');
    assert(out@ =~= start + comp_code(c@));
}

fn path_code_exec(p: &str) -> (r: Vec<char>)
    ensures
        r@ == path_code(p@),
{
    let cs = components(p);
    let ghost codes = cv(cs@).map_values(|c: Seq<char>| comp_code(c));
    let mut out: Vec<char> = Vec::new();
    assert(codes.take(0).flatten() =~= Seq::<char>::empty());
    for i in 0..cs.len()
        invariant
            codes == cv(cs@).map_values(|c: Seq<char>| comp_code(c)),
            out@ == codes.take(i as int).flatten(),
    {
        assert(codes.take(i + 1) =~= codes.take(i as int).push(codes[i as int]));
        proof {
            codes.take(i as int).lemma_flatten_push(codes[i as int]);
        }
        comp_code_exec(&cs[i], &mut out);
    }
    assert(codes.take(cs@.len() as int) == codes);
    out
}

/// Orders nodes for the text report (see `text_order`).
fn text_sorted<'a>(nodes: &Vec<&'a ScanNode>) -> (r: Vec<&'a ScanNode>)
    ensures
        ref_models(r@) == text_order(ref_models(nodes@)),
{
    let ghost ns = ref_models(nodes@);
    let mut k1: Vec<SortItem> = Vec::new();
    for i in 0..nodes.len()
        invariant
            ns == ref_models(nodes@),
            items_view(k1@) == path_keys(ns).take(i as int),
    {
        let code = path_code_exec(nodes[i].path.as_str());
        let item = SortItem { text: code, num: 0 };
        let ghost before = items_view(k1@);
        k1.push(item);
        assert(items_view(k1@) =~= before.push(item_view(item)));
        assert(path_keys(ns).take(i + 1) =~= path_keys(ns).take(i as int).push(path_keys(ns)[i as int]));
    }
    assert(path_keys(ns).take(nodes@.len() as int) =~= path_keys(ns));
    let p1 = sort_indices(&k1, false);
    let ghost l1 = sorted_order(path_keys(ns), false).map_values(|i: usize| ns[i as int]);
    let mut list1: Vec<&'a ScanNode> = Vec::new();
    for i in 0..p1.len()
        invariant
            ns == ref_models(nodes@),
            p1@ == sorted_order(path_keys(ns), false),
            crate::order::sorted_perm(p1@, path_keys(ns), false),
            l1 == sorted_order(path_keys(ns), false).map_values(|i: usize| ns[i as int]),
            ref_models(list1@) == l1.take(i as int),
    {
        let k = p1[i];
        let ghost before = ref_models(list1@);
        list1.push(nodes[k]);
        assert(ref_models(list1@) =~= before.push(nodes@[k as int].model()));
        assert(l1.take(i + 1) =~= l1.take(i as int).push(l1[i as int]));
    }
    assert(l1.take(p1@.len() as int) =~= l1);
    let mut k2: Vec<SortItem> = Vec::new();
    for i in 0..list1.len()
        invariant
            ref_models(list1@) == l1,
            items_view(k2@) == depth_keys(l1).take(i as int),
    {
        let d = component_depth(list1[i].path.as_str());
        let item = SortItem { text: Vec::new(), num: d as i128 };
        assert(item.text@ =~= Seq::<char>::empty());
        let ghost before = items_view(k2@);
        k2.push(item);
        assert(items_view(k2@) =~= before.push(item_view(item)));
        assert(depth_keys(l1).take(i + 1) =~= depth_keys(l1).take(i as int).push(depth_keys(l1)[i as int]));
    }
    assert(depth_keys(l1).take(list1@.len() as int) =~= depth_keys(l1));
    let p2 = sort_indices(&k2, false);
    let ghost target = text_order(ns);
    let mut out: Vec<&'a ScanNode> = Vec::new();
    for i in 0..p2.len()
        invariant
            ref_models(list1@) == l1,
            p2@ == sorted_order(depth_keys(l1), false),
            crate::order::sorted_perm(p2@, depth_keys(l1), false),
            target == sorted_order(depth_keys(l1), false).map_values(|j: usize| l1[j as int]),
            ref_models(out@) == target.take(i as int),
    {
        let k = p2[i];
        let ghost before = ref_models(out@);
        out.push(list1[k]);
        assert(ref_models(out@) =~= before.push(list1@[k as int].model()));
        assert(target.take(i + 1) =~= target.take(i as int).push(target[i as int]));
    }
    assert(target.take(p2@.len() as int) =~= target);
    out
}

} // verus!

verus! {

use crate::paths::{comps_eq};

/// Lines joined with newlines.
pub open spec fn join_lines(ls: Seq<Seq<char>>) -> Seq<char>
    decreases ls.len(),
{
    if ls.len() == 0 {
        Seq::empty()
    } else if ls.len() == 1 {
        ls[0]
    } else {
        join_lines(ls.drop_last()) + seq!['\n'] + ls.last()
    }
}

/// One text-report row: the name indented two spaces per level, then the
/// sizes, the share (100 for the root or a non-empty node, else 0) and the
/// counts in fixed columns.
pub open spec fn text_row(m: NodeModel, root_path: Seq<char>) -> Seq<char> {
    let pct = if path_components(m.path) == path_components(root_path) || m.size > 0 { "100.0"@ } else { "0.0"@ };
    repeat_char(' ', 2 * comp_ends(m.path).len()) + pad_right(take_chars(m.name, 38), 40) + seq![' ']
        + pad_left(format_bytes_spec(m.size as i64 as int), 12) + seq![' ']
        + pad_left(format_bytes_spec(m.allocated as i64 as int), 12) + seq![' '] + pad_left(pct, 6) + seq!['%', ' ']
        + pad_left(decimal(m.file_count as nat), 8) + seq![' '] + pad_left(decimal(m.folder_count as nat), 8)
}

/// The text report's column header.
pub open spec fn column_header() -> Seq<char> {
    pad_right("Name"@, 40) + seq![' '] + pad_left("Size"@, 12) + seq![' '] + pad_left("Allocated"@, 12) + seq![' ']
        + pad_left("%"@, 7) + seq![' '] + pad_left("Files"@, 8) + seq![' '] + pad_left("Folders"@, 8)
}

/// The text report's header lines.
pub open spec fn text_header(root: NodeModel, redact: bool, date: Seq<char>) -> Seq<Seq<char>> {
    seq![
        "filetree Scan Report"@,
        "Path: "@ + root.path,
        "Date: "@ + date,
        "Total size: "@ + format_bytes_spec(root.size as i64 as int),
        "Files: "@ + pad_left(decimal(root.file_count as nat), 8) + "  Folders: "@ + pad_left(decimal(root.folder_count as nat), 8)
    ] + (if redact { seq!["Mode: redacted (relative paths, no owners)"@] } else { Seq::empty() })
        + (if has_sensitive_spec(root) { seq!["Warning: "@ + warning_text()] } else { Seq::empty() })
        + seq![Seq::<char>::empty(), column_header(), repeat_char('-', 95)]
}

/// The text report: with `include_header`, the header lines (the date as
/// given), then one row per exported node in `text_order`, joined by
/// newlines.
pub open spec fn text_report(
    root: NodeModel,
    include_header: bool,
    scan_root: Seq<char>,
    redact: bool,
    outside: Seq<Seq<char>>,
    date: Seq<char>,
) -> Seq<char> {
    let rows = text_order(xpre(root, effective_outside(root, scan_root, outside)))
        .map_values(|m: NodeModel| text_row(m, root.path));
    join_lines((if include_header { text_header(root, redact, date) } else { Seq::empty() }) + rows)
}

fn text_row_exec(node: &ScanNode, root_comps: &Vec<Vec<char>>, root_path: &str) -> (r: String)
    requires
        cv(root_comps@) == path_components(root_path@),
    ensures
        r@ == text_row(node.model(), root_path@),
{
    let depth = component_depth(node.path.as_str());
    let is_root = comps_eq(&components(node.path.as_str()), root_comps);
    let pct = if is_root || node.size > 0 { "100.0" } else { "0.0" };
    let mut s = String::new();
    push_repeat(&mut s, ' ', depth);
    push_repeat(&mut s, ' ', depth);
    assert(s@ =~= repeat_char(' ', 2 * depth as nat));
    let name = truncate_chars(node.name.as_str(), 38);
    push_padded_right(&mut s, name.as_str(), 40);
    push_char(&mut s, ' ');
    let a = format_bytes(node.size as i64);
    push_padded_left(&mut s, a.as_str(), 12);
    push_char(&mut s, ' ');
    let b = format_bytes(node.allocated as i64);
    push_padded_left(&mut s, b.as_str(), 12);
    push_char(&mut s, ' ');
    push_padded_left(&mut s, pct, 6);
    push_char(&mut s, '%');
    push_char(&mut s, ' ');
    let f = crate::text::decimal_string(node.file_count);
    push_padded_left(&mut s, f.as_str(), 8);
    push_char(&mut s, ' ');
    let g = crate::text::decimal_string(node.folder_count);
    push_padded_left(&mut s, g.as_str(), 8);
    assert(s@ =~= text_row(node.model(), root_path@));
    s
}

pub(crate) fn join_lines_exec(ls: &Vec<String>) -> (r: String)
    ensures
        r@ == join_lines(strs(ls@)),
{
    let mut s = String::new();
    assert(strs(ls@).take(0) =~= Seq::<Seq<char>>::empty());
    for i in 0..ls.len()
        invariant
            s@ == join_lines(strs(ls@).take(i as int)),
    {
        let ghost t = strs(ls@).take(i + 1);
        assert(t.drop_last() == strs(ls@).take(i as int));
        assert(t.last() == ls@[i as int]@);
        if i > 0 {
            push_char(&mut s, '\n');
        }
        push_str(&mut s, ls[i].as_str());
        proof {
            if i == 0 {
                assert(t =~= seq![ls@[0]@]);
            }
        }
        assert(s@ =~= join_lines(t));
    }
    assert(strs(ls@).take(ls@.len() as int) == strs(ls@));
    s
}

fn push_line(lines: &mut Vec<String>, l: String)
    ensures
        strs(final(lines)@) == strs(old(lines)@).push(l@),
{
    let ghost before = strs(lines@);
    lines.push(l);
    assert(strs(lines@) =~= before.push(l@));
}

/// The text report with the given date (see `text_report`); `outside` and
/// owners as for `export_csv`.
pub fn export_text_dated(
    root: &ScanNode,
    include_header: bool,
    scan_root: &str,
    redact: bool,
    outside: &Vec<String>,
    date: &str,
) -> (r: String)
    ensures
        r@ == text_report(root.model(), include_header, scan_root@, redact, strs(outside@), date@),
{
    let mut lines: Vec<String> = Vec::new();
    if include_header {
        push_line(&mut lines, "filetree Scan Report".to_owned());
        let mut l = "Path: ".to_owned();
        push_str(&mut l, root.path.as_str());
        push_line(&mut lines, l);
        let mut l = "Date: ".to_owned();
        push_str(&mut l, date);
        push_line(&mut lines, l);
        let mut l = "Total size: ".to_owned();
        let fb = format_bytes(root.size as i64);
        push_str(&mut l, fb.as_str());
        push_line(&mut lines, l);
        let mut l = "Files: ".to_owned();
        let f = crate::text::decimal_string(root.file_count);
        push_padded_left(&mut l, f.as_str(), 8);
        push_str(&mut l, "  Folders: ");
        let g = crate::text::decimal_string(root.folder_count);
        push_padded_left(&mut l, g.as_str(), 8);
        push_line(&mut lines, l);
        let ghost five = strs(lines@);
        assert(five =~= seq![
            "filetree Scan Report"@,
            "Path: "@ + root.path@,
            "Date: "@ + date@,
            "Total size: "@ + format_bytes_spec(root.size as i64 as int),
            "Files: "@ + pad_left(decimal(root.file_count as nat), 8) + "  Folders: "@ + pad_left(decimal(root.folder_count as nat), 8)
        ]);
        if redact {
            push_line(&mut lines, "Mode: redacted (relative paths, no owners)".to_owned());
        }
        let ghost six = strs(lines@);
        assert(six =~= five + (if redact { seq!["Mode: redacted (relative paths, no owners)"@] } else { Seq::<Seq<char>>::empty() }));
        match export_warning(root) {
            Some(w) => {
                let mut l = "Warning: ".to_owned();
                push_str(&mut l, w.as_str());
                push_line(&mut lines, l);
            },
            None => {},
        }
        assert(strs(lines@) =~= six + (if has_sensitive_spec(root.model()) { seq!["Warning: "@ + warning_text()] } else { Seq::<Seq<char>>::empty() }));
        let ghost seven = strs(lines@);
        push_line(&mut lines, String::new());
        let mut h = String::new();
        push_padded_right(&mut h, "Name", 40);
        push_char(&mut h, ' ');
        push_padded_left(&mut h, "Size", 12);
        push_char(&mut h, ' ');
        push_padded_left(&mut h, "Allocated", 12);
        push_char(&mut h, ' ');
        push_padded_left(&mut h, "%", 7);
        push_char(&mut h, ' ');
        push_padded_left(&mut h, "Files", 8);
        push_char(&mut h, ' ');
        push_padded_left(&mut h, "Folders", 8);
        assert(h@ =~= column_header());
        push_line(&mut lines, h);
        let mut d = String::new();
        push_repeat(&mut d, '-', 95);
        assert(d@ =~= repeat_char('-', 95));
        push_line(&mut lines, d);
        assert(strs(lines@) =~= seven + seq![Seq::<char>::empty(), column_header(), repeat_char('-', 95)]);
        assert(strs(lines@) =~= text_header(root.model(), redact, date@));
    } else {
        assert(strs(lines@) =~= Seq::<Seq<char>>::empty());
    }
    let ghost head = strs(lines@);
    let eff: String = if scan_root.is_empty() { root.path.clone() } else { scan_root.to_owned() };
    let none: Vec<String> = Vec::new();
    let skip: &Vec<String> = if eff.as_str().is_empty() { &none } else { outside };
    assert(strs(skip@) == effective_outside(root.model(), scan_root@, strs(outside@))) by {
        assert(strs(none@) =~= Seq::<Seq<char>>::empty());
    }
    let mut nodes: Vec<&ScanNode> = Vec::new();
    collect_export(root, skip, &mut nodes);
    assert(ref_models(nodes@) =~= xpre(root.model(), strs(skip@)));
    let sorted = text_sorted(&nodes);
    let root_comps = components(root.path.as_str());
    let ghost rows = text_order(xpre(root.model(), strs(skip@))).map_values(|m: NodeModel| text_row(m, root.path@));
    assert(strs(lines@) =~= head + rows.take(0));
    for i in 0..sorted.len()
        invariant
            cv(root_comps@) == path_components(root.path@),
            ref_models(sorted@) == text_order(xpre(root.model(), strs(skip@))),
            rows == text_order(xpre(root.model(), strs(skip@))).map_values(|m: NodeModel| text_row(m, root.path@)),
            strs(lines@) == head + rows.take(i as int),
    {
        let row = text_row_exec(sorted[i], &root_comps, root.path.as_str());
        push_line(&mut lines, row);
        assert(rows.take(i + 1) =~= rows.take(i as int).push(rows[i as int]));
    }
    assert(rows.take(sorted@.len() as int) =~= rows);
    join_lines_exec(&lines)
}

/// The text report dated now (see `export_text_dated`); the date comes from
/// the clock, so the contract holds for some date text.
pub fn export_text(root: &ScanNode, include_header: bool, scan_root: &str, redact: bool, outside: &Vec<String>) -> (r: String)
    ensures
        exists|date: Seq<char>| r@ == text_report(root.model(), include_header, scan_root@, redact, strs(outside@), date),
{
    let date = local_now_text();
    let r = export_text_dated(root, include_header, scan_root, redact, outside, date.as_str());
    assert(r@ == text_report(root.model(), include_header, scan_root@, redact, strs(outside@), date@));
    r
}

} // verus!

verus! {

use crate::text::digit_char;

/// A line cut at every comma into its fields (no quoting).
pub open spec fn comma_fields(s: Seq<char>) -> Seq<Seq<char>>
    decreases s.len(),
{
    if s.len() == 0 {
        seq![Seq::<char>::empty()]
    } else {
        let p = comma_fields(s.drop_last());
        if s.last() == ',' { p.push(Seq::<char>::empty()) } else { p.update(p.len() - 1, p.last().push(s.last())) }
    }
}

proof fn lemma_comma_fields_len(s: Seq<char>)
    ensures
        comma_fields(s).len() >= 1,
    decreases s.len(),
{
    if s.len() > 0 {
        lemma_comma_fields_len(s.drop_last());
    }
}

/// Text with no comma is one field.
proof fn lemma_comma_fields_single(s: Seq<char>)
    requires
        forall|i: int| 0 <= i < s.len() ==> s[i] != ',',
    ensures
        comma_fields(s) == seq![s],
    decreases s.len(),
{
    if s.len() > 0 {
        let d = s.drop_last();
        assert forall|i: int| 0 <= i < d.len() implies d[i] != ',' by {
            assert(d[i] == s[i]);
        }
        lemma_comma_fields_single(d);
        assert(s.last() != ',');
        assert(d.push(s.last()) == s);
    } else {
        assert(s =~= Seq::<char>::empty());
    }
}

/// Cutting `a`, a comma and `b` gives the fields of `a` then those of `b`.
proof fn lemma_comma_fields_join(a: Seq<char>, b: Seq<char>)
    ensures
        comma_fields(a + seq![','] + b) == comma_fields(a) + comma_fields(b),
    decreases b.len(),
{
    lemma_comma_fields_len(a);
    if b.len() == 0 {
        let s = a + seq![','];
        assert(s.drop_last() == a);
        assert(a + seq![','] + b == s);
    } else {
        let s = a + seq![','] + b;
        lemma_comma_fields_join(a, b.drop_last());
        assert(s.drop_last() == a + seq![','] + b.drop_last());
        assert(s.last() == b.last());
        lemma_comma_fields_len(b.drop_last());
        let pa = comma_fields(a);
        let pb = comma_fields(b.drop_last());
        if b.last() == ',' {
            assert(comma_fields(s) =~= pa + pb.push(Seq::<char>::empty()));
        } else {
            assert(comma_fields(s) =~= pa + pb.update(pb.len() - 1, pb.last().push(b.last())));
        }
    }
}

proof fn lemma_decimal_digits(n: nat)
    ensures
        forall|i: int| 0 <= i < decimal(n).len() ==> #[trigger] decimal(n)[i] != ',',
    decreases n,
{
    if n >= 10 {
        lemma_decimal_digits(n / 10);
        let d = decimal(n / 10);
        let x = digit_char((n % 10) as nat);
        assert(decimal(n) == d.push(x));
        assert forall|i: int| 0 <= i < decimal(n).len() implies #[trigger] decimal(n)[i] != ',' by {
            if i < d.len() {
                assert(decimal(n)[i] == d[i]);
            }
        }
    }
}

/// The column names of the CSV header, in order.
pub open spec fn csv_columns() -> Seq<Seq<char>> {
    comma_fields(csv_header().drop_last())
}

/// What a numeric CSV column of a node holds, by the column's name.
pub open spec fn numeric_column(m: NodeModel, name: Seq<char>) -> Seq<char> {
    if name == "size"@ {
        decimal(m.size as nat)
    } else if name == "allocated"@ {
        decimal(m.allocated as nat)
    } else if name == "file_count"@ {
        decimal(m.file_count as nat)
    } else if name == "folder_count"@ {
        decimal(m.folder_count as nat)
    } else {
        Seq::empty()
    }
}

/// Every CSV row holds, after its path, name and type fields, the numeric
/// fields under the header's columns 4 to 8 (size, allocated,
/// percent_of_parent, file_count, folder_count): each of those fields is
/// the node's value for the column named above it, the share field is
/// `100.00` or `0.00`, and the rest of the row follows that last comma.
pub proof fn law_csv_numbers_under_their_columns(m: NodeModel, root_path: Seq<char>, redact: bool)
    ensures
        csv_columns() == seq!["path"@, "name"@, "type"@, "size"@, "allocated"@, "percent_of_parent"@, "file_count"@,
            "folder_count"@, "owner"@, "extension"@, "mtime"@, "is_symlink"@],
        csv_columns().len() == 12,
        csv_columns()[3] == "size"@,
        csv_columns()[4] == "allocated"@,
        csv_columns()[5] == "percent_of_parent"@,
        csv_columns()[6] == "file_count"@,
        csv_columns()[7] == "folder_count"@,
        csv_row(m, root_path, redact) == csv_head(m, root_path, redact) + csv_nums(m) + csv_tail(m, redact),
        comma_fields(csv_nums(m)).len() == 6,
        forall|k: int| 0 <= k < 5 && k != 2 ==> #[trigger] comma_fields(csv_nums(m))[k] == numeric_column(m, csv_columns()[3 + k]),
        comma_fields(csv_nums(m))[2] == (if m.size > 0 { "100.00"@ } else { "0.00"@ }),
        comma_fields(csv_nums(m))[5] == Seq::<char>::empty(),
{
    reveal_strlit("path,name,type,size,allocated,percent_of_parent,file_count,folder_count,owner,extension,mtime,is_symlink\n");
    reveal_strlit("path");
    reveal_strlit("name");
    reveal_strlit("type");
    reveal_strlit("size");
    reveal_strlit("allocated");
    reveal_strlit("percent_of_parent");
    reveal_strlit("file_count");
    reveal_strlit("folder_count");
    reveal_strlit("owner");
    reveal_strlit("extension");
    reveal_strlit("mtime");
    reveal_strlit("is_symlink");
    reveal_strlit("100.00");
    reveal_strlit("0.00");
    let c = seq![','];
    let names = seq!["path"@, "name"@, "type"@, "size"@, "allocated"@, "percent_of_parent"@, "file_count"@,
        "folder_count"@, "owner"@, "extension"@, "mtime"@, "is_symlink"@];
    let h = csv_header().drop_last();
    assert(h =~= "path"@ + c + ("name"@ + c + ("type"@ + c + ("size"@ + c + ("allocated"@ + c + ("percent_of_parent"@ + c
        + ("file_count"@ + c + ("folder_count"@ + c + ("owner"@ + c + ("extension"@ + c + ("mtime"@ + c + "is_symlink"@)))))))))));
    assert forall|k: int| 0 <= k < 12 implies forall|i: int| 0 <= i < (#[trigger] names[k]).len() ==> names[k][i] != ',' by {}
    lemma_comma_fields_single("is_symlink"@);
    lemma_comma_fields_single("mtime"@);
    lemma_comma_fields_single("extension"@);
    lemma_comma_fields_single("owner"@);
    lemma_comma_fields_single("folder_count"@);
    lemma_comma_fields_single("file_count"@);
    lemma_comma_fields_single("percent_of_parent"@);
    lemma_comma_fields_single("allocated"@);
    lemma_comma_fields_single("size"@);
    lemma_comma_fields_single("type"@);
    lemma_comma_fields_single("name"@);
    lemma_comma_fields_single("path"@);
    let t10 = "mtime"@ + c + "is_symlink"@;
    lemma_comma_fields_join("mtime"@, "is_symlink"@);
    let t9 = "extension"@ + c + t10;
    lemma_comma_fields_join("extension"@, t10);
    let t8 = "owner"@ + c + t9;
    lemma_comma_fields_join("owner"@, t9);
    let t7 = "folder_count"@ + c + t8;
    lemma_comma_fields_join("folder_count"@, t8);
    let t6 = "file_count"@ + c + t7;
    lemma_comma_fields_join("file_count"@, t7);
    let t5 = "percent_of_parent"@ + c + t6;
    lemma_comma_fields_join("percent_of_parent"@, t6);
    let t4 = "allocated"@ + c + t5;
    lemma_comma_fields_join("allocated"@, t5);
    let t3 = "size"@ + c + t4;
    lemma_comma_fields_join("size"@, t4);
    let t2 = "type"@ + c + t3;
    lemma_comma_fields_join("type"@, t3);
    let t1 = "name"@ + c + t2;
    lemma_comma_fields_join("name"@, t2);
    lemma_comma_fields_join("path"@, t1);
    assert(comma_fields(h) =~= names);
    // The numeric part.
    let ds = decimal(m.size as nat);
    let da = decimal(m.allocated as nat);
    let pc = if m.size > 0 { "100.00"@ } else { "0.00"@ };
    let df = decimal(m.file_count as nat);
    let dd = decimal(m.folder_count as nat);
    lemma_decimal_digits(m.size as nat);
    lemma_decimal_digits(m.allocated as nat);
    lemma_decimal_digits(m.file_count as nat);
    lemma_decimal_digits(m.folder_count as nat);
    lemma_comma_fields_single(ds);
    lemma_comma_fields_single(da);
    lemma_comma_fields_single(pc);
    lemma_comma_fields_single(df);
    lemma_comma_fields_single(dd);
    lemma_comma_fields_single(Seq::<char>::empty());
    let e = Seq::<char>::empty();
    assert(csv_nums(m) =~= ds + c + (da + c + (pc + c + (df + c + (dd + c + e)))));
    lemma_comma_fields_join(dd, e);
    lemma_comma_fields_join(df, dd + c + e);
    lemma_comma_fields_join(pc, df + c + (dd + c + e));
    lemma_comma_fields_join(da, pc + c + (df + c + (dd + c + e)));
    lemma_comma_fields_join(ds, da + c + (pc + c + (df + c + (dd + c + e))));
    assert(comma_fields(csv_nums(m)) =~= seq![ds, da, pc, df, dd, e]);
}

} // verus!

verus! {

/// Text that CSV writes as it is: no comma, quote or line break.
pub open spec fn csv_plain(s: Seq<char>) -> bool {
    forall|i: int| 0 <= i < s.len() ==> s[i] != ',' && s[i] != '"' && s[i] != '\n'
}

/// What a node's CSV row holds under the column with header name `name`.
pub open spec fn row_column(m: NodeModel, root_path: Seq<char>, redact: bool, name: Seq<char>) -> Seq<char> {
    if name == "path"@ {
        csv_path_text(m, root_path, redact)
    } else if name == "name"@ {
        m.name
    } else if name == "type"@ {
        if m.is_dir { "directory"@ } else { "file"@ }
    } else if name == "size"@ {
        decimal(m.size as nat)
    } else if name == "allocated"@ {
        decimal(m.allocated as nat)
    } else if name == "percent_of_parent"@ {
        if m.size > 0 { "100.00"@ } else { "0.00"@ }
    } else if name == "file_count"@ {
        decimal(m.file_count as nat)
    } else if name == "folder_count"@ {
        decimal(m.folder_count as nat)
    } else if name == "owner"@ {
        if redact { Seq::empty() } else { m.owner }
    } else if name == "extension"@ {
        if m.extension.len() == 0 && !m.is_dir { extension_spec(m.name) } else { m.extension }
    } else if name == "mtime"@ {
        if m.mtime > 0 { utc_timestamp(m.mtime) } else { Seq::empty() }
    } else if name == "is_symlink"@ {
        if m.is_symlink { "true"@ } else { "false"@ }
    } else {
        Seq::empty()
    }
}

proof fn lemma_plain_single(s: Seq<char>)
    requires
        csv_plain(s),
    ensures
        csv_field(s) == s,
        comma_fields(s) == seq![s],
{
    assert(!s.contains(',') && !s.contains('"') && !s.contains('\n'));
    lemma_comma_fields_single(s);
}

/// The fields of a node's CSV row, in header order.
pub open spec fn row_fields(m: NodeModel, root_path: Seq<char>, redact: bool) -> Seq<Seq<char>> {
    seq![
        csv_path_text(m, root_path, redact),
        m.name,
        if m.is_dir { "directory"@ } else { "file"@ },
        decimal(m.size as nat),
        decimal(m.allocated as nat),
        if m.size > 0 { "100.00"@ } else { "0.00"@ },
        decimal(m.file_count as nat),
        decimal(m.folder_count as nat),
        if redact { Seq::empty() } else { m.owner },
        if m.extension.len() == 0 && !m.is_dir { extension_spec(m.name) } else { m.extension },
        if m.mtime > 0 { utc_timestamp(m.mtime) } else { Seq::empty() },
        if m.is_symlink { "true"@ } else { "false"@ }
    ]
}

/// Fields joined by commas.
pub open spec fn comma_join(fs: Seq<Seq<char>>) -> Seq<char>
    decreases fs.len(),
{
    if fs.len() == 0 {
        Seq::empty()
    } else if fs.len() == 1 {
        fs[0]
    } else {
        comma_join(fs.drop_last()) + seq![','] + fs.last()
    }
}

proof fn lemma_comma_join_fields(fs: Seq<Seq<char>>)
    requires
        fs.len() >= 1,
        forall|k: int| 0 <= k < fs.len() ==> forall|i: int| 0 <= i < (#[trigger] fs[k]).len() ==> fs[k][i] != ',',
    ensures
        comma_fields(comma_join(fs)) == fs,
    decreases fs.len(),
{
    if fs.len() == 1 {
        lemma_comma_fields_single(fs[0]);
        assert(seq![fs[0]] =~= fs);
    } else {
        let d = fs.drop_last();
        assert forall|k: int| 0 <= k < d.len() implies forall|i: int| 0 <= i < (#[trigger] d[k]).len() ==> d[k][i] != ',' by {
            assert(d[k] == fs[k]);
        }
        lemma_comma_join_fields(d);
        assert(forall|i: int| 0 <= i < fs.last().len() ==> fs.last()[i] != ',') by {
            assert(fs.last() == fs[fs.len() - 1]);
        }
        lemma_comma_fields_single(fs.last());
        lemma_comma_fields_join(comma_join(d), fs.last());
        assert(d + seq![fs.last()] =~= fs);
    }
}

/// Twelve fields joined by commas.
proof fn lemma_comma_join_twelve(f: Seq<Seq<char>>)
    requires
        f.len() == 12,
    ensures
        comma_join(f) == f[0] + seq![','] + f[1] + seq![','] + f[2] + seq![','] + f[3] + seq![','] + f[4] + seq![',']
            + f[5] + seq![','] + f[6] + seq![','] + f[7] + seq![','] + f[8] + seq![','] + f[9] + seq![','] + f[10]
            + seq![','] + f[11],
{
    assert forall|k: int| 2 <= k <= 12 implies #[trigger] comma_join(f.take(k)) == comma_join(f.take(k - 1)) + seq![','] + f[k - 1] by {
        assert(f.take(k).drop_last() =~= f.take(k - 1));
        assert(f.take(k).last() == f[k - 1]);
    }
    assert(comma_join(f.take(1)) == f[0]) by {
        assert(f.take(1)[0] == f[0]);
    }
    assert(f.take(12) =~= f);
    assert(comma_join(f.take(2)) == comma_join(f.take(1)) + seq![','] + f[1]);
    assert(comma_join(f.take(3)) == comma_join(f.take(2)) + seq![','] + f[2]);
    assert(comma_join(f.take(4)) == comma_join(f.take(3)) + seq![','] + f[3]);
    assert(comma_join(f.take(5)) == comma_join(f.take(4)) + seq![','] + f[4]);
    assert(comma_join(f.take(6)) == comma_join(f.take(5)) + seq![','] + f[5]);
    assert(comma_join(f.take(7)) == comma_join(f.take(6)) + seq![','] + f[6]);
    assert(comma_join(f.take(8)) == comma_join(f.take(7)) + seq![','] + f[7]);
    assert(comma_join(f.take(9)) == comma_join(f.take(8)) + seq![','] + f[8]);
    assert(comma_join(f.take(10)) == comma_join(f.take(9)) + seq![','] + f[9]);
    assert(comma_join(f.take(11)) == comma_join(f.take(10)) + seq![','] + f[10]);
    assert(comma_join(f.take(12)) == comma_join(f.take(11)) + seq![','] + f[11]);
}

#[verifier::spinoff_prover]
#[verifier::rlimit(60)]
proof fn lemma_csv_row_shape(m: NodeModel, root_path: Seq<char>, redact: bool)
    requires
        csv_plain(row_fields(m, root_path, redact)[0]),
        csv_plain(row_fields(m, root_path, redact)[1]),
        csv_plain(row_fields(m, root_path, redact)[8]),
        csv_plain(row_fields(m, root_path, redact)[9]),
    ensures
        csv_row(m, root_path, redact) == comma_join(row_fields(m, root_path, redact)).push('\n'),
{
    let f = row_fields(m, root_path, redact);
    let c = seq![','];
    lemma_plain_single(f[0]);
    lemma_plain_single(f[1]);
    lemma_plain_single(f[8]);
    lemma_plain_single(f[9]);
    let h = csv_head(m, root_path, redact);
    let n = csv_nums(m);
    let t = csv_tail(m, redact);
    assert(h =~= f[0] + c + f[1] + c + f[2] + c);
    assert(n =~= f[3] + c + f[4] + c + f[5] + c + f[6] + c + f[7] + c);
    assert(t =~= f[8] + c + f[9] + c + f[10] + c + f[11] + seq!['\n']);
    lemma_comma_join_twelve(f);
    assert(csv_row(m, root_path, redact) == h + n + t);
    assert(h + n + t =~= comma_join(f).push('\n'));
}

/// Each column name picks its field of the row.
#[verifier::rlimit(40)]
proof fn lemma_row_column_values(m: NodeModel, root_path: Seq<char>, redact: bool)
    ensures
        row_column(m, root_path, redact, "path"@) == row_fields(m, root_path, redact)[0],
        row_column(m, root_path, redact, "name"@) == row_fields(m, root_path, redact)[1],
        row_column(m, root_path, redact, "type"@) == row_fields(m, root_path, redact)[2],
        row_column(m, root_path, redact, "size"@) == row_fields(m, root_path, redact)[3],
        row_column(m, root_path, redact, "allocated"@) == row_fields(m, root_path, redact)[4],
        row_column(m, root_path, redact, "percent_of_parent"@) == row_fields(m, root_path, redact)[5],
        row_column(m, root_path, redact, "file_count"@) == row_fields(m, root_path, redact)[6],
        row_column(m, root_path, redact, "folder_count"@) == row_fields(m, root_path, redact)[7],
        row_column(m, root_path, redact, "owner"@) == row_fields(m, root_path, redact)[8],
        row_column(m, root_path, redact, "extension"@) == row_fields(m, root_path, redact)[9],
        row_column(m, root_path, redact, "mtime"@) == row_fields(m, root_path, redact)[10],
        row_column(m, root_path, redact, "is_symlink"@) == row_fields(m, root_path, redact)[11],
{
    reveal_strlit("path");
    reveal_strlit("name");
    reveal_strlit("type");
    reveal_strlit("size");
    reveal_strlit("allocated");
    reveal_strlit("percent_of_parent");
    reveal_strlit("file_count");
    reveal_strlit("folder_count");
    reveal_strlit("owner");
    reveal_strlit("extension");
    reveal_strlit("mtime");
    reveal_strlit("is_symlink");
    assert("path"@.len() == 4);
    assert("name"@.len() == 4);
    assert("type"@.len() == 4);
    assert("size"@.len() == 4);
    assert("allocated"@.len() == 9);
    assert("percent_of_parent"@.len() == 17);
    assert("file_count"@.len() == 10);
    assert("folder_count"@.len() == 12);
    assert("owner"@.len() == 5);
    assert("extension"@.len() == 9);
    assert("mtime"@.len() == 5);
    assert("is_symlink"@.len() == 10);
    assert("name"@[0] != "path"@[0]);
    assert("type"@[0] != "path"@[0]);
    assert("type"@[0] != "name"@[0]);
    assert("size"@[0] != "path"@[0]);
    assert("size"@[0] != "name"@[0]);
    assert("size"@[0] != "type"@[0]);
    assert("extension"@[0] != "allocated"@[0]);
    assert("mtime"@[0] != "owner"@[0]);
    assert("is_symlink"@[0] != "file_count"@[0]);
}

/// A CSV row whose text fields hold no comma, quote or line break ends
/// with a line break, and cut at its commas it has one field per header
/// column, each holding the node's value for the column named above it.
pub proof fn law_csv_row_matches_header(m: NodeModel, root_path: Seq<char>, redact: bool)
    requires
        csv_plain(csv_path_text(m, root_path, redact)),
        csv_plain(m.name),
        csv_plain(row_column(m, root_path, redact, "owner"@)),
        csv_plain(row_column(m, root_path, redact, "extension"@)),
        csv_plain(row_column(m, root_path, redact, "mtime"@)),
    ensures
        csv_row(m, root_path, redact).len() > 0,
        csv_row(m, root_path, redact).last() == '\n',
        comma_fields(csv_row(m, root_path, redact).drop_last()).len() == csv_columns().len(),
        forall|k: int| 0 <= k < csv_columns().len() ==>
            #[trigger] comma_fields(csv_row(m, root_path, redact).drop_last())[k]
                == row_column(m, root_path, redact, csv_columns()[k]),
{
    law_csv_numbers_under_their_columns(m, root_path, redact);
    reveal_strlit("path");
    reveal_strlit("name");
    reveal_strlit("type");
    reveal_strlit("size");
    reveal_strlit("allocated");
    reveal_strlit("percent_of_parent");
    reveal_strlit("file_count");
    reveal_strlit("folder_count");
    reveal_strlit("owner");
    reveal_strlit("extension");
    reveal_strlit("mtime");
    reveal_strlit("is_symlink");
    reveal_strlit("directory");
    reveal_strlit("file");
    reveal_strlit("true");
    reveal_strlit("false");
    reveal_strlit("100.00");
    reveal_strlit("0.00");
    let f = row_fields(m, root_path, redact);
    lemma_row_column_values(m, root_path, redact);
    lemma_csv_row_shape(m, root_path, redact);
    lemma_decimal_digits(m.size as nat);
    lemma_decimal_digits(m.allocated as nat);
    lemma_decimal_digits(m.file_count as nat);
    lemma_decimal_digits(m.folder_count as nat);
    assert forall|k: int| 0 <= k < f.len() implies forall|i: int| 0 <= i < (#[trigger] f[k]).len() ==> f[k][i] != ',' by {
        if k == 0 || k == 1 || k == 8 || k == 9 || k == 10 {
            assert(csv_plain(f[k]));
        }
    }
    lemma_comma_join_fields(f);
    let row = csv_row(m, root_path, redact);
    assert(row.drop_last() == comma_join(f));
    let cols = csv_columns();
    assert(cols =~= seq!["path"@, "name"@, "type"@, "size"@, "allocated"@, "percent_of_parent"@, "file_count"@,
        "folder_count"@, "owner"@, "extension"@, "mtime"@, "is_symlink"@]);
    assert forall|k: int| 0 <= k < cols.len() implies #[trigger] comma_fields(row.drop_last())[k] == row_column(m, root_path, redact, cols[k]) by {
        assert(comma_fields(row.drop_last())[k] == f[k]);
    }
}

} // verus!
