//! Lexical path logic: component splitting, containment and the delete guard.
//!
//! Paths are strings; their structure is the Unix component list that
//! `path_components` defines (root `"/"`, `"."`, `".."`, or a name).
//! Everything here is pure: the places that need the file system or the
//! environment (canonicalisation, `$HOME`, the working directory) receive
//! those values as arguments.

use vstd::prelude::*;
use crate::text::{chars_eq, chars_of, is_prefix_of, push_char, push_chars, starts_with_chars, string_of};

verus! {

/// The character sequences of a list of components.
pub open spec fn cv(v: Seq<Vec<char>>) -> Seq<Seq<char>> {
    v.map_values(|c: Vec<char>| c@)
}

/// Characters of a path split at every `/` (empty pieces included).
pub open spec fn segs(s: Seq<char>) -> Seq<Seq<char>>
    decreases s.len(),
{
    if s.len() == 0 {
        seq![Seq::<char>::empty()]
    } else {
        let prev = segs(s.drop_last());
        if s.last() == '/' {
            prev.push(Seq::<char>::empty())
        } else {
            prev.update(prev.len() - 1, prev.last().push(s.last()))
        }
    }
}

pub proof fn lemma_segs_nonempty(s: Seq<char>)
    ensures
        segs(s).len() >= 1,
    decreases s.len(),
{
    if s.len() > 0 {
        lemma_segs_nonempty(s.drop_last());
    }
}

/// Whether the piece at position `idx` of the split is a component:
/// empty pieces never are, and `.` only as the very first piece.
pub open spec fn keep_seg(seg: Seq<char>, idx: int) -> bool {
    seg.len() > 0 && (seg != seq!['.'] || idx == 0)
}

/// The pieces of a split that are components.
pub open spec fn kept(ss: Seq<Seq<char>>) -> Seq<Seq<char>>
    decreases ss.len(),
{
    if ss.len() == 0 {
        Seq::empty()
    } else {
        let p = kept(ss.drop_last());
        if keep_seg(ss.last(), ss.len() - 1) { p.push(ss.last()) } else { p }
    }
}

proof fn lemma_segs_ascii(s: Seq<char>)
    requires
        crate::text::all_ascii(s),
    ensures
        forall|k: int| 0 <= k < segs(s).len() ==> crate::text::all_ascii(#[trigger] segs(s)[k]),
    decreases s.len(),
{
    if s.len() > 0 {
        let d = s.drop_last();
        assert forall|i: int| 0 <= i < d.len() implies (#[trigger] d[i]) as u32 <= 0x7F by {
            assert(d[i] == s[i]);
        }
        lemma_segs_ascii(d);
        lemma_segs_nonempty(d);
        let prev = segs(d);
        if s.last() != '/' {
            let l = prev.last().push(s.last());
            assert(s[s.len() - 1] as u32 <= 0x7F);
            assert(crate::text::all_ascii(prev[prev.len() - 1]));
            assert forall|i: int| 0 <= i < l.len() implies (#[trigger] l[i]) as u32 <= 0x7F by {
                if i < l.len() - 1 {
                    assert(l[i] == prev.last()[i]);
                }
            }
        }
    }
}

proof fn lemma_kept_ascii(ss: Seq<Seq<char>>)
    requires
        forall|k: int| 0 <= k < ss.len() ==> crate::text::all_ascii(#[trigger] ss[k]),
    ensures
        forall|k: int| 0 <= k < kept(ss).len() ==> crate::text::all_ascii(#[trigger] kept(ss)[k]),
    decreases ss.len(),
{
    if ss.len() > 0 {
        let d = ss.drop_last();
        assert forall|k: int| 0 <= k < d.len() implies crate::text::all_ascii(#[trigger] d[k]) by {
            assert(d[k] == ss[k]);
        }
        lemma_kept_ascii(d);
        assert(crate::text::all_ascii(ss[ss.len() - 1]));
        let p = kept(d);
        if keep_seg(ss.last(), ss.len() - 1) {
            assert(kept(ss) == p.push(ss.last()));
            assert forall|k: int| 0 <= k < kept(ss).len() implies crate::text::all_ascii(#[trigger] kept(ss)[k]) by {
                if k < p.len() {
                    assert(kept(ss)[k] == p[k]);
                }
            }
        } else {
            assert(kept(ss) == p);
        }
    }
}

/// The file name of ASCII text is ASCII.
pub proof fn lemma_file_name_ascii(s: Seq<char>)
    requires
        crate::text::all_ascii(s),
    ensures
        file_name_of(s) matches Some(f) ==> crate::text::all_ascii(f),
{
    lemma_segs_ascii(s);
    lemma_kept_ascii(segs(s));
    let c = path_components(s);
    let pre = if has_root(s) { seq![root_comp()] } else { Seq::<Seq<char>>::empty() };
    let k = kept(segs(s));
    if c.len() > 0 && is_normal(c.last()) {
        if k.len() > 0 {
            assert(c.last() == k[k.len() - 1]);
        } else {
            assert(c.last() == root_comp());
        }
    }
}

/// The root component.
pub open spec fn root_comp() -> Seq<char> {
    seq!['/']
}

/// Whether the path starts at the root.
pub open spec fn has_root(s: Seq<char>) -> bool {
    s.len() > 0 && s[0] == '/'
}

/// The components of a Unix path, as `std::path::Path::components` yields
/// them: the root as `"/"`, then every non-empty piece between separators,
/// where `.` is dropped unless it starts a relative path.
pub open spec fn path_components(s: Seq<char>) -> Seq<Seq<char>> {
    (if has_root(s) { seq![root_comp()] } else { Seq::empty() }) + kept(segs(s))
}

/// A component that is a file or directory name.
pub open spec fn is_normal(c: Seq<char>) -> bool {
    c != root_comp() && c != seq!['.'] && c != seq!['.', '.']
}

/// The last component when it is a name (`Path::file_name`).
pub open spec fn file_name_of(s: Seq<char>) -> Option<Seq<char>> {
    let c = path_components(s);
    if c.len() > 0 && is_normal(c.last()) { Some(c.last()) } else { None }
}

/// Component-wise containment: `path` equals `root` or lies under it.
/// A root without components contains everything.
pub open spec fn path_under(path: Seq<Seq<char>>, root: Seq<Seq<char>>) -> bool {
    root.len() == 0 || (root.len() <= path.len() && path.take(root.len() as int) == root)
}

fn is_root_char_vec(v: &Vec<char>) -> (r: bool)
    ensures
        r == (v@ == root_comp()),
{
    let r = v.len() == 1 && v[0] == '/';
    proof {
        if v@ == root_comp() {
            assert(v@[0] == '/');
        }
        if r {
            assert(v@ =~= root_comp());
        }
    }
    r
}

fn is_dot(v: &Vec<char>) -> (r: bool)
    ensures
        r == (v@ == seq!['.']),
{
    let r = v.len() == 1 && v[0] == '.';
    proof {
        if v@ == seq!['.'] {
            assert(v@[0] == '.');
        }
        if r {
            assert(v@ =~= seq!['.']);
        }
    }
    r
}

fn is_dot_dot(v: &Vec<char>) -> (r: bool)
    ensures
        r == (v@ == seq!['.', '.']),
{
    let r = v.len() == 2 && v[0] == '.' && v[1] == '.';
    proof {
        if v@ == seq!['.', '.'] {
            assert(v@[0] == '.' && v@[1] == '.');
        }
        if r {
            assert(v@ =~= seq!['.', '.']);
        }
    }
    r
}

/// Whether a component is a name.
pub fn is_normal_exec(v: &Vec<char>) -> (r: bool)
    ensures
        r == is_normal(v@),
{
    let a = is_root_char_vec(v);
    let b = is_dot(v);
    let c = is_dot_dot(v);
    !a && !b && !c
}

fn root_vec() -> (v: Vec<char>)
    ensures
        v@ == root_comp(),
{
    let mut v = Vec::new();
    v.push('/');
    assert(v@ =~= root_comp());
    v
}

/// The components of a path (see `path_components`).
pub fn components_of_chars(cs: &Vec<char>) -> (out: Vec<Vec<char>>)
    ensures
        cv(out@) == path_components(cs@),
{
    let mut out: Vec<Vec<char>> = Vec::new();
    let rooted = cs.len() > 0 && cs[0] == '/';
    if rooted {
        out.push(root_vec());
    }
    let ghost pre: Seq<Seq<char>> = if has_root(cs@) { seq![root_comp()] } else { Seq::empty() };
    assert(cv(out@) =~= pre + kept(Seq::<Seq<char>>::empty()));
    let mut cur: Vec<char> = Vec::new();
    let mut idx: usize = 0;
    assert(cs@.take(0) =~= Seq::<char>::empty());
    for i in 0..cs.len()
        invariant
            segs(cs@.take(i as int)).len() == idx + 1,
            cur@ == segs(cs@.take(i as int)).last(),
            cv(out@) == pre + kept(segs(cs@.take(i as int)).drop_last()),
            idx <= i,
    {
        let ghost t = cs@.take(i as int);
        let ghost t1 = cs@.take(i + 1);
        assert(t1.drop_last() == t);
        assert(t1.last() == cs@[i as int]);
        proof {
            lemma_segs_nonempty(t);
        }
        if cs[i] == '/' {
            let keep = cur.len() > 0 && (!is_dot(&cur) || idx == 0);
            assert(segs(t1) == segs(t).push(Seq::<char>::empty()));
            assert(segs(t1).drop_last() == segs(t));
            assert(segs(t).drop_last() == segs(t).drop_last());
            assert(keep == keep_seg(segs(t).last(), segs(t).len() - 1));
            if keep {
                let ghost before = cv(out@);
                out.push(cur);
                assert(cv(out@) =~= before.push(segs(t).last()));
            }
            assert(kept(segs(t)) == if keep_seg(segs(t).last(), segs(t).len() - 1) {
                kept(segs(t).drop_last()).push(segs(t).last())
            } else {
                kept(segs(t).drop_last())
            });
            assert(cv(out@) =~= pre + kept(segs(t1).drop_last()));
            cur = Vec::new();
            idx = idx + 1;
            assert(cur@ =~= segs(t1).last());
        } else {
            cur.push(cs[i]);
            assert(segs(t1) == segs(t).update(segs(t).len() - 1, segs(t).last().push(cs@[i as int])));
            assert(segs(t1).drop_last() =~= segs(t).drop_last());
        }
    }
    assert(cs@.take(cs@.len() as int) == cs@);
    proof {
        lemma_segs_nonempty(cs@);
    }
    let keep = cur.len() > 0 && (!is_dot(&cur) || idx == 0);
    assert(keep == keep_seg(segs(cs@).last(), segs(cs@).len() - 1));
    if keep {
        let ghost before = cv(out@);
        out.push(cur);
        assert(cv(out@) =~= before.push(segs(cs@).last()));
    }
    assert(segs(cs@) == segs(cs@).drop_last().push(segs(cs@).last()));
    assert(kept(segs(cs@)) == if keep_seg(segs(cs@).last(), segs(cs@).len() - 1) {
        kept(segs(cs@).drop_last()).push(segs(cs@).last())
    } else {
        kept(segs(cs@).drop_last())
    });
    assert(cv(out@) =~= path_components(cs@));
    out
}

/// The components of a path.
pub fn components(s: &str) -> (out: Vec<Vec<char>>)
    ensures
        cv(out@) == path_components(s@),
{
    let cs = chars_of(s);
    components_of_chars(&cs)
}

/// The last component of a path when it is a name (`Path::file_name`).
pub fn file_name(s: &str) -> (r: Option<Vec<char>>)
    ensures
        match r {
            Some(n) => file_name_of(s@) == Some(n@),
            None => file_name_of(s@) is None,
        },
{
    let mut c = components(s);
    if c.len() == 0 {
        return None;
    }
    let last = c.pop().unwrap();
    assert(last@ == path_components(s@).last());
    if is_normal_exec(&last) {
        Some(last)
    } else {
        None
    }
}

/// Whether two component lists are equal.
pub fn comps_eq(a: &Vec<Vec<char>>, b: &Vec<Vec<char>>) -> (r: bool)
    ensures
        r == (cv(a@) == cv(b@)),
{
    if a.len() != b.len() {
        assert(cv(a@).len() != cv(b@).len());
        return false;
    }
    for i in 0..a.len()
        invariant
            a.len() == b.len(),
            forall|j: int| 0 <= j < i ==> cv(a@)[j] == cv(b@)[j],
    {
        if !chars_eq(&a[i], &b[i]) {
            assert(cv(a@)[i as int] != cv(b@)[i as int]);
            return false;
        }
    }
    assert(cv(a@) =~= cv(b@));
    true
}

/// Whether the component list `path` equals `root` or lies under it.
pub fn comps_under(path: &Vec<Vec<char>>, root: &Vec<Vec<char>>) -> (r: bool)
    ensures
        r == path_under(cv(path@), cv(root@)),
{
    if root.len() == 0 {
        return true;
    }
    if path.len() < root.len() {
        return false;
    }
    for i in 0..root.len()
        invariant
            root.len() <= path.len(),
            forall|j: int| 0 <= j < i ==> cv(path@)[j] == cv(root@)[j],
    {
        if !chars_eq(&path[i], &root[i]) {
            assert(cv(path@).take(root.len() as int)[i as int] != cv(root@)[i as int]);
            return false;
        }
    }
    assert(cv(path@).take(root.len() as int) =~= cv(root@));
    true
}

/// Component-wise containment check with no file-system access: is `path`
/// equal to `root` or under it?
pub fn is_path_under(path: &str, root: &str) -> (r: bool)
    ensures
        r == path_under(path_components(path@), path_components(root@)),
{
    let p = components(path);
    let q = components(root);
    comps_under(&p, &q)
}

/// Lexical containment for paths that are already absolute and canonical
/// (the per-directory scan check); no `realpath()` is involved.
pub fn is_under_root_lexical(path: &str, root: &str) -> (r: bool)
    ensures
        r == path_under(path_components(path@), path_components(root@)),
{
    is_path_under(path, root)
}

/// Containment of a path in the scan root, given both paths already
/// canonicalised (the canonicalisation itself is done by the caller).
pub fn is_under_scan_root(path: &str, scan_root: &str) -> (r: bool)
    ensures
        r == path_under(path_components(path@), path_components(scan_root@)),
{
    is_path_under(path, scan_root)
}

/// Whether `ancestor` is a proper ancestor of `descendant`, given both
/// already canonicalised.
pub fn is_ancestor(ancestor: &str, descendant: &str) -> (r: bool)
    ensures
        r == (path_components(ancestor@) != path_components(descendant@)
            && path_under(path_components(descendant@), path_components(ancestor@))),
{
    let a = components(ancestor);
    let d = components(descendant);
    !comps_eq(&a, &d) && comps_under(&d, &a)
}

} // verus!

verus! {

/// Where the process stands: the home directory and the working directory,
/// read by the caller from the environment.
pub struct PathEnv {
    pub home: String,
    pub cwd: String,
}

/// `PathBuf::push` on Unix: an absolute `rest` replaces `base`; otherwise a
/// separator is inserted unless `base` is empty or already ends in one.
pub open spec fn join_spec(base: Seq<char>, rest: Seq<char>) -> Seq<char> {
    if has_root(rest) {
        rest
    } else if base.len() == 0 || base.last() == '/' {
        base + rest
    } else {
        base.push('/') + rest
    }
}

/// Joins `rest` onto `base` as `PathBuf::push` does.
pub fn join_path(base: &str, rest: &str) -> (r: String)
    ensures
        r@ == join_spec(base@, rest@),
{
    let b = chars_of(base);
    let t = chars_of(rest);
    if t.len() > 0 && t[0] == '/' {
        return string_of(&t);
    }
    let mut out = string_of(&b);
    if b.len() > 0 && b[b.len() - 1] != '/' {
        push_char(&mut out, '/');
    }
    push_chars(&mut out, &t);
    out
}

/// `~` and `~/…` expansion against `home`; other paths are unchanged.
pub open spec fn expand_user_spec(path: Seq<char>, home: Seq<char>) -> Seq<char> {
    if path == seq!['~'] {
        home
    } else if is_prefix_of(seq!['~', '/'], path) {
        join_spec(home, path.skip(2))
    } else {
        path
    }
}

/// Expands a leading `~` to `home`.
pub fn expand_user(path: &str, home: &str) -> (r: String)
    ensures
        r@ == expand_user_spec(path@, home@),
{
    let p = chars_of(path);
    if p.len() == 1 && p[0] == '~' {
        assert(p@ =~= seq!['~']);
        return home.to_owned();
    }
    assert(p@ == seq!['~'] ==> p@.len() == 1 && p@[0] == '~');
    if p.len() >= 2 && p[0] == '~' && p[1] == '/' {
        assert(p@.take(2) =~= seq!['~', '/']);
        let mut rest: Vec<char> = Vec::new();
        for i in 2..p.len()
            invariant
                2 <= p@.len(),
                rest@ == p@.subrange(2, i as int),
        {
            rest.push(p[i]);
            assert(p@.subrange(2, i + 1) == p@.subrange(2, i as int).push(p@[i as int]));
        }
        assert(rest@ =~= p@.skip(2));
        let rest_s = string_of(&rest);
        return join_path(home, rest_s.as_str());
    }
    assert(!is_prefix_of(seq!['~', '/'], p@)) by {
        if is_prefix_of(seq!['~', '/'], p@) {
            assert(p@.take(2)[0] == '~' && p@.take(2)[1] == '/');
        }
    }
    path.to_owned()
}

/// `expand_user`, then made absolute against the working directory.
pub open spec fn absolute_spec(path: Seq<char>, env_home: Seq<char>, env_cwd: Seq<char>) -> Seq<char> {
    let e = expand_user_spec(path, env_home);
    if has_root(e) { e } else { join_spec(env_cwd, e) }
}

/// Expands `~` and makes the path absolute against the working directory.
pub fn expand_user_path(path: &str, env: &PathEnv) -> (r: String)
    ensures
        r@ == absolute_spec(path@, env.home@, env.cwd@),
{
    let e = expand_user(path, env.home.as_str());
    let ec = chars_of(e.as_str());
    if ec.len() > 0 && ec[0] == '/' {
        e
    } else {
        join_path(env.cwd.as_str(), e.as_str())
    }
}

/// The component `private`.
pub open spec fn private_comp() -> Seq<char> {
    seq!['p', 'r', 'i', 'v', 'a', 't', 'e']
}

/// Whether the lexical cleaning has anything to do: a `.` or `..`
/// component, or `private` as the second component.
pub open spec fn needs_clean(c: Seq<Seq<char>>) -> bool {
    exists|i: int| 0 <= i < c.len() && (#[trigger] c[i] == seq!['.'] || c[i] == seq!['.', '.']
        || (i == 1 && c[i] == private_comp()))
}

/// Names left after resolving `.` and `..` from left to right (`..` at the
/// top is dropped); the root is not a name.
pub open spec fn fold_parts(c: Seq<Seq<char>>) -> Seq<Seq<char>>
    decreases c.len(),
{
    if c.len() == 0 {
        Seq::empty()
    } else {
        let p = fold_parts(c.drop_last());
        let x = c.last();
        if x == root_comp() || x == seq!['.'] {
            p
        } else if x == seq!['.', '.'] {
            if p.len() > 0 { p.drop_last() } else { p }
        } else {
            p.push(x)
        }
    }
}

/// The lexical comparison key of a component list: unchanged when clean,
/// otherwise `.`/`..` resolved and a leading `private` dropped (the macOS
/// `/private` firmlink), keeping the root if there was one.
pub open spec fn clean_comps(c: Seq<Seq<char>>) -> Seq<Seq<char>> {
    if !needs_clean(c) {
        c
    } else {
        let parts = fold_parts(c);
        let p2 = if parts.len() > 0 && parts[0] == private_comp() { parts.drop_first() } else { parts };
        (if c.contains(root_comp()) { seq![root_comp()] } else { Seq::empty() }) + p2
    }
}

/// The lexical key of a path: `~` expanded, made absolute, then cleaned.
pub open spec fn key_spec(path: Seq<char>, env_home: Seq<char>, env_cwd: Seq<char>) -> Seq<Seq<char>> {
    clean_comps(path_components(absolute_spec(path, env_home, env_cwd)))
}

fn private_vec() -> (v: Vec<char>)
    ensures
        v@ == private_comp(),
{
    let mut v = Vec::new();
    v.push('p');
    v.push('r');
    v.push('i');
    v.push('v');
    v.push('a');
    v.push('t');
    v.push('e');
    assert(v@ =~= private_comp());
    v
}

fn needs_clean_exec(c: &Vec<Vec<char>>) -> (r: bool)
    ensures
        r == needs_clean(cv(c@)),
{
    let pv = private_vec();
    for k in 0..c.len()
        invariant
            pv@ == private_comp(),
            forall|j: int| 0 <= j < k ==> !(cv(c@)[j] == seq!['.'] || cv(c@)[j] == seq!['.', '.']
                || (j == 1 && cv(c@)[j] == private_comp())),
    {
        assert(cv(c@)[k as int] == c@[k as int]@);
        if is_dot(&c[k]) || is_dot_dot(&c[k]) || (k == 1 && chars_eq(&c[k], &pv)) {
            assert(needs_clean(cv(c@)));
            return true;
        }
    }
    assert(!needs_clean(cv(c@))) by {
        if needs_clean(cv(c@)) {
            let w = choose|w: int| 0 <= w < cv(c@).len() && (#[trigger] cv(c@)[w] == seq!['.']
                || cv(c@)[w] == seq!['.', '.'] || (w == 1 && cv(c@)[w] == private_comp()));
            assert(0 <= w < c.len());
        }
    }
    false
}

/// Resolves `.`/`..` purely lexically and collapses the `/private` firmlink
/// prefix, without any file-system access.
pub fn lexical_clean(c: Vec<Vec<char>>) -> (r: Vec<Vec<char>>)
    ensures
        cv(r@) == clean_comps(cv(c@)),
{
    let pv = private_vec();
    let needs = needs_clean_exec(&c);
    if !needs {
        return c;
    }
    let mut parts: Vec<Vec<char>> = Vec::new();
    let mut absolute = false;
    for i in 0..c.len()
        invariant
            cv(parts@) == fold_parts(cv(c@).take(i as int)),
            absolute == cv(c@).take(i as int).contains(root_comp()),
    {
        let ghost t = cv(c@).take(i as int);
        let ghost t1 = cv(c@).take(i + 1);
        assert(t1.drop_last() == t);
        assert(t1.last() == c@[i as int]@);
        assert(t1.contains(root_comp()) == (t.contains(root_comp()) || t1.last() == root_comp())) by {
            if t1.contains(root_comp()) {
                let w = choose|w: int| 0 <= w < t1.len() && t1[w] == root_comp();
                if w < t.len() {
                    assert(t[w] == root_comp());
                }
            }
            if t.contains(root_comp()) {
                let w = choose|w: int| 0 <= w < t.len() && t[w] == root_comp();
                assert(t1[w] == root_comp());
            }
            if t1.last() == root_comp() {
                assert(t1[t1.len() - 1] == root_comp());
            }
        }
        let item = c[i].clone();
        if is_root_char_vec(&item) {
            absolute = true;
        } else if is_dot(&item) {
        } else if is_dot_dot(&item) {
            if parts.len() > 0 {
                let ghost before = cv(parts@);
                parts.pop();
                assert(cv(parts@) =~= before.drop_last());
            }
        } else {
            let ghost before = cv(parts@);
            parts.push(item);
            assert(cv(parts@) =~= before.push(t1.last()));
        }
    }
    assert(cv(c@).take(c.len() as int) == cv(c@));
    let mut out: Vec<Vec<char>> = Vec::new();
    if absolute {
        out.push(root_vec());
    }
    let start: usize = if parts.len() > 0 && chars_eq(&parts[0], &pv) { 1 } else { 0 };
    if parts.len() > 0 {
        assert(cv(parts@)[0] == parts@[0]@);
    }
    let ghost p2 = if cv(parts@).len() > 0 && cv(parts@)[0] == private_comp() {
        cv(parts@).drop_first()
    } else {
        cv(parts@)
    };
    assert(p2 =~= cv(parts@).skip(start as int));
    let ghost pre = cv(out@);
    for j in start..parts.len()
        invariant
            start <= parts.len(),
            cv(out@) == pre + cv(parts@).subrange(start as int, j as int),
    {
        let ghost before = cv(out@);
        out.push(parts[j].clone());
        assert(cv(out@) =~= before.push(cv(parts@)[j as int]));
        assert(cv(parts@).subrange(start as int, j + 1) =~= cv(parts@).subrange(start as int, j as int).push(cv(parts@)[j as int]));
    }
    assert(cv(out@) =~= pre + p2);
    out
}

/// The lexical comparison key of a path (as its component list): `~`
/// expanded against `env.home`, made absolute against `env.cwd`, `.`/`..`
/// resolved and the `/private` prefix collapsed. No file-system access.
pub fn lexical_key(path: &str, env: &PathEnv) -> (r: Vec<Vec<char>>)
    ensures
        cv(r@) == key_spec(path@, env.home@, env.cwd@),
{
    let a = expand_user_path(path, env);
    lexical_clean(components(a.as_str()))
}

/// Reading a path left to right: where the piece being read starts, its
/// position among the `/`-separated pieces, and the end offsets of the
/// finished pieces that are components.
pub open spec fn piece_scan(s: Seq<char>) -> (int, int, Seq<int>)
    decreases s.len(),
{
    if s.len() == 0 {
        (0, 0, Seq::empty())
    } else {
        let t = s.drop_last();
        let (st, ix, es) = piece_scan(t);
        if s.last() == '/' {
            let es2 = if keep_seg(t.subrange(st, t.len() as int), ix) { es.push(t.len() as int) } else { es };
            (s.len() as int, ix + 1, es2)
        } else {
            (st, ix, es)
        }
    }
}

/// The end offsets, in the text, of the components after the root.
pub open spec fn comp_ends(s: Seq<char>) -> Seq<int> {
    let (st, ix, es) = piece_scan(s);
    if keep_seg(s.subrange(st, s.len() as int), ix) { es.push(s.len() as int) } else { es }
}

/// `Path::parent`: `None` when nothing follows the root; otherwise the text
/// up to the end of the component before the last one, or `/` (rooted) or
/// the empty path when there is none.
pub open spec fn parent_spec(s: Seq<char>) -> Option<Seq<char>> {
    let e = comp_ends(s);
    if e.len() == 0 {
        None
    } else if e.len() >= 2 {
        Some(s.take(e[e.len() - 2]))
    } else if has_root(s) {
        Some(seq!['/'])
    } else {
        Some(Seq::empty())
    }
}

/// The parent of a path (`Path::parent`).
#[verifier::spinoff_prover]
pub fn parent_path(s: &str) -> (r: Option<String>)
    ensures
        match parent_spec(s@) {
            Some(p) => r is Some && r->0@ == p,
            None => r is None,
        },
{
    let c = chars_of(s);
    let n = c.len();
    let mut st: usize = 0;
    let mut ix: usize = 0;
    let mut count: usize = 0;
    let mut last: usize = 0;
    let mut prev: usize = 0;
    let ghost mut es: Seq<int> = Seq::empty();
    assert(c@.take(0) =~= Seq::<char>::empty());
    for i in 0..n
        invariant
            n == c@.len(),
            piece_scan(c@.take(i as int)) == (st as int, ix as int, es),
            st <= i,
            ix <= st,
            count <= ix,
            count == es.len(),
            count >= 1 ==> last == es[es.len() - 1],
            count >= 2 ==> prev == es[es.len() - 2],
            forall|j: int| 0 <= j < es.len() ==> 0 <= #[trigger] es[j] <= i,
    {
        let ghost t = c@.take(i as int);
        assert(c@.take(i + 1).drop_last() == t);
        assert(c@.take(i + 1).last() == c@[i as int]);
        if c[i] == '/' {
            let keep = i > st && !(i - st == 1 && c[st] == '.' && ix != 0);
            assert(t.subrange(st as int, i as int) == c@.subrange(st as int, i as int));
            assert(keep == keep_seg(t.subrange(st as int, t.len() as int), ix as int)) by {
                if i - st == 1 {
                    assert(c@.subrange(st as int, i as int) =~= seq![c@[st as int]]);
                }
                if c@.subrange(st as int, i as int) == seq!['.'] {
                    assert(c@.subrange(st as int, i as int)[0] == c@[st as int]);
                }
            }
            if keep {
                prev = last;
                last = i;
                count = count + 1;
                proof {
                    es = es.push(i as int);
                }
            }
            st = i + 1;
            ix = ix + 1;
        }
    }
    assert(c@.take(n as int) == c@);
    let keep = n > st && !(n - st == 1 && c[st] == '.' && ix != 0);
    assert(keep == keep_seg(c@.subrange(st as int, n as int), ix as int)) by {
        assert(c@.subrange(st as int, n as int).len() == n - st);
        if n - st == 1 {
            assert(c@.subrange(st as int, n as int) =~= seq![c@[st as int]]);
        }
        if c@.subrange(st as int, n as int) == seq!['.'] {
            assert(c@.subrange(st as int, n as int)[0] == c@[st as int]);
        }
    }
    if keep {
        prev = last;
        last = n;
        count = count + 1;
        proof {
            es = es.push(n as int);
        }
    }
    assert(es == comp_ends(s@));
    if count == 0 {
        return None;
    }
    if count >= 2 {
        let mut out: Vec<char> = Vec::new();
        for j in 0..prev
            invariant
                prev <= n,
                n == c@.len(),
                out@ == c@.take(j as int),
        {
            out.push(c[j]);
            assert(c@.take(j + 1) == c@.take(j as int).push(c@[j as int]));
        }
        return Some(string_of(&out));
    }
    if n > 0 && c[0] == '/' {
        let mut out: Vec<char> = Vec::new();
        out.push('/');
        assert(out@ =~= seq!['/']);
        Some(string_of(&out))
    } else {
        Some(String::new())
    }
}

/// How many components follow the root: the number of times
/// `Path::parent` applies before it gives none.
pub fn component_depth(s: &str) -> (r: usize)
    ensures
        r == comp_ends(s@).len(),
{
    let c = chars_of(s);
    let n = c.len();
    let mut st: usize = 0;
    let mut ix: usize = 0;
    let mut count: usize = 0;
    let ghost mut es: Seq<int> = Seq::empty();
    assert(c@.take(0) =~= Seq::<char>::empty());
    for i in 0..n
        invariant
            n == c@.len(),
            piece_scan(c@.take(i as int)) == (st as int, ix as int, es),
            st <= i,
            ix <= st,
            count <= ix,
            count == es.len(),
    {
        let ghost t = c@.take(i as int);
        assert(c@.take(i + 1).drop_last() == t);
        assert(c@.take(i + 1).last() == c@[i as int]);
        if c[i] == '/' {
            let keep = i > st && !(i - st == 1 && c[st] == '.' && ix != 0);
            assert(t.subrange(st as int, i as int) == c@.subrange(st as int, i as int));
            assert(keep == keep_seg(t.subrange(st as int, t.len() as int), ix as int)) by {
                if i - st == 1 {
                    assert(c@.subrange(st as int, i as int) =~= seq![c@[st as int]]);
                }
                if c@.subrange(st as int, i as int) == seq!['.'] {
                    assert(c@.subrange(st as int, i as int)[0] == c@[st as int]);
                }
            }
            if keep {
                count = count + 1;
                proof {
                    es = es.push(i as int);
                }
            }
            st = i + 1;
            ix = ix + 1;
        }
    }
    assert(c@.take(n as int) == c@);
    assert(st <= n);
    let keep = n > st && !(n - st == 1 && c[st] == '.' && ix != 0);
    assert(keep == keep_seg(c@.subrange(st as int, n as int), ix as int)) by {
        if n - st == 1 {
            assert(c@.subrange(st as int, n as int) =~= seq![c@[st as int]]);
        }
        if c@.subrange(st as int, n as int) == seq!['.'] {
            assert(c@.subrange(st as int, n as int).len() == 1);
            assert(c@.subrange(st as int, n as int)[0] == c@[st as int]);
        }
    }
    if keep {
        count = count + 1;
    }
    count
}

/// Components joined with `/` (the root component contributes nothing but
/// its separator role is not needed here: callers pass names only).
pub open spec fn join_comps(c: Seq<Seq<char>>) -> Seq<char>
    decreases c.len(),
{
    if c.len() == 0 {
        Seq::empty()
    } else if c.len() == 1 {
        c[0]
    } else {
        join_comps(c.drop_last()) + seq!['/'] + c.last()
    }
}

/// The part of `path` below `base`, component-wise, as text (`None` when
/// `base` is not a prefix).
pub open spec fn rel_text(path: Seq<char>, base: Seq<char>) -> Option<Seq<char>> {
    match rel_after(path_components(path), path_components(base)) {
        Some(rel) => Some(join_comps(rel)),
        None => None,
    }
}

/// The part of `path` below `base` as text (see `rel_text`).
pub fn relative_text(path: &str, base: &str) -> (r: Option<String>)
    ensures
        match r {
            Some(t) => rel_text(path@, base@) == Some(t@),
            None => rel_text(path@, base@) is None,
        },
{
    let p = components(path);
    let b = components(base);
    match strip_prefix_comps(&p, &b) {
        Some(rel) => {
            let mut out = String::new();
            assert(cv(rel@).take(0) =~= Seq::<Seq<char>>::empty());
            for i in 0..rel.len()
                invariant
                    out@ == join_comps(cv(rel@).take(i as int)),
            {
                let ghost t = cv(rel@).take(i + 1);
                assert(t.drop_last() == cv(rel@).take(i as int));
                assert(t.last() == rel@[i as int]@);
                if i > 0 {
                    push_char(&mut out, '/');
                }
                push_chars(&mut out, &rel[i]);
                proof {
                    if i == 0 {
                        assert(t =~= seq![rel@[0]@]);
                    }
                }
                assert(out@ =~= join_comps(t));
            }
            assert(cv(rel@).take(rel@.len() as int) == cv(rel@));
            Some(out)
        },
        None => None,
    }
}

/// Strips a leading `/private` (a plain string prefix) for display.
pub fn strip_private_prefix(path: &str) -> (r: String)
    ensures
        r@ == if is_prefix_of(seq!['/'] + private_comp(), path@) { path@.skip(8) } else { path@ },
{
    let p = chars_of(path);
    let mut pre: Vec<char> = Vec::new();
    pre.push('/');
    let pv = private_vec();
    for i in 0..pv.len()
        invariant
            pre@ == seq!['/'] + pv@.take(i as int),
    {
        pre.push(pv[i]);
        assert(pv@.take(i + 1) == pv@.take(i as int).push(pv@[i as int]));
    }
    assert(pv@.take(7) == pv@);
    if starts_with_chars(&p, &pre) {
        let mut rest: Vec<char> = Vec::new();
        for i in 8..p.len()
            invariant
                8 <= p@.len(),
                rest@ == p@.subrange(8, i as int),
        {
            rest.push(p[i]);
            assert(p@.subrange(8, i + 1) == p@.subrange(8, i as int).push(p@[i as int]));
        }
        assert(rest@ =~= p@.skip(8));
        string_of(&rest)
    } else {
        path.to_owned()
    }
}

} // verus!

verus! {

/// A protected system prefix: the name shown to the user and the same path
/// canonicalised by the caller.
pub struct DeniedPrefix {
    pub label: String,
    pub resolved: String,
}

/// Why a path may not be deleted just before the delete runs, from what the
/// file system says of it: missing (`exists` false and no entry of its own),
/// the error of reading its entry, a symlink, protected (its canonical
/// path, see `delete_block_reason`), or no longer of the expected kind;
/// none when it may go. `entry` is the entry's `(is_symlink, is_dir)` or the
/// error text of reading it.
pub open spec fn delete_target_refusal(
    exists: bool,
    entry: Result<(bool, bool), Seq<char>>,
    canonical: Seq<char>,
    scan_root: Seq<char>,
    home: Seq<char>,
    denied: Seq<DeniedPrefix>,
    expect_dir: bool,
) -> Option<Seq<char>> {
    if !exists && entry is Err {
        Some("Path no longer exists"@)
    } else {
        match entry {
            Err(e) => Some(e),
            Ok((is_symlink, is_dir)) => if is_symlink {
                Some("Cannot delete symlinks (refuse to follow)"@)
            } else {
                match delete_block_reason(canonical, scan_root, home, denied) {
                    Some(reason) => Some(reason),
                    None => if expect_dir && !is_dir {
                        Some("Expected directory but path is no longer a directory"@)
                    } else if !expect_dir && is_dir {
                        Some("Expected file but path is no longer a file"@)
                    } else {
                        None
                    },
                }
            },
        }
    }
}

/// Decides whether a path may be deleted now (see `delete_target_refusal`).
pub fn delete_target_check(
    exists: bool,
    entry: Result<(bool, bool), String>,
    canonical: &str,
    scan_root: &str,
    home: &str,
    denied: &Vec<DeniedPrefix>,
    expect_dir: bool,
) -> (r: Option<String>)
    ensures
        match r {
            Some(m) => delete_target_refusal(exists, match entry { Ok(x) => Ok(x), Err(e) => Err(e@) },
                canonical@, scan_root@, home@, denied@, expect_dir) == Some(m@),
            None => delete_target_refusal(exists, match entry { Ok(x) => Ok(x), Err(e) => Err(e@) },
                canonical@, scan_root@, home@, denied@, expect_dir) is None,
        },
{
    if !exists && entry.is_err() {
        return Some("Path no longer exists".to_owned());
    }
    match entry {
        Err(e) => Some(e),
        Ok((is_symlink, is_dir)) => {
            if is_symlink {
                return Some("Cannot delete symlinks (refuse to follow)".to_owned());
            }
            let (protected, reason) = is_delete_protected(canonical, scan_root, home, denied);
            if protected {
                Some(reason)
            } else if expect_dir && !is_dir {
                Some("Expected directory but path is no longer a directory".to_owned())
            } else if !expect_dir && is_dir {
                Some("Expected file but path is no longer a file".to_owned())
            } else {
                None
            }
        },
    }
}

/// The system prefixes that may never be deleted from outside the scan root.
pub fn delete_denied_prefixes() -> (v: Vec<&'static str>)
    ensures
        v@.len() == 7,
{
    let mut v: Vec<&'static str> = Vec::new();
    v.push("/System");
    v.push("/usr");
    v.push("/bin");
    v.push("/sbin");
    v.push("/etc");
    v.push("/Library");
    v.push("/Applications");
    v
}

/// The first denied prefix (from position `i` on) that equals `path` or
/// contains it.
pub open spec fn first_denied(path: Seq<char>, denied: Seq<DeniedPrefix>, i: int) -> Option<int>
    decreases denied.len() - i,
{
    if i < 0 || i >= denied.len() {
        None
    } else if path_components(path) == path_components(denied[i].resolved@)
        || path_under(path_components(path), path_components(denied[i].resolved@)) {
        Some(i)
    } else {
        first_denied(path, denied, i + 1)
    }
}

/// Why a path may not be deleted, in the order the checks run: the
/// filesystem root, the home directory, the scan root itself, an ancestor
/// of the scan root, then (outside the scan root) a protected system
/// prefix, else "outside the scan root". `None` when deletion is allowed.
pub open spec fn delete_block_reason(
    path: Seq<char>,
    scan_root: Seq<char>,
    home: Seq<char>,
    denied: Seq<DeniedPrefix>,
) -> Option<Seq<char>> {
    let p = path_components(path);
    let s = path_components(scan_root);
    if p == seq![root_comp()] {
        Some("Cannot delete filesystem root"@)
    } else if p == path_components(home) {
        Some("Cannot delete home directory"@)
    } else if p == s {
        Some("Cannot delete the scan root"@)
    } else if path_under(s, p) {
        Some("Cannot delete an ancestor of the scan root"@)
    } else if !path_under(p, s) {
        match first_denied(path, denied, 0) {
            Some(i) => Some("Cannot delete protected system path: "@ + denied[i].label@),
            None => Some("Path is outside the scan root"@),
        }
    } else {
        None
    }
}

fn first_denied_exec(path: &Vec<Vec<char>>, path_s: &str, denied: &Vec<DeniedPrefix>) -> (r: Option<usize>)
    requires
        cv(path@) == path_components(path_s@),
    ensures
        match r {
            Some(i) => i < denied@.len() && first_denied(path_s@, denied@, 0) == Some(i as int),
            None => first_denied(path_s@, denied@, 0) is None,
        },
{
    let mut i: usize = denied.len();
    let mut found: Option<usize> = None;
    // Walk backwards so that the last match written is the first one.
    while i > 0
        invariant
            i <= denied@.len(),
            cv(path@) == path_components(path_s@),
            match found {
                Some(k) => i <= k < denied@.len() && first_denied(path_s@, denied@, i as int) == Some(k as int),
                None => first_denied(path_s@, denied@, i as int) is None,
            },
        decreases i,
    {
        i = i - 1;
        let d = components(denied[i].resolved.as_str());
        if comps_eq(path, &d) || comps_under(path, &d) {
            found = Some(i);
        }
    }
    found
}

/// The delete guard on already-canonicalised paths: `(true, reason)` when
/// `path` must not be deleted, `(false, "")` otherwise (see
/// `delete_block_reason`). `home` is the home directory as the environment
/// gives it; `denied` holds the protected prefixes, canonicalised.
pub fn is_delete_protected(path: &str, scan_root: &str, home: &str, denied: &Vec<DeniedPrefix>) -> (r: (bool, String))
    ensures
        match delete_block_reason(path@, scan_root@, home@, denied@) {
            Some(msg) => r.0 && r.1@ == msg,
            None => !r.0 && r.1@ == Seq::<char>::empty(),
        },
{
    let p = components(path);
    let s = components(scan_root);
    let h = components(home);
    let root = vec![root_vec()];
    assert(cv(root@) =~= seq![root_comp()]);
    if comps_eq(&p, &root) {
        return (true, "Cannot delete filesystem root".to_owned());
    }
    if comps_eq(&p, &h) {
        return (true, "Cannot delete home directory".to_owned());
    }
    if comps_eq(&p, &s) {
        return (true, "Cannot delete the scan root".to_owned());
    }
    if comps_under(&s, &p) {
        return (true, "Cannot delete an ancestor of the scan root".to_owned());
    }
    if !comps_under(&p, &s) {
        match first_denied_exec(&p, path, denied) {
            Some(i) => {
                let mut msg = "Cannot delete protected system path: ".to_owned();
                msg.append(denied[i].label.as_str());
                return (true, msg);
            },
            None => {
                return (true, "Path is outside the scan root".to_owned());
            },
        }
    }
    (false, String::new())
}

/// The components after `base` when `base`'s components are a prefix of
/// `path`'s (`Path::strip_prefix`).
pub open spec fn rel_after(path: Seq<Seq<char>>, base: Seq<Seq<char>>) -> Option<Seq<Seq<char>>> {
    if base.len() <= path.len() && path.take(base.len() as int) == base {
        Some(path.skip(base.len() as int))
    } else {
        None
    }
}

/// Strips the component prefix `base` from `path`.
pub fn strip_prefix_comps(path: &Vec<Vec<char>>, base: &Vec<Vec<char>>) -> (r: Option<Vec<Vec<char>>>)
    ensures
        match r {
            Some(rest) => rel_after(cv(path@), cv(base@)) == Some(cv(rest@)),
            None => rel_after(cv(path@), cv(base@)) is None,
        },
{
    if base.len() > path.len() {
        return None;
    }
    if base.len() > 0 && !comps_under(path, base) {
        return None;
    }
    assert(cv(path@).take(cv(base@).len() as int) =~= cv(base@));
    let mut rest: Vec<Vec<char>> = Vec::new();
    for i in base.len()..path.len()
        invariant
            base.len() <= path.len(),
            cv(rest@) == cv(path@).subrange(base.len() as int, i as int),
    {
        let ghost before = cv(rest@);
        rest.push(path[i].clone());
        assert(cv(rest@) =~= before.push(cv(path@)[i as int]));
        assert(cv(path@).subrange(base.len() as int, i + 1) =~= cv(path@).subrange(base.len() as int, i as int).push(cv(path@)[i as int]));
    }
    assert(cv(rest@) =~= cv(path@).skip(base.len() as int));
    Some(rest)
}

} // verus!
