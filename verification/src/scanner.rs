//! Scanner-side logic: size formatting, `df` parsing, views over the scan
//! tree and the scanner's own settings.

use vstd::prelude::*;
use crate::text::{decimal, digit_char, push_decimal, push_str};

verus! {

/// 1024 to the power `i`.
pub open spec fn pow1024(i: nat) -> nat
    decreases i,
{
    if i == 0 { 1 } else { 1024 * pow1024((i - 1) as nat) }
}

/// The unit a size is shown in: the first of B, KB, MB, GB, TB in which it
/// is below 1024, else PB.
pub open spec fn unit_index(size: nat) -> nat {
    if size < pow1024(1) { 0 }
    else if size < pow1024(2) { 1 }
    else if size < pow1024(3) { 2 }
    else if size < pow1024(4) { 3 }
    else if size < pow1024(5) { 4 }
    else { 5 }
}

/// The unit name for an index.
pub open spec fn unit_name(i: nat) -> Seq<char> {
    if i == 0 { "B"@ }
    else if i == 1 { "KB"@ }
    else if i == 2 { "MB"@ }
    else if i == 3 { "GB"@ }
    else if i == 4 { "TB"@ }
    else { "PB"@ }
}

/// `n / d` rounded to the nearest integer, ties to even.
pub open spec fn round_half_even(n: nat, d: nat) -> nat {
    let q = n / d;
    let r = n % d;
    if 2 * r > d || (2 * r == d && q % 2 == 1) { q + 1 } else { q }
}

/// A human-readable size: `0 B` for zero or negative sizes, whole bytes
/// below 1 KiB, otherwise the value in the unit of `unit_index` with one
/// decimal, rounded half to even (as `{:.1}` prints it).
pub open spec fn format_bytes_spec(size: int) -> Seq<char> {
    if size <= 0 {
        "0 B"@
    } else {
        let i = unit_index(size as nat);
        if i == 0 {
            decimal(size as nat) + " B"@
        } else {
            let t = round_half_even((size * 10) as nat, pow1024(i));
            decimal(t / 10) + seq!['.', digit_char(t % 10)] + " "@ + unit_name(i)
        }
    }
}

proof fn lemma_pow1024_values()
    ensures
        pow1024(0) == 1,
        pow1024(1) == 1024,
        pow1024(2) == 1048576,
        pow1024(3) == 1073741824,
        pow1024(4) == 1099511627776,
        pow1024(5) == 1125899906842624,
        pow1024(6) == 1152921504606846976,
{
    reveal_with_fuel(pow1024, 7);
}

fn unit_name_exec(i: u64) -> (r: &'static str)
    ensures
        r@ == unit_name(i as nat),
{
    if i == 0 { "B" }
    else if i == 1 { "KB" }
    else if i == 2 { "MB" }
    else if i == 3 { "GB" }
    else if i == 4 { "TB" }
    else { "PB" }
}

/// Formats a size in bytes for display (see `format_bytes_spec`).
pub fn format_bytes(size: i64) -> (r: String)
    ensures
        r@ == format_bytes_spec(size as int),
{
    proof {
        lemma_pow1024_values();
    }
    let mut out = String::new();
    if size <= 0 {
        out.append("0 B");
        return out;
    }
    let s: u64 = size as u64;
    let (i, p): (u64, u64) = if s < 1024 {
        (0, 1)
    } else if s < 1048576 {
        (1, 1024)
    } else if s < 1073741824 {
        (2, 1048576)
    } else if s < 1099511627776 {
        (3, 1073741824)
    } else if s < 1125899906842624 {
        (4, 1099511627776)
    } else {
        (5, 1125899906842624)
    };
    assert(i == unit_index(s as nat) && p == pow1024(i as nat));
    if i == 0 {
        push_decimal(&mut out, s);
        out.append(" B");
        return out;
    }
    let n: u128 = (s as u128) * 10;
    let q: u128 = n / (p as u128);
    let rem: u128 = n % (p as u128);
    let t: u128 = if 2 * rem > (p as u128) || (2 * rem == (p as u128) && q % 2 == 1) { q + 1 } else { q };
    assert(t == round_half_even((size * 10) as nat, pow1024(i as nat)));
    assert(t / 10 <= u64::MAX);
    push_decimal(&mut out, (t / 10) as u64);
    out.append(".");
    let d = (t % 10) as u64;
    let mut digit = String::new();
    crate::text::push_decimal(&mut digit, d);
    assert(decimal(d as nat) == seq![digit_char(d as nat)]);
    out.append(digit.as_str());
    out.append(" ");
    out.append(unit_name_exec(i));
    proof {
        reveal_strlit(".");
        reveal_strlit(" ");
        let tt = round_half_even((size * 10) as nat, pow1024(i as nat));
        assert(((t / 10) as u64) as nat == tt / 10);
        assert(d as nat == tt % 10);
        assert(decimal(d as nat) + " "@ =~= seq![digit_char(tt % 10)] + " "@);
        assert(seq!['.', digit_char(tt % 10)] =~= "."@ + seq![digit_char(tt % 10)]);
    }
    assert(out@ =~= format_bytes_spec(size as int));
    out
}

} // verus!

verus! {

/// `char::is_whitespace`: the Unicode White_Space characters.
pub open spec fn is_ws(c: char) -> bool {
    let u = c as u32;
    (9 <= u && u <= 13) || u == 32 || u == 0x85 || u == 0xA0 || u == 0x1680 || (0x2000 <= u && u <= 0x200A)
        || u == 0x2028 || u == 0x2029 || u == 0x202F || u == 0x205F || u == 0x3000
}

pub fn is_ws_exec(c: char) -> (r: bool)
    ensures
        r == is_ws(c),
{
    let u = c as u32;
    (9 <= u && u <= 13) || u == 32 || u == 0x85 || u == 0xA0 || u == 0x1680 || (0x2000 <= u && u <= 0x200A)
        || u == 0x2028 || u == 0x2029 || u == 0x202F || u == 0x205F || u == 0x3000
}

/// Whitespace splitting, scanned left to right: the finished tokens and the
/// token in progress.
pub open spec fn ws_scan(s: Seq<char>) -> (Seq<Seq<char>>, Seq<char>)
    decreases s.len(),
{
    if s.len() == 0 {
        (Seq::empty(), Seq::empty())
    } else {
        let (toks, cur) = ws_scan(s.drop_last());
        if is_ws(s.last()) {
            if cur.len() > 0 { (toks.push(cur), Seq::empty()) } else { (toks, Seq::empty()) }
        } else {
            (toks, cur.push(s.last()))
        }
    }
}

/// The maximal runs of non-whitespace characters (`str::split_whitespace`).
pub open spec fn ws_tokens(s: Seq<char>) -> Seq<Seq<char>> {
    let (toks, cur) = ws_scan(s);
    if cur.len() > 0 { toks.push(cur) } else { toks }
}

/// Splits at whitespace (see `ws_tokens`).
pub fn split_whitespace_chars(s: &Vec<char>) -> (r: Vec<Vec<char>>)
    ensures
        crate::paths::cv(r@) == ws_tokens(s@),
{
    let mut toks: Vec<Vec<char>> = Vec::new();
    let mut cur: Vec<char> = Vec::new();
    assert(s@.take(0) =~= Seq::<char>::empty());
    for i in 0..s.len()
        invariant
            (crate::paths::cv(toks@), cur@) == ws_scan(s@.take(i as int)),
    {
        assert(s@.take(i + 1).drop_last() == s@.take(i as int));
        assert(s@.take(i + 1).last() == s@[i as int]);
        if is_ws_exec(s[i]) {
            if cur.len() > 0 {
                let ghost before = crate::paths::cv(toks@);
                toks.push(cur);
                assert(crate::paths::cv(toks@) =~= before.push(ws_scan(s@.take(i as int)).1));
                cur = Vec::new();
            }
            assert(cur@ =~= Seq::<char>::empty());
        } else {
            cur.push(s[i]);
        }
    }
    assert(s@.take(s@.len() as int) == s@);
    if cur.len() > 0 {
        let ghost before = crate::paths::cv(toks@);
        toks.push(cur);
        assert(crate::paths::cv(toks@) =~= before.push(ws_scan(s@).1));
    }
    toks
}

/// Whether a character is an ASCII digit.
pub open spec fn is_digit(c: char) -> bool {
    '0' <= c && c <= '9'
}

/// The value of a string of decimal digits.
pub open spec fn digits_value(d: Seq<char>) -> nat
    decreases d.len(),
{
    if d.len() == 0 { 0 } else { digits_value(d.drop_last()) * 10 + ((d.last() as u32) - 48) as nat }
}

/// The digits of an unsigned number: without a leading `+`.
pub open spec fn digits_part(s: Seq<char>) -> Seq<char> {
    if s.len() > 0 && s[0] == '+' { s.skip(1) } else { s }
}

/// Whether every character is an ASCII digit.
pub open spec fn all_digits(d: Seq<char>) -> bool {
    forall|i: int| 0 <= i < d.len() ==> is_digit(#[trigger] d[i])
}

/// `u64::from_str`: an optional `+`, then one or more ASCII digits whose
/// value fits in 64 bits.
pub open spec fn parse_u64_spec(s: Seq<char>) -> Option<u64> {
    let d = digits_part(s);
    if d.len() == 0 || !all_digits(d) {
        None
    } else if digits_value(d) > u64::MAX {
        None
    } else {
        Some(digits_value(d) as u64)
    }
}

proof fn lemma_digits_value_mono(d: Seq<char>, k: int)
    requires
        0 <= k <= d.len(),
        forall|i: int| 0 <= i < d.len() ==> is_digit(#[trigger] d[i]),
    ensures
        digits_value(d.take(k)) <= digits_value(d),
    decreases d.len() - k,
{
    if k < d.len() {
        lemma_digits_value_mono(d, k + 1);
        assert(d.take(k + 1).drop_last() == d.take(k));
        assert(d.take(k + 1).last() == d[k]);
    } else {
        assert(d.take(k) == d);
    }
}

/// Parses a `u64` as `str::parse` does (see `parse_u64_spec`).
pub fn parse_u64_chars(s: &Vec<char>) -> (r: Option<u64>)
    ensures
        r == parse_u64_spec(s@),
{
    let start: usize = if s.len() > 0 && s[0] == '+' { 1 } else { 0 };
    let ghost d = if s@.len() > 0 && s@[0] == '+' { s@.skip(1) } else { s@ };
    assert(d =~= s@.skip(start as int));
    if start >= s.len() {
        return None;
    }
    let mut value: u128 = 0;
    let mut over = false;
    let mut i = start;
    assert(d.take(0) =~= Seq::<char>::empty());
    while i < s.len()
        invariant
            start <= i <= s@.len(),
            d == s@.skip(start as int),
            d == digits_part(s@),
            forall|j: int| 0 <= j < i - start ==> is_digit(#[trigger] d[j]),
            !over ==> value == digits_value(d.take(i - start)) && value <= u64::MAX,
            over ==> digits_value(d.take(i - start)) > u64::MAX,
        decreases s@.len() - i,
    {
        let c = s[i];
        if !('0' <= c && c <= '9') {
            proof {
                let w: int = i as int - start as int;
                assert(d[w] == c);
                assert(!is_digit(d[w]));
                assert(!all_digits(d));
            }
            return None;
        }
        let k = i - start;
        assert(d.take(k + 1).drop_last() == d.take(k as int));
        assert(d.take(k + 1).last() == c);
        let dv = (c as u32 - 48) as u128;
        if !over {
            let nv = value * 10 + dv;
            if nv > (u64::MAX as u128) {
                over = true;
            } else {
                value = nv;
            }
        }
        i = i + 1;
    }
    assert(d.take(d.len() as int) == d);
    if over {
        None
    } else {
        Some(value as u64)
    }
}

/// A string of the parts of `ps` joined by single spaces.
pub open spec fn join_spaces(ps: Seq<Seq<char>>) -> Seq<char>
    decreases ps.len(),
{
    if ps.len() == 0 {
        Seq::empty()
    } else if ps.len() == 1 {
        ps[0]
    } else {
        join_spaces(ps.drop_last()) + seq![' '] + ps.last()
    }
}

/// A `df -Pk` line: filesystem, 1K-blocks, used, available and the mount
/// point (the sixth field onwards, joined by single spaces); `None` with
/// fewer than six fields or a count that is not a `u64`.
pub open spec fn parse_df_spec(line: Seq<char>) -> Option<(Seq<char>, u64, u64, u64, Seq<char>)> {
    let p = ws_tokens(line);
    if p.len() < 6 {
        None
    } else {
        match (parse_u64_spec(p[1]), parse_u64_spec(p[2]), parse_u64_spec(p[3])) {
            (Some(b), Some(u), Some(a)) => Some((p[0], b, u, a, join_spaces(p.skip(5)))),
            _ => None,
        }
    }
}

/// Parses one POSIX `df -Pk` line (see `parse_df_spec`).
pub fn parse_df_line(line: &str) -> (r: Option<(String, u64, u64, u64, String)>)
    ensures
        match parse_df_spec(line@) {
            Some((f, b, u, a, m)) => r matches Some(x) && x.0@ == f && x.1 == b && x.2 == u && x.3 == a && x.4@ == m,
            None => r is None,
        },
{
    let cs = crate::text::chars_of(line);
    let parts = split_whitespace_chars(&cs);
    if parts.len() < 6 {
        return None;
    }
    let ghost p = crate::paths::cv(parts@);
    assert(p[1] == parts@[1]@ && p[2] == parts@[2]@ && p[3] == parts@[3]@ && p[0] == parts@[0]@);
    let blocks = match parse_u64_chars(&parts[1]) {
        Some(v) => v,
        None => return None,
    };
    let used = match parse_u64_chars(&parts[2]) {
        Some(v) => v,
        None => return None,
    };
    let available = match parse_u64_chars(&parts[3]) {
        Some(v) => v,
        None => return None,
    };
    let filesystem = crate::text::string_of(&parts[0]);
    let mut mount: Vec<char> = Vec::new();
    let ghost rest = p.skip(5);
    assert(rest.take(1) =~= seq![p[5]]);
    for i in 5..parts.len()
        invariant
            parts@.len() >= 6,
            p == crate::paths::cv(parts@),
            rest == p.skip(5),
            i > 5 ==> mount@ == join_spaces(rest.take(i - 5)),
            i == 5 ==> mount@.len() == 0,
    {
        assert(p[i as int] == parts@[i as int]@);
        if i > 5 {
            mount.push(' ');
        }
        let part = &parts[i];
        for j in 0..part.len()
            invariant
                i > 5 ==> mount@ == join_spaces(rest.take(i - 5)) + seq![' '] + part@.take(j as int),
                i == 5 ==> mount@ == part@.take(j as int),
        {
            mount.push(part[j]);
            assert(part@.take(j + 1) == part@.take(j as int).push(part@[j as int]));
        }
        assert(part@.take(part@.len() as int) == part@);
        assert(rest.take(i - 5 + 1).drop_last() == rest.take(i - 5));
        assert(rest.take(i - 5 + 1).last() == part@);
        if i == 5 {
            assert(rest.take(1) == seq![part@]);
        }
    }
    assert(rest.take(parts@.len() - 5) == rest);
    Some((filesystem, blocks, used, available, crate::text::string_of(&mount)))
}

} // verus!

verus! {

/// The text split at every `\n` (empty pieces included).
pub open spec fn nl_segs(s: Seq<char>) -> Seq<Seq<char>>
    decreases s.len(),
{
    if s.len() == 0 {
        seq![Seq::<char>::empty()]
    } else {
        let prev = nl_segs(s.drop_last());
        if s.last() == '\n' {
            prev.push(Seq::<char>::empty())
        } else {
            prev.update(prev.len() - 1, prev.last().push(s.last()))
        }
    }
}

proof fn lemma_nl_segs_nonempty(s: Seq<char>)
    ensures
        nl_segs(s).len() >= 1,
    decreases s.len(),
{
    if s.len() > 0 {
        lemma_nl_segs_nonempty(s.drop_last());
    }
}

/// A line without the `\r` of a `\r\n` ending.
pub open spec fn strip_cr(l: Seq<char>) -> Seq<char> {
    if l.len() > 0 && l.last() == '\r' { l.drop_last() } else { l }
}

/// The lines of a text as `str::lines` yields them: split at `\n`, a `\r`
/// before the `\n` removed, and no empty last line after a final `\n`.
pub open spec fn str_lines(s: Seq<char>) -> Seq<Seq<char>> {
    let ps = nl_segs(s);
    let body = ps.drop_last().map_values(|l: Seq<char>| strip_cr(l));
    if ps.last().len() > 0 { body.push(ps.last()) } else { body }
}

fn strip_cr_exec(l: Vec<char>) -> (r: Vec<char>)
    ensures
        r@ == strip_cr(l@),
{
    let mut l = l;
    if l.len() > 0 && l[l.len() - 1] == '\r' {
        l.pop();
    }
    l
}

/// The lines of a text (see `str_lines`).
pub fn lines_of(s: &Vec<char>) -> (r: Vec<Vec<char>>)
    ensures
        crate::paths::cv(r@) == str_lines(s@),
{
    let mut out: Vec<Vec<char>> = Vec::new();
    let mut cur: Vec<char> = Vec::new();
    assert(s@.take(0) =~= Seq::<char>::empty());
    for i in 0..s.len()
        invariant
            crate::paths::cv(out@) == nl_segs(s@.take(i as int)).drop_last().map_values(|l: Seq<char>| strip_cr(l)),
            cur@ == nl_segs(s@.take(i as int)).last(),
    {
        let ghost t = s@.take(i as int);
        assert(s@.take(i + 1).drop_last() == t);
        assert(s@.take(i + 1).last() == s@[i as int]);
        proof {
            lemma_nl_segs_nonempty(t);
        }
        if s[i] == '\n' {
            let ghost before = crate::paths::cv(out@);
            let ghost cur_old = cur@;
            let line = strip_cr_exec(cur);
            out.push(line);
            assert(crate::paths::cv(out@) =~= before.push(strip_cr(cur_old)));
            assert(nl_segs(s@.take(i + 1)).drop_last() == nl_segs(t));
            assert(nl_segs(t) == nl_segs(t).drop_last().push(nl_segs(t).last()));
            assert(crate::paths::cv(out@) =~= nl_segs(s@.take(i + 1)).drop_last().map_values(|l: Seq<char>| strip_cr(l)));
            cur = Vec::new();
            assert(cur@ =~= nl_segs(s@.take(i + 1)).last());
        } else {
            cur.push(s[i]);
            assert(nl_segs(s@.take(i + 1)).drop_last() =~= nl_segs(t).drop_last());
        }
    }
    assert(s@.take(s@.len() as int) == s@);
    if cur.len() > 0 {
        let ghost before = crate::paths::cv(out@);
        out.push(cur);
        assert(crate::paths::cv(out@) =~= before.push(nl_segs(s@).last()));
    }
    out
}

/// The volume a `df` data line describes, or `None` when it is skipped:
/// unparsable, a mount point not starting with `/`, or a `devfs`/`map`
/// filesystem. The name is the mount point's last component (the whole
/// mount point when it has none); sizes are 1K-blocks times 1024 (modulo
/// 2^64).
pub open spec fn df_volume(line: Seq<char>) -> Option<(Seq<char>, Seq<char>, u64, u64, u64)> {
    match parse_df_spec(line) {
        Some((f, b, u, a, m)) => {
            if !crate::text::is_prefix_of(seq!['/'], m) {
                None
            } else if crate::text::is_prefix_of("devfs"@, f) || crate::text::is_prefix_of("map"@, f) {
                None
            } else {
                let name = match crate::paths::file_name_of(m) {
                    Some(n) => if n.len() > 0 { n } else { m },
                    None => m,
                };
                Some((name, m, (b * 1024) as u64, (u * 1024) as u64, (a * 1024) as u64))
            }
        },
        None => None,
    }
}

/// The view of a volume.
pub open spec fn volume_view(v: crate::models::VolumeInfo) -> (Seq<char>, Seq<char>, u64, u64, u64) {
    (v.name@, v.mount_point@, v.total_bytes, v.used_bytes, v.free_bytes)
}

/// The lines after the first (the header).
pub open spec fn after_header(ls: Seq<Seq<char>>) -> Seq<Seq<char>> {
    if ls.len() == 0 { ls } else { ls.skip(1) }
}

/// The volumes of the data lines (all lines after the header) of `df -Pk`
/// output, in order.
pub open spec fn df_volumes(lines: Seq<Seq<char>>) -> Seq<(Seq<char>, Seq<char>, u64, u64, u64)>
    decreases lines.len(),
{
    if lines.len() == 0 {
        Seq::empty()
    } else {
        let p = df_volumes(lines.drop_last());
        match df_volume(lines.last()) {
            Some(v) => p.push(v),
            None => p,
        }
    }
}

fn df_volume_exec(line: &Vec<char>) -> (r: Option<crate::models::VolumeInfo>)
    ensures
        match df_volume(line@) {
            Some(v) => r matches Some(x) && volume_view(x) == v,
            None => r is None,
        },
{
    let ls = crate::text::string_of(line);
    let (filesystem, blocks, used, available, mount) = match parse_df_line(ls.as_str()) {
        Some(t) => t,
        None => return None,
    };
    let mc = crate::text::chars_of(mount.as_str());
    let fc = crate::text::chars_of(filesystem.as_str());
    let slash = crate::text::chars_of("/");
    proof {
        reveal_strlit("/");
    }
    assert(slash@ =~= seq!['/']);
    if !crate::text::starts_with_chars(&mc, &slash) {
        return None;
    }
    let devfs = crate::text::chars_of("devfs");
    let map = crate::text::chars_of("map");
    if crate::text::starts_with_chars(&fc, &devfs) || crate::text::starts_with_chars(&fc, &map) {
        return None;
    }
    let name = match crate::paths::file_name(mount.as_str()) {
        Some(n) => if n.len() > 0 { crate::text::string_of(&n) } else { mount.clone() },
        None => mount.clone(),
    };
    let total: u64 = ((blocks as u128) * 1024) as u64;
    let usedb: u64 = ((used as u128) * 1024) as u64;
    let free: u64 = ((available as u128) * 1024) as u64;
    Some(crate::models::VolumeInfo { name, mount_point: mount, total_bytes: total, used_bytes: usedb, free_bytes: free })
}

/// Parses `df -Pk` output into volumes (see `df_volumes`); the first line
/// is the header.
pub fn parse_volumes_from_df(stdout: &str) -> (r: Vec<crate::models::VolumeInfo>)
    ensures
        r@.map_values(|v: crate::models::VolumeInfo| volume_view(v)) == df_volumes(after_header(str_lines(stdout@))),
{
    let cs = crate::text::chars_of(stdout);
    let lines = lines_of(&cs);
    let mut out: Vec<crate::models::VolumeInfo> = Vec::new();
    if lines.len() == 0 {
        assert(out@.map_values(|v: crate::models::VolumeInfo| volume_view(v)) =~= Seq::<(Seq<char>, Seq<char>, u64, u64, u64)>::empty());
        return out;
    }
    let ghost ls = after_header(str_lines(stdout@));
    assert(ls.take(0) =~= Seq::<Seq<char>>::empty());
    for i in 1..lines.len()
        invariant
            crate::paths::cv(lines@) == str_lines(stdout@),
            lines@.len() >= 1,
            ls == str_lines(stdout@).skip(1),
            ls == after_header(str_lines(stdout@)),
            out@.map_values(|v: crate::models::VolumeInfo| volume_view(v)) == df_volumes(ls.take(i - 1)),
    {
        assert(ls[i - 1] == lines@[i as int]@);
        assert(ls.take(i as int).drop_last() == ls.take(i - 1));
        assert(ls.take(i as int).last() == ls[i - 1]);
        match df_volume_exec(&lines[i]) {
            Some(v) => {
                let ghost before = out@.map_values(|v: crate::models::VolumeInfo| volume_view(v));
                out.push(v);
                assert(out@.map_values(|v: crate::models::VolumeInfo| volume_view(v)) =~= before.push(volume_view(v)));
            },
            None => {},
        }
    }
    assert(ls.take(lines@.len() - 1) == ls);
    out
}

} // verus!

verus! {

use crate::models::{ScanNode, NodeModel, ExtensionStats, descendants_of, ref_models, wadd};
use crate::order::{SortItem, item_view, items_view, sort_indices, sorted_perm, sorted_order};

/// The files of `ms` with a non-zero size, in order.
pub open spec fn sized_files(ms: Seq<NodeModel>) -> Seq<NodeModel>
    decreases ms.len(),
{
    if ms.len() == 0 {
        Seq::empty()
    } else {
        let p = sized_files(ms.drop_last());
        if !ms.last().is_dir && ms.last().size > 0 { p.push(ms.last()) } else { p }
    }
}

/// Size keys for sorting.
pub open spec fn size_keys(ms: Seq<NodeModel>) -> Seq<(Seq<char>, int)> {
    ms.map_values(|m: NodeModel| (Seq::<char>::empty(), m.size as int))
}

/// The `n` largest files under `root` (non-empty files among the
/// descendants), largest first; files of equal size keep descendant order.
pub fn collect_largest_files(root: &ScanNode, n: usize) -> (r: Vec<&ScanNode>)
    ensures
        r@.len() == if n < sized_files(descendants_of(root.model())).len() { n as int } else {
            sized_files(descendants_of(root.model())).len() as int
        },
        forall|i: int| 0 <= i < r@.len() ==> (#[trigger] r@[i]).model()
            == sized_files(descendants_of(root.model()))[sorted_order(size_keys(sized_files(descendants_of(root.model()))), true)[i] as int],
{
    let all = root.iter_descendants();
    let ghost ms = descendants_of(root.model());
    let mut files: Vec<&ScanNode> = Vec::new();
    assert(ms.take(0) =~= Seq::<NodeModel>::empty());
    for i in 0..all.len()
        invariant
            ref_models(all@) == ms,
            ref_models(files@) == sized_files(ms.take(i as int)),
    {
        assert(ms.take(i + 1).drop_last() == ms.take(i as int));
        assert(ms.take(i + 1).last() == all@[i as int].model());
        let node = all[i];
        if !node.is_dir && node.size > 0 {
            let ghost before = ref_models(files@);
            files.push(node);
            assert(ref_models(files@) =~= before.push(node.model()));
        }
    }
    assert(ms.take(all@.len() as int) == ms);
    let ghost fs = sized_files(ms);
    let mut keys: Vec<SortItem> = Vec::new();
    for i in 0..files.len()
        invariant
            ref_models(files@) == fs,
            items_view(keys@) == size_keys(fs).take(i as int),
    {
        assert(fs[i as int] == files@[i as int].model());
        let ghost before = items_view(keys@);
        let item = SortItem { text: Vec::new(), num: files[i].size as i128 };
        assert(item.text@ =~= Seq::<char>::empty());
        assert(item_view(item) == size_keys(fs)[i as int]);
        keys.push(item);
        assert(items_view(keys@) =~= before.push(item_view(item)));
        assert(size_keys(fs).take(i + 1) =~= size_keys(fs).take(i as int).push(size_keys(fs)[i as int]));
    }
    assert(size_keys(fs).take(files@.len() as int) =~= size_keys(fs));
    let p = sort_indices(&keys, true);
    let take = if n < p.len() { n } else { p.len() };
    let mut out: Vec<&ScanNode> = Vec::new();
    for i in 0..take
        invariant
            take <= p@.len(),
            sorted_perm(p@, size_keys(fs), true),
            ref_models(files@) == fs,
            out@.len() == i,
            forall|j: int| 0 <= j < i ==> (#[trigger] out@[j]).model() == fs[p@[j] as int],
    {
        let k = p[i];
        assert(fs[k as int] == files@[k as int].model());
        out.push(files[k]);
    }
    out
}

/// The extension a file is grouped under: its own, or the one derived from
/// its name when empty.
pub open spec fn ext_of(m: NodeModel) -> Seq<char> {
    if m.extension.len() == 0 { crate::scan_cache::extension_spec(m.name) } else { m.extension }
}

/// The first group with extension `e`.
pub open spec fn group_index(st: Seq<(Seq<char>, u64, u64)>, e: Seq<char>) -> Option<int>
    decreases st.len(),
{
    if st.len() == 0 {
        None
    } else {
        match group_index(st.drop_last(), e) {
            Some(j) => Some(j),
            None => if st.last().0 == e { Some(st.len() - 1) } else { None },
        }
    }
}

/// Per-extension totals of the files of `ms`, groups in order of first
/// appearance: total size and file count (modulo 2^64).
pub open spec fn ext_groups(ms: Seq<NodeModel>) -> Seq<(Seq<char>, u64, u64)>
    decreases ms.len(),
{
    if ms.len() == 0 {
        Seq::empty()
    } else {
        let st = ext_groups(ms.drop_last());
        let m = ms.last();
        if m.is_dir {
            st
        } else {
            match group_index(st, ext_of(m)) {
                Some(j) => if 0 <= j < st.len() { st.update(j, (st[j].0, wadd(st[j].1, m.size), wadd(st[j].2, 1))) } else { st },
                None => st.push((ext_of(m), m.size, 1u64)),
            }
        }
    }
}

/// Total keys for sorting groups.
pub open spec fn group_keys(st: Seq<(Seq<char>, u64, u64)>) -> Seq<(Seq<char>, int)> {
    st.map_values(|g: (Seq<char>, u64, u64)| (Seq::<char>::empty(), g.1 as int))
}

/// The view of extension statistics.
pub open spec fn stats_view(s: ExtensionStats) -> (Seq<char>, u64, u64) {
    (s.extension@, s.total_size, s.file_count)
}

fn find_group(st: &Vec<ExtensionStats>, e: &Vec<char>) -> (r: Option<usize>)
    ensures
        match r {
            Some(j) => j < st@.len() && group_index(st@.map_values(|s: ExtensionStats| stats_view(s)), e@) == Some(j as int),
            None => group_index(st@.map_values(|s: ExtensionStats| stats_view(s)), e@) is None,
        },
{
    let ghost v = st@.map_values(|s: ExtensionStats| stats_view(s));
    for i in 0..st.len()
        invariant
            v == st@.map_values(|s: ExtensionStats| stats_view(s)),
            group_index(v.take(i as int), e@) is None,
    {
        assert(v.take(i + 1).drop_last() == v.take(i as int));
        let ec = crate::text::chars_of(st[i].extension.as_str());
        if crate::text::chars_eq(&ec, e) {
            assert(group_index(v.take(i + 1), e@) == Some(i as int));
            proof {
                lemma_group_index_prefix(v, i + 1, e@, i as int);
            }
            return Some(i);
        }
    }
    assert(v.take(st@.len() as int) == v);
    None
}

proof fn lemma_group_index_prefix(v: Seq<(Seq<char>, u64, u64)>, k: int, e: Seq<char>, j: int)
    requires
        0 <= k <= v.len(),
        group_index(v.take(k), e) == Some(j),
    ensures
        group_index(v, e) == Some(j),
    decreases v.len() - k,
{
    if k < v.len() {
        assert(v.take(k + 1).drop_last() == v.take(k));
        lemma_group_index_prefix(v, k + 1, e, j);
    } else {
        assert(v.take(k) == v);
    }
}

/// Size and count per file extension under `root`, largest total first;
/// groups of equal total keep the order in which their extension first
/// appears among the descendants.
pub fn collect_extension_stats(root: &ScanNode) -> (r: Vec<ExtensionStats>)
    ensures
        r@.len() == ext_groups(descendants_of(root.model())).len(),
        forall|i: int| 0 <= i < r@.len() ==> stats_view(#[trigger] r@[i])
            == ext_groups(descendants_of(root.model()))[sorted_order(group_keys(ext_groups(descendants_of(root.model()))), true)[i] as int],
        forall|i: int| 0 <= i < r@.len() ==> {
            &&& (#[trigger] r@[i]).total_size as int
                == (ext_size_total(descendants_of(root.model()), r@[i].extension@) as int) % 0x1_0000_0000_0000_0000
            &&& r@[i].file_count as int
                == (ext_file_total(descendants_of(root.model()), r@[i].extension@) as int) % 0x1_0000_0000_0000_0000
        },
        forall|i: int, j: int| 0 <= i < j < r@.len() ==> (#[trigger] r@[i]).total_size >= (#[trigger] r@[j]).total_size,
{
    let all = root.iter_descendants();
    let ghost ms = descendants_of(root.model());
    let mut st: Vec<ExtensionStats> = Vec::new();
    assert(ms.take(0) =~= Seq::<NodeModel>::empty());
    for i in 0..all.len()
        invariant
            ref_models(all@) == ms,
            st@.map_values(|s: ExtensionStats| stats_view(s)) == ext_groups(ms.take(i as int)),
    {
        assert(ms.take(i + 1).drop_last() == ms.take(i as int));
        assert(ms.take(i + 1).last() == all@[i as int].model());
        let node = all[i];
        if !node.is_dir {
            let ext = if node.extension.as_str().is_empty() {
                crate::scan_cache::get_file_extension(node.name.as_str())
            } else {
                node.extension.clone()
            };
            let ec = crate::text::chars_of(ext.as_str());
            let ghost before = st@.map_values(|s: ExtensionStats| stats_view(s));
            match find_group(&st, &ec) {
                Some(j) => {
                    let old_total = st[j].total_size;
                    let old_count = st[j].file_count;
                    let e2 = st[j].extension.clone();
                    st.set(j, ExtensionStats {
                        extension: e2,
                        total_size: old_total.wrapping_add(node.size),
                        file_count: old_count.wrapping_add(1),
                    });
                    assert(st@.map_values(|s: ExtensionStats| stats_view(s)) =~= before.update(j as int,
                        (before[j as int].0, wadd(before[j as int].1, node.size), wadd(before[j as int].2, 1))));
                },
                None => {
                    st.push(ExtensionStats { extension: ext, total_size: node.size, file_count: 1 });
                    assert(st@.map_values(|s: ExtensionStats| stats_view(s)) =~= before.push((ec@, node.size, 1u64)));
                },
            }
        }
    }
    assert(ms.take(all@.len() as int) == ms);
    let ghost gs = ext_groups(ms);
    let mut keys: Vec<SortItem> = Vec::new();
    for i in 0..st.len()
        invariant
            st@.map_values(|s: ExtensionStats| stats_view(s)) == gs,
            items_view(keys@) == group_keys(gs).take(i as int),
    {
        assert(gs[i as int] == stats_view(st@[i as int]));
        let ghost before = items_view(keys@);
        let item = SortItem { text: Vec::new(), num: st[i].total_size as i128 };
        assert(item.text@ =~= Seq::<char>::empty());
        assert(item_view(item) == group_keys(gs)[i as int]);
        keys.push(item);
        assert(items_view(keys@) =~= before.push(item_view(item)));
        assert(group_keys(gs).take(i + 1) =~= group_keys(gs).take(i as int).push(group_keys(gs)[i as int]));
    }
    assert(group_keys(gs).take(st@.len() as int) =~= group_keys(gs));
    let p = sort_indices(&keys, true);
    let mut out: Vec<ExtensionStats> = Vec::new();
    for i in 0..p.len()
        invariant
            sorted_perm(p@, group_keys(gs), true),
            st@.map_values(|s: ExtensionStats| stats_view(s)) == gs,
            out@.len() == i,
            forall|j: int| 0 <= j < i ==> stats_view(#[trigger] out@[j]) == gs[p@[j] as int],
    {
        let k = p[i];
        assert(gs[k as int] == stats_view(st@[k as int]));
        out.push(ExtensionStats { extension: st[k].extension.clone(), total_size: st[k].total_size, file_count: st[k].file_count });
    }
    proof {
        law_extension_groups_sum_their_files(ms);
        crate::order::lemma_sorted_perm_unique(p@, group_keys(gs), true);
        assert forall|i: int| 0 <= i < out@.len() implies {
            &&& (#[trigger] out@[i]).total_size as int
                == (ext_size_total(ms, out@[i].extension@) as int) % 0x1_0000_0000_0000_0000
            &&& out@[i].file_count as int
                == (ext_file_total(ms, out@[i].extension@) as int) % 0x1_0000_0000_0000_0000
        } by {
            assert(stats_view(out@[i]) == gs[p@[i] as int]);
            assert(p@[i] < gs.len());
        }
        assert forall|i: int, j: int| 0 <= i < j < out@.len() implies (#[trigger] out@[i]).total_size >= (#[trigger] out@[j]).total_size by {
            let x = p@[i] as int;
            let y = p@[j] as int;
            assert(crate::order::before(group_keys(gs), true, x, y));
            assert(group_keys(gs)[x] == (Seq::<char>::empty(), gs[x].1 as int));
            assert(group_keys(gs)[y] == (Seq::<char>::empty(), gs[y].1 as int));
            assert(crate::order::lex_order(Seq::<char>::empty(), Seq::<char>::empty()) == 0);
            assert(stats_view(out@[i]) == gs[x]);
            assert(stats_view(out@[j]) == gs[y]);
        }
    }
    out
}

} // verus!

verus! {

use crate::paths::{PathEnv, key_spec};
use crate::models::{rollup_path, rollup_chain_spec};

/// The number of scan workers for a machine with `cpus` cores: twice the
/// cores, at most 32.
pub open spec fn workers_for(cpus: usize) -> int {
    if 2 * cpus < 32 { 2 * cpus } else { 32 }
}

/// Scan settings and the shared cancel flag.
pub struct DirectoryScanner {
    pub follow_symlinks: bool,
    pub show_hidden: bool,
    pub max_workers: usize,
    /// The canonical root of the last scan (empty before the first).
    pub scan_root: String,
    pub cancel: std::sync::Arc<std::sync::atomic::AtomicBool>,
    /// Home and working directory, for path keys.
    pub env: PathEnv,
}

impl DirectoryScanner {
    /// A scanner that does not follow symlinks or show hidden files, with
    /// `workers_for(cpus)` workers (`cpus` as the caller measured it) and the
    /// cancel flag cleared.
    pub fn new(env: PathEnv, cpus: usize) -> (r: DirectoryScanner)
        ensures
            !r.follow_symlinks,
            !r.show_hidden,
            r.max_workers == workers_for(cpus),
            r.scan_root@ == Seq::<char>::empty(),
            r.env == env,
    {
        let max_workers: usize = if cpus > 16 { 32 } else { cpus * 2 };
        DirectoryScanner {
            follow_symlinks: false,
            show_hidden: false,
            max_workers,
            scan_root: String::new(),
            cancel: std::sync::Arc::new(std::sync::atomic::AtomicBool::new(false)),
            env,
        }
    }

    /// Asks a running scan to stop.
    pub fn cancel(&self) {
        self.cancel.store(true, std::sync::atomic::Ordering::SeqCst);
    }

    /// Clears the cancel request.
    pub fn reset_cancel(&self) {
        self.cancel.store(false, std::sync::atomic::Ordering::SeqCst);
    }

    /// Whether a cancel has been requested.
    pub fn is_cancelled(&self) -> bool {
        self.cancel.load(std::sync::atomic::Ordering::SeqCst)
    }

    /// Recomputes the totals of the node at `target_path` and of every
    /// ancestor up to `root`, bottom-up, one component per level.
    pub fn rollup_chain(&self, root: &mut ScanNode, target_path: &str)
        ensures
            final(root).model() == rollup_chain_spec(old(root).model(), target_path@, self.env.home@, self.env.cwd@),
    {
        rollup_path(root, target_path, &self.env);
    }
}

} // verus!

verus! {

/// Whether a normalized path is the mount point of a volume: the root, or
/// equal component by component to one of the (normalized) mount points.
pub open spec fn is_mount_root_spec(normalized: Seq<char>, mounts: Seq<Seq<char>>) -> bool {
    ||| crate::paths::path_components(normalized) == crate::paths::path_components("/"@)
    ||| exists|i: int| 0 <= i < mounts.len()
            && crate::paths::path_components(#[trigger] mounts[i]) == crate::paths::path_components(normalized)
}

/// Whether `normalized` is a volume's mount point (see `is_mount_root_spec`);
/// `mounts` are the normalized mount points of the listed volumes.
pub fn is_volume_mount_root(normalized: &str, mounts: &Vec<String>) -> (r: bool)
    ensures
        r == is_mount_root_spec(normalized@, crate::text::strs(mounts@)),
{
    let pc = crate::paths::components(normalized);
    let rc = crate::paths::components("/");
    if crate::paths::comps_eq(&pc, &rc) {
        return true;
    }
    for i in 0..mounts.len()
        invariant
            crate::paths::cv(pc@) == crate::paths::path_components(normalized@),
            crate::paths::cv(rc@) == crate::paths::path_components("/"@),
            crate::paths::cv(pc@) != crate::paths::cv(rc@),
            forall|j: int| 0 <= j < i ==> crate::paths::path_components(#[trigger] crate::text::strs(mounts@)[j])
                != crate::paths::path_components(normalized@),
    {
        let mc = crate::paths::components(mounts[i].as_str());
        assert(crate::text::strs(mounts@)[i as int] == mounts@[i as int]@);
        if crate::paths::comps_eq(&mc, &pc) {
            return true;
        }
    }
    false
}

/// The byte total to show for a full scan: the volume's size when the
/// scanned path is a mount point (as `volume_bytes` gives it), else none.
pub fn volume_total_for_full_scan(normalized: &str, mounts: &Vec<String>, volume_bytes: Option<u64>) -> (r: Option<u64>)
    ensures
        r == if is_mount_root_spec(normalized@, crate::text::strs(mounts@)) { volume_bytes } else { None },
{
    if is_volume_mount_root(normalized, mounts) {
        volume_bytes
    } else {
        None
    }
}

/// The volume reported for `/` when `df` cannot be run: sizes from the
/// file-system statistics of the root (`blocks` and `available` counted in
/// fragments of `fragment_size` bytes).
pub fn root_volume_from_stats(blocks: u64, available: u64, fragment_size: u64) -> (r: crate::models::VolumeInfo)
    requires
        blocks * fragment_size <= u64::MAX,
        available * fragment_size <= u64::MAX,
    ensures
        r.name@ == "Macintosh HD"@,
        r.mount_point@ == "/"@,
        r.total_bytes == blocks * fragment_size,
        r.free_bytes == available * fragment_size,
        r.used_bytes == if blocks * fragment_size >= available * fragment_size {
            blocks * fragment_size - available * fragment_size
        } else {
            0
        },
{
    let total = blocks * fragment_size;
    let free = available * fragment_size;
    crate::models::VolumeInfo {
        name: "Macintosh HD".to_owned(),
        mount_point: "/".to_owned(),
        total_bytes: total,
        used_bytes: total.saturating_sub(free),
        free_bytes: free,
    }
}

} // verus!

verus! {

/// The total size of the files among `ms` whose extension (as grouped) is
/// `e`.
pub open spec fn ext_size_total(ms: Seq<NodeModel>, e: Seq<char>) -> nat
    decreases ms.len(),
{
    if ms.len() == 0 {
        0
    } else {
        let m = ms.last();
        ext_size_total(ms.drop_last(), e) + if !m.is_dir && ext_of(m) == e { m.size as nat } else { 0 }
    }
}

/// The number of files among `ms` whose extension (as grouped) is `e`.
pub open spec fn ext_file_total(ms: Seq<NodeModel>, e: Seq<char>) -> nat
    decreases ms.len(),
{
    if ms.len() == 0 {
        0
    } else {
        let m = ms.last();
        ext_file_total(ms.drop_last(), e) + if !m.is_dir && ext_of(m) == e { 1nat } else { 0 }
    }
}

proof fn lemma_group_index_found(st: Seq<(Seq<char>, u64, u64)>, e: Seq<char>)
    ensures
        match group_index(st, e) {
            Some(j) => 0 <= j < st.len() && st[j].0 == e,
            None => forall|j: int| 0 <= j < st.len() ==> (#[trigger] st[j]).0 != e,
        },
    decreases st.len(),
{
    if st.len() > 0 {
        lemma_group_index_found(st.drop_last(), e);
        let d = st.drop_last();
        if group_index(d, e) is None && st.last().0 != e {
            assert forall|j: int| 0 <= j < st.len() implies (#[trigger] st[j]).0 != e by {
                if j < d.len() {
                    assert(d[j] == st[j]);
                }
            }
        }
        if group_index(d, e) is Some {
            let j = group_index(d, e)->0;
            assert(d[j] == st[j]);
        }
    }
}

proof fn lemma_wadd_mod(a: u64, total: nat, s: u64)
    requires
        a as int == (total as int) % 0x1_0000_0000_0000_0000,
    ensures
        wadd(a, s) as int == ((total + s) as int) % 0x1_0000_0000_0000_0000,
{
    let m: int = 0x1_0000_0000_0000_0000;
    vstd::arithmetic::div_mod::lemma_add_mod_noop(total as int, s as int, m);
    vstd::arithmetic::div_mod::lemma_small_mod(s as nat, m as nat);
    if a + s < m {
        vstd::arithmetic::div_mod::lemma_small_mod((a + s) as nat, m as nat);
    } else {
        vstd::arithmetic::div_mod::lemma_mod_sub_multiples_vanish((a + s) as int, m);
        vstd::arithmetic::div_mod::lemma_small_mod((a + s - m) as nat, m as nat);
    }
}

/// The extension groups of a list of nodes hold each extension once, one
/// group for every file's extension, and each group's total size and file
/// count are the sum of the sizes and the number of all the files with that
/// extension (modulo 2^64); an extension with no group has no files.
pub proof fn law_extension_groups_sum_their_files(ms: Seq<NodeModel>)
    ensures
        forall|a: int, b: int| 0 <= a < b < ext_groups(ms).len()
            ==> (#[trigger] ext_groups(ms)[a]).0 != (#[trigger] ext_groups(ms)[b]).0,
        forall|j: int| 0 <= j < ext_groups(ms).len() ==> {
            let g = #[trigger] ext_groups(ms)[j];
            &&& g.1 as int == (ext_size_total(ms, g.0) as int) % 0x1_0000_0000_0000_0000
            &&& g.2 as int == (ext_file_total(ms, g.0) as int) % 0x1_0000_0000_0000_0000
        },
        forall|e: Seq<char>| #[trigger] group_index(ext_groups(ms), e) is None
            ==> ext_size_total(ms, e) == 0 && ext_file_total(ms, e) == 0,
        forall|k: int| 0 <= k < ms.len() && !(#[trigger] ms[k]).is_dir ==> group_index(ext_groups(ms), ext_of(ms[k])) is Some,
    decreases ms.len(),
{
    if ms.len() > 0 {
        let d = ms.drop_last();
        law_extension_groups_sum_their_files(d);
        let st = ext_groups(d);
        let m = ms.last();
        let r = ext_groups(ms);
        let m64: int = 0x1_0000_0000_0000_0000;
        assert forall|e: Seq<char>| ext_size_total(ms, e) == ext_size_total(d, e) + (if !m.is_dir && ext_of(m) == e { m.size as nat } else { 0 })
            && ext_file_total(ms, e) == ext_file_total(d, e) + (if !m.is_dir && ext_of(m) == e { 1nat } else { 0 }) by {}
        if m.is_dir {
            assert(r == st);
            assert forall|k: int| 0 <= k < ms.len() && !(#[trigger] ms[k]).is_dir implies group_index(r, ext_of(ms[k])) is Some by {
                assert(k < d.len());
                assert(d[k] == ms[k]);
            }
        } else {
            let e = ext_of(m);
            lemma_group_index_found(st, e);
            match group_index(st, e) {
                Some(j) => {
                    let ng = (st[j].0, wadd(st[j].1, m.size), wadd(st[j].2, 1));
                    assert(r == st.update(j, ng));
                    lemma_wadd_mod(st[j].1, ext_size_total(d, e), m.size);
                    lemma_wadd_mod(st[j].2, ext_file_total(d, e), 1);
                    assert forall|i: int| 0 <= i < r.len() implies {
                        let g = #[trigger] r[i];
                        &&& g.1 as int == (ext_size_total(ms, g.0) as int) % m64
                        &&& g.2 as int == (ext_file_total(ms, g.0) as int) % m64
                    } by {
                        if i != j {
                            assert(r[i] == st[i]);
                            assert(st[i].0 != st[j].0);
                        }
                    }
                    assert forall|x: Seq<char>| #[trigger] group_index(r, x) is None
                        implies ext_size_total(ms, x) == 0 && ext_file_total(ms, x) == 0 by {
                        lemma_group_index_found(r, x);
                        lemma_group_index_found(st, x);
                        if group_index(st, x) is Some {
                            let w = group_index(st, x)->0;
                            assert(r[w].0 == st[w].0);
                        }
                        if x == e {
                            assert(r[j].0 == e);
                        }
                    }
                    assert forall|k: int| 0 <= k < ms.len() && !(#[trigger] ms[k]).is_dir implies group_index(r, ext_of(ms[k])) is Some by {
                        lemma_group_index_found(r, ext_of(ms[k]));
                        if k < d.len() {
                            assert(d[k] == ms[k]);
                            lemma_group_index_found(st, ext_of(ms[k]));
                            let w = group_index(st, ext_of(ms[k]))->0;
                            assert(r[w].0 == st[w].0);
                        } else {
                            assert(r[j].0 == e);
                        }
                    }
                },
                None => {
                    let ng = (e, m.size, 1u64);
                    assert(r == st.push(ng));
                    assert(ext_size_total(d, e) == 0 && ext_file_total(d, e) == 0);
                    vstd::arithmetic::div_mod::lemma_small_mod(m.size as nat, m64 as nat);
                    vstd::arithmetic::div_mod::lemma_small_mod(1, m64 as nat);
                    assert forall|a: int, b: int| 0 <= a < b < r.len() implies (#[trigger] r[a]).0 != (#[trigger] r[b]).0 by {
                        if b == st.len() {
                            assert(r[a] == st[a]);
                        } else {
                            assert(r[a] == st[a] && r[b] == st[b]);
                        }
                    }
                    assert forall|i: int| 0 <= i < r.len() implies {
                        let g = #[trigger] r[i];
                        &&& g.1 as int == (ext_size_total(ms, g.0) as int) % m64
                        &&& g.2 as int == (ext_file_total(ms, g.0) as int) % m64
                    } by {
                        if i < st.len() {
                            assert(r[i] == st[i]);
                            assert(st[i].0 != e);
                        }
                    }
                    assert forall|x: Seq<char>| #[trigger] group_index(r, x) is None
                        implies ext_size_total(ms, x) == 0 && ext_file_total(ms, x) == 0 by {
                        lemma_group_index_found(r, x);
                        lemma_group_index_found(st, x);
                        if group_index(st, x) is Some {
                            let w = group_index(st, x)->0;
                            assert(r[w].0 == st[w].0);
                        }
                        if x == e {
                            assert(r[st.len() as int].0 == e);
                        }
                    }
                    assert forall|k: int| 0 <= k < ms.len() && !(#[trigger] ms[k]).is_dir implies group_index(r, ext_of(ms[k])) is Some by {
                        lemma_group_index_found(r, ext_of(ms[k]));
                        if k < d.len() {
                            assert(d[k] == ms[k]);
                            lemma_group_index_found(st, ext_of(ms[k]));
                            let w = group_index(st, ext_of(ms[k]))->0;
                            assert(r[w].0 == st[w].0);
                        } else {
                            assert(r[st.len() as int].0 == e);
                        }
                    }
                },
            }
        }
    }
}

} // verus!

verus! {

proof fn lemma_round_close(n: nat, d: nat)
    requires
        d > 0,
    ensures
        2 * (n - round_half_even(n, d) * d) <= d,
        2 * (round_half_even(n, d) * d - n) <= d,
{
    let q = n / d;
    let r = n % d;
    vstd::arithmetic::div_mod::lemma_fundamental_div_mod(n as int, d as int);
    assert(n == d * q + r);
    assert((q + 1) * d == q * d + d) by (nonlinear_arith);
    assert(q * d == d * q) by (nonlinear_arith);
}

/// The text of a size in a unit of 1024^`i` bytes (`i` at least 1): some
/// tenths value `t`, shown as `t/10`, a point, the last digit of `t`, and
/// the unit, with `t` tenths of the unit within half a tenth of the size.
proof fn lemma_format_in_unit(size: int, i: nat)
    requires
        size > 0,
        i >= 1,
        unit_index(size as nat) == i,
    ensures
        exists|t: nat| #![trigger decimal(t / 10)]
            format_bytes_spec(size) == decimal(t / 10) + seq!['.', digit_char(t % 10)] + " "@ + unit_name(i)
            && 2 * (size * 10 - t * pow1024(i)) <= pow1024(i)
            && 2 * (t * pow1024(i) - size * 10) <= pow1024(i),
{
    lemma_pow1024_values();
    assert(pow1024(i) > 0) by {
        assert(1 <= i <= 5);
    }
    let t = round_half_even((size * 10) as nat, pow1024(i));
    lemma_round_close((size * 10) as nat, pow1024(i));
    assert(format_bytes_spec(size) == decimal(t / 10) + seq!['.', digit_char(t % 10)] + " "@ + unit_name(i));
}

/// A size is shown in the unit whose power of 1024 it reaches and stays
/// below the next one of: zero and negative sizes as `0 B`, sizes below
/// 1024 in whole bytes, then KB, MB, GB, TB and PB, each with the number
/// of tenths nearest to the size divided by that unit's power of 1024.
pub proof fn law_format_bytes_unit(size: int)
    ensures
        size <= 0 ==> format_bytes_spec(size) == "0 B"@,
        0 < size < 1024 ==> format_bytes_spec(size) == decimal(size as nat) + " B"@,
        1024 <= size < 1048576 ==> exists|t: nat| #![trigger decimal(t / 10)]
            format_bytes_spec(size) == decimal(t / 10) + seq!['.', digit_char(t % 10)] + " KB"@
            && 2 * (size * 10 - t * 1024) <= 1024 && 2 * (t * 1024 - size * 10) <= 1024,
        1048576 <= size < 1073741824 ==> exists|t: nat| #![trigger decimal(t / 10)]
            format_bytes_spec(size) == decimal(t / 10) + seq!['.', digit_char(t % 10)] + " MB"@
            && 2 * (size * 10 - t * 1048576) <= 1048576 && 2 * (t * 1048576 - size * 10) <= 1048576,
        1073741824 <= size < 1099511627776 ==> exists|t: nat| #![trigger decimal(t / 10)]
            format_bytes_spec(size) == decimal(t / 10) + seq!['.', digit_char(t % 10)] + " GB"@
            && 2 * (size * 10 - t * 1073741824) <= 1073741824 && 2 * (t * 1073741824 - size * 10) <= 1073741824,
        1099511627776 <= size < 1125899906842624 ==> exists|t: nat| #![trigger decimal(t / 10)]
            format_bytes_spec(size) == decimal(t / 10) + seq!['.', digit_char(t % 10)] + " TB"@
            && 2 * (size * 10 - t * 1099511627776) <= 1099511627776
            && 2 * (t * 1099511627776 - size * 10) <= 1099511627776,
        1125899906842624 <= size ==> exists|t: nat| #![trigger decimal(t / 10)]
            format_bytes_spec(size) == decimal(t / 10) + seq!['.', digit_char(t % 10)] + " PB"@
            && 2 * (size * 10 - t * 1125899906842624) <= 1125899906842624
            && 2 * (t * 1125899906842624 - size * 10) <= 1125899906842624,
{
    lemma_pow1024_values();
    reveal_strlit(" ");
    reveal_strlit("KB");
    reveal_strlit("MB");
    reveal_strlit("GB");
    reveal_strlit("TB");
    reveal_strlit("PB");
    reveal_strlit(" KB");
    reveal_strlit(" MB");
    reveal_strlit(" GB");
    reveal_strlit(" TB");
    reveal_strlit(" PB");
    assert(" "@ + "KB"@ =~= " KB"@);
    assert(" "@ + "MB"@ =~= " MB"@);
    assert(" "@ + "GB"@ =~= " GB"@);
    assert(" "@ + "TB"@ =~= " TB"@);
    assert(" "@ + "PB"@ =~= " PB"@);
    if size > 0 {
        let i = unit_index(size as nat);
        if i >= 1 {
            lemma_format_in_unit(size, i);
            let t = choose|t: nat| #![trigger decimal(t / 10)]
                format_bytes_spec(size) == decimal(t / 10) + seq!['.', digit_char(t % 10)] + " "@ + unit_name(i)
                && 2 * (size * 10 - t * pow1024(i)) <= pow1024(i)
                && 2 * (t * pow1024(i) - size * 10) <= pow1024(i);
            let a = decimal(t / 10) + seq!['.', digit_char(t % 10)];
            assert(a + " "@ + unit_name(i) == a + (" "@ + unit_name(i)));
        }
    }
}

} // verus!
