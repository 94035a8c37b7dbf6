//! Full Disk Access: what to probe, how to read the probes, and what to
//! tell the user.

use vstd::prelude::*;
use crate::paths::{join_path, join_spec};
use crate::text::{chars_eq, chars_of, ends_with_chars, is_suffix_of, push_char, push_str, string_of, strs};

verus! {

/// The System Settings pane for Full Disk Access.
pub const FDA_SETTINGS_URL: &'static str = "x-apple.systempreferences:com.apple.preference.security?Privacy_AllFiles";

/// The outcome of the access check.
#[derive(Debug, Clone)]
pub struct FdaResult {
    pub has_access: bool,
    pub blocked_paths: Vec<String>,
    pub message: String,
    pub inconclusive: bool,
}

/// The paths whose readability shows whether Full Disk Access is granted
/// (`home` empty when unknown).
pub open spec fn probe_paths_spec(home: Seq<char>) -> Seq<Seq<char>> {
    seq![
        join_spec(home, "Library/Safari"@),
        "/Library/Application Support/com.apple.TCC/TCC.db"@,
        join_spec(home, "Library/Mail"@),
        join_spec(home, "Library/Application Support"@)
    ]
}

/// The probe paths (see `probe_paths_spec`); `home` as the environment gives
/// it, empty when unset.
pub fn fda_probe_paths(home: &str) -> (r: Vec<String>)
    ensures
        strs(r@) == probe_paths_spec(home@),
{
    let mut r: Vec<String> = Vec::new();
    r.push(join_path(home, "Library/Safari"));
    r.push("/Library/Application Support/com.apple.TCC/TCC.db".to_owned());
    r.push(join_path(home, "Library/Mail"));
    r.push(join_path(home, "Library/Application Support"));
    assert(strs(r@) =~= probe_paths_spec(home@));
    r
}

/// The path probed when none of the probe paths exists: `Library` under
/// the home directory, or `~/Library` when the home directory is unknown.
pub fn fda_fallback_probe(home: Option<&str>) -> (r: String)
    ensures
        r@ == match home {
            Some(h) => join_spec(h@, "Library"@),
            None => "~/Library"@,
        },
{
    match home {
        Some(h) => join_path(h, "Library"),
        None => "~/Library".to_owned(),
    }
}

/// The message shown when a probe was refused.
pub open spec fn blocked_message(terminal: Seq<char>) -> Seq<char> {
    "filetree does not have Full Disk Access. Some folders will show as empty or inaccessible.\n\nTo grant access:\n1. Open System Settings → Privacy & Security → Full Disk Access\n2. Click + and add "@
        + terminal + "\n3. Enable the toggle for "@ + terminal
        + "\n4. Restart the terminal and run filetree again\n\nPress 'o' in the FDA dialog to open System Settings."@
}

/// The message shown when nothing could be probed.
pub open spec fn inconclusive_message() -> Seq<char> {
    "Could not verify Full Disk Access (no probe paths available). Some protected folders may still be inaccessible.\n\nYou can grant FDA in System Settings, or choose Continue to scan anyway."@
}

/// The access verdict from the probes: no access when any path was blocked;
/// inconclusive (but assumed granted) when nothing could be probed;
/// otherwise granted.
pub fn build_fda_result(terminal: &str, blocked: Vec<String>, probes_attempted: u32) -> (r: FdaResult)
    ensures
        blocked@.len() > 0 ==> !r.has_access && !r.inconclusive && r.blocked_paths@ == blocked@
            && r.message@ == blocked_message(terminal@),
        blocked@.len() == 0 && probes_attempted == 0 ==> r.has_access && r.inconclusive
            && r.blocked_paths@.len() == 0 && r.message@ == inconclusive_message(),
        blocked@.len() == 0 && probes_attempted > 0 ==> r.has_access && !r.inconclusive
            && r.blocked_paths@.len() == 0 && r.message@ == "Full Disk Access appears to be granted."@,
{
    if blocked.len() > 0 {
        let mut m = "filetree does not have Full Disk Access. Some folders will show as empty or inaccessible.\n\nTo grant access:\n1. Open System Settings → Privacy & Security → Full Disk Access\n2. Click + and add ".to_owned();
        push_str(&mut m, terminal);
        push_str(&mut m, "\n3. Enable the toggle for ");
        push_str(&mut m, terminal);
        push_str(&mut m, "\n4. Restart the terminal and run filetree again\n\nPress 'o' in the FDA dialog to open System Settings.");
        return FdaResult { has_access: false, blocked_paths: blocked, message: m, inconclusive: false };
    }
    if probes_attempted == 0 {
        return FdaResult {
            has_access: true,
            blocked_paths: Vec::new(),
            inconclusive: true,
            message: "Could not verify Full Disk Access (no probe paths available). Some protected folders may still be inaccessible.\n\nYou can grant FDA in System Settings, or choose Continue to scan anyway.".to_owned(),
        };
    }
    FdaResult {
        has_access: true,
        blocked_paths: Vec::new(),
        message: "Full Disk Access appears to be granted.".to_owned(),
        inconclusive: false,
    }
}

/// The result on systems other than macOS, where no check is needed.
pub fn non_macos_fda_result() -> (r: FdaResult)
    ensures
        r.has_access && !r.inconclusive && r.blocked_paths@.len() == 0,
        r.message@ == "Full Disk Access check is only required on macOS."@,
{
    FdaResult {
        has_access: true,
        blocked_paths: Vec::new(),
        message: "Full Disk Access check is only required on macOS.".to_owned(),
        inconclusive: false,
    }
}

/// What probing one path found.
#[derive(Debug, Clone)]
pub struct ProbeOutcome {
    pub path: String,
    pub exists: bool,
    /// Reading it was refused for lack of permission.
    pub blocked: bool,
}

/// The blocked paths among the existing probes, in order, and how many
/// probes existed.
pub open spec fn tally(ps: Seq<ProbeOutcome>) -> (Seq<Seq<char>>, nat)
    decreases ps.len(),
{
    if ps.len() == 0 {
        (Seq::empty(), 0)
    } else {
        let (b, n) = tally(ps.drop_last());
        let p = ps.last();
        if !p.exists { (b, n) } else if p.blocked { (b.push(p.path@), n + 1) } else { (b, n + 1) }
    }
}

/// The verdict's inputs after the probes: the tally, and, when no probe path
/// existed, the fallback probe (blocked: its path; else counted as one probe
/// when it exists).
pub open spec fn probe_inputs(ps: Seq<ProbeOutcome>, fallback: Option<ProbeOutcome>) -> (Seq<Seq<char>>, nat) {
    let (b, n) = tally(ps);
    if n == 0 {
        match fallback {
            Some(f) => if f.exists && f.blocked { (b.push(f.path@), 0) } else if f.exists { (b, 1) } else { (b, 0) },
            None => (b, 0),
        }
    } else {
        (b, n)
    }
}

/// The access check's verdict from the probe outcomes (the probing itself
/// is file-system work done by the caller): see `probe_inputs` and
/// `build_fda_result`.
pub fn fda_from_probes(terminal: &str, probes: &Vec<ProbeOutcome>, fallback: Option<ProbeOutcome>) -> (r: FdaResult)
    requires
        probes@.len() <= u32::MAX,
    ensures
        probe_inputs(probes@, fallback).0.len() > 0 ==> !r.has_access && !r.inconclusive
            && strs(r.blocked_paths@) == probe_inputs(probes@, fallback).0 && r.message@ == blocked_message(terminal@),
        probe_inputs(probes@, fallback).0.len() == 0 && probe_inputs(probes@, fallback).1 == 0 ==> r.has_access
            && r.inconclusive && r.blocked_paths@.len() == 0 && r.message@ == inconclusive_message(),
        probe_inputs(probes@, fallback).0.len() == 0 && probe_inputs(probes@, fallback).1 > 0 ==> r.has_access
            && !r.inconclusive && r.blocked_paths@.len() == 0 && r.message@ == "Full Disk Access appears to be granted."@,
{
    let mut blocked: Vec<String> = Vec::new();
    let mut attempted: u32 = 0;
    assert(probes@.take(0) =~= Seq::<ProbeOutcome>::empty());
    for i in 0..probes.len()
        invariant
            probes@.len() <= u32::MAX,
            (strs(blocked@), attempted as nat) == tally(probes@.take(i as int)),
            attempted <= i,
    {
        assert(probes@.take(i + 1).drop_last() == probes@.take(i as int));
        let p = &probes[i];
        if p.exists {
            attempted = attempted + 1;
            if p.blocked {
                let ghost before = strs(blocked@);
                blocked.push(p.path.clone());
                assert(strs(blocked@) =~= before.push(p.path@));
            }
        }
    }
    assert(probes@.take(probes@.len() as int) == probes@);
    if attempted == 0 {
        match fallback {
            Some(f) => {
                if f.exists && f.blocked {
                    let ghost before = strs(blocked@);
                    blocked.push(f.path.clone());
                    assert(strs(blocked@) =~= before.push(f.path@));
                } else if f.exists {
                    attempted = 1;
                }
            },
            None => {},
        }
    }
    let ghost bv = blocked@;
    let r = build_fda_result(terminal, blocked, attempted);
    assert(bv.len() > 0 ==> strs(r.blocked_paths@) == strs(bv));
    r
}

/// Display names of known terminal programs.
pub open spec fn known_terminal(raw: Seq<char>) -> Option<Seq<char>> {
    if raw == "Apple_Terminal"@ { Some("Terminal"@) }
    else if raw == "iTerm.app"@ { Some("iTerm"@) }
    else if raw == "Warp"@ { Some("Warp"@) }
    else if raw == "vscode"@ { Some("VS Code"@) }
    else if raw == "Cursor"@ { Some("Cursor"@) }
    else { None }
}

/// A terminal program's display name: a known one's name; `Terminal` for
/// `Terminal` or a name ending in `.Terminal`; otherwise the raw name with
/// underscores shown as spaces.
pub open spec fn friendly_spec(raw: Seq<char>) -> Seq<char> {
    match known_terminal(raw) {
        Some(n) => n,
        None => if raw == "Terminal"@ || is_suffix_of(".Terminal"@, raw) {
            "Terminal"@
        } else {
            raw.map_values(|c: char| if c == '_' { ' ' } else { c })
        },
    }
}

fn eq_lit(a: &Vec<char>, lit: &str) -> (r: bool)
    ensures
        r == (a@ == lit@),
{
    chars_eq(a, &chars_of(lit))
}

/// A terminal program's display name (see `friendly_spec`).
pub fn friendly_terminal_name(raw: &str) -> (r: String)
    ensures
        r@ == friendly_spec(raw@),
{
    let c = chars_of(raw);
    if eq_lit(&c, "Apple_Terminal") {
        return "Terminal".to_owned();
    }
    if eq_lit(&c, "iTerm.app") {
        return "iTerm".to_owned();
    }
    if eq_lit(&c, "Warp") {
        return "Warp".to_owned();
    }
    if eq_lit(&c, "vscode") {
        return "VS Code".to_owned();
    }
    if eq_lit(&c, "Cursor") {
        return "Cursor".to_owned();
    }
    if eq_lit(&c, "Terminal") || ends_with_chars(&c, &chars_of(".Terminal")) {
        return "Terminal".to_owned();
    }
    let mut out = String::new();
    for i in 0..c.len()
        invariant
            out@ == c@.take(i as int).map_values(|x: char| if x == '_' { ' ' } else { x }),
    {
        push_char(&mut out, if c[i] == '_' { ' ' } else { c[i] });
        assert(c@.take(i + 1).map_values(|x: char| if x == '_' { ' ' } else { x })
            =~= c@.take(i as int).map_values(|x: char| if x == '_' { ' ' } else { x }).push(if c@[i as int] == '_' { ' ' } else { c@[i as int] }));
    }
    assert(c@.take(c@.len() as int) == c@);
    out
}

/// The text after the last `.` (all of it without a dot).
pub open spec fn last_dot_segment(s: Seq<char>) -> Seq<char>
    decreases s.len(),
{
    if s.len() == 0 {
        s
    } else if s.last() == '.' {
        Seq::empty()
    } else {
        last_dot_segment(s.drop_last()).push(s.last())
    }
}

/// The name of the terminal running the program, from `TERM_PROGRAM` when
/// set and non-empty, else from the last part of `__CFBundleIdentifier`, else
/// a generic phrase (values as the caller read them from the environment).
pub fn terminal_app_name(term_program: Option<&str>, bundle_id: Option<&str>) -> (r: String)
    ensures
        r@ == match term_program {
            Some(t) if t@.len() > 0 => friendly_spec(t@),
            _ => match bundle_id {
                Some(b) => friendly_spec(last_dot_segment(b@)),
                None => "your terminal application"@,
            },
        },
{
    match term_program {
        Some(t) => {
            if chars_of(t).len() > 0 {
                return friendly_terminal_name(t);
            }
        },
        None => {},
    }
    match bundle_id {
        Some(b) => {
            let c = chars_of(b);
            let mut seg: Vec<char> = Vec::new();
            assert(c@.take(0) =~= Seq::<char>::empty());
            for i in 0..c.len()
                invariant
                    seg@ == last_dot_segment(c@.take(i as int)),
            {
                assert(c@.take(i + 1).drop_last() == c@.take(i as int));
                assert(c@.take(i + 1).last() == c@[i as int]);
                if c[i] == '.' {
                    seg = Vec::new();
                    assert(seg@ =~= Seq::<char>::empty());
                } else {
                    seg.push(c[i]);
                }
            }
            assert(c@.take(c@.len() as int) == c@);
            let s = string_of(&seg);
            friendly_terminal_name(s.as_str())
        },
        None => "your terminal application".to_owned(),
    }
}

} // verus!
