//! Scan-side helpers: file extensions, error aggregation and the progress
//! and patch throttles shared by the scan workers.

use vstd::prelude::*;
use crate::models::ScanProgress;
use crate::paths::{file_name_of, file_name};
use crate::text::{all_ascii, ascii_lowercase, chars_of, count_char, count_char_exec, lowercase, string_of, to_lowercase};

verus! {

/// The part of a file name after its last dot, as `Path::extension` gives
/// it: none without a dot, for `..`, or when the only text before the last
/// dot is empty (a leading dot).
pub open spec fn path_extension(file: Seq<char>) -> Option<Seq<char>> {
    if file == seq!['.', '.'] {
        None
    } else {
        match last_dot(file, file.len() as int) {
            None => None,
            Some(k) => if k == 0 { None } else { Some(file.skip(k + 1)) },
        }
    }
}

/// The position of the last `.` among the first `n` characters.
pub open spec fn last_dot(s: Seq<char>, n: int) -> Option<int>
    decreases n,
{
    if n <= 0 {
        None
    } else if s[n - 1] == '.' {
        Some(n - 1)
    } else {
        last_dot(s, n - 1)
    }
}

/// The extension shown for a file name: for a dot-file with no other dot,
/// the text after the dot; otherwise the path extension (empty when there
/// is none); lower-cased either way.
pub open spec fn extension_spec(name: Seq<char>) -> Seq<char> {
    if name.len() > 0 && name[0] == '.' && count_char(name, '.') == 1 {
        lowercase(name.skip(1))
    } else {
        match file_name_of(name) {
            Some(f) => match path_extension(f) {
                Some(e) => lowercase(e),
                None => Seq::empty(),
            },
            None => Seq::empty(),
        }
    }
}

fn last_dot_exec(s: &Vec<char>) -> (r: Option<usize>)
    ensures
        match r {
            Some(k) => k < s@.len() && last_dot(s@, s@.len() as int) == Some(k as int),
            None => last_dot(s@, s@.len() as int) is None,
        },
{
    let mut n = s.len();
    while n > 0
        invariant
            n <= s@.len(),
            last_dot(s@, s@.len() as int) == last_dot(s@, n as int),
        decreases n,
    {
        if s[n - 1] == '.' {
            return Some(n - 1);
        }
        n = n - 1;
    }
    None
}

fn skip_chars(s: &Vec<char>, k: usize) -> (r: Vec<char>)
    requires
        k <= s@.len(),
    ensures
        r@ == s@.skip(k as int),
{
    let mut r: Vec<char> = Vec::new();
    for i in k..s.len()
        invariant
            k <= s@.len(),
            r@ == s@.subrange(k as int, i as int),
    {
        r.push(s[i]);
        assert(s@.subrange(k as int, i + 1) == s@.subrange(k as int, i as int).push(s@[i as int]));
    }
    assert(r@ =~= s@.skip(k as int));
    r
}

/// The extension before lower-casing (see `extension_spec`).
pub open spec fn raw_extension(name: Seq<char>) -> Seq<char> {
    if name.len() > 0 && name[0] == '.' && count_char(name, '.') == 1 {
        name.skip(1)
    } else {
        match file_name_of(name) {
            Some(f) => match path_extension(f) {
                Some(e) => e,
                None => Seq::empty(),
            },
            None => Seq::empty(),
        }
    }
}

proof fn lemma_skip_ascii(s: Seq<char>, k: int)
    requires
        all_ascii(s),
        0 <= k <= s.len(),
    ensures
        all_ascii(s.skip(k)),
{
    assert forall|i: int| 0 <= i < s.skip(k).len() implies (#[trigger] s.skip(k)[i]) as u32 <= 0x7F by {
        assert(s.skip(k)[i] == s[i + k]);
    }
}

/// The extension of a file name, lower-cased (empty when none). For an
/// ASCII name the lower-casing is ASCII's: `A`–`Z` become `a`–`z`.
pub fn extension_from_name(name: &str) -> (r: String)
    ensures
        r@ == extension_spec(name@),
        all_ascii(name@) ==> r@ == ascii_lowercase(raw_extension(name@)),
{
    let cs = chars_of(name);
    if cs.len() > 0 && cs[0] == '.' && count_char_exec(&cs, '.') == 1 {
        let rest = string_of(&skip_chars(&cs, 1));
        proof {
            if all_ascii(name@) {
                lemma_skip_ascii(name@, 1);
            }
        }
        return to_lowercase(rest.as_str());
    }
    proof {
        assert(ascii_lowercase(Seq::<char>::empty()) =~= Seq::<char>::empty());
        if all_ascii(name@) {
            crate::paths::lemma_file_name_ascii(name@);
        }
    }
    match file_name(name) {
        Some(f) => {
            let dd = f.len() == 2 && f[0] == '.' && f[1] == '.';
            assert(dd == (f@ == seq!['.', '.'])) by {
                if f@ == seq!['.', '.'] {
                    assert(f@[0] == '.' && f@[1] == '.');
                }
                if dd {
                    assert(f@ =~= seq!['.', '.']);
                }
            }
            if dd {
                return String::new();
            }
            match last_dot_exec(&f) {
                Some(k) => {
                    if k == 0 {
                        String::new()
                    } else {
                        let e = string_of(&skip_chars(&f, k + 1));
                        proof {
                            if all_ascii(name@) {
                                lemma_skip_ascii(f@, k + 1);
                            }
                        }
                        to_lowercase(e.as_str())
                    }
                },
                None => String::new(),
            }
        },
        None => String::new(),
    }
}

/// A node after its deferred metadata is filled from one `symlink_metadata`
/// result (owner name, mtime in seconds, size, 512-byte blocks): nothing
/// changes once loaded; otherwise owner and mtime are taken, a file also
/// gets its extension from its name, and a file that is not a symlink its
/// size and allocated bytes; then the node is marked loaded.
pub open spec fn metadata_filled(m: crate::models::NodeModel, owner: Seq<char>, mtime: i64, size: u64, blocks: u64)
    -> crate::models::NodeModel
{
    if m.metadata_loaded {
        m
    } else {
        let base = crate::models::NodeModel { owner, mtime, metadata_loaded: true, ..m };
        if m.is_dir {
            base
        } else if m.is_symlink {
            crate::models::NodeModel { extension: extension_spec(m.name), ..base }
        } else {
            crate::models::NodeModel { extension: extension_spec(m.name), size, allocated: (blocks * 512) as u64, ..base }
        }
    }
}

/// Fills a node's deferred metadata from one stat result (see
/// `metadata_filled`).
pub fn fill_metadata_from(node: &mut crate::models::ScanNode, owner: String, mtime: i64, size: u64, blocks: u64)
    requires
        !old(node).metadata_loaded && !old(node).is_dir && !old(node).is_symlink ==> blocks * 512 <= u64::MAX,
    ensures
        final(node).model() == metadata_filled(old(node).model(), owner@, mtime, size, blocks),
{
    if node.metadata_loaded {
        return;
    }
    node.owner = owner;
    node.mtime = mtime;
    if !node.is_dir {
        node.extension = get_file_extension(node.name.as_str());
        if !node.is_symlink {
            node.size = size;
            node.allocated = blocks * 512;
        }
    }
    node.metadata_loaded = true;
}

/// The extension of a path as `Path::extension` gives it: that of its file
/// name (see `path_extension`), none without a file name.
pub open spec fn path_extension_of(path: Seq<char>) -> Option<Seq<char>> {
    match file_name_of(path) {
        Some(f) => path_extension(f),
        None => None,
    }
}

/// The extension of a path, case kept (see `path_extension_of`).
pub fn extension_of_path(path: &str) -> (r: Option<Vec<char>>)
    ensures
        match r {
            Some(e) => path_extension_of(path@) == Some(e@),
            None => path_extension_of(path@) is None,
        },
{
    match file_name(path) {
        Some(f) => {
            let dd = f.len() == 2 && f[0] == '.' && f[1] == '.';
            assert(dd == (f@ == seq!['.', '.'])) by {
                if f@ == seq!['.', '.'] {
                    assert(f@[0] == '.' && f@[1] == '.');
                }
                if dd {
                    assert(f@ =~= seq!['.', '.']);
                }
            }
            if dd {
                return None;
            }
            match last_dot_exec(&f) {
                Some(k) => if k == 0 { None } else { Some(skip_chars(&f, k + 1)) },
                None => None,
            }
        },
        None => None,
    }
}

/// File extension for display and export (no extra I/O).
pub fn get_file_extension(name: &str) -> (r: String)
    ensures
        r@ == extension_spec(name@),
        all_ascii(name@) ==> r@ == ascii_lowercase(raw_extension(name@)),
{
    extension_from_name(name)
}

} // verus!

verus! {

/// Interval between progress emits after the bootstrap ones, in ms.
pub const PROGRESS_EMIT_INTERVAL_MS: u64 = 100;

/// Emits allowed through at the start of a scan before time throttling.
pub const BOOTSTRAP_EMITS: u64 = 64;

/// Interval between deep-directory listing patches, in ms.
pub const PATCH_EMIT_INTERVAL_MS: i64 = 300;

/// Interval between error-driven progress emits, in ms.
pub const ERROR_EMIT_INTERVAL_MS: i64 = 100;

/// Whether a worker may take the progress emit slot: the interval has passed
/// since the last emit, or the bootstrap emits are not used up yet.
pub open spec fn emit_slot_open(now_ms: u64, last_ms: u64, emits_done: u64) -> bool {
    (now_ms >= last_ms && now_ms - last_ms >= PROGRESS_EMIT_INTERVAL_MS) || emits_done < BOOTSTRAP_EMITS
}

/// Decides whether the progress emit slot may be taken (see
/// `emit_slot_open`); the caller still has to win the slot.
pub fn emit_slot_due(now_ms: u64, last_ms: u64, emits_done: u64) -> (r: bool)
    ensures
        r == emit_slot_open(now_ms, last_ms, emits_done),
{
    let time_due = now_ms.saturating_sub(last_ms) >= PROGRESS_EMIT_INTERVAL_MS;
    time_due || emits_done < BOOTSTRAP_EMITS
}

/// Lock-free throttle for scan progress emission: workers add their counts
/// to atomics, and one worker per interval (or per bootstrap slot) wins the
/// emit slot by compare-and-swap.
pub struct ProgressThrottle {
    base: std::time::Instant,
    last_emit_ms: std::sync::atomic::AtomicU64,
    emits_done: std::sync::atomic::AtomicU64,
    pending_items: std::sync::atomic::AtomicU64,
    pending_bytes: std::sync::atomic::AtomicU64,
    pending_dirs: std::sync::atomic::AtomicU64,
}

impl Default for ProgressThrottle {
    fn default() -> Self {
        ProgressThrottle {
            base: crate::clock::instant_now(),
            last_emit_ms: std::sync::atomic::AtomicU64::new(0),
            emits_done: std::sync::atomic::AtomicU64::new(0),
            pending_items: std::sync::atomic::AtomicU64::new(0),
            pending_bytes: std::sync::atomic::AtomicU64::new(0),
            pending_dirs: std::sync::atomic::AtomicU64::new(0),
        }
    }
}

impl ProgressThrottle {
    /// Adds one file of `size` bytes to the pending counters.
    pub fn record_file(&self, size: u64) {
        self.pending_items.fetch_add(1, std::sync::atomic::Ordering::Relaxed);
        self.pending_bytes.fetch_add(size, std::sync::atomic::Ordering::Relaxed);
    }

    /// Adds one directory to the pending counters.
    pub fn record_dir(&self) {
        self.pending_dirs.fetch_add(1, std::sync::atomic::Ordering::Relaxed);
    }

    /// `true` for the one caller that wins the emit slot of the current
    /// interval: the slot is taken only when `emit_slot_due` says it is open
    /// for the time and counters this call read. Those values come from the
    /// clock and from atomics the workers share, so no clause states the
    /// result.
    pub fn acquire_emit_slot(&self) -> (r: bool) {
        let now_ms = crate::clock::millis_since(&self.base);
        let last = self.last_emit_ms.load(std::sync::atomic::Ordering::Relaxed);
        let done = self.emits_done.load(std::sync::atomic::Ordering::Relaxed);
        if !emit_slot_due(now_ms, last, done) {
            return false;
        }
        match self.last_emit_ms.compare_exchange(
            last,
            now_ms,
            std::sync::atomic::Ordering::Relaxed,
            std::sync::atomic::Ordering::Relaxed,
        ) {
            Ok(_) => {
                self.emits_done.fetch_add(1, std::sync::atomic::Ordering::Relaxed);
                true
            },
            Err(_) => false,
        }
    }

    /// Takes and resets the pending `(items, bytes, dirs)` counters.
    pub fn take_pending(&self) -> (u64, u64, u64) {
        let items = self.pending_items.swap(0, std::sync::atomic::Ordering::Relaxed);
        let bytes = self.pending_bytes.swap(0, std::sync::atomic::Ordering::Relaxed);
        let dirs = self.pending_dirs.swap(0, std::sync::atomic::Ordering::Relaxed);
        (items, bytes, dirs)
    }
}

/// Whether a listing patch for a directory at `depth` goes out now: the top
/// two levels always, deeper ones once the patch interval has passed.
pub open spec fn patch_due(depth: usize, since_last_ms: i64) -> bool {
    depth <= 1 || since_last_ms >= PATCH_EMIT_INTERVAL_MS
}

/// Decides `patch_due`.
pub fn patch_emit_due(depth: usize, since_last_ms: i64) -> (r: bool)
    ensures
        r == patch_due(depth, since_last_ms),
{
    depth <= 1 || since_last_ms >= PATCH_EMIT_INTERVAL_MS
}

/// Throttles listing patches for directories below the top two levels.
pub struct PatchThrottle {
    base: std::time::Instant,
    /// Milliseconds since `base` of the last emit (starts one interval back).
    last_emit_ms: std::sync::atomic::AtomicI64,
}

impl Default for PatchThrottle {
    fn default() -> Self {
        PatchThrottle {
            base: crate::clock::instant_now(),
            last_emit_ms: std::sync::atomic::AtomicI64::new(-PATCH_EMIT_INTERVAL_MS),
        }
    }
}

/// Milliseconds since `base` as a signed value, capped at `i64::MAX`: never
/// negative.
fn now_ms_signed(base: &std::time::Instant) -> (r: i64)
    ensures
        r >= 0,
{
    let ms = crate::clock::millis_since(base);
    if ms > (i64::MAX as u64) { i64::MAX } else { ms as i64 }
}

/// `now - last`, 0 when `last` is later, capped at `i64::MAX`.
fn elapsed_between(now: i64, last: i64) -> (r: i64)
    ensures
        r == if now <= last { 0 } else if now - last > i64::MAX { i64::MAX as int } else { now - last },
{
    if now <= last {
        0
    } else {
        let d: i128 = (now as i128) - (last as i128);
        if d > (i64::MAX as i128) { i64::MAX } else { d as i64 }
    }
}

impl PatchThrottle {
    /// Whether to emit a listing patch for a directory at `depth` (see
    /// `patch_due`; the time since the last emit comes from the clock).
    pub fn should_emit(&self, depth: usize, _child_count: usize) -> (r: bool)
        ensures
            depth <= 1 ==> r,
    {
        if depth <= 1 {
            return true;
        }
        let now = now_ms_signed(&self.base);
        let last = self.last_emit_ms.load(std::sync::atomic::Ordering::Relaxed);
        patch_emit_due(depth, elapsed_between(now, last))
    }

    /// Records that a patch was just emitted.
    pub fn mark_emitted(&self) {
        let now = now_ms_signed(&self.base);
        self.last_emit_ms.store(now, std::sync::atomic::Ordering::Relaxed);
    }
}

/// The message recorded in place of further permission denials.
pub open spec fn suppressed_message() -> Seq<char> {
    "Permission denied on additional protected paths (further denials suppressed)"@
}

/// Whether errors for this path are ignored: `/dev` and everything under it.
pub open spec fn skip_path_spec(path: Seq<char>) -> bool {
    crate::text::is_prefix_of("/dev/"@, path) || path == "/dev"@
}

/// Whether a message reports a permission denial (case-insensitively).
pub open spec fn is_permission_message(message: Seq<char>) -> bool {
    crate::text::contains_seq(lowercase(message), "permission denied"@)
}

/// What recording an error does to the progress: permission denials are
/// stored only for the first (the message) and second (a "suppressed"
/// notice) denial counted so far, `denials` being that count including
/// this one; any other message is stored.
pub open spec fn recorded(old_errors: Seq<Seq<char>>, old_first: Option<Seq<char>>, message: Seq<char>, denials: usize)
    -> (Option<Seq<char>>, Seq<Seq<char>>)
{
    let push = |m: Seq<char>| (
        match old_first { Some(e) => Some(e), None => Some(m) },
        if old_errors.len() < crate::models::MAX_STORED_SCAN_ERRORS { old_errors.push(m) } else { old_errors },
    );
    if is_permission_message(message) {
        if denials == 1 {
            push(message)
        } else if denials == 2 {
            push(suppressed_message())
        } else {
            (old_first, old_errors)
        }
    } else {
        push(message)
    }
}

/// Whether recording `message` stores something (see `recorded`): always,
/// except for permission denials after the second.
pub open spec fn records(message: Seq<char>, denials: usize) -> bool {
    !is_permission_message(message) || denials == 1 || denials == 2
}

/// Aggregates noisy scan errors: permission denials on full-disk scans and
/// pseudo-file-system paths.
pub struct ErrorPolicy {
    base: std::time::Instant,
    last_emit_ms: std::sync::atomic::AtomicI64,
    permission_denied: std::sync::atomic::AtomicUsize,
}

impl Default for ErrorPolicy {
    fn default() -> Self {
        ErrorPolicy {
            base: crate::clock::instant_now(),
            last_emit_ms: std::sync::atomic::AtomicI64::new(-ERROR_EMIT_INTERVAL_MS),
            permission_denied: std::sync::atomic::AtomicUsize::new(0),
        }
    }
}

/// Whether the message mentions a permission denial, ignoring case.
pub fn is_permission_text(message: &str) -> (r: bool)
    ensures
        r == is_permission_message(message@),
        all_ascii(message@) ==> r == crate::text::contains_seq(ascii_lowercase(message@), "permission denied"@),
{
    let low = to_lowercase(message);
    let lc = chars_of(low.as_str());
    let pat = chars_of("permission denied");
    crate::text::contains_chars(&lc, &pat)
}

/// Records `message` into `progress` given the permission-denial count
/// (this one included); see `recorded`.
pub fn record_with_count(progress: &mut ScanProgress, message: String, is_permission: bool, denials: usize)
    requires
        is_permission == is_permission_message(message@),
    ensures
        (crate::models::opt_view(final(progress).error), crate::text::strs(final(progress).errors@))
            == recorded(crate::text::strs(old(progress).errors@), crate::models::opt_view(old(progress).error), message@, denials),
        final(progress).error_count == if records(message@, denials) {
            crate::models::bump(old(progress).error_count)
        } else {
            old(progress).error_count
        },
{
    if is_permission {
        if denials == 1 {
            progress.push_error(message);
        } else if denials == 2 {
            progress.push_error("Permission denied on additional protected paths (further denials suppressed)".to_owned());
        }
    } else {
        progress.push_error(message);
    }
}

impl ErrorPolicy {
    /// Whether errors for `path` are ignored (`/dev` and below).
    pub fn should_skip_path(path: &str) -> (r: bool)
        ensures
            r == skip_path_spec(path@),
    {
        let p = chars_of(path);
        let pre = chars_of("/dev/");
        let dev = chars_of("/dev");
        crate::text::starts_with_chars(&p, &pre) || crate::text::chars_eq(&p, &dev)
    }

    /// Records an error for `path` unless the path is ignored (permission
    /// denials beyond the second are counted, not stored). Returns whether
    /// the caller should emit progress now: never for an ignored path;
    /// otherwise when the error interval has passed since the last such
    /// emit.
    pub fn record(&self, progress: &mut ScanProgress, path: &str, message: String) -> (r: bool)
        ensures
            skip_path_spec(path@) ==> !r && *final(progress) == *old(progress),
            !skip_path_spec(path@) ==> exists|n: usize|
                (crate::models::opt_view(final(progress).error), crate::text::strs(final(progress).errors@))
                    == #[trigger] recorded(crate::text::strs(old(progress).errors@), crate::models::opt_view(old(progress).error), message@, n)
                && final(progress).error_count == if records(message@, n) {
                    crate::models::bump(old(progress).error_count)
                } else {
                    old(progress).error_count
                },
    {
        if Self::should_skip_path(path) {
            return false;
        }
        let is_permission = is_permission_text(message.as_str());
        let mut n: usize = 0;
        if is_permission {
            let prev = self.permission_denied.fetch_add(1, std::sync::atomic::Ordering::Relaxed);
            n = if prev == usize::MAX { 0 } else { prev + 1 };
        }
        let ghost old_errors = crate::text::strs(progress.errors@);
        let ghost old_first = crate::models::opt_view(progress.error);
        record_with_count(progress, message, is_permission, n);
        assert(recorded(old_errors, old_first, message@, n) == (crate::models::opt_view(progress.error), crate::text::strs(progress.errors@)));
        let now = now_ms_signed(&self.base);
        let last = self.last_emit_ms.load(std::sync::atomic::Ordering::Relaxed);
        if elapsed_between(now, last) >= ERROR_EMIT_INTERVAL_MS {
            self.last_emit_ms.store(now, std::sync::atomic::Ordering::Relaxed);
            true
        } else {
            false
        }
    }

    /// Records an I/O error: a permission denial as
    /// `Permission denied: <path> (<error>)`, anything else as
    /// `<context> <path>: <error>` (see `record`).
    pub fn record_io(&self, progress: &mut ScanProgress, path: &str, context: &str, permission_denied: bool, error_text: &str) -> (r: bool)
        ensures
            skip_path_spec(path@) ==> !r && *final(progress) == *old(progress),
            !skip_path_spec(path@) ==> exists|n: usize|
                (crate::models::opt_view(final(progress).error), crate::text::strs(final(progress).errors@))
                    == #[trigger] recorded(crate::text::strs(old(progress).errors@), crate::models::opt_view(old(progress).error),
                        io_message(path@, context@, permission_denied, error_text@), n)
                && final(progress).error_count == if records(io_message(path@, context@, permission_denied, error_text@), n) {
                    crate::models::bump(old(progress).error_count)
                } else {
                    old(progress).error_count
                },
    {
        if Self::should_skip_path(path) {
            return false;
        }
        let message = io_error_message(path, context, permission_denied, error_text);
        self.record(progress, path, message)
    }

    /// Records that an error-driven emit just happened.
    pub fn mark_emitted(&self) {
        let now = now_ms_signed(&self.base);
        self.last_emit_ms.store(now, std::sync::atomic::Ordering::Relaxed);
    }
}

/// The text recorded for an I/O error.
pub open spec fn io_message(path: Seq<char>, context: Seq<char>, permission_denied: bool, error_text: Seq<char>) -> Seq<char> {
    if permission_denied {
        "Permission denied: "@ + path + " ("@ + error_text + ")"@
    } else {
        context + " "@ + path + ": "@ + error_text
    }
}

/// Builds the text recorded for an I/O error (see `io_message`).
pub fn io_error_message(path: &str, context: &str, permission_denied: bool, error_text: &str) -> (r: String)
    ensures
        r@ == io_message(path@, context@, permission_denied, error_text@),
{
    let mut m = String::new();
    if permission_denied {
        m.append("Permission denied: ");
        m.append(path);
        m.append(" (");
        m.append(error_text);
        m.append(")");
    } else {
        m.append(context);
        m.append(" ");
        m.append(path);
        m.append(": ");
        m.append(error_text);
    }
    m
}

} // verus!

verus! {

/// The cache may hold any names.
pub struct AnyNames;

impl vstd::rwlock::RwLockPredicate<std::collections::HashMap<u32, String>> for AnyNames {
    open spec fn inv(self, v: std::collections::HashMap<u32, String>) -> bool {
        true
    }
}

/// The login name of user `uid` from the system's user database
/// (`nix::unistd::User::from_uid`), or none when there is no such entry or
/// it cannot be read. What comes back depends on the machine: nothing is
/// claimed of it.
#[verifier::external_body]
fn user_name_for_uid(uid: u32) -> Option<String> {
    nix::unistd::User::from_uid(nix::unistd::Uid::from_raw(uid)).ok().flatten().map(|u| u.name)
}

/// The owner name shown for a looked-up user: the name found, else
/// `unknown`.
pub fn owner_name(found: Option<String>) -> (r: String)
    ensures
        r@ == match found { Some(n) => n@, None => "unknown"@ },
{
    match found {
        Some(n) => n,
        None => "unknown".to_owned(),
    }
}

/// User names by id, shared by the scan workers so that each id is looked
/// up in the user database once.
pub struct OwnerCache {
    inner: vstd::rwlock::RwLock<std::collections::HashMap<u32, String>, AnyNames>,
}

impl OwnerCache {
    /// The owner name of `uid` (see `owner_name`): from the cache when it
    /// was looked up before, else from the user database, then kept.
    pub fn lookup(&self, uid: u32) -> String {
        let h = self.inner.acquire_read();
        let cached = match h.borrow().get(&uid) {
            Some(n) => Some(n.clone()),
            None => None,
        };
        h.release_read();
        match cached {
            Some(n) => n,
            None => {
                let name = owner_name(user_name_for_uid(uid));
                let (mut m, wh) = self.inner.acquire_write();
                m.insert(uid, name.clone());
                wh.release_write(m);
                name
            },
        }
    }
}

impl Default for OwnerCache {
    fn default() -> (r: Self) {
        OwnerCache { inner: vstd::rwlock::RwLock::new(std::collections::HashMap::new(), Ghost(AnyNames)) }
    }
}

} // verus!
