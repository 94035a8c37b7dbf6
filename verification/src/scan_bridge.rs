//! Messages from the scan worker to the UI, coalesced into one batch per
//! frame: the latest progress, the latest patch per path, and at most one
//! terminal event, which ends the batch.

use vstd::prelude::*;
use crate::models::{ProgressSnapshot, ScanNode, ScanProgress, TreePatch};
use crate::paths::{components, comps_eq, cv, path_components};

verus! {

/// Most messages taken from the channel in one poll.
pub const MAX_MESSAGES_PER_POLL: usize = 64;

#[verifier::external_type_specification]
#[verifier::external_body]
#[verifier::reject_recursive_types(T)]
pub struct ExReceiver<T>(std::sync::mpsc::Receiver<T>);

/// What the scan worker sends.
pub enum ScanMessage {
    Progress(ProgressSnapshot),
    TreePatch(TreePatch),
    Complete { root: ScanNode, progress: ScanProgress },
    RescanComplete { path: String, root: ScanNode, progress: ScanProgress },
    Error(String),
}

/// The end of a scan as the UI sees it.
pub enum TerminalScanEvent {
    Complete { root: Box<ScanNode>, progress: ScanProgress, full_scan: bool },
    Error(String),
}

/// What one poll gathered.
pub struct PollBatch {
    pub progress: Option<ProgressSnapshot>,
    /// At most one patch per path (paths compared component by component).
    pub patches: Vec<TreePatch>,
    pub terminal: Option<TerminalScanEvent>,
}

/// The value of a batch.
pub struct BatchModel {
    pub progress: Option<ProgressSnapshot>,
    pub patches: Seq<TreePatch>,
    pub terminal: Option<TerminalScanEvent>,
}

/// The path of a patch, as components.
pub open spec fn patch_key(p: TreePatch) -> Seq<Seq<char>> {
    path_components(p.node.path@)
}

/// The first patch in `ps` for path `k`.
pub open spec fn key_index(ps: Seq<TreePatch>, k: Seq<Seq<char>>) -> Option<int>
    decreases ps.len(),
{
    if ps.len() == 0 {
        None
    } else {
        match key_index(ps.drop_last(), k) {
            Some(i) => Some(i),
            None => if patch_key(ps.last()) == k { Some(ps.len() - 1) } else { None },
        }
    }
}

/// `ps` with `p` kept: it replaces the patch for the same path, or comes
/// last when there is none.
pub open spec fn keep_patch(ps: Seq<TreePatch>, p: TreePatch) -> Seq<TreePatch> {
    match key_index(ps, patch_key(p)) {
        Some(i) => ps.update(i, p),
        None => ps.push(p),
    }
}

/// No two patches for the same path.
pub open spec fn keys_unique(ps: Seq<TreePatch>) -> bool {
    forall|i: int, j: int| 0 <= i < j < ps.len() ==> patch_key(#[trigger] ps[i]) != patch_key(#[trigger] ps[j])
}

/// Whether a message ends a batch.
pub open spec fn is_terminal(m: ScanMessage) -> bool {
    !(m is Progress) && !(m is TreePatch)
}

/// The batch after one more message.
pub open spec fn absorb_spec(b: BatchModel, m: ScanMessage) -> BatchModel {
    match m {
        ScanMessage::Progress(p) => BatchModel { progress: Some(p), ..b },
        ScanMessage::TreePatch(p) => BatchModel { patches: keep_patch(b.patches, p), ..b },
        ScanMessage::Complete { root, progress } => BatchModel {
            terminal: Some(TerminalScanEvent::Complete { root: Box::new(root), progress, full_scan: true }),
            ..b
        },
        ScanMessage::RescanComplete { path, root, progress } => BatchModel {
            terminal: Some(TerminalScanEvent::Complete { root: Box::new(root), progress, full_scan: false }),
            ..b
        },
        ScanMessage::Error(e) => BatchModel { terminal: Some(TerminalScanEvent::Error(e)), ..b },
    }
}

/// The empty batch.
pub open spec fn empty_batch() -> BatchModel {
    BatchModel { progress: None, patches: Seq::empty(), terminal: None }
}

/// The batch gathered from `ms`, in order, starting empty.
pub open spec fn batch_of(ms: Seq<ScanMessage>) -> BatchModel
    decreases ms.len(),
{
    if ms.len() == 0 {
        empty_batch()
    } else {
        absorb_spec(batch_of(ms.drop_last()), ms.last())
    }
}

proof fn lemma_key_index(ps: Seq<TreePatch>, k: Seq<Seq<char>>)
    ensures
        match key_index(ps, k) {
            Some(i) => 0 <= i < ps.len() && patch_key(ps[i]) == k
                && forall|j: int| 0 <= j < i ==> patch_key(#[trigger] ps[j]) != k,
            None => forall|j: int| 0 <= j < ps.len() ==> patch_key(#[trigger] ps[j]) != k,
        },
    decreases ps.len(),
{
    if ps.len() > 0 {
        lemma_key_index(ps.drop_last(), k);
        assert forall|j: int| 0 <= j < ps.len() - 1 implies #[trigger] ps[j] == ps.drop_last()[j] by {}
    }
}

/// Keeping a patch keeps the paths unique.
proof fn lemma_keep_unique(ps: Seq<TreePatch>, p: TreePatch)
    requires
        keys_unique(ps),
    ensures
        keys_unique(keep_patch(ps, p)),
{
    lemma_key_index(ps, patch_key(p));
    let r = keep_patch(ps, p);
    match key_index(ps, patch_key(p)) {
        Some(i) => {
            assert forall|a: int, b: int| 0 <= a < b < r.len() implies patch_key(#[trigger] r[a]) != patch_key(#[trigger] r[b]) by {
                if a == i {
                    assert(patch_key(r[a]) == patch_key(ps[i]));
                } else if b == i {
                    assert(patch_key(r[b]) == patch_key(ps[i]));
                }
            }
        },
        None => {
            assert forall|a: int, b: int| 0 <= a < b < r.len() implies patch_key(#[trigger] r[a]) != patch_key(#[trigger] r[b]) by {
                if b == ps.len() {
                    assert(r[a] == ps[a]);
                }
            }
        },
    }
}

/// A batch never holds two patches for one path.
pub proof fn law_batch_paths_unique(ms: Seq<ScanMessage>)
    ensures
        keys_unique(batch_of(ms).patches),
    decreases ms.len(),
{
    if ms.len() > 0 {
        law_batch_paths_unique(ms.drop_last());
        match ms.last() {
            ScanMessage::TreePatch(p) => lemma_keep_unique(batch_of(ms.drop_last()).patches, p),
            _ => {},
        }
    }
}

/// After a patch for a path, the batch holds exactly that patch for it:
/// the latest patch per path wins.
pub proof fn law_latest_patch_wins(b: BatchModel, p: TreePatch)
    requires
        keys_unique(b.patches),
    ensures
        ({
            let r = absorb_spec(b, ScanMessage::TreePatch(p)).patches;
            &&& exists|i: int| 0 <= i < r.len() && r[i] == p
            &&& forall|i: int| 0 <= i < r.len() && patch_key(#[trigger] r[i]) == patch_key(p) ==> r[i] == p
            &&& r.len() == b.patches.len() + (if key_index(b.patches, patch_key(p)) is Some { 0int } else { 1int })
        }),
{
    lemma_key_index(b.patches, patch_key(p));
    let r = keep_patch(b.patches, p);
    match key_index(b.patches, patch_key(p)) {
        Some(k) => {
            assert(r[k] == p);
        },
        None => {
            assert(r[b.patches.len() as int] == p);
        },
    }
}

impl PollBatch {
    /// The value of this batch.
    pub open spec fn view(&self) -> BatchModel {
        BatchModel { progress: self.progress, patches: self.patches@, terminal: self.terminal }
    }

    /// The empty batch.
    pub fn new() -> (r: PollBatch)
        ensures
            r.view() == empty_batch(),
    {
        PollBatch { progress: None, patches: Vec::new(), terminal: None }
    }

    /// Whether nothing was gathered.
    pub fn is_empty(&self) -> (r: bool)
        ensures
            r == (self.progress is None && self.patches@.len() == 0 && self.terminal is None),
    {
        self.progress.is_none() && self.patches.len() == 0 && self.terminal.is_none()
    }

    /// The patch kept for `path` (compared component by component).
    pub fn patch_for(&self, path: &str) -> (r: Option<&TreePatch>)
        ensures
            match key_index(self.patches@, path_components(path@)) {
                Some(i) => r == Some(&self.patches@[i]),
                None => r is None,
            },
    {
        let pc = components(path);
        match self.find_patch(&pc) {
            Some(i) => {
                let r = &self.patches[i];
                Some(r)
            },
            None => None,
        }
    }

    fn find_patch(&self, pc: &Vec<Vec<char>>) -> (r: Option<usize>)
        ensures
            match key_index(self.patches@, cv(pc@)) {
                Some(i) => r matches Some(k) && k == i && 0 <= i < self.patches@.len(),
                None => r is None,
            },
    {
        proof {
            lemma_key_index(self.patches@, cv(pc@));
        }
        for i in 0..self.patches.len()
            invariant
                forall|j: int| 0 <= j < i ==> patch_key(#[trigger] self.patches@[j]) != cv(pc@),
        {
            let kc = components(self.patches[i].node.path.as_str());
            if comps_eq(&kc, pc) {
                proof {
                    lemma_key_index(self.patches@, cv(pc@));
                }
                return Some(i);
            }
        }
        None
    }

    /// Takes one message into the batch (see `absorb_spec`); true when it
    /// ends the batch.
    pub fn absorb(&mut self, msg: ScanMessage) -> (stop: bool)
        ensures
            final(self).view() == absorb_spec(old(self).view(), msg),
            stop == is_terminal(msg),
    {
        let ghost m0 = msg;
        match msg {
            ScanMessage::Progress(p) => {
                self.progress = Some(p);
                false
            },
            ScanMessage::TreePatch(patch) => {
                let pc = components(patch.node.path.as_str());
                match self.find_patch(&pc) {
                    Some(i) => self.patches.set(i, patch),
                    None => self.patches.push(patch),
                }
                false
            },
            ScanMessage::Complete { root, progress } => {
                self.terminal = Some(TerminalScanEvent::Complete { root: Box::new(root), progress, full_scan: true });
                true
            },
            ScanMessage::RescanComplete { path, root, progress } => {
                self.terminal = Some(TerminalScanEvent::Complete { root: Box::new(root), progress, full_scan: false });
                true
            },
            ScanMessage::Error(e) => {
                self.terminal = Some(TerminalScanEvent::Error(e));
                true
            },
        }
    }
}

/// The next message waiting on the channel (`Receiver::try_recv`), or none
/// when the channel is empty or closed. Which message comes depends on the
/// worker: nothing is claimed of it.
#[verifier::external_body]
fn try_recv_message(rx: &std::sync::mpsc::Receiver<ScanMessage>) -> Option<ScanMessage> {
    rx.try_recv().ok()
}

/// The UI's end of the scan channel.
pub struct ScanBridge {
    rx: std::sync::mpsc::Receiver<ScanMessage>,
}

impl ScanBridge {
    /// The channel end the bridge reads from.
    pub closed spec fn source(&self) -> std::sync::mpsc::Receiver<ScanMessage> {
        self.rx
    }

    /// A bridge reading from `rx`.
    pub fn new(rx: std::sync::mpsc::Receiver<ScanMessage>) -> (r: ScanBridge)
        ensures
            r.source() == rx,
    {
        ScanBridge { rx }
    }

    /// Gathers the waiting messages into one batch: at most `budget` and at
    /// most `MAX_MESSAGES_PER_POLL` of them, stopping early when the channel
    /// is empty or after a terminal message. The batch is that of the
    /// messages taken, in order.
    pub fn poll(&self, budget: usize) -> (r: PollBatch)
        ensures
            exists|ms: Seq<ScanMessage>| {
                &&& ms.len() <= budget
                &&& ms.len() <= MAX_MESSAGES_PER_POLL
                &&& forall|i: int| 0 <= i < ms.len() - 1 ==> !is_terminal(#[trigger] ms[i])
                &&& r.view() == batch_of(ms)
            },
    {
        let mut batch = PollBatch::new();
        let limit = if budget < MAX_MESSAGES_PER_POLL { budget } else { MAX_MESSAGES_PER_POLL };
        let ghost mut ms: Seq<ScanMessage> = Seq::empty();
        let mut n: usize = 0;
        while n < limit
            invariant
                n <= limit,
                limit <= budget,
                limit <= MAX_MESSAGES_PER_POLL,
                ms.len() == n,
                forall|i: int| 0 <= i < ms.len() ==> !is_terminal(#[trigger] ms[i]),
                batch.view() == batch_of(ms),
            decreases limit - n,
        {
            match try_recv_message(&self.rx) {
                None => {
                    break;
                },
                Some(msg) => {
                    let ghost m0 = msg;
                    let ghost prev = ms;
                    let stop = batch.absorb(msg);
                    proof {
                        ms = ms.push(m0);
                        assert(ms.drop_last() == prev);
                    }
                    if stop {
                        assert(forall|i: int| 0 <= i < ms.len() - 1 ==> #[trigger] ms[i] == prev[i]);
                        return batch;
                    }
                    n = n + 1;
                },
            }
        }
        batch
    }
}

} // verus!
