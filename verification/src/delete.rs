//! Shared progress of a background delete: the worker removes entries one
//! at a time and publishes its position here; the UI reads it each tick.

use vstd::prelude::*;
use vstd::rwlock::{RwLock, RwLockPredicate};

verus! {

/// Any value may be stored.
pub struct AnyValue;

impl RwLockPredicate<String> for AnyValue {
    open spec fn inv(self, v: String) -> bool {
        true
    }
}

impl RwLockPredicate<Option<String>> for AnyValue {
    open spec fn inv(self, v: Option<String>) -> bool {
        true
    }
}

/// Progress of an in-flight delete. Counters are atomics; the current path
/// and the first error sit behind locks held only to read or replace them.
pub struct DeleteProgress {
    items_deleted: std::sync::atomic::AtomicU64,
    /// Estimate of the entries to remove (at least 1), for the bar only.
    pub total_items: u64,
    done: std::sync::atomic::AtomicBool,
    cancel: std::sync::atomic::AtomicBool,
    current: RwLock<String, AnyValue>,
    error: RwLock<Option<String>, AnyValue>,
}

impl DeleteProgress {
    /// The estimate of entries to remove.
    pub closed spec fn total_spec(&self) -> u64 {
        self.total_items
    }

    /// Progress for deleting about `total_items` entries (at least one),
    /// starting at `first`: nothing removed, not done, not cancelled.
    pub fn new(total_items: u64, first: String) -> (r: DeleteProgress)
        ensures
            r.total_spec() == if total_items < 1 { 1 } else { total_items },
    {
        DeleteProgress {
            items_deleted: std::sync::atomic::AtomicU64::new(0),
            total_items: if total_items < 1 { 1 } else { total_items },
            done: std::sync::atomic::AtomicBool::new(false),
            cancel: std::sync::atomic::AtomicBool::new(false),
            current: RwLock::new(first, Ghost(AnyValue)),
            error: RwLock::new(None, Ghost(AnyValue)),
        }
    }

    /// Entries removed so far.
    pub fn items_deleted(&self) -> u64 {
        self.items_deleted.load(std::sync::atomic::Ordering::Relaxed)
    }

    /// Whether the worker has finished.
    pub fn is_done(&self) -> bool {
        self.done.load(std::sync::atomic::Ordering::Relaxed)
    }

    /// Whether a cancel was requested.
    pub fn is_cancelled(&self) -> bool {
        self.cancel.load(std::sync::atomic::Ordering::Relaxed)
    }

    /// Asks the worker to stop.
    pub fn request_cancel(&self) {
        self.cancel.store(true, std::sync::atomic::Ordering::Relaxed);
    }

    /// The entry being removed.
    pub fn current_path(&self) -> String {
        let h = self.current.acquire_read();
        let p = h.borrow().clone();
        h.release_read();
        p
    }

    /// Takes the first error, leaving none.
    pub fn take_error(&self) -> Option<String> {
        let (e, h) = self.error.acquire_write();
        h.release_write(None);
        e
    }

    /// Publishes the entry being removed.
    pub fn set_current(&self, path: String) {
        let (_old, h) = self.current.acquire_write();
        h.release_write(path);
    }

    /// Counts one removed entry.
    pub fn record_removed(&self) {
        self.items_deleted.fetch_add(1, std::sync::atomic::Ordering::Relaxed);
    }

    /// Keeps `msg` as the error unless one is already kept.
    pub fn set_error(&self, msg: String) {
        let (e, h) = self.error.acquire_write();
        match e {
            Some(old) => h.release_write(Some(old)),
            None => h.release_write(Some(msg)),
        }
    }

    /// Marks the worker finished.
    pub fn mark_done(&self) {
        self.done.store(true, std::sync::atomic::Ordering::Relaxed);
    }
}

} // verus!
