//! Deferred-cleanup queue (the resource ledger).
//!
//! Remote-backed handles cannot suspend inside their teardown hooks, so they
//! enqueue a zero-argument cleanup action here instead.  A single worker
//! consumes the queue strictly in submission order, which preserves dependent
//! teardown ordering; `flush` enqueues a barrier whose acknowledgement
//! guarantees that every action enqueued strictly before it has run.
//!
//! The queue is modelled as the sequence of enqueued entries plus a cursor:
//! entries before the cursor have been taken by the worker and run.  The
//! actions themselves are kept by the caller, keyed by the tokens handed out
//! here; the queue carries only the ordering and the at-most-once discipline.

use vstd::prelude::*;

verus! {

/// One entry of the cleanup queue: a queued cleanup action, or a
/// synchronisation barrier enqueued by `flush`.
#[derive(Clone, Copy, PartialEq, Eq, Structural, Debug)]
pub enum QueueEntry {
    Action { id: u64 },
    Sync { id: u64 },
}

impl QueueEntry {
    pub open spec fn entry_id(self) -> u64 {
        match self {
            QueueEntry::Action { id } => id,
            QueueEntry::Sync { id } => id,
        }
    }
}

/// The deferred-cleanup queue.  Entries are processed first-in first-out and
/// at most once each: `step` hands out the entry at the cursor and advances
/// the cursor, and nothing ever moves the cursor back.
pub struct DropList {
    pub entries: Vec<QueueEntry>,
    pub cursor: usize,
    pub next_id: u64,
}

impl DropList {
    pub open spec fn wf(&self) -> bool {
        &&& self.cursor <= self.entries.len()
        &&& forall|i: int|
            0 <= i < self.entries.len() ==> #[trigger] self.entries[i].entry_id() < self.next_id
        &&& forall|i: int, j: int|
            0 <= i < j < self.entries.len()
                ==> self.entries[i].entry_id() < self.entries[j].entry_id()
    }

    /// True once the worker has taken the entry at position `i` and run it.
    pub open spec fn processed(&self, i: int) -> bool {
        0 <= i < self.cursor
    }

    pub fn new() -> (r: DropList)
        ensures
            r.wf(),
            r.entries@ =~= Seq::<QueueEntry>::empty(),
            r.cursor == 0,
    {
        DropList { entries: Vec::new(), cursor: 0, next_id: 0 }
    }

    /// Enqueues a cleanup action and returns immediately with its token; the
    /// action runs later, when the worker reaches it.
    pub fn async_drop(&mut self) -> (id: u64)
        requires
            old(self).wf(),
            old(self).next_id < u64::MAX,
        ensures
            final(self).wf(),
            id == old(self).next_id,
            final(self).entries@ =~= old(self).entries@.push(QueueEntry::Action { id }),
            final(self).cursor == old(self).cursor,
            final(self).next_id == old(self).next_id + 1,
    {
        let id = self.next_id;
        self.entries.push(QueueEntry::Action { id });
        self.next_id = self.next_id + 1;
        id
    }

    /// Enqueues a synchronisation barrier and returns its token.  The caller
    /// waits for the token's acknowledgement; once the worker has processed
    /// the barrier, every action enqueued strictly before it has run
    /// (`lemma_flush_barrier`).  Nothing is promised for actions enqueued
    /// concurrently with or after the barrier.
    pub fn flush(&mut self) -> (id: u64)
        requires
            old(self).wf(),
            old(self).next_id < u64::MAX,
        ensures
            final(self).wf(),
            id == old(self).next_id,
            final(self).entries@ =~= old(self).entries@.push(QueueEntry::Sync { id }),
            final(self).cursor == old(self).cursor,
            final(self).next_id == old(self).next_id + 1,
    {
        let id = self.next_id;
        self.entries.push(QueueEntry::Sync { id });
        self.next_id = self.next_id + 1;
        id
    }

    /// One worker step: takes the oldest unprocessed entry, in submission
    /// order.  Each entry is handed out exactly once, so every action runs at
    /// most once, and actions never run concurrently with one another.
    pub fn step(&mut self) -> (r: Option<QueueEntry>)
        requires
            old(self).wf(),
        ensures
            final(self).wf(),
            final(self).entries@ =~= old(self).entries@,
            final(self).next_id == old(self).next_id,
            old(self).cursor == old(self).entries@.len() ==> {
                &&& r is None
                &&& final(self).cursor == old(self).cursor
            },
            old(self).cursor < old(self).entries@.len() ==> {
                &&& r == Some(old(self).entries@[old(self).cursor as int])
                &&& final(self).cursor == old(self).cursor + 1
            },
    {
        if self.cursor < self.entries.len() {
            let e = self.entries[self.cursor];
            self.cursor = self.cursor + 1;
            Some(e)
        } else {
            None
        }
    }
}

/// Law: the barrier enqueued by `flush` holds back its acknowledgement until
/// every action enqueued strictly before it has run.  Once the barrier at
/// position `j` is processed, so is every entry at an earlier position.  An
/// entry enqueued after the barrier sits at a later position, of which
/// nothing here is promised.
pub proof fn lemma_flush_barrier(q: DropList, i: int, j: int)
    requires
        q.wf(),
        0 <= i < j < q.entries@.len(),
        q.entries@[j] is Sync,
        q.processed(j),
    ensures
        q.processed(i),
{
}

/// A handle's detachable link to the cleanup queue.  Dropping a handle
/// registers its cleanup action through this link exactly once; `cancel`
/// detaches the link beforehand so the holder can suppress auto-cleanup,
/// e.g. when it attached to a remote resource it does not own.
pub struct CancelableDropList {
    pub inner: Option<DropList>,
}

impl CancelableDropList {
    /// A detached link: registering through it does nothing.
    pub fn new() -> (r: CancelableDropList)
        ensures
            r.inner is None,
    {
        CancelableDropList { inner: None }
    }

    /// A link attached to the given queue.
    pub fn attach(list: DropList) -> (r: CancelableDropList)
        ensures
            r.inner == Some(list),
    {
        CancelableDropList { inner: Some(list) }
    }

    pub fn cancel(&mut self)
        ensures
            final(self).inner is None,
    {
        let _ = self.take();
    }

    pub fn is_canceled(&self) -> (r: bool)
        ensures
            r == (self.inner is None),
    {
        self.inner.is_none()
    }

    pub fn take(&mut self) -> (r: Option<DropList>)
        ensures
            r == old(self).inner,
            final(self).inner is None,
    {
        self.inner.take()
    }

    /// Registers the cleanup action if the link is still attached, detaching
    /// it in the process, so a second registration through the same link does
    /// nothing.  The queue itself is handed back to the caller, which owns it
    /// in this model.
    pub fn async_drop(&mut self) -> (r: Option<(DropList, u64)>)
        requires
            old(self).inner matches Some(q) ==> q.wf() && q.next_id < u64::MAX,
        ensures
            final(self).inner is None,
            match old(self).inner {
                Some(q) => {
                    &&& r matches Some((q2, id))
                    &&& id == q.next_id
                    &&& r->Some_0.0.entries@ =~= q.entries@.push(
                        QueueEntry::Action { id: q.next_id },
                    )
                    &&& r->Some_0.0.cursor == q.cursor
                    &&& r->Some_0.0.wf()
                },
                None => r is None,
            },
    {
        match self.take() {
            Some(mut q) => {
                let id = q.async_drop();
                Some((q, id))
            },
            None => None,
        }
    }
}

} // verus!
