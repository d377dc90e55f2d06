use vstd::prelude::*;

use crate::lock::{lock_ops, LockOp};
use crate::plan::TxEntryKind;

verus! {

/// The advisory locks on one path's two lock files, as the operating system
/// grants them: who holds the queue lock, and who holds the main lock, shared
/// or exclusive.
pub struct LockTable {
    pub queue: Option<int>,
    pub shared: Set<int>,
    pub exclusive: Option<int>,
}

/// Every acquirer of one path, and its locks. An acquirer is the kind of lock
/// it takes and how many of that kind's operations it has done: 0 before it
/// starts, 3 once it holds its lock.
pub struct LockWorld {
    pub locks: LockTable,
    pub procs: Map<int, (TxEntryKind, nat)>,
}

/// Whether the system grants `op` now: a lock is granted only where no holder
/// excludes it.
pub open spec fn op_enabled(t: LockTable, op: LockOp) -> bool {
    match op {
        LockOp::LockQueue => t.queue is None,
        LockOp::LockMainShared => t.exclusive is None,
        LockOp::LockMainExclusive => t.exclusive is None && t.shared.is_empty(),
        LockOp::UnlockQueue => true,
    }
}

/// The locks after `p` performs `op`.
pub open spec fn apply_op(t: LockTable, p: int, op: LockOp) -> LockTable {
    match op {
        LockOp::LockQueue => LockTable { queue: Some(p), ..t },
        LockOp::LockMainShared => LockTable { shared: t.shared.insert(p), ..t },
        LockOp::LockMainExclusive => LockTable { exclusive: Some(p), ..t },
        LockOp::UnlockQueue => LockTable { queue: None, ..t },
    }
}

/// The locks after `p` releases the main lock.
pub open spec fn release(t: LockTable, p: int) -> LockTable {
    LockTable {
        queue: t.queue,
        shared: t.shared.remove(p),
        exclusive: if t.exclusive == Some(p) {
            None
        } else {
            t.exclusive
        },
    }
}

/// One move of acquirer `p`: its next operation, where the system grants it,
/// or, once it holds its lock, the release that ends its session.
pub open spec fn moves(w: LockWorld, p: int, w2: LockWorld) -> bool {
    &&& w.procs.contains_key(p)
    &&& {
        let kind = w.procs[p].0;
        let step = w.procs[p].1;
        if step < 3 {
            let op = lock_ops(kind)[step as int];
            &&& op_enabled(w.locks, op)
            &&& w2.locks == apply_op(w.locks, p, op)
            &&& w2.procs == w.procs.insert(p, (kind, (step + 1) as nat))
        } else {
            &&& w2.locks == release(w.locks, p)
            &&& w2.procs == w.procs.insert(p, (kind, 0nat))
        }
    }
}

/// No lock held, every acquirer before its first operation.
pub open spec fn initial(w: LockWorld) -> bool {
    &&& w.locks.queue is None
    &&& w.locks.shared.is_empty()
    &&& w.locks.exclusive is None
    &&& forall|p: int| #[trigger] w.procs.contains_key(p) ==> w.procs[p].1 == 0
}

/// What holds in every state the protocol reaches.
pub open spec fn lock_inv(w: LockWorld) -> bool {
    &&& w.locks.exclusive is Some ==> w.locks.shared.is_empty()
    &&& forall|p: int| #[trigger] w.procs.contains_key(p) ==> w.procs[p].1 <= 3
    &&& forall|p: int|
        #[trigger] w.procs.contains_key(p) && 1 <= w.procs[p].1 <= 2 ==> w.locks.queue == Some(p)
    &&& forall|p: int|
        #[trigger] w.locks.shared.contains(p) ==> w.procs.contains_key(p) && w.procs[p].0
            == TxEntryKind::Read && w.procs[p].1 >= 2
    &&& w.locks.exclusive is Some ==> {
        let p = w.locks.exclusive->Some_0;
        w.procs.contains_key(p) && w.procs[p].0 == TxEntryKind::Write && w.procs[p].1 >= 2
    }
    &&& w.locks.queue is Some ==> {
        let q = w.locks.queue->Some_0;
        w.procs.contains_key(q) && 1 <= w.procs[q].1 <= 2
    }
    &&& forall|p: int|
        #[trigger] w.procs.contains_key(p) && w.procs[p].1 >= 2 && w.procs[p].0 == TxEntryKind::Read
            ==> w.locks.shared.contains(p)
    &&& forall|p: int|
        #[trigger] w.procs.contains_key(p) && w.procs[p].1 >= 2 && w.procs[p].0
            == TxEntryKind::Write ==> w.locks.exclusive == Some(p)
}

/// `p` has taken its lock and not yet released it.
pub open spec fn holds(w: LockWorld, p: int) -> bool {
    w.procs.contains_key(p) && w.procs[p].1 >= 2
}

/// While an acquirer holds a shared lock, nobody holds the lock exclusively.
pub proof fn lemma_reader_excludes_writers(w: LockWorld, p: int)
    requires
        lock_inv(w),
        holds(w, p),
        w.procs[p].0 == TxEntryKind::Read,
    ensures
        w.locks.exclusive is None,
        forall|q: int| #[trigger] holds(w, q) ==> w.procs[q].0 == TxEntryKind::Read,
{
    assert(w.locks.shared.contains(p));
    assert forall|q: int| #[trigger] holds(w, q) implies w.procs[q].0 == TxEntryKind::Read by {
        if w.procs[q].0 == TxEntryKind::Write {
            assert(w.locks.exclusive == Some(q));
        }
    }
}

/// While an acquirer holds the lock exclusively, nobody else holds it at all.
pub proof fn lemma_writer_holds_alone(w: LockWorld, p: int)
    requires
        lock_inv(w),
        holds(w, p),
        w.procs[p].0 == TxEntryKind::Write,
    ensures
        w.locks.exclusive == Some(p),
        w.locks.shared.is_empty(),
        forall|q: int| #[trigger] holds(w, q) ==> q == p,
{
    assert(w.locks.exclusive == Some(p));
    assert forall|q: int| #[trigger] holds(w, q) implies q == p by {
        if w.procs[q].0 == TxEntryKind::Read {
            assert(w.locks.shared.contains(q));
        } else {
            assert(w.locks.exclusive == Some(q));
        }
    }
}

/// The protocol starts in a state of the invariant.
pub proof fn lemma_initial_inv(w: LockWorld)
    requires
        initial(w),
    ensures
        lock_inv(w),
{
}

/// Every move keeps the invariant.
pub proof fn lemma_moves_keep_inv(w: LockWorld, p: int, w2: LockWorld)
    requires
        lock_inv(w),
        moves(w, p, w2),
    ensures
        lock_inv(w2),
{
    let kind = w.procs[p].0;
    let step = w.procs[p].1;
    assert(w2.procs.contains_key(p));
    assert forall|q: int| #[trigger] w2.procs.contains_key(q) implies w2.procs[q].1 <= 3 by {
        if q != p {
            assert(w.procs.contains_key(q));
        }
    }
    assert forall|q: int|
        #[trigger] w2.procs.contains_key(q) && 1 <= w2.procs[q].1 <= 2 implies w2.locks.queue
        == Some(q) by {
        if q != p {
            assert(w.procs.contains_key(q));
        }
    }
    assert forall|q: int| #[trigger] w2.locks.shared.contains(q) implies w2.procs.contains_key(q)
        && w2.procs[q].0 == TxEntryKind::Read && w2.procs[q].1 >= 2 by {
        if q != p {
            assert(w.locks.shared.contains(q));
        }
    }
}

/// Shared and exclusive holders of the main lock never coexist.
pub proof fn lemma_readers_exclude_writer(w: LockWorld)
    requires
        lock_inv(w),
    ensures
        w.locks.exclusive is Some ==> w.locks.shared.is_empty(),
        !w.locks.shared.is_empty() ==> w.locks.exclusive is None,
{
}

/// A writer that waits for the main lock holds the queue lock, so no other
/// acquirer reaches the main lock before it: while it waits, the set of shared
/// holders only shrinks and nobody else takes the lock exclusively.
pub proof fn lemma_waiting_writer_not_overtaken(w: LockWorld, q: int, w2: LockWorld, writer: int)
    requires
        lock_inv(w),
        moves(w, q, w2),
        q != writer,
        w.procs.contains_key(writer),
        w.procs[writer] == (TxEntryKind::Write, 1nat),
    ensures
        w2.locks.shared.subset_of(w.locks.shared),
        w2.locks.exclusive is Some ==> w2.locks.exclusive == w.locks.exclusive,
        w2.procs.contains_key(writer) && w2.procs[writer] == w.procs[writer],
{
    assert(w.locks.queue == Some(writer));
    assert(w.procs.contains_key(q));
    let step = w.procs[q].1;
    if 1 <= step <= 2 {
        assert(w.locks.queue == Some(q));
    }
}

/// Once the holders of the main lock have left, the waiting writer's next move
/// is granted and gives it the main lock.
pub proof fn lemma_waiting_writer_proceeds(w: LockWorld, writer: int)
    requires
        lock_inv(w),
        w.procs.contains_key(writer),
        w.procs[writer] == (TxEntryKind::Write, 1nat),
        w.locks.shared.is_empty(),
        w.locks.exclusive is None,
    ensures
        op_enabled(w.locks, lock_ops(TxEntryKind::Write)[1]),
        apply_op(w.locks, writer, lock_ops(TxEntryKind::Write)[1]).exclusive == Some(writer),
{
}

} // verus!
