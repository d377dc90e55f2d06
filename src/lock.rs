use vstd::prelude::*;

use crate::cow::is_stage_of;
use crate::path::{path_error, usable, FsPath, PathError};
use crate::plan::TxEntryKind;
use crate::sidecar::{lock_ext, lock_ext_bytes, queue_ext, queue_ext_bytes};

verus! {

/// The two lock files of `target`: the main lock `.<name>.lock.sbdb` and the
/// queue lock `.<name>.queue.sbdb`, beside it.
pub fn lock_and_queue_paths(target: &FsPath) -> (r: Result<(FsPath, FsPath), PathError>)
    ensures
        !usable(target.parts()) ==> r == Err::<(FsPath, FsPath), PathError>(
            path_error(target.parts()),
        ),
        usable(target.parts()) ==> r is Ok && is_stage_of(r->Ok_0.0, *target, lock_ext())
            && is_stage_of(r->Ok_0.1, *target, queue_ext()),
{
    let lext = lock_ext_bytes();
    let qext = queue_ext_bytes();
    let main = match target.hidden_with_extension(lext.as_slice()) {
        Ok(p) => p,
        Err(e) => {
            return Err(e);
        },
    };
    let queue = match target.hidden_with_extension(qext.as_slice()) {
        Ok(p) => p,
        Err(e) => {
            return Err(e);
        },
    };
    Ok((main, queue))
}

/// One operation on a path's two lock files.
#[derive(PartialEq, Eq, Structural, Debug, Clone, Copy)]
pub enum LockOp {
    /// Take the queue lock exclusively; blocks.
    LockQueue,
    /// Take the main lock shared; blocks.
    LockMainShared,
    /// Take the main lock exclusively; blocks.
    LockMainExclusive,
    /// Release the queue lock.
    UnlockQueue,
}

/// The main lock's mode for a lock of kind `kind`.
pub open spec fn main_op(kind: TxEntryKind) -> LockOp {
    match kind {
        TxEntryKind::Read => LockOp::LockMainShared,
        TxEntryKind::Write => LockOp::LockMainExclusive,
    }
}

/// The operations that take a lock of kind `kind`, in order.
pub open spec fn lock_ops(kind: TxEntryKind) -> Seq<LockOp> {
    seq![LockOp::LockQueue, main_op(kind), LockOp::UnlockQueue]
}

/// How a lock of kind `kind` is taken: the queue lock first, so that no other
/// acquirer gets past a waiting one; then the main lock in the kind's mode; then
/// the queue lock is released. A waiting writer thus holds back every later
/// reader until the readers before it have left.
pub fn acquire_ops(kind: TxEntryKind) -> (r: Vec<LockOp>)
    ensures
        r@ == lock_ops(kind),
{
    let main = match kind {
        TxEntryKind::Read => LockOp::LockMainShared,
        TxEntryKind::Write => LockOp::LockMainExclusive,
    };
    let mut r: Vec<LockOp> = Vec::new();
    r.push(LockOp::LockQueue);
    r.push(main);
    r.push(LockOp::UnlockQueue);
    assert(r@ =~= lock_ops(kind));
    r
}

/// What to do next while taking the locks of a plan.
#[derive(PartialEq, Eq, Structural, Debug, Clone, Copy)]
pub enum AcquireStep {
    /// Take the lock of the plan's entry at this index.
    Acquire(usize),
    /// Release the lock of the plan's entry at this index.
    Release(usize),
    /// Every lock is held.
    Done,
    /// A lock could not be taken and every lock taken before it is released.
    Abort,
}

/// Taking the locks of a plan of `len` entries, all or none: `held` entries,
/// the first ones of the plan, are locked; after a failure they are released
/// from the last one back.
#[derive(Debug, Clone, Copy, PartialEq, Eq)]
pub struct Acquisition {
    pub len: usize,
    pub held: usize,
    pub failed: bool,
}

/// The step that follows in acquisition state `a`.
pub open spec fn acquire_step(a: Acquisition) -> AcquireStep {
    if !a.failed {
        if a.held < a.len {
            AcquireStep::Acquire(a.held)
        } else {
            AcquireStep::Done
        }
    } else if a.held > 0 {
        AcquireStep::Release((a.held - 1) as usize)
    } else {
        AcquireStep::Abort
    }
}

impl Acquisition {
    pub open spec fn wf(&self) -> bool {
        self.held <= self.len
    }

    /// Nothing held yet, for a plan of `len` entries.
    pub fn new(len: usize) -> (r: Acquisition)
        ensures
            r.len == len,
            r.held == 0,
            !r.failed,
            r.wf(),
    {
        Acquisition { len, held: 0, failed: false }
    }

    /// The step to perform: locks are taken in plan order, and released in
    /// the reverse order.
    pub fn next_step(&self) -> (r: AcquireStep)
        requires
            self.wf(),
        ensures
            r == acquire_step(*self),
            r matches AcquireStep::Acquire(i) ==> i == self.held && i < self.len,
            r matches AcquireStep::Release(i) ==> i + 1 == self.held,
            r == AcquireStep::Done ==> self.held == self.len && !self.failed,
            r == AcquireStep::Abort ==> self.held == 0 && self.failed,
    {
        if !self.failed {
            if self.held < self.len {
                AcquireStep::Acquire(self.held)
            } else {
                AcquireStep::Done
            }
        } else if self.held > 0 {
            AcquireStep::Release(self.held - 1)
        } else {
            AcquireStep::Abort
        }
    }

    /// Records how the step went: a lock taken, or not; a release always
    /// counts, since a failed release is only reported.
    pub fn advance(&mut self, ok: bool)
        requires
            old(self).wf(),
        ensures
            final(self).wf(),
            final(self).len == old(self).len,
            acquire_step(*old(self)) matches AcquireStep::Acquire(_) ==> if ok {
                final(self).held == old(self).held + 1 && !final(self).failed
            } else {
                final(self).held == old(self).held && final(self).failed
            },
            acquire_step(*old(self)) matches AcquireStep::Release(_) ==> final(self).held + 1
                == old(self).held && final(self).failed,
            (acquire_step(*old(self)) == AcquireStep::Done || acquire_step(*old(self))
                == AcquireStep::Abort) ==> *final(self) == *old(self),
    {
        if !self.failed {
            if self.held < self.len {
                if ok {
                    self.held = self.held + 1;
                } else {
                    self.failed = true;
                }
            }
        } else if self.held > 0 {
            self.held = self.held - 1;
        }
    }
}

} // verus!
