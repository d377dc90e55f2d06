use vstd::prelude::*;

use crate::cow::TargetState;
use crate::sidecar::SidecarKind;

verus! {

/// What the sweep does with one directory entry.
#[derive(PartialEq, Eq, Structural, Debug, Clone, Copy)]
pub enum GcAction {
    /// Leave it.
    Keep,
    /// Leave it, and sweep inside it.
    Descend,
    /// Delete it: a file, a link, or a whole tree.
    Remove,
}

/// Whether the sweep deletes a helper entry of kind `k` whose entry is in state
/// `target`: never while a session holds a lock on that entry; lock files once
/// the entry is gone; a backing directory that no link at the entry points
/// through; a stage, link stage or backup once the entry exists again (a backup
/// of a vanished entry may be all that is left of it).
pub open spec fn removable(k: SidecarKind, target: TargetState, target_locked: bool) -> bool {
    &&& !target_locked
    &&& match k {
        SidecarKind::Lock | SidecarKind::Queue => target is Missing,
        SidecarKind::DirBacking => !(target is Symlink),
        _ => !(target is Missing),
    }
}

/// The sweep's rule for one entry. `sidecar` is the entry's kind where its name
/// is that of a helper entry; `target` is what stands at the entry it belongs
/// to, and `target_locked` says whether a session holds a lock on that entry.
/// Other entries are kept, and directories among them are swept in turn.
pub open spec fn gc_rule(
    sidecar: Option<SidecarKind>,
    entry_is_dir: bool,
    target: TargetState,
    target_locked: bool,
) -> GcAction {
    match sidecar {
        None => if entry_is_dir {
            GcAction::Descend
        } else {
            GcAction::Keep
        },
        Some(k) => if removable(k, target, target_locked) {
            GcAction::Remove
        } else {
            GcAction::Keep
        },
    }
}

/// The sweep never deletes what is not a helper entry, nor a helper entry whose
/// entry a session holds locked.
pub proof fn lemma_sweep_spares_live_entries(
    sidecar: Option<SidecarKind>,
    entry_is_dir: bool,
    target: TargetState,
    target_locked: bool,
)
    ensures
        gc_rule(sidecar, entry_is_dir, target, target_locked) == GcAction::Remove ==> sidecar is Some
            && !target_locked,
{
}

/// Decides what the sweep does with one entry, by `gc_rule`.
pub fn gc_action(
    sidecar: Option<SidecarKind>,
    entry_is_dir: bool,
    target: &TargetState,
    target_locked: bool,
) -> (r: GcAction)
    ensures
        r == gc_rule(sidecar, entry_is_dir, *target, target_locked),
        r == GcAction::Remove ==> sidecar is Some && !target_locked,
{
    let missing = match target {
        TargetState::Missing => true,
        _ => false,
    };
    let symlink = match target {
        TargetState::Symlink(_) => true,
        _ => false,
    };
    match sidecar {
        None => if entry_is_dir {
            GcAction::Descend
        } else {
            GcAction::Keep
        },
        Some(SidecarKind::Lock) | Some(SidecarKind::Queue) => if missing && !target_locked {
            GcAction::Remove
        } else {
            GcAction::Keep
        },
        Some(SidecarKind::DirBacking) => if !symlink && !target_locked {
            GcAction::Remove
        } else {
            GcAction::Keep
        },
        Some(_) => if !missing && !target_locked {
            GcAction::Remove
        } else {
            GcAction::Keep
        },
    }
}

} // verus!
