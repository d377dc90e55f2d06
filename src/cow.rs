use vstd::prelude::*;
use vstd::utf8::encode_utf8;

use crate::path::{
    components, hidden_name, lemma_sidecar_differs, parse_components, path_error, push_all,
    same_path, sidecar_of, usable, FsPath, PathError, SLASH, DOT,
};
use crate::sidecar::{
    bak_ext, backup_ext, dir_ext, dir_ext_bytes, is_rid, puuid, tmp_ext, tmp_ext_bytes, tmplnk_ext,
    tmplnk_ext_bytes,
};
use crate::tx::Tx;

verus! {

/// What stands at a path, as the file system reports it.
#[derive(Debug, Clone, PartialEq, Eq)]
pub enum TargetState {
    /// Nothing, or a link whose target does not exist.
    Missing,
    /// A symbolic link, with the text of its target.
    Symlink(Vec<u8>),
    /// A directory or a file.
    Present,
}

/// `stage` is the sibling of `orig` named by a dot, `orig`'s name and `ext`.
pub open spec fn is_stage_of(stage: FsPath, orig: FsPath, ext: Seq<u8>) -> bool {
    stage.absolute == orig.absolute && stage.parts() == sidecar_of(orig.parts(), ext)
}

/// A staged copy of a file: the copy is written at `path` and renamed onto
/// `orig` at commit.
pub struct CowFileGaurd {
    pub path: FsPath,
    pub orig: FsPath,
}

/// A staged copy of a directory, committed by two renames through a backup.
pub struct CowDirGaurd {
    pub path: FsPath,
    pub orig: FsPath,
}

/// Opens a file stage for `orig`: the copy goes to `.<name>.tmp.sbdb` beside it.
pub fn file_cow(orig: &FsPath) -> (r: Result<CowFileGaurd, PathError>)
    ensures
        !usable(orig.parts()) ==> r == Err::<CowFileGaurd, PathError>(path_error(orig.parts())),
        usable(orig.parts()) ==> r is Ok && same_path(r->Ok_0.orig, *orig) && is_stage_of(
            r->Ok_0.path,
            *orig,
            tmp_ext(),
        ),
{
    let ext = tmp_ext_bytes();
    match orig.hidden_with_extension(ext.as_slice()) {
        Ok(path) => Ok(CowFileGaurd { path, orig: orig.copy() }),
        Err(e) => Err(e),
    }
}

/// Opens a directory stage for `orig`: the copy goes to `.<name>.tmp.sbdb`
/// beside it.
pub fn dir_cow(orig: &FsPath) -> (r: Result<CowDirGaurd, PathError>)
    ensures
        !usable(orig.parts()) ==> r == Err::<CowDirGaurd, PathError>(path_error(orig.parts())),
        usable(orig.parts()) ==> r is Ok && same_path(r->Ok_0.orig, *orig) && is_stage_of(
            r->Ok_0.path,
            *orig,
            tmp_ext(),
        ),
{
    let ext = tmp_ext_bytes();
    match orig.hidden_with_extension(ext.as_slice()) {
        Ok(path) => Ok(CowDirGaurd { path, orig: orig.copy() }),
        Err(e) => Err(e),
    }
}

/// A stage never overwrites what it stages: its path differs from the
/// target's, in the same directory; so dropping a stage without committing
/// leaves the target as it was.
pub proof fn lemma_stage_beside_target(stage: FsPath, orig: FsPath, ext: Seq<u8>)
    requires
        usable(orig.parts()),
        is_stage_of(stage, orig, ext),
    ensures
        !same_path(stage, orig),
        stage.parts().drop_last() == orig.parts().drop_last(),
{
    lemma_sidecar_differs(orig.parts(), ext);
}

/// The steps of a two-rename directory commit.
#[derive(PartialEq, Eq, Structural, Debug, Clone, Copy)]
pub enum DirCommitState {
    /// The stage is ready; the target is in place.
    Staged,
    /// The target has been renamed to the backup.
    BackedUp,
    /// The stage could not take the target's place; the backup goes back.
    RollingBack,
    /// The stage is in the target's place.
    Published,
    /// The backup is gone, or could not be removed (which is no failure).
    Cleaned,
    /// The target could not be moved aside; nothing changed.
    Failed,
    /// The stage could not be published; the target is back in place.
    RolledBack,
    /// Neither publishing nor rolling back succeeded: the target is at the
    /// backup's path.
    RollbackFailed,
}

/// One file system operation of a commit.
#[derive(Debug, Clone, PartialEq, Eq)]
pub enum CommitAction {
    Rename { from: FsPath, to: FsPath },
    RemoveTree(FsPath),
    /// Create a symbolic link at `at` whose target is the relative name `target`.
    Symlink { target: Vec<u8>, at: FsPath },
}

/// `a` renames `from` to `to`.
pub open spec fn is_rename(a: Option<CommitAction>, from: FsPath, to: FsPath) -> bool {
    match a {
        Some(CommitAction::Rename { from: f, to: t }) => same_path(f, from) && same_path(t, to),
        _ => false,
    }
}

/// `a` removes the tree at `p`.
pub open spec fn is_remove(a: Option<CommitAction>, p: FsPath) -> bool {
    match a {
        Some(CommitAction::RemoveTree(q)) => same_path(q, p),
        _ => false,
    }
}

/// `a` creates at `at` a link to the relative name `target`.
pub open spec fn is_link(a: Option<CommitAction>, target: Seq<u8>, at: FsPath) -> bool {
    match a {
        Some(CommitAction::Symlink { target: t, at: p }) => t@ == target && same_path(p, at),
        _ => false,
    }
}

/// A directory commit in progress.
pub struct DirCommit {
    pub stage: FsPath,
    pub orig: FsPath,
    pub backup: FsPath,
    pub state: DirCommitState,
}

/// The state a two-rename commit moves to when the step of `s` succeeds or
/// fails.
pub open spec fn dir_commit_next(s: DirCommitState, ok: bool) -> DirCommitState {
    match s {
        DirCommitState::Staged => if ok {
            DirCommitState::BackedUp
        } else {
            DirCommitState::Failed
        },
        DirCommitState::BackedUp => if ok {
            DirCommitState::Published
        } else {
            DirCommitState::RollingBack
        },
        DirCommitState::RollingBack => if ok {
            DirCommitState::RolledBack
        } else {
            DirCommitState::RollbackFailed
        },
        DirCommitState::Published => DirCommitState::Cleaned,
        _ => s,
    }
}

impl CowDirGaurd {
    /// Starts the commit, with backup `.<name>.<RID>.bak.sbdb` for the
    /// identifier `rid`.
    pub fn commit_with(self, rid: &[u8]) -> (r: Result<DirCommit, PathError>)
        ensures
            !usable(self.orig.parts()) ==> r == Err::<DirCommit, PathError>(
                path_error(self.orig.parts()),
            ),
            usable(self.orig.parts()) ==> r is Ok && r->Ok_0.stage == self.path && r->Ok_0.orig
                == self.orig && is_stage_of(r->Ok_0.backup, self.orig, bak_ext(rid@))
                && r->Ok_0.state == DirCommitState::Staged,
    {
        let ext = backup_ext(rid);
        match self.orig.hidden_with_extension(ext.as_slice()) {
            Ok(backup) => Ok(
                DirCommit { stage: self.path, orig: self.orig, backup, state: DirCommitState::Staged },
            ),
            Err(e) => Err(e),
        }
    }

    /// Starts the commit, with a backup named by a fresh identifier.
    pub fn commit(self) -> (r: Result<DirCommit, PathError>)
        ensures
            !usable(self.orig.parts()) ==> r == Err::<DirCommit, PathError>(
                path_error(self.orig.parts()),
            ),
            usable(self.orig.parts()) ==> r is Ok && r->Ok_0.stage == self.path && r->Ok_0.orig
                == self.orig && r->Ok_0.state == DirCommitState::Staged && exists|rid: Seq<u8>|
                is_rid(rid) && is_stage_of(r->Ok_0.backup, self.orig, bak_ext(rid)),
    {
        let rid = puuid();
        self.commit_with(rid.as_slice())
    }
}

impl DirCommit {
    /// The operation that the current step performs; `None` once the commit
    /// has ended.
    pub fn action(&self) -> (r: Option<CommitAction>)
        ensures
            self.state == DirCommitState::Staged ==> is_rename(r, self.orig, self.backup),
            self.state == DirCommitState::BackedUp ==> is_rename(r, self.stage, self.orig),
            self.state == DirCommitState::RollingBack ==> is_rename(r, self.backup, self.orig),
            self.state == DirCommitState::Published ==> is_remove(r, self.backup),
            self.is_finished() ==> r is None,
    {
        match self.state {
            DirCommitState::Staged => Some(
                CommitAction::Rename { from: self.orig.copy(), to: self.backup.copy() },
            ),
            DirCommitState::BackedUp => Some(
                CommitAction::Rename { from: self.stage.copy(), to: self.orig.copy() },
            ),
            DirCommitState::RollingBack => Some(
                CommitAction::Rename { from: self.backup.copy(), to: self.orig.copy() },
            ),
            DirCommitState::Published => Some(CommitAction::RemoveTree(self.backup.copy())),
            _ => None,
        }
    }

    /// The commit has ended, in success or failure.
    pub open spec fn is_finished(&self) -> bool {
        self.state == DirCommitState::Cleaned || self.state == DirCommitState::Failed
            || self.state == DirCommitState::RolledBack || self.state
            == DirCommitState::RollbackFailed
    }

    /// Records whether the current step's operation succeeded.
    pub fn advance(&mut self, ok: bool)
        ensures
            final(self).state == dir_commit_next(old(self).state, ok),
            final(self).stage == old(self).stage,
            final(self).orig == old(self).orig,
            final(self).backup == old(self).backup,
    {
        self.state = match self.state {
            DirCommitState::Staged => if ok {
                DirCommitState::BackedUp
            } else {
                DirCommitState::Failed
            },
            DirCommitState::BackedUp => if ok {
                DirCommitState::Published
            } else {
                DirCommitState::RollingBack
            },
            DirCommitState::RollingBack => if ok {
                DirCommitState::RolledBack
            } else {
                DirCommitState::RollbackFailed
            },
            DirCommitState::Published => DirCommitState::Cleaned,
            s => s,
        };
    }

    /// Whether the stage took the target's place: a failure to remove the
    /// backup afterwards does not undo that.
    pub fn is_committed(&self) -> (r: bool)
        ensures
            r == (self.state == DirCommitState::Published || self.state
                == DirCommitState::Cleaned),
    {
        match self.state {
            DirCommitState::Published | DirCommitState::Cleaned => true,
            _ => false,
        }
    }
}


impl CowFileGaurd {
    /// The commit's one operation: the stage is renamed onto the target.
    pub fn commit(&self) -> (r: CommitAction)
        ensures
            is_rename(Some(r), self.path, self.orig),
    {
        CommitAction::Rename { from: self.path.copy(), to: self.orig.copy() }
    }
}

/// A staged copy of a directory, published by swapping a symbolic link: the
/// copy is built in a uniquely named sibling, and `current` becomes a link to it.
pub struct CowAtomicDirGaurd {
    pub current: FsPath,
    /// The name of the stage, beside `current`: what the link will point to.
    pub name: Vec<u8>,
    pub path: FsPath,
    /// The directory that `current` linked to before, removed after the swap.
    pub orig: Option<FsPath>,
    /// What the stage is copied from; `None` where it starts empty.
    pub source: Option<FsPath>,
    /// `current` is a real directory, which the commit turns into a link.
    pub converting: bool,
}

/// The directory that a link at `current` with target text `t` points to.
pub open spec fn link_target(current: FsPath, t: Seq<u8>) -> (bool, Seq<Seq<u8>>) {
    if t.len() > 0 && t[0] == SLASH {
        (true, components(t))
    } else {
        (current.absolute, current.parts().drop_last() + components(t))
    }
}

/// `p` is the path `(absolute, parts)`.
pub open spec fn is_path(p: FsPath, v: (bool, Seq<Seq<u8>>)) -> bool {
    p.absolute == v.0 && p.parts() == v.1
}

/// `o` holds the path `(absolute, parts)`.
pub open spec fn opt_is_path(o: Option<FsPath>, v: (bool, Seq<Seq<u8>>)) -> bool {
    match o {
        Some(p) => is_path(p, v),
        None => false,
    }
}

/// Where the stage of `current` is filled from, for what stands at `current`:
/// nothing, for a new directory; the directory a link points to, which the
/// commit then removes; or `current` itself, which the commit turns into a link.
pub open spec fn stage_sources(g: CowAtomicDirGaurd, current: FsPath, state: TargetState) -> bool {
    match state {
        TargetState::Missing => g.orig is None && g.source is None && !g.converting,
        TargetState::Symlink(t) => opt_is_path(g.orig, link_target(current, t@)) && opt_is_path(
            g.source,
            link_target(current, t@),
        ) && !g.converting,
        TargetState::Present => g.orig is None && opt_is_path(
            g.source,
            (current.absolute, current.parts()),
        ) && g.converting,
    }
}

/// The path that a link at `current` with target text `t` points to.
fn resolve_link(current: &FsPath, t: &Vec<u8>) -> (r: FsPath)
    requires
        current.parts().len() > 0,
    ensures
        is_path(r, link_target(*current, t@)),
{
    let comps = parse_components(t.as_slice());
    if t.len() > 0 && t[0] == SLASH {
        FsPath { absolute: true, comps }
    } else {
        let mut parent = current.copy();
        let ghost before = parent.comps@;
        parent.comps.pop();
        assert(parent.parts() =~= current.parts().drop_last());
        parent.join(&comps)
    }
}

/// Opens an atomic directory stage for `current`, named with identifier `rid`;
/// `state` is what stands at `current`.
pub fn dir_cow_atomic_with(current: &FsPath, state: &TargetState, rid: &[u8]) -> (r: Result<
    CowAtomicDirGaurd,
    PathError,
>)
    ensures
        !usable(current.parts()) ==> r == Err::<CowAtomicDirGaurd, PathError>(
            path_error(current.parts()),
        ),
        usable(current.parts()) ==> r is Ok && {
            let g = r->Ok_0;
            &&& same_path(g.current, *current)
            &&& g.name@ == hidden_name(current.parts().last(), dir_ext(rid@))
            &&& is_stage_of(g.path, *current, dir_ext(rid@))
            &&& stage_sources(g, *current, *state)
        },
{
    let ext = dir_ext_bytes(rid);
    let path = match current.hidden_with_extension(ext.as_slice()) {
        Ok(p) => p,
        Err(e) => {
            return Err(e);
        },
    };
    let n = current.comps.len();
    let mut name: Vec<u8> = Vec::new();
    name.push(DOT);
    push_all(&mut name, current.comps[n - 1].as_slice());
    push_all(&mut name, ext.as_slice());
    assert(name@ =~= hidden_name(current.parts().last(), dir_ext(rid@)));
    let (orig, source, converting) = match state {
        TargetState::Missing => (None, None, false),
        TargetState::Symlink(t) => (Some(resolve_link(current, t)), Some(resolve_link(current, t)), false),
        TargetState::Present => (None, Some(current.copy()), true),
    };
    Ok(CowAtomicDirGaurd { current: current.copy(), name, path, orig, source, converting })
}

/// Opens an atomic directory stage for `current`, named with a fresh identifier.
pub fn dir_cow_atomic(current: &FsPath, state: &TargetState) -> (r: Result<
    CowAtomicDirGaurd,
    PathError,
>)
    ensures
        !usable(current.parts()) ==> r == Err::<CowAtomicDirGaurd, PathError>(
            path_error(current.parts()),
        ),
        usable(current.parts()) ==> r is Ok && exists|rid: Seq<u8>|
            is_rid(rid) && #[trigger] is_stage_of(r->Ok_0.path, *current, dir_ext(rid))
                && r->Ok_0.name@ == hidden_name(current.parts().last(), dir_ext(rid)),
        r is Ok ==> same_path(r->Ok_0.current, *current) && stage_sources(
            r->Ok_0,
            *current,
            *state,
        ),
{
    let rid = puuid();
    dir_cow_atomic_with(current, state, rid.as_slice())
}


/// The steps of a link-swap directory commit.
#[derive(PartialEq, Eq, Structural, Debug, Clone, Copy)]
pub enum AtomicCommitState {
    /// The stage is complete; nothing is published.
    Staged,
    /// A temporary link to the stage exists beside `current`.
    Linked,
    /// The real directory at `current` has been renamed to the backup.
    BackedUp,
    /// `current` is the new link: the commit has taken effect.
    Published,
    /// The directory that the old link pointed to is gone, or could not be
    /// removed (which is no failure).
    PriorRemoved,
    /// Cleanup is over.
    Cleaned,
    /// A step before publication failed while `current` was still in place.
    Failed,
    /// The link could not take the place of the real directory moved to the
    /// backup; the backup goes back to `current`.
    RollingBack,
    /// The commit failed and `current` is back as it was.
    RolledBack,
    /// Neither publishing nor rolling back succeeded: the directory is at the
    /// backup's path.
    RollbackFailed,
}

/// A link-swap commit in progress.
pub struct AtomicCommit {
    pub current: FsPath,
    /// Where the temporary link is made: `.<name>.tmplnk.sbdb` beside `current`.
    pub link: FsPath,
    /// The stage's name, which the link points to.
    pub target: Vec<u8>,
    /// Where a real directory at `current` is moved before the swap.
    pub backup: Option<FsPath>,
    /// The directory that `current` linked to before the swap.
    pub prior: Option<FsPath>,
    pub state: AtomicCommitState,
}

/// `r` is the operation of the current step of `c`.
pub open spec fn atomic_action_is(c: AtomicCommit, r: Option<CommitAction>) -> bool {
    match c.state {
        AtomicCommitState::Staged => is_link(r, c.target@, c.link),
        AtomicCommitState::Linked => match c.backup {
            Some(b) => is_rename(r, c.current, b),
            None => is_rename(r, c.link, c.current),
        },
        AtomicCommitState::BackedUp => is_rename(r, c.link, c.current),
        AtomicCommitState::RollingBack => match c.backup {
            Some(b) => is_rename(r, b, c.current),
            None => r is None,
        },
        AtomicCommitState::Published => match c.prior {
            Some(p) => is_remove(r, p),
            None => match c.backup {
                Some(b) => is_remove(r, b),
                None => r is None,
            },
        },
        AtomicCommitState::PriorRemoved => match c.backup {
            Some(b) => is_remove(r, b),
            None => r is None,
        },
        _ => r is None,
    }
}

/// The state a link-swap commit moves to when the step of `c` succeeds or fails.
pub open spec fn atomic_commit_next(c: AtomicCommit, ok: bool) -> AtomicCommitState {
    match c.state {
        AtomicCommitState::Staged => if ok {
            AtomicCommitState::Linked
        } else {
            AtomicCommitState::Failed
        },
        AtomicCommitState::Linked => if !ok {
            AtomicCommitState::Failed
        } else if c.backup is Some {
            AtomicCommitState::BackedUp
        } else {
            AtomicCommitState::Published
        },
        AtomicCommitState::BackedUp => if ok {
            AtomicCommitState::Published
        } else {
            AtomicCommitState::RollingBack
        },
        AtomicCommitState::RollingBack => if ok {
            AtomicCommitState::RolledBack
        } else {
            AtomicCommitState::RollbackFailed
        },
        AtomicCommitState::Published => if c.prior is Some {
            AtomicCommitState::PriorRemoved
        } else {
            AtomicCommitState::Cleaned
        },
        AtomicCommitState::PriorRemoved => AtomicCommitState::Cleaned,
        s => s,
    }
}

/// `r` renames `p` away.
pub open spec fn renames_from(r: Option<CommitAction>, p: FsPath) -> bool {
    match r {
        Some(CommitAction::Rename { from, to: _ }) => same_path(from, p),
        _ => false,
    }
}

/// `r` renames something onto `p`.
pub open spec fn renames_onto(r: Option<CommitAction>, p: FsPath) -> bool {
    match r {
        Some(CommitAction::Rename { from: _, to }) => same_path(to, p),
        _ => false,
    }
}

impl AtomicCommit {
    /// The link is the sidecar `.<name>.tmplnk.sbdb` of a usable `current`.
    pub open spec fn wf(&self) -> bool {
        usable(self.current.parts()) && is_stage_of(self.link, self.current, tmplnk_ext())
    }

    /// The operation that the current step performs; `None` once the commit
    /// has ended.
    pub fn action(&self) -> (r: Option<CommitAction>)
        ensures
            atomic_action_is(*self, r),
    {
        match self.state {
            AtomicCommitState::Staged => Some(
                CommitAction::Symlink {
                    target: crate::path::copy_bytes(self.target.as_slice()),
                    at: self.link.copy(),
                },
            ),
            AtomicCommitState::Linked => match &self.backup {
                Some(b) => Some(CommitAction::Rename { from: self.current.copy(), to: b.copy() }),
                None => Some(CommitAction::Rename { from: self.link.copy(), to: self.current.copy() }),
            },
            AtomicCommitState::BackedUp => Some(
                CommitAction::Rename { from: self.link.copy(), to: self.current.copy() },
            ),
            AtomicCommitState::RollingBack => match &self.backup {
                Some(b) => Some(CommitAction::Rename { from: b.copy(), to: self.current.copy() }),
                None => None,
            },
            AtomicCommitState::Published => match &self.prior {
                Some(p) => Some(CommitAction::RemoveTree(p.copy())),
                None => match &self.backup {
                    Some(b) => Some(CommitAction::RemoveTree(b.copy())),
                    None => None,
                },
            },
            AtomicCommitState::PriorRemoved => match &self.backup {
                Some(b) => Some(CommitAction::RemoveTree(b.copy())),
                None => None,
            },
            _ => None,
        }
    }

    /// Records whether the current step's operation succeeded.
    pub fn advance(&mut self, ok: bool)
        ensures
            final(self).state == atomic_commit_next(*old(self), ok),
            final(self).current == old(self).current,
            final(self).link == old(self).link,
            final(self).target == old(self).target,
            final(self).backup == old(self).backup,
            final(self).prior == old(self).prior,
    {
        let next = match self.state {
            AtomicCommitState::Staged => if ok {
                AtomicCommitState::Linked
            } else {
                AtomicCommitState::Failed
            },
            AtomicCommitState::Linked => if !ok {
                AtomicCommitState::Failed
            } else if self.backup.is_some() {
                AtomicCommitState::BackedUp
            } else {
                AtomicCommitState::Published
            },
            AtomicCommitState::BackedUp => if ok {
                AtomicCommitState::Published
            } else {
                AtomicCommitState::RollingBack
            },
            AtomicCommitState::RollingBack => if ok {
                AtomicCommitState::RolledBack
            } else {
                AtomicCommitState::RollbackFailed
            },
            AtomicCommitState::Published => if self.prior.is_some() {
                AtomicCommitState::PriorRemoved
            } else {
                AtomicCommitState::Cleaned
            },
            AtomicCommitState::PriorRemoved => AtomicCommitState::Cleaned,
            s => s,
        };
        self.state = next;
    }

    /// Whether the new link is in place: cleanup failures do not undo that.
    pub fn is_committed(&self) -> (r: bool)
        ensures
            r == (self.state == AtomicCommitState::Published || self.state
                == AtomicCommitState::PriorRemoved || self.state == AtomicCommitState::Cleaned),
    {
        match self.state {
            AtomicCommitState::Published | AtomicCommitState::PriorRemoved
            | AtomicCommitState::Cleaned => true,
            _ => false,
        }
    }
}

/// Republishing a directory that is already a link never moves `current`
/// aside: the one step that changes it renames the complete new link onto it,
/// so a reader finds either the old link or the new one.
pub proof fn lemma_link_swap_keeps_current(c: AtomicCommit, r: Option<CommitAction>)
    requires
        c.wf(),
        c.backup is None,
        atomic_action_is(c, r),
    ensures
        !renames_from(r, c.current),
        renames_onto(r, c.current) ==> is_rename(r, c.link, c.current),
{
    lemma_sidecar_differs(c.current.parts(), tmplnk_ext());
}

impl CowAtomicDirGaurd {
    /// Starts the commit; a backup, where one is needed, is named with
    /// identifier `rid`.
    pub fn commit_with(self, rid: &[u8]) -> (r: Result<AtomicCommit, PathError>)
        ensures
            !usable(self.current.parts()) ==> r == Err::<AtomicCommit, PathError>(
                path_error(self.current.parts()),
            ),
            usable(self.current.parts()) ==> r is Ok && {
                let c = r->Ok_0;
                &&& c.wf()
                &&& c.current == self.current
                &&& c.target == self.name
                &&& c.prior == self.orig
                &&& c.state == AtomicCommitState::Staged
                &&& self.converting == c.backup is Some
                &&& self.converting ==> is_stage_of(c.backup->Some_0, self.current, bak_ext(rid@))
            },
    {
        let ext = tmplnk_ext_bytes();
        let link = match self.current.hidden_with_extension(ext.as_slice()) {
            Ok(l) => l,
            Err(e) => {
                return Err(e);
            },
        };
        let backup = if self.converting {
            let bext = backup_ext(rid);
            match self.current.hidden_with_extension(bext.as_slice()) {
                Ok(b) => Some(b),
                Err(e) => {
                    return Err(e);
                },
            }
        } else {
            None
        };
        Ok(
            AtomicCommit {
                current: self.current,
                link,
                target: self.name,
                backup,
                prior: self.orig,
                state: AtomicCommitState::Staged,
            },
        )
    }

    /// Starts the commit, naming a backup, where one is needed, with a fresh
    /// identifier.
    pub fn commit(self) -> (r: Result<AtomicCommit, PathError>)
        ensures
            !usable(self.current.parts()) ==> r == Err::<AtomicCommit, PathError>(
                path_error(self.current.parts()),
            ),
            usable(self.current.parts()) ==> r is Ok && r->Ok_0.wf() && r->Ok_0.current
                == self.current && r->Ok_0.target == self.name && r->Ok_0.prior == self.orig
                && r->Ok_0.state == AtomicCommitState::Staged && (self.converting
                == r->Ok_0.backup is Some) && (self.converting ==> exists|rid: Seq<u8>|
                is_rid(rid) && #[trigger] is_stage_of(
                    r->Ok_0.backup->Some_0,
                    self.current,
                    bak_ext(rid),
                )),
    {
        let rid = puuid();
        let ghost cur = self.current;
        let r = self.commit_with(rid.as_slice());
        proof {
            if r is Ok && r->Ok_0.backup is Some {
                assert(is_stage_of(r->Ok_0.backup->Some_0, cur, bak_ext(rid@)));
            }
        }
        r
    }
}


/// The path `rel` names under `root`.
pub open spec fn under(root: FsPath, rel: &str) -> (bool, Seq<Seq<u8>>) {
    (root.absolute, root.parts() + components(encode_utf8(rel@)))
}

impl Tx {
    /// Opens a file stage for `orig`, relative to the root.
    pub fn file_cow(&self, orig: &str) -> (r: Result<CowFileGaurd, PathError>)
        ensures
            !usable(under(self.root, orig).1) ==> r == Err::<CowFileGaurd, PathError>(
                path_error(under(self.root, orig).1),
            ),
            usable(under(self.root, orig).1) ==> r is Ok && is_path(
                r->Ok_0.orig,
                under(self.root, orig),
            ) && is_stage_of(r->Ok_0.path, r->Ok_0.orig, tmp_ext()),
    {
        let target = self.root.join(&parse_components(orig.as_bytes()));
        file_cow(&target)
    }

    /// Opens a directory stage for `orig`, relative to the root.
    pub fn dir_cow(&self, orig: &str) -> (r: Result<CowDirGaurd, PathError>)
        ensures
            !usable(under(self.root, orig).1) ==> r == Err::<CowDirGaurd, PathError>(
                path_error(under(self.root, orig).1),
            ),
            usable(under(self.root, orig).1) ==> r is Ok && is_path(
                r->Ok_0.orig,
                under(self.root, orig),
            ) && is_stage_of(r->Ok_0.path, r->Ok_0.orig, tmp_ext()),
    {
        let target = self.root.join(&parse_components(orig.as_bytes()));
        dir_cow(&target)
    }

    /// Opens an atomic directory stage for `orig`, relative to the root;
    /// `state` is what stands there.
    pub fn dir_cow_atomic(&self, orig: &str, state: &TargetState) -> (r: Result<
        CowAtomicDirGaurd,
        PathError,
    >)
        ensures
            !usable(under(self.root, orig).1) ==> r == Err::<CowAtomicDirGaurd, PathError>(
                path_error(under(self.root, orig).1),
            ),
            usable(under(self.root, orig).1) ==> r is Ok && is_path(
                r->Ok_0.current,
                under(self.root, orig),
            ) && stage_sources(r->Ok_0, r->Ok_0.current, *state) && exists|rid: Seq<u8>|
                is_rid(rid) && #[trigger] is_stage_of(r->Ok_0.path, r->Ok_0.current, dir_ext(rid))
                    && r->Ok_0.name@ == hidden_name(r->Ok_0.current.parts().last(), dir_ext(rid)),
    {
        let target = self.root.join(&parse_components(orig.as_bytes()));
        let r = dir_cow_atomic(&target, state);
        proof {
            if r is Ok {
                let g = r->Ok_0;
                let rid = choose|rid: Seq<u8>|
                    is_rid(rid) && #[trigger] is_stage_of(g.path, target, dir_ext(rid))
                        && g.name@ == hidden_name(target.parts().last(), dir_ext(rid));
                assert(is_stage_of(g.path, g.current, dir_ext(rid)));
            }
        }
        r
    }
}


/// A link-swap commit that fails after moving a real directory aside moves it
/// back: from the failed swap, the next step renames the backup onto `current`.
pub proof fn lemma_failed_swap_restores_current(c: AtomicCommit, r: Option<CommitAction>)
    requires
        c.state == AtomicCommitState::BackedUp,
        c.backup is Some,
    ensures
        atomic_commit_next(c, false) == AtomicCommitState::RollingBack,
        atomic_action_is(AtomicCommit { state: AtomicCommitState::RollingBack, ..c }, r)
            ==> is_rename(r, c.backup->Some_0, c.current),
{
}

} // verus!
