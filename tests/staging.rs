use sbdb::cow::{dir_cow_atomic_with, AtomicCommitState, DirCommitState};
use sbdb::gc::{gc_action, GcAction};
use sbdb::sidecar::{classify_sidecar, to_base_36, SidecarKind};
use sbdb::{
    create_backup_ext, dir_cow, file_cow, puuid, strip_trailing_slash, CommitAction, PathError,
    TargetState,
};

fn p(s: &str) -> sbdb::FsPath {
    strip_trailing_slash(s)
}

fn rename(from: &str, to: &str) -> Option<CommitAction> {
    Some(CommitAction::Rename { from: p(from), to: p(to) })
}

const RID: &str = "ABCDEFGHIJKLMNOPQRSTUVWX";

#[test]
fn base_36_puts_letters_before_digits() {
    assert_eq!(to_base_36(0), b'A');
    assert_eq!(to_base_36(25), b'Z');
    assert_eq!(to_base_36(26), b'0');
    assert_eq!(to_base_36(35), b'9');
}

#[test]
fn identifiers_have_24_characters_of_the_alphabet() {
    let a = puuid();
    let b = puuid();
    assert_eq!(a.len(), 24);
    assert!(a.iter().all(|c| c.is_ascii_uppercase() || c.is_ascii_digit()));
    assert_ne!(a, b);
}

#[test]
fn backup_suffix_holds_a_fresh_identifier() {
    let ext = create_backup_ext();
    assert_eq!(ext.len(), 1 + 24 + ".bak.sbdb".len());
    assert_eq!(ext[0], b'.');
    assert!(ext.ends_with(b".bak.sbdb"));
}

#[test]
fn file_stage_is_a_hidden_sibling() {
    let g = file_cow(&p("/db/test_write.txt")).unwrap();
    assert_eq!(g.path.to_bytes(), b"/db/.test_write.txt.tmp.sbdb".to_vec());
    assert_ne!(g.path, g.orig);
    assert_eq!(g.commit(), rename("/db/.test_write.txt.tmp.sbdb", "/db/test_write.txt").unwrap());
}

#[test]
fn stage_needs_a_named_entry() {
    assert_eq!(file_cow(&p("/")).err(), Some(PathError::MissingParent));
    assert_eq!(dir_cow(&p("")).err(), Some(PathError::MissingParent));
    assert_eq!(dir_cow(&p("/db/..")).err(), Some(PathError::MissingFileName));
}

#[test]
fn directory_commit_renames_through_a_backup() {
    let g = dir_cow(&p("/db")).unwrap();
    assert_eq!(g.path.to_bytes(), b"/.db.tmp.sbdb".to_vec());
    let mut c = g.commit_with(RID.as_bytes()).unwrap();
    let bak = "/.db.ABCDEFGHIJKLMNOPQRSTUVWX.bak.sbdb";
    assert_eq!(c.action(), rename("/db", bak));
    c.advance(true);
    assert_eq!(c.action(), rename("/.db.tmp.sbdb", "/db"));
    c.advance(true);
    assert!(c.is_committed());
    assert_eq!(c.action(), Some(CommitAction::RemoveTree(p(bak))));
    c.advance(false);
    assert_eq!(c.state, DirCommitState::Cleaned);
    assert!(c.is_committed());
    assert_eq!(c.action(), None);
}

#[test]
fn directory_commit_rolls_back_a_failed_publish() {
    let g = dir_cow(&p("/db/dir")).unwrap();
    let mut c = g.commit_with(RID.as_bytes()).unwrap();
    c.advance(true);
    c.advance(false);
    assert_eq!(c.action(), rename("/db/.dir.ABCDEFGHIJKLMNOPQRSTUVWX.bak.sbdb", "/db/dir"));
    c.advance(true);
    assert_eq!(c.state, DirCommitState::RolledBack);
    assert!(!c.is_committed());
    assert_eq!(c.action(), None);
}

#[test]
fn directory_commit_stops_when_backup_fails() {
    let mut c = dir_cow(&p("/db/dir")).unwrap().commit_with(RID.as_bytes()).unwrap();
    c.advance(false);
    assert_eq!(c.state, DirCommitState::Failed);
    assert!(!c.is_committed());
}

#[test]
fn atomic_stage_of_a_new_directory_starts_empty() {
    let g = dir_cow_atomic_with(&p("/db/nested"), &TargetState::Missing, RID.as_bytes()).unwrap();
    assert_eq!(g.name, b".nested.ABCDEFGHIJKLMNOPQRSTUVWX.dir.sbdb".to_vec());
    assert_eq!(g.path.to_bytes(), b"/db/.nested.ABCDEFGHIJKLMNOPQRSTUVWX.dir.sbdb".to_vec());
    assert_eq!(g.source, None);
    assert_eq!(g.orig, None);
    let mut c = g.commit_with(RID.as_bytes()).unwrap();
    assert_eq!(
        c.action(),
        Some(CommitAction::Symlink {
            target: b".nested.ABCDEFGHIJKLMNOPQRSTUVWX.dir.sbdb".to_vec(),
            at: p("/db/.nested.tmplnk.sbdb"),
        })
    );
    c.advance(true);
    assert_eq!(c.action(), rename("/db/.nested.tmplnk.sbdb", "/db/nested"));
    c.advance(true);
    assert_eq!(c.state, AtomicCommitState::Published);
    assert_eq!(c.action(), None);
    assert!(c.is_committed());
}

#[test]
fn atomic_stage_converts_a_real_directory() {
    let g = dir_cow_atomic_with(&p("/db"), &TargetState::Present, RID.as_bytes()).unwrap();
    assert_eq!(g.source, Some(p("/db")));
    assert!(g.converting);
    let mut c = g.commit_with(b"ZZZZZZZZZZZZZZZZZZZZZZZZ").unwrap();
    c.advance(true);
    assert_eq!(c.action(), rename("/db", "/.db.ZZZZZZZZZZZZZZZZZZZZZZZZ.bak.sbdb"));
    c.advance(true);
    assert_eq!(c.action(), rename("/.db.tmplnk.sbdb", "/db"));
    c.advance(true);
    assert_eq!(
        c.action(),
        Some(CommitAction::RemoveTree(p("/.db.ZZZZZZZZZZZZZZZZZZZZZZZZ.bak.sbdb")))
    );
    c.advance(true);
    assert_eq!(c.state, AtomicCommitState::Cleaned);
}

#[test]
fn atomic_stage_replaces_a_linked_directory() {
    let old = "0123456789ABCDEFGHIJKLMN";
    let link = format!(".nested.{}.dir.sbdb", old);
    let g = dir_cow_atomic_with(
        &p("/db/nested"),
        &TargetState::Symlink(link.as_bytes().to_vec()),
        RID.as_bytes(),
    )
    .unwrap();
    let prior = p(&format!("/db/{}", link));
    assert_eq!(g.orig, Some(prior.clone()));
    assert_eq!(g.source, Some(prior.clone()));
    assert!(!g.converting);
    let mut c = g.commit_with(RID.as_bytes()).unwrap();
    let mut seen = Vec::new();
    while let Some(a) = c.action() {
        seen.push(a);
        c.advance(true);
    }
    assert_eq!(seen.len(), 3);
    assert_eq!(Some(seen[1].clone()), rename("/db/.nested.tmplnk.sbdb", "/db/nested"));
    assert_eq!(seen[2], CommitAction::RemoveTree(prior));
    for a in &seen {
        if let CommitAction::Rename { from, .. } = a {
            assert_ne!(*from, p("/db/nested"));
        }
    }
}

#[test]
fn absolute_link_targets_stand_alone() {
    let g = dir_cow_atomic_with(
        &p("/db/nested"),
        &TargetState::Symlink(b"/elsewhere/x".to_vec()),
        RID.as_bytes(),
    )
    .unwrap();
    assert_eq!(g.orig, Some(p("/elsewhere/x")));
}

#[test]
fn failed_link_leaves_nothing_published() {
    let g = dir_cow_atomic_with(&p("/db/nested"), &TargetState::Missing, RID.as_bytes()).unwrap();
    let mut c = g.commit_with(RID.as_bytes()).unwrap();
    c.advance(false);
    assert_eq!(c.state, AtomicCommitState::Failed);
    assert!(!c.is_committed());
    assert_eq!(c.action(), None);
}

#[test]
fn sidecar_names_are_read_back() {
    let s = classify_sidecar(b".x.txt.lock.sbdb").unwrap();
    assert_eq!((s.kind, s.target), (SidecarKind::Lock, b"x.txt".to_vec()));
    let s = classify_sidecar(b".x.queue.sbdb").unwrap();
    assert_eq!((s.kind, s.target), (SidecarKind::Queue, b"x".to_vec()));
    let s = classify_sidecar(b".x.tmp.sbdb").unwrap();
    assert_eq!(s.kind, SidecarKind::Staging);
    let s = classify_sidecar(b".x.tmplnk.sbdb").unwrap();
    assert_eq!(s.kind, SidecarKind::LinkStage);
    let s = classify_sidecar(b".d.ABCDEFGHIJKLMNOPQRSTUVWX.dir.sbdb").unwrap();
    assert_eq!((s.kind, s.target, s.rid), (SidecarKind::DirBacking, b"d".to_vec(), RID.as_bytes().to_vec()));
    let s = classify_sidecar(b".d.ABCDEFGHIJKLMNOPQRSTUVWX.bak.sbdb").unwrap();
    assert_eq!(s.kind, SidecarKind::Backup);
}

#[test]
fn user_names_are_no_sidecars() {
    assert!(classify_sidecar(b"x.txt").is_none());
    assert!(classify_sidecar(b"x.lock.sbdb").is_none());
    assert!(classify_sidecar(b"..lock.sbdb").is_none());
    assert!(classify_sidecar(b".d.abc.dir.sbdb").is_none());
    assert!(classify_sidecar(b".hidden").is_none());
}

#[test]
fn sweep_removes_orphans_only() {
    let missing = TargetState::Missing;
    let present = TargetState::Present;
    let link = TargetState::Symlink(b".d.X.dir.sbdb".to_vec());
    assert_eq!(gc_action(Some(SidecarKind::Lock), false, &missing, false), GcAction::Remove);
    assert_eq!(gc_action(Some(SidecarKind::Queue), false, &present, false), GcAction::Keep);
    assert_eq!(gc_action(Some(SidecarKind::DirBacking), true, &missing, false), GcAction::Remove);
    assert_eq!(gc_action(Some(SidecarKind::DirBacking), true, &present, false), GcAction::Remove);
    assert_eq!(gc_action(Some(SidecarKind::DirBacking), true, &link, false), GcAction::Keep);
    assert_eq!(gc_action(Some(SidecarKind::Staging), false, &present, false), GcAction::Remove);
    assert_eq!(gc_action(Some(SidecarKind::Staging), false, &present, true), GcAction::Keep);
    assert_eq!(gc_action(Some(SidecarKind::Backup), true, &missing, false), GcAction::Keep);
    assert_eq!(gc_action(None, true, &missing, false), GcAction::Descend);
    assert_eq!(gc_action(None, false, &missing, false), GcAction::Keep);
}

#[test]
fn sweep_spares_helpers_of_locked_entries() {
    let missing = TargetState::Missing;
    let present = TargetState::Present;
    assert_eq!(gc_action(Some(SidecarKind::Lock), false, &missing, true), GcAction::Keep);
    assert_eq!(gc_action(Some(SidecarKind::Queue), false, &missing, true), GcAction::Keep);
    assert_eq!(gc_action(Some(SidecarKind::DirBacking), true, &missing, true), GcAction::Keep);
    assert_eq!(gc_action(Some(SidecarKind::Backup), true, &present, true), GcAction::Keep);
    assert_eq!(gc_action(Some(SidecarKind::LinkStage), false, &present, false), GcAction::Remove);
}

#[test]
fn transaction_stages_sit_under_the_root() {
    let db = sbdb::Client::new("/db");
    let tx = db.tx().write("nested/writes").begin();
    let d = tx.dir_cow("nested/writes").unwrap();
    assert_eq!(d.path.to_bytes(), b"/db/nested/.writes.tmp.sbdb".to_vec());
    assert_eq!(d.orig.to_bytes(), b"/db/nested/writes".to_vec());
    let a = tx.dir_cow_atomic("nested/writes", &TargetState::Present).unwrap();
    assert_eq!(a.current.to_bytes(), b"/db/nested/writes".to_vec());
    let path = a.path.to_bytes();
    assert!(path.starts_with(b"/db/nested/.writes."));
    assert!(path.ends_with(b".dir.sbdb"));
    assert_eq!(path.len(), b"/db/nested/.writes.".len() + 24 + b".dir.sbdb".len());
    assert_eq!(tx.file_cow("..").err(), Some(PathError::MissingFileName));
    assert_eq!(tx.file_cow("").unwrap().path.to_bytes(), b"/.db.tmp.sbdb".to_vec());
}

#[test]
fn staged_names_read_back_as_their_kind() {
    let g = file_cow(&p("/db/data.bin")).unwrap();
    let name = g.path.comps.last().unwrap().clone();
    let s = classify_sidecar(&name).unwrap();
    assert_eq!((s.kind, s.target), (SidecarKind::Staging, b"data.bin".to_vec()));
    let a = dir_cow_atomic_with(&p("/db/d"), &TargetState::Missing, RID.as_bytes()).unwrap();
    let s = classify_sidecar(&a.name).unwrap();
    assert_eq!((s.kind, s.target), (SidecarKind::DirBacking, b"d".to_vec()));
}

#[test]
fn failed_swap_moves_the_directory_back() {
    let g = dir_cow_atomic_with(&p("/db/d"), &TargetState::Present, RID.as_bytes()).unwrap();
    let mut c = g.commit_with(RID.as_bytes()).unwrap();
    let bak = "/db/.d.ABCDEFGHIJKLMNOPQRSTUVWX.bak.sbdb";
    c.advance(true);
    assert_eq!(c.action(), rename("/db/d", bak));
    c.advance(true);
    assert_eq!(c.action(), rename("/db/.d.tmplnk.sbdb", "/db/d"));
    c.advance(false);
    assert_eq!(c.state, AtomicCommitState::RollingBack);
    assert_eq!(c.action(), rename(bak, "/db/d"));
    c.advance(true);
    assert_eq!(c.state, AtomicCommitState::RolledBack);
    assert!(!c.is_committed());
    assert_eq!(c.action(), None);
}

#[test]
fn failed_rollback_is_reported() {
    let g = dir_cow_atomic_with(&p("/db/d"), &TargetState::Present, RID.as_bytes()).unwrap();
    let mut c = g.commit_with(RID.as_bytes()).unwrap();
    c.advance(true);
    c.advance(true);
    c.advance(false);
    c.advance(false);
    assert_eq!(c.state, AtomicCommitState::RollbackFailed);
    assert!(!c.is_committed());
    assert_eq!(c.action(), None);
}
