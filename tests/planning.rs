use sbdb::client::Client;
use sbdb::lock::{acquire_ops, lock_and_queue_paths, AcquireStep, Acquisition, LockOp};
use sbdb::{strip_trailing_slash, PathError, TxEntry, TxEntryKind};

fn listing(entries: &[TxEntry]) -> Vec<(TxEntryKind, Vec<u8>)> {
    entries.iter().map(|e| (e.kind, e.path_bytes())).collect()
}

fn r(p: &str) -> (TxEntryKind, Vec<u8>) {
    (TxEntryKind::Read, p.as_bytes().to_vec())
}

fn w(p: &str) -> (TxEntryKind, Vec<u8>) {
    (TxEntryKind::Write, p.as_bytes().to_vec())
}

#[test]
fn nested_writes_are_subsumed() {
    let db = Client::new("/db");
    let tx = db
        .tx()
        .read("nested/read.txt")
        .write("nested/writes/write1.txt")
        .write("nested/writes/write2.txt")
        .write("nested/writes")
        .begin();
    assert_eq!(
        listing(&tx.entries),
        vec![r(""), r("nested"), r("nested/read.txt"), w("nested/writes")]
    );
    let writes = tx.entries.iter().filter(|e| e.kind == TxEntryKind::Write).count();
    assert_eq!(writes, 1);
}

#[test]
fn declaration_order_does_not_change_lock_order() {
    let db = Client::new("/db");
    let a = db.tx().write("a").write("b").begin();
    let b = db.tx().write("b").write("a").begin();
    assert_eq!(listing(&a.entries), vec![r(""), w("a"), w("b")]);
    assert_eq!(listing(&a.entries), listing(&b.entries));
}

#[test]
fn collatz_transaction_plan() {
    let db = Client::new("/db");
    let tx = db.tx().read("in").write("out").begin();
    assert_eq!(listing(&tx.entries), vec![r(""), r("in"), w("out")]);
    let n: i64 = 500;
    let next = if n % 2 == 0 { n / 2 } else { 3 * n + 1 };
    assert_eq!(next.to_string(), "250");
    let stage = tx.file_cow("out").unwrap();
    assert_eq!(stage.path.to_bytes(), b"/db/.out.tmp.sbdb".to_vec());
    assert_eq!(stage.orig.to_bytes(), b"/db/out".to_vec());
}

#[test]
fn plan_is_sorted_by_component() {
    let db = Client::new("/db");
    let tx = db.tx().write("a.b").write("a/b").read("a/c/d").begin();
    assert_eq!(
        listing(&tx.entries),
        vec![r(""), r("a"), w("a/b"), r("a/c"), r("a/c/d"), w("a.b")]
    );
}

#[test]
fn write_covers_reads_below_it() {
    let db = Client::new("/db");
    let tx = db.tx().read("a/b/c").write("a").begin();
    assert_eq!(listing(&tx.entries), vec![r(""), w("a")]);
}

#[test]
fn empty_transaction_takes_no_lock() {
    let db = Client::new("/db");
    let tx = db.tx().begin();
    assert!(tx.entries.is_empty());
}

#[test]
fn read_locks_cover_every_ancestor() {
    let db = Client::new("/db");
    assert_eq!(listing(&db.read_locks("a/b")), vec![r(""), r("a"), r("a/b")]);
    assert_eq!(listing(&db.read_locks("")), vec![r("")]);
}

#[test]
fn write_locks_share_ancestors_and_own_the_target() {
    let db = Client::new("/db");
    assert_eq!(listing(&db.write_locks("a/b/")), vec![r(""), r("a"), w("a/b")]);
    assert_eq!(listing(&db.write_locks(".")), vec![w("")]);
}

#[test]
fn paths_are_normalised() {
    let p = strip_trailing_slash("./a//b/.");
    assert!(!p.absolute);
    assert_eq!(p.comps, vec![b"a".to_vec(), b"b".to_vec()]);
    assert_eq!(strip_trailing_slash("/tmp/db/").to_bytes(), b"/tmp/db".to_vec());
    assert_eq!(strip_trailing_slash("a/../b").to_bytes(), b"a/../b".to_vec());
    let root = strip_trailing_slash("/");
    assert!(root.absolute);
    assert!(root.comps.is_empty());
}

#[test]
fn client_joins_relative_paths_to_the_root() {
    let db = Client::new("/tmp/db/");
    assert_eq!(db.root().to_bytes(), b"/tmp/db".to_vec());
    assert_eq!(db.path_of("some/dir/").to_bytes(), b"/tmp/db/some/dir".to_vec());
    assert_eq!(db.path_of("").to_bytes(), b"/tmp/db".to_vec());
}

#[test]
fn lock_files_sit_beside_their_path() {
    let db = Client::new("/db");
    let (main, queue) = lock_and_queue_paths(&db.path_of("x.txt")).unwrap();
    assert_eq!(main.to_bytes(), b"/db/.x.txt.lock.sbdb".to_vec());
    assert_eq!(queue.to_bytes(), b"/db/.x.txt.queue.sbdb".to_vec());
    let (main, _) = lock_and_queue_paths(db.root()).unwrap();
    assert_eq!(main.to_bytes(), b"/.db.lock.sbdb".to_vec());
}

#[test]
fn lock_files_need_a_named_entry() {
    assert_eq!(
        lock_and_queue_paths(&strip_trailing_slash("/")).err(),
        Some(PathError::MissingParent)
    );
    assert_eq!(
        lock_and_queue_paths(&strip_trailing_slash("a/..")).err(),
        Some(PathError::MissingFileName)
    );
}

#[test]
fn queue_lock_brackets_the_main_lock() {
    assert_eq!(
        acquire_ops(TxEntryKind::Write),
        vec![LockOp::LockQueue, LockOp::LockMainExclusive, LockOp::UnlockQueue]
    );
    assert_eq!(
        acquire_ops(TxEntryKind::Read),
        vec![LockOp::LockQueue, LockOp::LockMainShared, LockOp::UnlockQueue]
    );
}

#[test]
fn acquisition_takes_all_in_order() {
    let mut a = Acquisition::new(2);
    assert_eq!(a.next_step(), AcquireStep::Acquire(0));
    a.advance(true);
    assert_eq!(a.next_step(), AcquireStep::Acquire(1));
    a.advance(true);
    assert_eq!(a.next_step(), AcquireStep::Done);
}

#[test]
fn failed_acquisition_unwinds_last_first() {
    let mut a = Acquisition::new(3);
    a.advance(true);
    a.advance(true);
    assert_eq!(a.next_step(), AcquireStep::Acquire(2));
    a.advance(false);
    assert_eq!(a.next_step(), AcquireStep::Release(1));
    a.advance(true);
    assert_eq!(a.next_step(), AcquireStep::Release(0));
    a.advance(false);
    assert_eq!(a.next_step(), AcquireStep::Abort);
}

#[test]
fn repeated_declarations_lock_once() {
    let db = Client::new("/db");
    let tx = db.tx().read("a/x").read("a/x").write("b").write("b/").begin();
    assert_eq!(listing(&tx.entries), vec![r(""), r("a"), r("a/x"), w("b")]);
}

#[test]
fn read_and_write_of_one_path_lock_it_exclusively() {
    let db = Client::new("/db");
    let tx = db.tx().read("f").write("f").begin();
    assert_eq!(listing(&tx.entries), vec![r(""), w("f")]);
}

#[test]
fn writing_the_root_covers_everything() {
    let db = Client::new("/db");
    let tx = db.tx().read("a/b").write("c").write("").begin();
    assert_eq!(listing(&tx.entries), vec![w("")]);
}

#[test]
fn non_ascii_components_sort_by_bytes() {
    let db = Client::new("/db");
    let tx = db.tx().write("é").write("z").begin();
    assert_eq!(listing(&tx.entries), vec![r(""), w("z"), w("é")]);
}
