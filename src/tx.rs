use vstd::prelude::*;
use vstd::utf8::encode_utf8;

use core::cmp::Ordering;

use crate::order::{
    compare_paths, is_ancestor_or_self, is_strict_ancestor, lemma_ancestor_transitive,
    lemma_path_lt_asymmetric,
    lemma_path_lt_irreflexive, lemma_path_lt_transitive, path_lt,
};
use crate::path::{components, parse_components, views, FsPath};
use crate::plan::{
    ancestor_or_self, path_views, plan_view, prefix_of, strict_ancestor, strictly_sorted, TxEntry,
    TxEntryKind,
};

verus! {

/// The paths that a transaction declares before it starts, relative to the
/// root: those it reads and those it writes.
pub struct TxBuilder {
    pub root: FsPath,
    pub reads: Vec<Vec<Vec<u8>>>,
    pub writes: Vec<Vec<Vec<u8>>>,
}

/// A started transaction's plan: the locks it holds, in the order they are
/// taken.
pub struct Tx {
    pub root: FsPath,
    pub entries: Vec<TxEntry>,
}

impl TxBuilder {
    /// `p` needs a shared lock: it was declared read, or is an ancestor of a
    /// declared path.
    pub open spec fn reads_contain(&self, p: Seq<Seq<u8>>) -> bool {
        path_views(self.reads@).contains(p)
    }

    /// `p` was declared written.
    pub open spec fn writes_contain(&self, p: Seq<Seq<u8>>) -> bool {
        path_views(self.writes@).contains(p)
    }

    /// A written path that no other written path contains: an exclusive lock on
    /// an ancestor covers its descendants.
    pub open spec fn kept_write(&self, w: Seq<Seq<u8>>) -> bool {
        &&& self.writes_contain(w)
        &&& !exists|a: Seq<Seq<u8>>| #[trigger] self.writes_contain(a) && is_strict_ancestor(a, w)
    }

    /// A read path that no written path contains or equals: the exclusive lock
    /// covers it.
    pub open spec fn kept_read(&self, r: Seq<Seq<u8>>) -> bool {
        &&& self.reads_contain(r)
        &&& !exists|a: Seq<Seq<u8>>| #[trigger] self.writes_contain(a) && is_ancestor_or_self(a, r)
    }

    /// `es` is this transaction's plan: the kept writes as exclusive locks and
    /// the kept reads as shared locks, each path once, in the global lock order.
    pub open spec fn is_plan(&self, es: Seq<(TxEntryKind, Seq<Seq<u8>>)>) -> bool {
        &&& strictly_sorted(es)
        &&& forall|k: TxEntryKind, p: Seq<Seq<u8>>|
            #[trigger] es.contains((k, p)) <==> (k == TxEntryKind::Write && self.kept_write(p)) || (
            k == TxEntryKind::Read && self.kept_read(p))
    }

    /// The declarations are closed: every ancestor of a read path is read, and
    /// every strict ancestor of a written path is read. Declaring through
    /// `new`, `read` and `write` keeps this.
    pub open spec fn wf(&self) -> bool {
        &&& forall|a: Seq<Seq<u8>>, r: Seq<Seq<u8>>|
            #![trigger self.reads_contain(r), is_ancestor_or_self(a, r)]
            self.reads_contain(r) && is_ancestor_or_self(a, r) ==> self.reads_contain(a)
        &&& forall|a: Seq<Seq<u8>>, w: Seq<Seq<u8>>|
            #![trigger self.writes_contain(w), is_strict_ancestor(a, w)]
            self.writes_contain(w) && is_strict_ancestor(a, w) ==> self.reads_contain(a)
    }

    /// A transaction under `root` that declares nothing yet.
    pub fn new(root: FsPath) -> (r: TxBuilder)
        ensures
            r.root == root,
            r.reads@.len() == 0,
            r.writes@.len() == 0,
            r.wf(),
    {
        TxBuilder { root, reads: Vec::new(), writes: Vec::new() }
    }

    /// Declares a read of `path`: it and each of its ancestors need a shared lock.
    pub fn read(self, path: &str) -> (r: TxBuilder)
        ensures
            r.root == self.root,
            forall|q: Seq<Seq<u8>>| #[trigger]
                r.writes_contain(q) == self.writes_contain(q),
            forall|q: Seq<Seq<u8>>| #[trigger]
                r.reads_contain(q) == (self.reads_contain(q) || is_ancestor_or_self(
                    q,
                    components(encode_utf8(path@)),
                )),
            self.wf() ==> r.wf(),
    {
        let ghost s0 = self;
        let p = parse_components(path.as_bytes());
        let TxBuilder { root, mut reads, writes } = self;
        let ghost start = path_views(reads@);
        let ghost pv = views(p@);
        let mut k: usize = 0;
        while k < p.len()
            invariant
                k <= p@.len(),
                pv == views(p@),
                path_views(reads@) =~= start + Seq::new(k as nat, |i: int| pv.subrange(0, i)),
            decreases p@.len() - k,
        {
            let ghost before = reads@;
            reads.push(prefix_of(&p, k));
            assert(path_views(reads@) =~= path_views(before).push(pv.subrange(0, k as int)));
            k += 1;
        }
        let ghost before = reads@;
        reads.push(prefix_of(&p, p.len()));
        assert(path_views(reads@) =~= path_views(before).push(pv.subrange(0, pv.len() as int)));
        let r = TxBuilder { root, reads, writes };
        proof {
            assert forall|q: Seq<Seq<u8>>| #[trigger]
                r.reads_contain(q) == (self.reads_contain(q) || is_ancestor_or_self(q, pv)) by {
                let added = Seq::new((pv.len() + 1) as nat, |i: int| pv.subrange(0, i));
                assert(path_views(r.reads@) =~= start + added);
                if is_ancestor_or_self(q, pv) {
                    assert(path_views(r.reads@)[(start.len() + q.len()) as int] == q);
                }
                if self.reads_contain(q) {
                    let j = choose|j: int| 0 <= j < start.len() && start[j] == q;
                    assert(path_views(r.reads@)[j] == q);
                }
                if r.reads_contain(q) && !self.reads_contain(q) {
                    let j = choose|j: int|
                        0 <= j < path_views(r.reads@).len() && path_views(r.reads@)[j] == q;
                    if j < start.len() {
                        assert(start[j] == q);
                    } else {
                        assert(added[j - start.len()] == q);
                        assert(pv.subrange(0, j - start.len()).len() == q.len());
                    }
                }
            }
        }
        proof {
            if s0.wf() {
                lemma_read_keeps_wf(s0, r, pv);
            }
        }
        r
    }

    /// Declares a write of `path`: an exclusive lock on it, and a shared lock on
    /// each of its strict ancestors.
    pub fn write(self, path: &str) -> (r: TxBuilder)
        ensures
            r.root == self.root,
            forall|q: Seq<Seq<u8>>| #[trigger]
                r.writes_contain(q) == (self.writes_contain(q) || q == components(
                    encode_utf8(path@),
                )),
            forall|q: Seq<Seq<u8>>| #[trigger]
                r.reads_contain(q) == (self.reads_contain(q) || is_strict_ancestor(
                    q,
                    components(encode_utf8(path@)),
                )),
            self.wf() ==> r.wf(),
    {
        let ghost s0 = self;
        let p = parse_components(path.as_bytes());
        let TxBuilder { root, mut reads, mut writes } = self;
        let ghost start = path_views(reads@);
        let ghost wstart = path_views(writes@);
        let ghost pv = views(p@);
        let mut k: usize = 0;
        while k < p.len()
            invariant
                k <= p@.len(),
                pv == views(p@),
                path_views(reads@) =~= start + Seq::new(k as nat, |i: int| pv.subrange(0, i)),
            decreases p@.len() - k,
        {
            let ghost before = reads@;
            reads.push(prefix_of(&p, k));
            assert(path_views(reads@) =~= path_views(before).push(pv.subrange(0, k as int)));
            k += 1;
        }
        let full = prefix_of(&p, p.len());
        assert(views(full@) =~= pv);
        writes.push(full);
        assert(path_views(writes@) =~= wstart.push(pv));
        let r = TxBuilder { root, reads, writes };
        proof {
            assert forall|q: Seq<Seq<u8>>| #[trigger]
                r.writes_contain(q) == (self.writes_contain(q) || q == pv) by {
                if r.writes_contain(q) && q != pv {
                    let j = choose|j: int|
                        0 <= j < path_views(r.writes@).len() && path_views(r.writes@)[j] == q;
                    assert(wstart[j] == q);
                }
                if q == pv {
                    assert(path_views(r.writes@)[wstart.len() as int] == q);
                }
                if self.writes_contain(q) {
                    let j = choose|j: int| 0 <= j < wstart.len() && wstart[j] == q;
                    assert(path_views(r.writes@)[j] == q);
                }
            }
            assert forall|q: Seq<Seq<u8>>| #[trigger]
                r.reads_contain(q) == (self.reads_contain(q) || is_strict_ancestor(q, pv)) by {
                let added = Seq::new(pv.len(), |i: int| pv.subrange(0, i));
                assert(path_views(r.reads@) =~= start + added);
                if is_strict_ancestor(q, pv) {
                    assert(path_views(r.reads@)[(start.len() + q.len()) as int] == q);
                }
                if self.reads_contain(q) {
                    let j = choose|j: int| 0 <= j < start.len() && start[j] == q;
                    assert(path_views(r.reads@)[j] == q);
                }
                if r.reads_contain(q) && !self.reads_contain(q) {
                    let j = choose|j: int|
                        0 <= j < path_views(r.reads@).len() && path_views(r.reads@)[j] == q;
                    if j < start.len() {
                        assert(start[j] == q);
                    } else {
                        assert(added[j - start.len()] == q);
                        assert(pv.subrange(0, j - start.len()).len() == q.len());
                    }
                }
            }
        }
        proof {
            if s0.wf() {
                lemma_write_keeps_wf(s0, r, pv);
            }
        }
        r
    }

    /// Starts the transaction: keeps the writes that no other write contains and
    /// the reads that no write covers, and orders them by path, which is the
    /// order every process takes its locks in.
    pub fn begin(self) -> (r: Tx)
        ensures
            r.root == self.root,
            self.is_plan(plan_view(r.entries@)),
            self.wf() ==> locks_ancestors(plan_view(r.entries@)),
    {
        let mut entries: Vec<TxEntry> = Vec::new();
        let ghost wv = path_views(self.writes@);
        let ghost rv = path_views(self.reads@);
        let mut i: usize = 0;
        while i < self.writes.len()
            invariant
                i <= self.writes@.len(),
                wv == path_views(self.writes@),
                strictly_sorted(plan_view(entries@)),
                forall|k: TxEntryKind, p: Seq<Seq<u8>>|
                    #[trigger] plan_view(entries@).contains((k, p)) <==> k == TxEntryKind::Write
                        && self.kept_write(p) && exists|j: int| 0 <= j < i && wv[j] == p,
            decreases self.writes@.len() - i,
        {
            let covered = self.covered_by_other_write(i);
            if !covered {
                let e = TxEntry { kind: TxEntryKind::Write, path: prefix_of(&self.writes[i], self.writes[i].len()) };
                assert(views(e.path@) =~= wv[i as int]);
                let ghost before = plan_view(entries@);
                proof {
                    assert forall|j: int| 0 <= j < before.len() && before[j].1 == e@.1 implies before[j].0 == e@.0 by {
                        assert(before.contains(before[j]));
                    }
                }
                insert_sorted(&mut entries, e);
                proof {
                    assert forall|k: TxEntryKind, p: Seq<Seq<u8>>|
                        #[trigger] plan_view(entries@).contains((k, p)) <==> k == TxEntryKind::Write
                            && self.kept_write(p) && exists|j: int| 0 <= j < i + 1 && wv[j] == p by {
                        if plan_view(entries@).contains((k, p)) && !before.contains((k, p)) {
                            assert(wv[i as int] == p);
                        }
                        if k == TxEntryKind::Write && self.kept_write(p) && exists|j: int| 0 <= j < i + 1 && wv[j] == p {
                            if !(exists|j: int| 0 <= j < i && wv[j] == p) {
                                assert((k, p) == (TxEntryKind::Write, wv[i as int]));
                            }
                        }
                    }
                }
            } else {
                proof {
                    assert forall|k: TxEntryKind, p: Seq<Seq<u8>>|
                        #[trigger] plan_view(entries@).contains((k, p)) <==> k == TxEntryKind::Write
                            && self.kept_write(p) && exists|j: int| 0 <= j < i + 1 && wv[j] == p by {
                        if k == TxEntryKind::Write && self.kept_write(p) && exists|j: int| 0 <= j < i + 1 && wv[j] == p {
                            if p == wv[i as int] {
                                assert(!self.kept_write(p));
                            }
                        }
                    }
                }
            }
            i += 1;
        }
        let mut i: usize = 0;
        while i < self.reads.len()
            invariant
                i <= self.reads@.len(),
                wv == path_views(self.writes@),
                rv == path_views(self.reads@),
                strictly_sorted(plan_view(entries@)),
                forall|k: TxEntryKind, p: Seq<Seq<u8>>|
                    #[trigger] plan_view(entries@).contains((k, p)) <==> (k == TxEntryKind::Write
                        && self.kept_write(p)) || (k == TxEntryKind::Read && self.kept_read(p)
                        && exists|j: int| 0 <= j < i && rv[j] == p),
            decreases self.reads@.len() - i,
        {
            let covered = self.covered_by_write(i);
            if !covered {
                let e = TxEntry { kind: TxEntryKind::Read, path: prefix_of(&self.reads[i], self.reads[i].len()) };
                assert(views(e.path@) =~= rv[i as int]);
                let ghost before = plan_view(entries@);
                proof {
                    assert(self.reads_contain(rv[i as int]));
                    assert forall|j: int| 0 <= j < before.len() && before[j].1 == e@.1 implies before[j].0 == e@.0 by {
                        assert(before.contains(before[j]));
                        if before[j].0 == TxEntryKind::Write {
                            assert(self.kept_write(before[j].1));
                            assert(is_ancestor_or_self(rv[i as int], rv[i as int]));
                        }
                    }
                }
                insert_sorted(&mut entries, e);
                proof {
                    assert forall|k: TxEntryKind, p: Seq<Seq<u8>>|
                        #[trigger] plan_view(entries@).contains((k, p)) <==> (k == TxEntryKind::Write
                            && self.kept_write(p)) || (k == TxEntryKind::Read && self.kept_read(p)
                            && exists|j: int| 0 <= j < i + 1 && rv[j] == p) by {
                        if plan_view(entries@).contains((k, p)) && !before.contains((k, p)) {
                            assert(rv[i as int] == p);
                        }
                        if k == TxEntryKind::Read && self.kept_read(p) && exists|j: int| 0 <= j < i + 1 && rv[j] == p {
                            if !(exists|j: int| 0 <= j < i && rv[j] == p) {
                                assert((k, p) == (TxEntryKind::Read, rv[i as int]));
                            }
                        }
                    }
                }
            } else {
                proof {
                    assert forall|k: TxEntryKind, p: Seq<Seq<u8>>|
                        #[trigger] plan_view(entries@).contains((k, p)) <==> (k == TxEntryKind::Write
                            && self.kept_write(p)) || (k == TxEntryKind::Read && self.kept_read(p)
                            && exists|j: int| 0 <= j < i + 1 && rv[j] == p) by {
                        if k == TxEntryKind::Read && self.kept_read(p) && exists|j: int| 0 <= j < i + 1 && rv[j] == p {
                            if p == rv[i as int] {
                                assert(!self.kept_read(p));
                            }
                        }
                    }
                }
            }
            i += 1;
        }
        proof {
            assert forall|k: TxEntryKind, p: Seq<Seq<u8>>|
                #[trigger] plan_view(entries@).contains((k, p)) <==> (k == TxEntryKind::Write
                    && self.kept_write(p)) || (k == TxEntryKind::Read && self.kept_read(p)) by {
                if k == TxEntryKind::Read && self.kept_read(p) {
                    assert(rv.contains(p));
                }
                if k == TxEntryKind::Write && self.kept_write(p) {
                    assert(wv.contains(p));
                }
            }
        }
        proof {
            if self.wf() {
                lemma_plan_locks_ancestors(self, plan_view(entries@));
            }
        }
        Tx { root: self.root, entries }
    }

    /// Whether a declared write other than the `i`-th one is a strict ancestor of it.
    fn covered_by_other_write(&self, i: usize) -> (r: bool)
        requires
            i < self.writes@.len(),
        ensures
            r == exists|a: Seq<Seq<u8>>|
                #[trigger] self.writes_contain(a) && is_strict_ancestor(a, path_views(self.writes@)[i as int]),
    {
        let ghost wv = path_views(self.writes@);
        let mut j: usize = 0;
        while j < self.writes.len()
            invariant
                i < self.writes@.len(),
                j <= self.writes@.len(),
                wv == path_views(self.writes@),
                forall|m: int| 0 <= m < j ==> !is_strict_ancestor(#[trigger] wv[m], wv[i as int]),
            decreases self.writes@.len() - j,
        {
            if strict_ancestor(&self.writes[j], &self.writes[i]) {
                assert(self.writes_contain(wv[j as int]));
                return true;
            }
            j += 1;
        }
        proof {
            if exists|a: Seq<Seq<u8>>| #[trigger] self.writes_contain(a) && is_strict_ancestor(a, wv[i as int]) {
                let a = choose|a: Seq<Seq<u8>>| #[trigger] self.writes_contain(a) && is_strict_ancestor(a, wv[i as int]);
                let m = choose|m: int| 0 <= m < wv.len() && wv[m] == a;
                assert(!is_strict_ancestor(wv[m], wv[i as int]));
            }
        }
        false
    }

    /// Whether a declared write is the `i`-th declared read or one of its ancestors.
    fn covered_by_write(&self, i: usize) -> (r: bool)
        requires
            i < self.reads@.len(),
        ensures
            r == exists|a: Seq<Seq<u8>>|
                #[trigger] self.writes_contain(a) && is_ancestor_or_self(a, path_views(self.reads@)[i as int]),
    {
        let ghost wv = path_views(self.writes@);
        let ghost rv = path_views(self.reads@);
        let mut j: usize = 0;
        while j < self.writes.len()
            invariant
                i < self.reads@.len(),
                j <= self.writes@.len(),
                wv == path_views(self.writes@),
                rv == path_views(self.reads@),
                forall|m: int| 0 <= m < j ==> !is_ancestor_or_self(#[trigger] wv[m], rv[i as int]),
            decreases self.writes@.len() - j,
        {
            if ancestor_or_self(&self.writes[j], &self.reads[i]) {
                assert(self.writes_contain(wv[j as int]));
                return true;
            }
            j += 1;
        }
        proof {
            if exists|a: Seq<Seq<u8>>| #[trigger] self.writes_contain(a) && is_ancestor_or_self(a, rv[i as int]) {
                let a = choose|a: Seq<Seq<u8>>| #[trigger] self.writes_contain(a) && is_ancestor_or_self(a, rv[i as int]);
                let m = choose|m: int| 0 <= m < wv.len() && wv[m] == a;
                assert(!is_ancestor_or_self(wv[m], rv[i as int]));
            }
        }
        false
    }

}


/// Adds `e` to a sorted plan, where it belongs by its path; a plan that holds
/// its path already keeps it once.
fn insert_sorted(es: &mut Vec<TxEntry>, e: TxEntry)
    requires
        strictly_sorted(plan_view(old(es)@)),
        forall|j: int|
            0 <= j < old(es)@.len() && (#[trigger] plan_view(old(es)@)[j]).1 == e@.1 ==> plan_view(
                old(es)@,
            )[j].0 == e@.0,
    ensures
        strictly_sorted(plan_view(final(es)@)),
        forall|x: (TxEntryKind, Seq<Seq<u8>>)|
            #[trigger] plan_view(final(es)@).contains(x) <==> plan_view(old(es)@).contains(x) || x
                == e@,
{
    let ghost ov = plan_view(es@);
    let mut i: usize = 0;
    let mut stop = false;
    while !stop && i < es.len()
        invariant
            i <= es@.len(),
            es@ == old(es)@,
            ov == plan_view(es@),
            stop ==> i < es@.len() && path_lt(e@.1, ov[i as int].1),
            strictly_sorted(ov),
            forall|j: int| 0 <= j < ov.len() && (#[trigger] ov[j]).1 == e@.1 ==> ov[j].0 == e@.0,
            forall|j: int| 0 <= j < i ==> path_lt(#[trigger] ov[j].1, e@.1),
        decreases es@.len() - i + if stop { 0int } else { 1int },
    {
        match compare_paths(&es[i].path, &e.path) {
            Ordering::Less => {
                i += 1;
            },
            Ordering::Equal => {
                proof {
                    assert(ov[i as int].1 == e@.1);
                    assert(plan_view(old(es)@)[i as int].1 == e@.1);
                    assert(ov[i as int].0 == e@.0);
                    assert(ov[i as int] == e@);
                    assert forall|x: (TxEntryKind, Seq<Seq<u8>>)|
                        #[trigger] ov.contains(x) <==> ov.contains(x) || x == e@ by {
                        if x == e@ {
                            assert(ov[i as int] == x);
                        }
                    }
                }
                return;
            },
            Ordering::Greater => {
                stop = true;
            },
        }
    }
    proof {
        if i < ov.len() {
            assert forall|j: int| i <= j < ov.len() implies path_lt(e@.1, #[trigger] ov[j].1) by {
                if j > i {
                    lemma_path_lt_transitive(e@.1, ov[i as int].1, ov[j].1);
                }
            }
        }
    }
    let ghost ev = e@;
    es.insert(i, e);
    proof {
        let nv = plan_view(es@);
        assert(nv =~= ov.insert(i as int, ev));
        assert forall|a: int, b: int| 0 <= a < b < nv.len() implies path_lt(
            #[trigger] nv[a].1,
            #[trigger] nv[b].1,
        ) by {
            if b < i {
            } else if b == i {
            } else if a < i {
                lemma_path_lt_transitive(nv[a].1, ev.1, nv[b].1);
            } else if a == i {
            } else {
            }
        }
        assert forall|x: (TxEntryKind, Seq<Seq<u8>>)|
            #[trigger] nv.contains(x) <==> ov.contains(x) || x == ev by {
            if nv.contains(x) {
                let m = choose|m: int| 0 <= m < nv.len() && nv[m] == x;
                if m < i {
                    assert(ov[m] == x);
                } else if m > i {
                    assert(ov[m - 1] == x);
                }
            }
            if ov.contains(x) {
                let m = choose|m: int| 0 <= m < ov.len() && ov[m] == x;
                if m < i {
                    assert(nv[m] == x);
                } else {
                    assert(nv[m + 1] == x);
                }
            }
            if x == ev {
                assert(nv[i as int] == x);
            }
        }
    }
}

/// Two sequences of entries that are both sorted strictly by path and hold the
/// same entries are the same sequence.
pub proof fn lemma_sorted_plans_equal(
    a: Seq<(TxEntryKind, Seq<Seq<u8>>)>,
    b: Seq<(TxEntryKind, Seq<Seq<u8>>)>,
)
    requires
        strictly_sorted(a),
        strictly_sorted(b),
        forall|x: (TxEntryKind, Seq<Seq<u8>>)| a.contains(x) <==> b.contains(x),
    ensures
        a == b,
    decreases a.len(),
{
    if a.len() == 0 {
        if b.len() > 0 {
            assert(b.contains(b[0]));
        }
        assert(a =~= b);
    } else {
        assert(a.contains(a[0]));
        let j = choose|j: int| 0 <= j < b.len() && b[j] == a[0];
        assert(b.contains(b[0]));
        let i = choose|i: int| 0 <= i < a.len() && a[i] == b[0];
        if j > 0 {
            if i > 0 {
                lemma_path_lt_asymmetric(a[0].1, a[i].1);
            } else {
                lemma_path_lt_irreflexive(b[0].1);
            }
        }
        assert(a[0] == b[0]);
        let a1 = a.drop_first();
        let b1 = b.drop_first();
        assert forall|x: (TxEntryKind, Seq<Seq<u8>>)| a1.contains(x) <==> b1.contains(x) by {
            if a1.contains(x) {
                let m = choose|m: int| 0 <= m < a1.len() && a1[m] == x;
                assert(a[m + 1] == x);
                assert(path_lt(a[0].1, x.1));
                lemma_path_lt_irreflexive(x.1);
                assert(b.contains(x));
                let n = choose|n: int| 0 <= n < b.len() && b[n] == x;
                assert(n != 0);
                assert(b1[n - 1] == x);
            }
            if b1.contains(x) {
                let m = choose|m: int| 0 <= m < b1.len() && b1[m] == x;
                assert(b[m + 1] == x);
                assert(path_lt(b[0].1, x.1));
                lemma_path_lt_irreflexive(x.1);
                assert(a.contains(x));
                let n = choose|n: int| 0 <= n < a.len() && a[n] == x;
                assert(n != 0);
                assert(a1[n - 1] == x);
            }
        }
        assert forall|p: int, q: int| 0 <= p < q < a1.len() implies path_lt(
            #[trigger] a1[p].1,
            #[trigger] a1[q].1,
        ) by {
            assert(a1[p] == a[p + 1] && a1[q] == a[q + 1]);
        }
        assert forall|p: int, q: int| 0 <= p < q < b1.len() implies path_lt(
            #[trigger] b1[p].1,
            #[trigger] b1[q].1,
        ) by {
            assert(b1[p] == b[p + 1] && b1[q] == b[q + 1]);
        }
        lemma_sorted_plans_equal(a1, b1);
        assert(a =~= seq![a[0]] + a1);
        assert(b =~= seq![b[0]] + b1);
    }
}

/// Two transactions that declare the same reads and the same writes get the same
/// plan, whatever order they were declared in: so cooperating processes take
/// any two locks they share in the same order.
pub proof fn lemma_plan_ignores_declaration_order(
    t1: TxBuilder,
    t2: TxBuilder,
    p1: Seq<(TxEntryKind, Seq<Seq<u8>>)>,
    p2: Seq<(TxEntryKind, Seq<Seq<u8>>)>,
)
    requires
        forall|q: Seq<Seq<u8>>| #[trigger] t1.reads_contain(q) == t2.reads_contain(q),
        forall|q: Seq<Seq<u8>>| #[trigger] t1.writes_contain(q) == t2.writes_contain(q),
        t1.is_plan(p1),
        t2.is_plan(p2),
    ensures
        p1 == p2,
{
    assert forall|x: (TxEntryKind, Seq<Seq<u8>>)| p1.contains(x) <==> p2.contains(x) by {
        assert(p1.contains((x.0, x.1)) == p1.contains(x));
        assert(p2.contains((x.0, x.1)) == p2.contains(x));
        if exists|a: Seq<Seq<u8>>| #[trigger] t1.writes_contain(a) && is_strict_ancestor(a, x.1) {
            let a = choose|a: Seq<Seq<u8>>| #[trigger] t1.writes_contain(a) && is_strict_ancestor(a, x.1);
            assert(t2.writes_contain(a));
        }
        if exists|a: Seq<Seq<u8>>| #[trigger] t2.writes_contain(a) && is_strict_ancestor(a, x.1) {
            let a = choose|a: Seq<Seq<u8>>| #[trigger] t2.writes_contain(a) && is_strict_ancestor(a, x.1);
            assert(t1.writes_contain(a));
        }
        if exists|a: Seq<Seq<u8>>| #[trigger] t1.writes_contain(a) && is_ancestor_or_self(a, x.1) {
            let a = choose|a: Seq<Seq<u8>>| #[trigger] t1.writes_contain(a) && is_ancestor_or_self(a, x.1);
            assert(t2.writes_contain(a));
        }
        if exists|a: Seq<Seq<u8>>| #[trigger] t2.writes_contain(a) && is_ancestor_or_self(a, x.1) {
            let a = choose|a: Seq<Seq<u8>>| #[trigger] t2.writes_contain(a) && is_ancestor_or_self(a, x.1);
            assert(t1.writes_contain(a));
        }
        assert(t1.kept_write(x.1) == t2.kept_write(x.1));
        assert(t1.kept_read(x.1) == t2.kept_read(x.1));
    }
    lemma_sorted_plans_equal(p1, p2);
}


proof fn lemma_kept_write_covers(t: TxBuilder, a: Seq<Seq<u8>>, r: Seq<Seq<u8>>)
    requires
        t.writes_contain(a),
        is_ancestor_or_self(a, r),
    ensures
        exists|k: Seq<Seq<u8>>| #[trigger] t.kept_write(k) && is_ancestor_or_self(k, r),
    decreases a.len(),
{
    if !t.kept_write(a) {
        let b = choose|b: Seq<Seq<u8>>| #[trigger] t.writes_contain(b) && is_strict_ancestor(b, a);
        assert(r.subrange(0, b.len() as int) =~= a.subrange(0, b.len() as int));
        lemma_kept_write_covers(t, b, r);
    }
}

/// A read is dropped exactly where a write that the plan keeps covers it: the
/// writes that other writes contain cover nothing that their ancestors do not.
pub proof fn lemma_reads_dropped_under_kept_writes(t: TxBuilder, r: Seq<Seq<u8>>)
    ensures
        t.kept_read(r) == (t.reads_contain(r) && !exists|k: Seq<Seq<u8>>|
            #[trigger] t.kept_write(k) && is_ancestor_or_self(k, r)),
{
    if exists|a: Seq<Seq<u8>>| #[trigger] t.writes_contain(a) && is_ancestor_or_self(a, r) {
        let a = choose|a: Seq<Seq<u8>>| #[trigger] t.writes_contain(a) && is_ancestor_or_self(a, r);
        lemma_kept_write_covers(t, a, r);
    }
    if exists|k: Seq<Seq<u8>>| #[trigger] t.kept_write(k) && is_ancestor_or_self(k, r) {
        let k = choose|k: Seq<Seq<u8>>| #[trigger] t.kept_write(k) && is_ancestor_or_self(k, r);
        assert(t.writes_contain(k));
    }
}


proof fn lemma_read_keeps_wf(t: TxBuilder, r: TxBuilder, p: Seq<Seq<u8>>)
    requires
        t.wf(),
        forall|q: Seq<Seq<u8>>| #[trigger] r.writes_contain(q) == t.writes_contain(q),
        forall|q: Seq<Seq<u8>>| #[trigger]
            r.reads_contain(q) == (t.reads_contain(q) || is_ancestor_or_self(q, p)),
    ensures
        r.wf(),
{
    assert forall|a: Seq<Seq<u8>>, x: Seq<Seq<u8>>|
        r.reads_contain(x) && is_ancestor_or_self(a, x) implies r.reads_contain(a) by {
        if t.reads_contain(x) {
            assert(t.reads_contain(a));
        } else {
            lemma_ancestor_transitive(a, x, p);
        }
    }
    assert forall|a: Seq<Seq<u8>>, w: Seq<Seq<u8>>|
        r.writes_contain(w) && is_strict_ancestor(a, w) implies r.reads_contain(a) by {
        assert(t.writes_contain(w));
        assert(t.reads_contain(a));
    }
}

proof fn lemma_write_keeps_wf(t: TxBuilder, r: TxBuilder, p: Seq<Seq<u8>>)
    requires
        t.wf(),
        forall|q: Seq<Seq<u8>>| #[trigger] r.writes_contain(q) == (t.writes_contain(q) || q == p),
        forall|q: Seq<Seq<u8>>| #[trigger]
            r.reads_contain(q) == (t.reads_contain(q) || is_strict_ancestor(q, p)),
    ensures
        r.wf(),
{
    assert forall|a: Seq<Seq<u8>>, x: Seq<Seq<u8>>|
        r.reads_contain(x) && is_ancestor_or_self(a, x) implies r.reads_contain(a) by {
        if t.reads_contain(x) {
            assert(t.reads_contain(a));
        } else {
            lemma_ancestor_transitive(a, x, p);
        }
    }
    assert forall|a: Seq<Seq<u8>>, w: Seq<Seq<u8>>|
        r.writes_contain(w) && is_strict_ancestor(a, w) implies r.reads_contain(a) by {
        if t.writes_contain(w) {
            assert(t.reads_contain(a));
        }
    }
}

/// Every strict ancestor of an exclusively locked path, and every ancestor of a
/// shared-locked path, is locked shared in `es`.
pub open spec fn locks_ancestors(es: Seq<(TxEntryKind, Seq<Seq<u8>>)>) -> bool {
    &&& forall|w: Seq<Seq<u8>>, a: Seq<Seq<u8>>|
        #![trigger es.contains((TxEntryKind::Write, w)), is_strict_ancestor(a, w)]
        es.contains((TxEntryKind::Write, w)) && is_strict_ancestor(a, w) ==> es.contains(
            (TxEntryKind::Read, a),
        )
    &&& forall|x: Seq<Seq<u8>>, a: Seq<Seq<u8>>|
        #![trigger es.contains((TxEntryKind::Read, x)), is_ancestor_or_self(a, x)]
        es.contains((TxEntryKind::Read, x)) && is_ancestor_or_self(a, x) ==> es.contains(
            (TxEntryKind::Read, a),
        )
}

/// Under a closed declaration, the plan locks what a path's lock needs above
/// it: every strict ancestor of an exclusively locked path, and every ancestor
/// of a shared-locked path, is locked shared in the same plan.
pub proof fn lemma_plan_locks_ancestors(t: TxBuilder, es: Seq<(TxEntryKind, Seq<Seq<u8>>)>)
    requires
        t.wf(),
        t.is_plan(es),
    ensures
        locks_ancestors(es),
{
    assert forall|w: Seq<Seq<u8>>, a: Seq<Seq<u8>>|
        es.contains((TxEntryKind::Write, w)) && is_strict_ancestor(a, w) implies es.contains(
        (TxEntryKind::Read, a),
    ) by {
        assert(t.kept_write(w));
        assert(t.reads_contain(a));
        if exists|b: Seq<Seq<u8>>| #[trigger] t.writes_contain(b) && is_ancestor_or_self(b, a) {
            let b = choose|b: Seq<Seq<u8>>| #[trigger] t.writes_contain(b) && is_ancestor_or_self(b, a);
            lemma_ancestor_transitive(b, a, w);
        }
        assert(t.kept_read(a));
    }
    assert forall|x: Seq<Seq<u8>>, a: Seq<Seq<u8>>|
        es.contains((TxEntryKind::Read, x)) && is_ancestor_or_self(a, x) implies es.contains(
        (TxEntryKind::Read, a),
    ) by {
        assert(t.kept_read(x));
        assert(t.reads_contain(a));
        if exists|b: Seq<Seq<u8>>| #[trigger] t.writes_contain(b) && is_ancestor_or_self(b, a) {
            let b = choose|b: Seq<Seq<u8>>| #[trigger] t.writes_contain(b) && is_ancestor_or_self(b, a);
            lemma_ancestor_transitive(b, a, x);
        }
        assert(t.kept_read(a));
    }
}

} // verus!
