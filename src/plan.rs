use vstd::prelude::*;

use core::cmp::Ordering;

use crate::order::{
    compare_bytes, is_ancestor_or_self, is_strict_ancestor, lemma_ancestor_sorts_first,
    path_lt,
};
use crate::path::{copy_bytes, render, rendered, views};

verus! {

/// How a path is locked: shared, or exclusive.
#[derive(PartialEq, Eq, Structural, Debug, Clone, Copy)]
pub enum TxEntryKind {
    Read,
    Write,
}

/// One lock of a plan: its kind and the path it is taken on, relative to the
/// root, as components.
#[derive(Debug, Clone, PartialEq, Eq)]
pub struct TxEntry {
    pub kind: TxEntryKind,
    pub path: Vec<Vec<u8>>,
}

impl View for TxEntry {
    type V = (TxEntryKind, Seq<Seq<u8>>);

    open spec fn view(&self) -> (TxEntryKind, Seq<Seq<u8>>) {
        (self.kind, views(self.path@))
    }
}

impl TxEntry {
    /// The path's text, relative to the root.
    pub fn path_bytes(&self) -> (r: Vec<u8>)
        ensures
            r@ == rendered(false, views(self.path@)),
    {
        render(false, &self.path)
    }
}

/// The views of the entries of a plan.
pub open spec fn plan_view(es: Seq<TxEntry>) -> Seq<(TxEntryKind, Seq<Seq<u8>>)> {
    Seq::new(es.len(), |i: int| es[i]@)
}

/// The views of a list of paths.
pub open spec fn path_views(v: Seq<Vec<Vec<u8>>>) -> Seq<Seq<Seq<u8>>> {
    Seq::new(v.len(), |i: int| views(v[i]@))
}

/// Each entry's path sorts strictly before the next one's: the order in which
/// every process takes its locks.
pub open spec fn strictly_sorted(es: Seq<(TxEntryKind, Seq<Seq<u8>>)>) -> bool {
    forall|i: int, j: int| 0 <= i < j < es.len() ==> path_lt(#[trigger] es[i].1, #[trigger] es[j].1)
}

/// The locks that reading `p` takes, in the order they are taken: a shared lock
/// on the root, then on each ancestor of `p` from the top down, then on `p`.
pub open spec fn read_plan_spec(p: Seq<Seq<u8>>) -> Seq<(TxEntryKind, Seq<Seq<u8>>)> {
    Seq::new(p.len() + 1, |i: int| (TxEntryKind::Read, p.subrange(0, i)))
}

/// The locks that writing `p` takes, in the order they are taken: a shared lock
/// on the root and each strict ancestor from the top down, then an exclusive
/// lock on `p`.
pub open spec fn write_plan_spec(p: Seq<Seq<u8>>) -> Seq<(TxEntryKind, Seq<Seq<u8>>)> {
    Seq::new(
        p.len() + 1,
        |i: int|
            if i < p.len() {
                (TxEntryKind::Read, p.subrange(0, i))
            } else {
                (TxEntryKind::Write, p)
            },
    )
}

/// The first `k` components of `p`: the path of one of its ancestors.
pub fn prefix_of(p: &Vec<Vec<u8>>, k: usize) -> (r: Vec<Vec<u8>>)
    requires
        k <= p@.len(),
    ensures
        views(r@) == views(p@).subrange(0, k as int),
{
    let mut r: Vec<Vec<u8>> = Vec::new();
    let mut i: usize = 0;
    while i < k
        invariant
            i <= k,
            k <= p@.len(),
            views(r@) =~= views(p@).subrange(0, i as int),
        decreases k - i,
    {
        let ghost before = r@;
        r.push(copy_bytes(p[i].as_slice()));
        assert(views(r@) =~= views(before).push(p@[i as int]@));
        i += 1;
    }
    r
}

/// Whether `a` is `b` or one of its ancestors.
pub fn ancestor_or_self(a: &Vec<Vec<u8>>, b: &Vec<Vec<u8>>) -> (r: bool)
    ensures
        r == is_ancestor_or_self(views(a@), views(b@)),
{
    if a.len() > b.len() {
        return false;
    }
    let mut j: usize = 0;
    while j < a.len()
        invariant
            j <= a@.len(),
            a@.len() <= b@.len(),
            views(b@).subrange(0, j as int) =~= views(a@).subrange(0, j as int),
        decreases a@.len() - j,
    {
        match compare_bytes(a[j].as_slice(), b[j].as_slice()) {
            Ordering::Equal => {},
            _ => {
                proof {
                    let vb = views(b@).subrange(0, a@.len() as int);
                    assert(vb[j as int] == b@[j as int]@);
                }
                return false;
            },
        }
        j += 1;
    }
    assert(views(b@).subrange(0, a@.len() as int) =~= views(a@));
    true
}

/// Whether `a` is an ancestor of `b` other than `b` itself.
pub fn strict_ancestor(a: &Vec<Vec<u8>>, b: &Vec<Vec<u8>>) -> (r: bool)
    ensures
        r == is_strict_ancestor(views(a@), views(b@)),
{
    a.len() < b.len() && ancestor_or_self(a, b)
}

proof fn lemma_prefixes_sorted(p: Seq<Seq<u8>>, es: Seq<(TxEntryKind, Seq<Seq<u8>>)>)
    requires
        es.len() == p.len() + 1,
        forall|i: int| 0 <= i < es.len() ==> #[trigger] es[i].1 == p.subrange(0, i),
    ensures
        strictly_sorted(es),
{
    assert forall|i: int, j: int| 0 <= i < j < es.len() implies path_lt(
        #[trigger] es[i].1,
        #[trigger] es[j].1,
    ) by {
        assert(p.subrange(0, j).subrange(0, i) =~= p.subrange(0, i));
        lemma_ancestor_sorts_first(p.subrange(0, i), p.subrange(0, j));
    }
}

/// The locks that reading the relative path `p` needs, in acquisition order.
pub fn read_plan(p: &Vec<Vec<u8>>) -> (r: Vec<TxEntry>)
    ensures
        plan_view(r@) == read_plan_spec(views(p@)),
        strictly_sorted(plan_view(r@)),
{
    let mut r: Vec<TxEntry> = Vec::new();
    let mut k: usize = 0;
    while k < p.len()
        invariant
            k <= p@.len(),
            plan_view(r@) =~= read_plan_spec(views(p@)).subrange(0, k as int),
        decreases p@.len() - k,
    {
        let ghost before = r@;
        r.push(TxEntry { kind: TxEntryKind::Read, path: prefix_of(p, k) });
        assert(plan_view(r@) =~= plan_view(before).push(read_plan_spec(views(p@))[k as int]));
        k += 1;
    }
    let ghost before = r@;
    r.push(TxEntry { kind: TxEntryKind::Read, path: prefix_of(p, p.len()) });
    assert(plan_view(r@) =~= plan_view(before).push(
        read_plan_spec(views(p@))[p@.len() as int],
    ));
    assert(plan_view(r@) =~= read_plan_spec(views(p@)));
    proof {
        lemma_prefixes_sorted(views(p@), plan_view(r@));
    }
    r
}

/// The locks that writing the relative path `p` needs, in acquisition order.
pub fn write_plan(p: &Vec<Vec<u8>>) -> (r: Vec<TxEntry>)
    ensures
        plan_view(r@) == write_plan_spec(views(p@)),
        strictly_sorted(plan_view(r@)),
{
    let mut r: Vec<TxEntry> = Vec::new();
    let mut k: usize = 0;
    while k < p.len()
        invariant
            k <= p@.len(),
            plan_view(r@) =~= write_plan_spec(views(p@)).subrange(0, k as int),
        decreases p@.len() - k,
    {
        let ghost before = r@;
        r.push(TxEntry { kind: TxEntryKind::Read, path: prefix_of(p, k) });
        assert(plan_view(r@) =~= plan_view(before).push(write_plan_spec(views(p@))[k as int]));
        k += 1;
    }
    let ghost before = r@;
    r.push(TxEntry { kind: TxEntryKind::Write, path: prefix_of(p, p.len()) });
    assert(views(p@).subrange(0, p@.len() as int) =~= views(p@));
    assert(plan_view(r@) =~= plan_view(before).push(
        write_plan_spec(views(p@))[p@.len() as int],
    ));
    assert(plan_view(r@) =~= write_plan_spec(views(p@)));
    proof {
        lemma_prefixes_sorted(views(p@), plan_view(r@));
    }
    r
}

} // verus!
