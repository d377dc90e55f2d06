use vstd::prelude::*;

use core::cmp::Ordering;

use crate::path::views;

verus! {

/// Lexicographic order on byte strings; a proper prefix comes first.
pub open spec fn bytes_lt(a: Seq<u8>, b: Seq<u8>) -> bool
    decreases a.len(),
{
    if a.len() == 0 {
        b.len() > 0
    } else if b.len() == 0 {
        false
    } else if a[0] != b[0] {
        a[0] < b[0]
    } else {
        bytes_lt(a.drop_first(), b.drop_first())
    }
}

/// Lexicographic order on paths, component by component, each component
/// compared by its bytes; an ancestor comes before its descendants.
pub open spec fn path_lt(a: Seq<Seq<u8>>, b: Seq<Seq<u8>>) -> bool
    decreases a.len(),
{
    if a.len() == 0 {
        b.len() > 0
    } else if b.len() == 0 {
        false
    } else if a[0] != b[0] {
        bytes_lt(a[0], b[0])
    } else {
        path_lt(a.drop_first(), b.drop_first())
    }
}

/// `a` is `b` or one of its ancestors.
pub open spec fn is_ancestor_or_self(a: Seq<Seq<u8>>, b: Seq<Seq<u8>>) -> bool {
    a.len() <= b.len() && b.subrange(0, a.len() as int) == a
}

/// `a` is an ancestor of `b`, and not `b` itself.
pub open spec fn is_strict_ancestor(a: Seq<Seq<u8>>, b: Seq<Seq<u8>>) -> bool {
    a.len() < b.len() && b.subrange(0, a.len() as int) == a
}

/// No byte string sorts before itself.
pub proof fn lemma_bytes_lt_irreflexive(a: Seq<u8>)
    ensures
        !bytes_lt(a, a),
    decreases a.len(),
{
    if a.len() > 0 {
        lemma_bytes_lt_irreflexive(a.drop_first());
    }
}

/// Of two byte strings, at most one sorts before the other.
pub proof fn lemma_bytes_lt_asymmetric(a: Seq<u8>, b: Seq<u8>)
    ensures
        bytes_lt(a, b) ==> !bytes_lt(b, a),
    decreases a.len(),
{
    if a.len() > 0 && b.len() > 0 && a[0] == b[0] {
        lemma_bytes_lt_asymmetric(a.drop_first(), b.drop_first());
    }
}

/// The byte order is transitive.
pub proof fn lemma_bytes_lt_transitive(a: Seq<u8>, b: Seq<u8>, c: Seq<u8>)
    ensures
        bytes_lt(a, b) && bytes_lt(b, c) ==> bytes_lt(a, c),
    decreases a.len(),
{
    if a.len() > 0 && b.len() > 0 && c.len() > 0 {
        lemma_bytes_lt_transitive(a.drop_first(), b.drop_first(), c.drop_first());
    }
}

/// Of two different byte strings, one sorts before the other.
pub proof fn lemma_bytes_lt_total(a: Seq<u8>, b: Seq<u8>)
    ensures
        a != b ==> bytes_lt(a, b) || bytes_lt(b, a),
    decreases a.len(),
{
    if a.len() > 0 && b.len() > 0 && a[0] == b[0] {
        lemma_bytes_lt_total(a.drop_first(), b.drop_first());
        if a.drop_first() == b.drop_first() {
            assert(a =~= seq![a[0]] + a.drop_first());
            assert(b =~= seq![b[0]] + b.drop_first());
        }
    } else if a.len() == 0 && b.len() == 0 {
        assert(a =~= b);
    }
}

/// No path sorts before itself.
pub proof fn lemma_path_lt_irreflexive(a: Seq<Seq<u8>>)
    ensures
        !path_lt(a, a),
    decreases a.len(),
{
    if a.len() > 0 {
        lemma_path_lt_irreflexive(a.drop_first());
    }
}

/// Of two paths, at most one sorts before the other.
pub proof fn lemma_path_lt_asymmetric(a: Seq<Seq<u8>>, b: Seq<Seq<u8>>)
    ensures
        path_lt(a, b) ==> !path_lt(b, a),
    decreases a.len(),
{
    if a.len() > 0 && b.len() > 0 {
        if a[0] == b[0] {
            lemma_path_lt_asymmetric(a.drop_first(), b.drop_first());
        } else {
            lemma_bytes_lt_asymmetric(a[0], b[0]);
        }
    }
}

/// The path order is transitive.
pub proof fn lemma_path_lt_transitive(a: Seq<Seq<u8>>, b: Seq<Seq<u8>>, c: Seq<Seq<u8>>)
    ensures
        path_lt(a, b) && path_lt(b, c) ==> path_lt(a, c),
    decreases a.len(),
{
    if a.len() > 0 && b.len() > 0 && c.len() > 0 {
        lemma_path_lt_transitive(a.drop_first(), b.drop_first(), c.drop_first());
        lemma_bytes_lt_transitive(a[0], b[0], c[0]);
        lemma_bytes_lt_asymmetric(a[0], b[0]);
        lemma_bytes_lt_asymmetric(b[0], c[0]);
        lemma_bytes_lt_irreflexive(a[0]);
    }
}

/// Of two different paths, one sorts before the other.
pub proof fn lemma_path_lt_total(a: Seq<Seq<u8>>, b: Seq<Seq<u8>>)
    ensures
        a != b ==> path_lt(a, b) || path_lt(b, a),
    decreases a.len(),
{
    if a.len() > 0 && b.len() > 0 {
        if a[0] == b[0] {
            lemma_path_lt_total(a.drop_first(), b.drop_first());
            if a.drop_first() == b.drop_first() {
                assert(a =~= seq![a[0]] + a.drop_first());
                assert(b =~= seq![b[0]] + b.drop_first());
            }
        } else {
            lemma_bytes_lt_total(a[0], b[0]);
        }
    } else if a.len() == 0 && b.len() == 0 {
        assert(a =~= b);
    }
}

/// An ancestor of an ancestor is an ancestor; strictly so where either step is
/// strict.
pub proof fn lemma_ancestor_transitive(a: Seq<Seq<u8>>, b: Seq<Seq<u8>>, c: Seq<Seq<u8>>)
    requires
        is_ancestor_or_self(a, b),
        is_ancestor_or_self(b, c),
    ensures
        is_ancestor_or_self(a, c),
        (is_strict_ancestor(a, b) || is_strict_ancestor(b, c)) ==> is_strict_ancestor(a, c),
{
    assert(c.subrange(0, a.len() as int) =~= c.subrange(0, b.len() as int).subrange(
        0,
        a.len() as int,
    ));
}

/// An ancestor sorts before each of its descendants.
pub proof fn lemma_ancestor_sorts_first(a: Seq<Seq<u8>>, b: Seq<Seq<u8>>)
    requires
        is_strict_ancestor(a, b),
    ensures
        path_lt(a, b),
    decreases a.len(),
{
    if a.len() > 0 {
        assert(a[0] == b.subrange(0, a.len() as int)[0]);
        assert(b.drop_first().subrange(0, a.len() - 1) =~= a.drop_first());
        lemma_ancestor_sorts_first(a.drop_first(), b.drop_first());
    }
}

/// Compares two byte strings lexicographically.
pub fn compare_bytes(a: &[u8], b: &[u8]) -> (r: Ordering)
    ensures
        (r is Less) == bytes_lt(a@, b@),
        (r is Equal) == (a@ == b@),
        (r is Greater) == bytes_lt(b@, a@),
{
    let mut i: usize = 0;
    proof {
        assert(a@.skip(0) =~= a@);
        assert(b@.skip(0) =~= b@);
        lemma_bytes_lt_irreflexive(a@);
        lemma_bytes_lt_asymmetric(a@, b@);
        lemma_bytes_lt_total(a@, b@);
    }
    while i < a.len() && i < b.len() && a[i] == b[i]
        invariant
            i <= a@.len(),
            i <= b@.len(),
            a@.subrange(0, i as int) == b@.subrange(0, i as int),
            bytes_lt(a@, b@) == bytes_lt(a@.skip(i as int), b@.skip(i as int)),
            bytes_lt(b@, a@) == bytes_lt(b@.skip(i as int), a@.skip(i as int)),
        decreases a@.len() - i,
    {
        assert(a@.skip(i as int).drop_first() =~= a@.skip(i + 1));
        assert(b@.skip(i as int).drop_first() =~= b@.skip(i + 1));
        assert(a@.subrange(0, i + 1) =~= a@.subrange(0, i as int).push(a@[i as int]));
        assert(b@.subrange(0, i + 1) =~= b@.subrange(0, i as int).push(b@[i as int]));
        i += 1;
    }
    if i < a.len() && i < b.len() {
        proof {
            if a@ == b@ {
                assert(a@[i as int] == b@[i as int]);
            }
        }
        if a[i] < b[i] {
            Ordering::Less
        } else {
            Ordering::Greater
        }
    } else if i < b.len() {
        proof {
            assert(a@ =~= a@.subrange(0, i as int));
        }
        Ordering::Less
    } else if i < a.len() {
        proof {
            assert(b@ =~= b@.subrange(0, i as int));
        }
        Ordering::Greater
    } else {
        proof {
            assert(a@ =~= a@.subrange(0, i as int));
            assert(b@ =~= b@.subrange(0, i as int));
        }
        Ordering::Equal
    }
}

/// Compares two paths component by component.
pub fn compare_paths(a: &Vec<Vec<u8>>, b: &Vec<Vec<u8>>) -> (r: Ordering)
    ensures
        (r is Less) == path_lt(views(a@), views(b@)),
        (r is Equal) == (views(a@) == views(b@)),
        (r is Greater) == path_lt(views(b@), views(a@)),
{
    let ghost va = views(a@);
    let ghost vb = views(b@);
    let mut i: usize = 0;
    proof {
        assert(va.skip(0) =~= va);
        assert(vb.skip(0) =~= vb);
        lemma_path_lt_irreflexive(va);
        lemma_path_lt_asymmetric(va, vb);
        lemma_path_lt_total(va, vb);
    }
    while i < a.len() && i < b.len()
        invariant
            i <= a@.len(),
            i <= b@.len(),
            va == views(a@),
            vb == views(b@),
            va.subrange(0, i as int) == vb.subrange(0, i as int),
            path_lt(va, vb) == path_lt(va.skip(i as int), vb.skip(i as int)),
            path_lt(vb, va) == path_lt(vb.skip(i as int), va.skip(i as int)),
        decreases a@.len() - i,
    {
        let c = compare_bytes(a[i].as_slice(), b[i].as_slice());
        assert(va.skip(i as int)[0] == a@[i as int]@);
        assert(vb.skip(i as int)[0] == b@[i as int]@);
        match c {
            Ordering::Equal => {},
            Ordering::Less => {
                proof {
                    if va == vb {
                        assert(va[i as int] == vb[i as int]);
                    }
                }
                return Ordering::Less;
            },
            Ordering::Greater => {
                proof {
                    lemma_bytes_lt_asymmetric(b@[i as int]@, a@[i as int]@);
                    if va == vb {
                        assert(va[i as int] == vb[i as int]);
                    }
                }
                return Ordering::Greater;
            },
        }
        assert(va.skip(i as int).drop_first() =~= va.skip(i + 1));
        assert(vb.skip(i as int).drop_first() =~= vb.skip(i + 1));
        assert(va.subrange(0, i + 1) =~= va.subrange(0, i as int).push(va[i as int]));
        assert(vb.subrange(0, i + 1) =~= vb.subrange(0, i as int).push(vb[i as int]));
        i += 1;
    }
    if i < b.len() {
        proof {
            assert(va =~= va.subrange(0, i as int));
        }
        Ordering::Less
    } else if i < a.len() {
        proof {
            assert(vb =~= vb.subrange(0, i as int));
        }
        Ordering::Greater
    } else {
        proof {
            assert(va =~= va.subrange(0, i as int));
            assert(vb =~= vb.subrange(0, i as int));
        }
        Ordering::Equal
    }
}

} // verus!
