use vstd::prelude::*;

use crate::path::{ascii, ascii_bytes, hidden_name, push_all, DOT};

verus! {

/// The suffix of a main lock file.
pub open spec fn lock_ext() -> Seq<u8> {
    ascii(".lock.sbdb"@)
}

/// The suffix of a queue lock file.
pub open spec fn queue_ext() -> Seq<u8> {
    ascii(".queue.sbdb"@)
}

/// The suffix of a staging copy, of a file or of a directory.
pub open spec fn tmp_ext() -> Seq<u8> {
    ascii(".tmp.sbdb"@)
}

/// The suffix of the link that an atomic directory commit renames into place.
pub open spec fn tmplnk_ext() -> Seq<u8> {
    ascii(".tmplnk.sbdb"@)
}

/// What follows the random identifier in the name of an atomic directory's
/// backing directory.
pub open spec fn dir_tail() -> Seq<u8> {
    ascii(".dir.sbdb"@)
}

/// What follows the random identifier in the name of a commit backup.
pub open spec fn bak_tail() -> Seq<u8> {
    ascii(".bak.sbdb"@)
}

/// The suffix of a backing directory with identifier `rid`.
pub open spec fn dir_ext(rid: Seq<u8>) -> Seq<u8> {
    seq![DOT] + rid + dir_tail()
}

/// The suffix of a commit backup with identifier `rid`.
pub open spec fn bak_ext(rid: Seq<u8>) -> Seq<u8> {
    seq![DOT] + rid + bak_tail()
}

/// The suffix of a main lock file.
pub fn lock_ext_bytes() -> (r: Vec<u8>)
    ensures
        r@ == lock_ext(),
{
    proof {
        reveal_strlit(".lock.sbdb");
    }
    ascii_bytes(".lock.sbdb")
}

/// The suffix of a queue lock file.
pub fn queue_ext_bytes() -> (r: Vec<u8>)
    ensures
        r@ == queue_ext(),
{
    proof {
        reveal_strlit(".queue.sbdb");
    }
    ascii_bytes(".queue.sbdb")
}

/// The suffix of a staging copy.
pub fn tmp_ext_bytes() -> (r: Vec<u8>)
    ensures
        r@ == tmp_ext(),
{
    proof {
        reveal_strlit(".tmp.sbdb");
    }
    ascii_bytes(".tmp.sbdb")
}

/// The suffix of the temporary link of an atomic commit.
pub fn tmplnk_ext_bytes() -> (r: Vec<u8>)
    ensures
        r@ == tmplnk_ext(),
{
    proof {
        reveal_strlit(".tmplnk.sbdb");
    }
    ascii_bytes(".tmplnk.sbdb")
}

fn dir_tail_bytes() -> (r: Vec<u8>)
    ensures
        r@ == dir_tail(),
{
    proof {
        reveal_strlit(".dir.sbdb");
    }
    ascii_bytes(".dir.sbdb")
}

fn bak_tail_bytes() -> (r: Vec<u8>)
    ensures
        r@ == bak_tail(),
{
    proof {
        reveal_strlit(".bak.sbdb");
    }
    ascii_bytes(".bak.sbdb")
}

/// The suffix of a backing directory with identifier `rid`.
pub fn dir_ext_bytes(rid: &[u8]) -> (r: Vec<u8>)
    ensures
        r@ == dir_ext(rid@),
{
    let mut r: Vec<u8> = Vec::new();
    r.push(DOT);
    push_all(&mut r, rid);
    let tail = dir_tail_bytes();
    push_all(&mut r, tail.as_slice());
    assert(r@ =~= dir_ext(rid@));
    r
}

/// The suffix of a commit backup with identifier `rid`.
pub fn backup_ext(rid: &[u8]) -> (r: Vec<u8>)
    ensures
        r@ == bak_ext(rid@),
{
    let mut r: Vec<u8> = Vec::new();
    r.push(DOT);
    push_all(&mut r, rid);
    let tail = bak_tail_bytes();
    push_all(&mut r, tail.as_slice());
    assert(r@ =~= bak_ext(rid@));
    r
}

/// The number of characters of a random identifier.
pub const RID_LEN: usize = 24;

/// The number of characters that a random identifier draws from.
pub const RID_BASE: u8 = 36;

/// The character of digit `n` in base 36: `A` to `Z` for 0 to 25, then `0` to
/// `9` for 26 to 35.
pub open spec fn base36_byte(n: u8) -> u8 {
    if n < 26 {
        (65 + n) as u8
    } else {
        (48 + (n - 26)) as u8
    }
}

/// A character of the identifier alphabet.
pub open spec fn is_rid_byte(b: u8) -> bool {
    (65 <= b && b <= 90) || (48 <= b && b <= 57)
}

/// A random identifier: 24 characters of the alphabet `A`-`Z`, `0`-`9`.
pub open spec fn is_rid(s: Seq<u8>) -> bool {
    s.len() == RID_LEN && forall|i: int| 0 <= i < s.len() ==> is_rid_byte(#[trigger] s[i])
}

/// The character of a base-36 digit.
pub fn to_base_36(n: u8) -> (c: u8)
    requires
        n < RID_BASE,
    ensures
        c == base36_byte(n),
        is_rid_byte(c),
{
    if n < 26 {
        65 + n
    } else {
        48 + (n - 26)
    }
}

/// The identifier spelled by base-36 digits.
pub fn rid_from_digits(digits: &[u8]) -> (r: Vec<u8>)
    requires
        forall|i: int| 0 <= i < digits@.len() ==> #[trigger] digits@[i] < RID_BASE,
    ensures
        r@ == digits@.map_values(|d: u8| base36_byte(d)),
        forall|i: int| 0 <= i < r@.len() ==> is_rid_byte(#[trigger] r@[i]),
{
    let mut r: Vec<u8> = Vec::new();
    let mut i: usize = 0;
    while i < digits.len()
        invariant
            i <= digits@.len(),
            forall|j: int| 0 <= j < digits@.len() ==> #[trigger] digits@[j] < RID_BASE,
            r@ =~= digits@.subrange(0, i as int).map_values(|d: u8| base36_byte(d)),
            forall|j: int| 0 <= j < r@.len() ==> is_rid_byte(#[trigger] r@[j]),
        decreases digits@.len() - i,
    {
        let c = to_base_36(digits[i]);
        r.push(c);
        i += 1;
    }
    assert(digits@.subrange(0, digits@.len() as int) =~= digits@);
    r
}

/// Relies on rand::random_range: a value drawn from the thread's generator in
/// `0..n`; it panics on an empty range, which `requires` rules out.
#[verifier::external_body]
fn random_below(n: u8) -> (r: u8)
    requires
        n > 0,
    ensures
        r < n,
{
    rand::random_range(0..n)
}

/// A fresh random identifier, for names that must not collide within a live
/// process.
pub fn puuid() -> (r: Vec<u8>)
    ensures
        is_rid(r@),
{
    let mut digits: Vec<u8> = Vec::new();
    let mut i: usize = 0;
    while i < RID_LEN
        invariant
            i <= RID_LEN,
            digits@.len() == i,
            forall|j: int| 0 <= j < digits@.len() ==> #[trigger] digits@[j] < RID_BASE,
        decreases RID_LEN - i,
    {
        let d = random_below(RID_BASE);
        digits.push(d);
        i += 1;
    }
    rid_from_digits(digits.as_slice())
}

/// The suffix of a new commit backup, with a fresh identifier.
pub fn create_backup_ext() -> (r: Vec<u8>)
    ensures
        exists|rid: Seq<u8>| is_rid(rid) && r@ == bak_ext(rid),
{
    let rid = puuid();
    backup_ext(rid.as_slice())
}

/// The kinds of helper entries that sit beside a path.
#[derive(PartialEq, Eq, Structural, Debug, Clone, Copy)]
pub enum SidecarKind {
    Lock,
    Queue,
    Staging,
    LinkStage,
    DirBacking,
    Backup,
}

/// The name of the helper entry of kind `k` for the entry named `n`; `rid`
/// counts only for backing directories and backups.
pub open spec fn sidecar_name(k: SidecarKind, n: Seq<u8>, rid: Seq<u8>) -> Seq<u8> {
    match k {
        SidecarKind::Lock => hidden_name(n, lock_ext()),
        SidecarKind::Queue => hidden_name(n, queue_ext()),
        SidecarKind::Staging => hidden_name(n, tmp_ext()),
        SidecarKind::LinkStage => hidden_name(n, tmplnk_ext()),
        SidecarKind::DirBacking => hidden_name(n, dir_ext(rid)),
        SidecarKind::Backup => hidden_name(n, bak_ext(rid)),
    }
}

/// A helper entry's name, read back: its kind, the name of the entry it
/// belongs to, and its identifier (empty where the kind has none).
#[derive(Debug, Clone, PartialEq, Eq)]
pub struct Sidecar {
    pub kind: SidecarKind,
    pub target: Vec<u8>,
    pub rid: Vec<u8>,
}

/// Whether `s` ends with `suffix`.
pub fn ends_with(s: &[u8], suffix: &[u8]) -> (r: bool)
    ensures
        r == (suffix@.len() <= s@.len() && s@.subrange(
            s@.len() - suffix@.len(),
            s@.len() as int,
        ) == suffix@),
{
    if suffix.len() > s.len() {
        return false;
    }
    let off = s.len() - suffix.len();
    let mut i: usize = 0;
    while i < suffix.len()
        invariant
            i <= suffix@.len(),
            off + suffix@.len() == s@.len(),
            s@.len() <= usize::MAX,
            forall|j: int| 0 <= j < i ==> s@[off + j] == #[trigger] suffix@[j],
        decreases suffix@.len() - i,
    {
        if s[off + i] != suffix[i] {
            assert(s@.subrange(off as int, s@.len() as int)[i as int] == s@[off + i]);
            return false;
        }
        i += 1;
    }
    assert(s@.subrange(off as int, s@.len() as int) =~= suffix@);
    true
}

/// The bytes of `s` from `lo` up to `hi`.
pub fn copy_range(s: &[u8], lo: usize, hi: usize) -> (r: Vec<u8>)
    requires
        lo <= hi <= s@.len(),
    ensures
        r@ == s@.subrange(lo as int, hi as int),
{
    let mut r: Vec<u8> = Vec::new();
    let mut i: usize = lo;
    while i < hi
        invariant
            lo <= i <= hi,
            hi <= s@.len(),
            r@ =~= s@.subrange(lo as int, i as int),
        decreases hi - i,
    {
        r.push(s[i]);
        i += 1;
    }
    r
}

/// Reads `name` as `.N<ext>` with a non-empty `N`; gives `N`.
fn strip_fixed(name: &[u8], ext: &Vec<u8>) -> (r: Option<Vec<u8>>)
    ensures
        r is Some ==> r->Some_0@.len() > 0 && name@ == hidden_name(r->Some_0@, ext@),
        r is None ==> forall|n: Seq<u8>| n.len() > 0 ==> name@ != #[trigger] hidden_name(n, ext@),
{
    if name.len() > 0 && name.len() - 1 > ext.len() && name[0] == DOT && ends_with(
        name,
        ext.as_slice(),
    ) {
        let n = copy_range(name, 1, name.len() - ext.len());
        assert(name@ =~= hidden_name(n@, ext@));
        Some(n)
    } else {
        assert forall|n: Seq<u8>| n.len() > 0 implies name@ != #[trigger] hidden_name(n, ext@) by {
            if name@ == hidden_name(n, ext@) {
                assert(name@[0] == DOT);
                assert(name@.subrange(name@.len() - ext@.len(), name@.len() as int) =~= ext@);
            }
        }
        None
    }
}

/// The shape of a name `.N.<RID><tail>`.
proof fn lemma_rid_shape(name: Seq<u8>, n: Seq<u8>, rid: Seq<u8>, tail: Seq<u8>)
    requires
        n.len() > 0,
        is_rid(rid),
        name == hidden_name(n, seq![DOT] + rid + tail),
    ensures
        name.len() == n.len() + RID_LEN + 2 + tail.len(),
        name[0] == DOT,
        name.subrange(name.len() - tail.len(), name.len() as int) == tail,
        name[name.len() - tail.len() - RID_LEN - 1] == DOT,
        name.subrange(name.len() - tail.len() - RID_LEN, name.len() - tail.len()) == rid,
        name.subrange(1, name.len() - tail.len() - RID_LEN - 1) == n,
{
    let len = name.len();
    assert(name.subrange(len - tail.len(), len as int) =~= tail);
    assert(name.subrange(len - tail.len() - RID_LEN, len - tail.len()) =~= rid);
    assert(name.subrange(1, len - tail.len() - RID_LEN - 1) =~= n);
}

/// Reads `name` as `.N.<RID><tail>` with a non-empty `N` and an identifier of
/// the alphabet; gives `N` and the identifier.
fn strip_with_rid(name: &[u8], tail: &Vec<u8>) -> (r: Option<(Vec<u8>, Vec<u8>)>)
    ensures
        r is Some ==> r->Some_0.0@.len() > 0 && is_rid(r->Some_0.1@) && name@ == hidden_name(
            r->Some_0.0@,
            seq![DOT] + r->Some_0.1@ + tail@,
        ),
        r is None ==> forall|n: Seq<u8>, rid: Seq<u8>|
            n.len() > 0 && is_rid(rid) ==> name@ != #[trigger] hidden_name(
                n,
                seq![DOT] + rid + tail@,
            ),
{
    let len = name.len();
    if len <= RID_LEN + 2 || len - (RID_LEN + 2) <= tail.len() || name[0] != DOT || !ends_with(
        name,
        tail.as_slice(),
    ) {
        assert forall|n: Seq<u8>, rid: Seq<u8>| n.len() > 0 && is_rid(rid) implies name@
            != #[trigger] hidden_name(n, seq![DOT] + rid + tail@) by {
            if name@ == hidden_name(n, seq![DOT] + rid + tail@) {
                lemma_rid_shape(name@, n, rid, tail@);
            }
        }
        return None;
    }
    let rid_end = len - tail.len();
    let rid_start = rid_end - RID_LEN;
    if name[rid_start - 1] != DOT {
        assert forall|n: Seq<u8>, rid: Seq<u8>| n.len() > 0 && is_rid(rid) implies name@
            != #[trigger] hidden_name(n, seq![DOT] + rid + tail@) by {
            if name@ == hidden_name(n, seq![DOT] + rid + tail@) {
                lemma_rid_shape(name@, n, rid, tail@);
            }
        }
        return None;
    }
    let rid = copy_range(name, rid_start, rid_end);
    let mut i: usize = 0;
    while i < RID_LEN
        invariant
            i <= RID_LEN,
            rid_start + RID_LEN == rid_end,
            rid_end + tail@.len() == len,
            len == name@.len(),
            rid@ == name@.subrange(rid_start as int, rid_end as int),
            forall|j: int| 0 <= j < i ==> is_rid_byte(#[trigger] rid@[j]),
        decreases RID_LEN - i,
    {
        let b = rid[i];
        if !((65 <= b && b <= 90) || (48 <= b && b <= 57)) {
            assert forall|n: Seq<u8>, rid2: Seq<u8>| n.len() > 0 && is_rid(rid2) implies name@
                != #[trigger] hidden_name(n, seq![DOT] + rid2 + tail@) by {
                if name@ == hidden_name(n, seq![DOT] + rid2 + tail@) {
                    lemma_rid_shape(name@, n, rid2, tail@);
                    assert(rid2[i as int] == rid@[i as int]);
                }
            }
            return None;
        }
        i += 1;
    }
    let n = copy_range(name, 1, rid_start - 1);
    assert(name@ =~= hidden_name(n@, seq![DOT] + rid@ + tail@));
    Some((n, rid))
}

/// Whether the kind's name carries a random identifier.
pub open spec fn has_rid(k: SidecarKind) -> bool {
    k == SidecarKind::DirBacking || k == SidecarKind::Backup
}

/// `k`, `n` and `rid` describe a helper entry: `n` is a name, and `rid` an
/// identifier where the kind has one.
pub open spec fn valid_sidecar(k: SidecarKind, n: Seq<u8>, rid: Seq<u8>) -> bool {
    n.len() > 0 && (has_rid(k) ==> is_rid(rid))
}

/// `s` is the name of some helper entry.
pub open spec fn is_sidecar_name(s: Seq<u8>) -> bool {
    exists|k: SidecarKind, n: Seq<u8>, rid: Seq<u8>|
        valid_sidecar(k, n, rid) && s == #[trigger] sidecar_name(k, n, rid)
}

/// The two bytes before the final `.sbdb` of a name: they tell the kinds apart.
pub open spec fn kind_mark(s: Seq<u8>) -> (u8, u8) {
    (s[s.len() - 6], s[s.len() - 7])
}

/// The mark of each kind.
pub open spec fn mark_of(k: SidecarKind) -> (u8, u8) {
    match k {
        SidecarKind::Lock => (107u8, 99u8),
        SidecarKind::Queue => (101u8, 117u8),
        SidecarKind::Staging => (112u8, 109u8),
        SidecarKind::LinkStage => (107u8, 110u8),
        SidecarKind::DirBacking => (114u8, 105u8),
        SidecarKind::Backup => (107u8, 97u8),
    }
}

proof fn lemma_mark_of_name(k: SidecarKind, n: Seq<u8>, rid: Seq<u8>)
    ensures
        sidecar_name(k, n, rid).len() >= 7,
        kind_mark(sidecar_name(k, n, rid)) == mark_of(k),
        !has_rid(k) ==> sidecar_name(k, n, rid).len() == n.len() + 1 + fixed_ext(k).len(),
        !has_rid(k) ==> sidecar_name(k, n, rid) == hidden_name(n, fixed_ext(k)),
        has_rid(k) ==> sidecar_name(k, n, rid) == hidden_name(n, seq![DOT] + rid + fixed_ext(k)),
{
    reveal_strlit(".lock.sbdb");
    reveal_strlit(".queue.sbdb");
    reveal_strlit(".tmp.sbdb");
    reveal_strlit(".tmplnk.sbdb");
    reveal_strlit(".dir.sbdb");
    reveal_strlit(".bak.sbdb");
    let s = sidecar_name(k, n, rid);
    let e = fixed_ext(k);
    assert(s.subrange(s.len() - e.len(), s.len() as int) =~= e);
    assert(s[s.len() - 6] == e[e.len() - 6]);
    assert(s[s.len() - 7] == e[e.len() - 7]);
}

/// The suffix of kind `k`, or what follows the identifier where it has one.
pub open spec fn fixed_ext(k: SidecarKind) -> Seq<u8> {
    match k {
        SidecarKind::Lock => lock_ext(),
        SidecarKind::Queue => queue_ext(),
        SidecarKind::Staging => tmp_ext(),
        SidecarKind::LinkStage => tmplnk_ext(),
        SidecarKind::DirBacking => dir_tail(),
        SidecarKind::Backup => bak_tail(),
    }
}

/// A helper entry's name tells its kind, the entry it belongs to, and its
/// identifier where it has one.
pub proof fn lemma_sidecar_name_unique(
    k1: SidecarKind,
    n1: Seq<u8>,
    rid1: Seq<u8>,
    k2: SidecarKind,
    n2: Seq<u8>,
    rid2: Seq<u8>,
)
    requires
        valid_sidecar(k1, n1, rid1),
        valid_sidecar(k2, n2, rid2),
        sidecar_name(k1, n1, rid1) == sidecar_name(k2, n2, rid2),
    ensures
        k1 == k2,
        n1 == n2,
        has_rid(k1) ==> rid1 == rid2,
{
    lemma_mark_of_name(k1, n1, rid1);
    lemma_mark_of_name(k2, n2, rid2);
    let s = sidecar_name(k1, n1, rid1);
    let e = fixed_ext(k1);
    if has_rid(k1) {
        lemma_rid_shape(s, n1, rid1, e);
        lemma_rid_shape(s, n2, rid2, e);
    } else {
        assert(s.subrange(1, s.len() - e.len()) =~= n1);
        assert(s.subrange(1, s.len() - e.len()) =~= n2);
    }
}

/// Reads a directory entry's name as the name of a helper entry, where it has
/// the shape of one.
pub fn classify_sidecar(name: &[u8]) -> (r: Option<Sidecar>)
    ensures
        r is Some ==> {
            let s = r->Some_0;
            &&& s.target@.len() > 0
            &&& name@ == sidecar_name(s.kind, s.target@, s.rid@)
            &&& valid_sidecar(s.kind, s.target@, s.rid@)
            &&& !has_rid(s.kind) ==> s.rid@.len() == 0
        },
        r is None ==> !is_sidecar_name(name@),
{
    let ext = lock_ext_bytes();
    if let Some(n) = strip_fixed(name, &ext) {
        return Some(Sidecar { kind: SidecarKind::Lock, target: n, rid: Vec::new() });
    }
    let ext = queue_ext_bytes();
    if let Some(n) = strip_fixed(name, &ext) {
        return Some(Sidecar { kind: SidecarKind::Queue, target: n, rid: Vec::new() });
    }
    let ext = tmp_ext_bytes();
    if let Some(n) = strip_fixed(name, &ext) {
        return Some(Sidecar { kind: SidecarKind::Staging, target: n, rid: Vec::new() });
    }
    let ext = tmplnk_ext_bytes();
    if let Some(n) = strip_fixed(name, &ext) {
        return Some(Sidecar { kind: SidecarKind::LinkStage, target: n, rid: Vec::new() });
    }
    let tail = dir_tail_bytes();
    if let Some((n, rid)) = strip_with_rid(name, &tail) {
        return Some(Sidecar { kind: SidecarKind::DirBacking, target: n, rid });
    }
    let tail = bak_tail_bytes();
    if let Some((n, rid)) = strip_with_rid(name, &tail) {
        return Some(Sidecar { kind: SidecarKind::Backup, target: n, rid });
    }
    proof {
        if is_sidecar_name(name@) {
            let (k, n, rid) = choose|k: SidecarKind, n: Seq<u8>, rid: Seq<u8>|
                valid_sidecar(k, n, rid) && name@ == #[trigger] sidecar_name(k, n, rid);
            lemma_mark_of_name(k, n, rid);
        }
    }
    None
}

} // verus!
