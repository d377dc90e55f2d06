use vstd::prelude::*;
use vstd::utf8::*;

verus! {

/// The byte `/`, which separates the components of a path.
pub const SLASH: u8 = 47;

/// The byte `.`.
pub const DOT: u8 = 46;

/// The bytes of an ASCII text.
pub open spec fn ascii(s: Seq<char>) -> Seq<u8> {
    s.map_values(|c: char| c as u8)
}

/// Copies the bytes of an ASCII text.
pub fn ascii_bytes(s: &str) -> (r: Vec<u8>)
    requires
        is_ascii_chars(s@),
    ensures
        r@ == ascii(s@),
{
    proof {
        is_ascii_chars_encode_utf8(s@);
    }
    let b = s.as_bytes();
    let mut r: Vec<u8> = Vec::new();
    let mut i: usize = 0;
    while i < b.len()
        invariant
            i <= b@.len(),
            b@ == encode_utf8(s@),
            b@.len() == s@.len(),
            forall|j: int| 0 <= j < s@.len() ==> #[trigger] b@[j] == s@[j] as u8,
            r@ =~= ascii(s@).subrange(0, i as int),
        decreases b@.len() - i,
    {
        r.push(b[i]);
        i += 1;
    }
    assert(r@ =~= ascii(s@));
    r
}

/// Appends the bytes of `s` to `r`.
pub fn push_all(r: &mut Vec<u8>, s: &[u8])
    ensures
        final(r)@ == old(r)@ + s@,
{
    let mut i: usize = 0;
    while i < s.len()
        invariant
            i <= s@.len(),
            r@ =~= old(r)@ + s@.subrange(0, i as int),
        decreases s@.len() - i,
    {
        r.push(s[i]);
        i += 1;
    }
    assert(r@ =~= old(r)@ + s@);
}

/// A copy of a byte string.
pub fn copy_bytes(s: &[u8]) -> (r: Vec<u8>)
    ensures
        r@ == s@,
{
    let mut r: Vec<u8> = Vec::new();
    push_all(&mut r, s);
    assert(r@ =~= s@);
    r
}

/// The pieces of `s` between separators, in order, empty ones included: a text
/// with `n` separators has `n + 1` of them.
pub open spec fn segments(s: Seq<u8>) -> Seq<Seq<u8>>
    decreases s.len(),
{
    if s.len() == 0 {
        seq![Seq::empty()]
    } else {
        let prev = segments(s.drop_last());
        if s.last() == SLASH {
            prev.push(Seq::empty())
        } else {
            prev.update(prev.len() - 1, prev.last().push(s.last()))
        }
    }
}

/// A segment that names something: neither empty nor `.`.
pub open spec fn is_component(c: Seq<u8>) -> bool {
    c.len() > 0 && c != seq![DOT]
}

/// The segments that name something, in order.
pub open spec fn keep_components(segs: Seq<Seq<u8>>) -> Seq<Seq<u8>>
    decreases segs.len(),
{
    if segs.len() == 0 {
        Seq::empty()
    } else {
        let rest = keep_components(segs.drop_last());
        if is_component(segs.last()) {
            rest.push(segs.last())
        } else {
            rest
        }
    }
}

/// The components of a path text: its segments without the empty ones (leading,
/// doubled or trailing separators) and without `.`.
pub open spec fn components(s: Seq<u8>) -> Seq<Seq<u8>> {
    keep_components(segments(s))
}

/// The views of a list of byte strings.
pub open spec fn views(v: Seq<Vec<u8>>) -> Seq<Seq<u8>> {
    Seq::new(v.len(), |i: int| v[i]@)
}

proof fn lemma_keep_push(segs: Seq<Seq<u8>>, c: Seq<u8>)
    ensures
        keep_components(segs.push(c)) == if is_component(c) {
            keep_components(segs).push(c)
        } else {
            keep_components(segs)
        },
{
    assert(segs.push(c).drop_last() =~= segs);
}

fn is_component_exec(c: &Vec<u8>) -> (r: bool)
    ensures
        r == is_component(c@),
{
    if c.len() == 0 {
        false
    } else if c.len() == 1 && c[0] == DOT {
        assert(c@ =~= seq![DOT]);
        false
    } else {
        true
    }
}

/// Splits a path text into its components.
pub fn parse_components(s: &[u8]) -> (r: Vec<Vec<u8>>)
    ensures
        views(r@) == components(s@),
{
    let mut out: Vec<Vec<u8>> = Vec::new();
    let mut cur: Vec<u8> = Vec::new();
    let ghost mut done: Seq<Seq<u8>> = Seq::empty();
    let mut i: usize = 0;
    assert(s@.subrange(0, 0) =~= Seq::<u8>::empty());
    assert(done.push(cur@) =~= seq![Seq::<u8>::empty()]);
    while i < s.len()
        invariant
            i <= s@.len(),
            segments(s@.subrange(0, i as int)) == done.push(cur@),
            views(out@) == keep_components(done),
        decreases s@.len() - i,
    {
        let ghost pre = s@.subrange(0, i as int);
        assert(s@.subrange(0, i + 1).drop_last() =~= pre);
        if s[i] == SLASH {
            proof {
                lemma_keep_push(done, cur@);
                done = done.push(cur@);
            }
            if is_component_exec(&cur) {
                let ghost before = out@;
                out.push(cur);
                assert(views(out@) =~= views(before).push(done.last()));
            }
            cur = Vec::new();
            assert(segments(s@.subrange(0, i + 1)) =~= done.push(cur@));
        } else {
            let ghost old_cur = cur@;
            cur.push(s[i]);
            assert(segments(s@.subrange(0, i + 1)) =~= done.push(old_cur).update(
                done.len() as int,
                old_cur.push(s@[i as int]),
            ));
            assert(segments(s@.subrange(0, i + 1)) =~= done.push(cur@));
        }
        i += 1;
    }
    assert(s@.subrange(0, s@.len() as int) =~= s@);
    proof {
        lemma_keep_push(done, cur@);
    }
    if is_component_exec(&cur) {
        let ghost before = out@;
        out.push(cur);
        assert(views(out@) =~= views(before).push(out@.last()@));
    }
    out
}

/// The components joined by separators.
pub open spec fn joined(parts: Seq<Seq<u8>>) -> Seq<u8>
    decreases parts.len(),
{
    if parts.len() == 0 {
        Seq::empty()
    } else if parts.len() == 1 {
        parts[0]
    } else {
        joined(parts.drop_last()) + seq![SLASH] + parts.last()
    }
}

/// The text of a path: a leading separator where it is absolute, then its
/// components joined by separators.
pub open spec fn rendered(absolute: bool, parts: Seq<Seq<u8>>) -> Seq<u8> {
    if absolute {
        seq![SLASH] + joined(parts)
    } else {
        joined(parts)
    }
}

/// Joins components by separators, after a leading separator where `absolute`.
pub fn render(absolute: bool, parts: &Vec<Vec<u8>>) -> (r: Vec<u8>)
    ensures
        r@ == rendered(absolute, views(parts@)),
{
    let mut r: Vec<u8> = Vec::new();
    if absolute {
        r.push(SLASH);
    }
    let ghost start = r@;
    let mut i: usize = 0;
    while i < parts.len()
        invariant
            i <= parts@.len(),
            start == if absolute { seq![SLASH] } else { Seq::<u8>::empty() },
            r@ == start + joined(views(parts@).subrange(0, i as int)),
        decreases parts@.len() - i,
    {
        let ghost sub = views(parts@).subrange(0, i + 1);
        assert(sub.drop_last() =~= views(parts@).subrange(0, i as int));
        if i > 0 {
            r.push(SLASH);
        }
        push_all(&mut r, parts[i].as_slice());
        assert(r@ =~= start + joined(sub));
        i += 1;
    }
    assert(views(parts@).subrange(0, parts@.len() as int) =~= views(parts@));
    assert(r@ =~= rendered(absolute, views(parts@)));
    r
}

/// A copy of a list of components.
pub fn copy_parts(parts: &Vec<Vec<u8>>) -> (r: Vec<Vec<u8>>)
    ensures
        views(r@) == views(parts@),
{
    let mut r: Vec<Vec<u8>> = Vec::new();
    let mut i: usize = 0;
    while i < parts.len()
        invariant
            i <= parts@.len(),
            views(r@) =~= views(parts@).subrange(0, i as int),
        decreases parts@.len() - i,
    {
        let c = copy_bytes(parts[i].as_slice());
        let ghost before = r@;
        r.push(c);
        assert(views(r@) =~= views(before).push(parts@[i as int]@));
        i += 1;
    }
    assert(views(r@) =~= views(parts@));
    r
}

/// Why a path cannot be used where a named entry is needed.
#[derive(PartialEq, Eq, Structural, Debug, Clone, Copy)]
pub enum PathError {
    /// The path has no parent directory: it is empty or the file system root.
    MissingParent,
    /// The path's last component is `..`, which names no entry of its parent.
    MissingFileName,
}

/// A component that an entry can be named by: `..` names none.
pub open spec fn names_entry(c: Seq<u8>) -> bool {
    c != seq![DOT, DOT]
}

/// A path in normal form: whether it starts at the file system root, and its
/// components, none of them empty or `.`.
#[derive(Debug, Clone, PartialEq, Eq)]
pub struct FsPath {
    pub absolute: bool,
    pub comps: Vec<Vec<u8>>,
}

impl FsPath {
    pub open spec fn parts(&self) -> Seq<Seq<u8>> {
        views(self.comps@)
    }

    /// Every component names something: the form that parsing gives.
    pub open spec fn wf(&self) -> bool {
        forall|i: int| 0 <= i < self.parts().len() ==> is_component(#[trigger] self.parts()[i])
    }

    /// The path's text.
    pub fn to_bytes(&self) -> (r: Vec<u8>)
        ensures
            r@ == rendered(self.absolute, self.parts()),
    {
        render(self.absolute, &self.comps)
    }

    /// A copy of this path.
    pub fn copy(&self) -> (r: FsPath)
        ensures
            r.absolute == self.absolute,
            r.parts() == self.parts(),
    {
        FsPath { absolute: self.absolute, comps: copy_parts(&self.comps) }
    }

    /// This path followed by the relative components `rel`.
    pub fn join(&self, rel: &Vec<Vec<u8>>) -> (r: FsPath)
        ensures
            r.absolute == self.absolute,
            r.parts() == self.parts() + views(rel@),
    {
        let mut comps = copy_parts(&self.comps);
        let ghost start = views(comps@);
        let mut i: usize = 0;
        while i < rel.len()
            invariant
                i <= rel@.len(),
                start == self.parts(),
                views(comps@) =~= start + views(rel@).subrange(0, i as int),
            decreases rel@.len() - i,
        {
            let ghost before = comps@;
            comps.push(copy_bytes(rel[i].as_slice()));
            assert(views(comps@) =~= views(before).push(rel@[i as int]@));
            i += 1;
        }
        assert(views(comps@) =~= self.parts() + views(rel@));
        FsPath { absolute: self.absolute, comps }
    }

    /// The sibling entry named by a dot, this path's last component, and `ext`:
    /// `dir/name` becomes `dir/.name<ext>`.
    pub fn hidden_with_extension(&self, ext: &[u8]) -> (r: Result<FsPath, PathError>)
        ensures
            !usable(self.parts()) ==> r == Err::<FsPath, PathError>(path_error(self.parts())),
            usable(self.parts()) ==> r is Ok && r->Ok_0.absolute == self.absolute
                && r->Ok_0.parts() == sidecar_of(self.parts(), ext@),
    {
        let n = self.comps.len();
        if n == 0 {
            return Err(PathError::MissingParent);
        }
        let last = &self.comps[n - 1];
        if last.len() == 2 && last[0] == DOT && last[1] == DOT {
            assert(last@ =~= seq![DOT, DOT]);
            return Err(PathError::MissingFileName);
        }
        let mut name: Vec<u8> = Vec::new();
        name.push(DOT);
        push_all(&mut name, last.as_slice());
        push_all(&mut name, ext);
        let mut comps = copy_parts(&self.comps);
        comps.pop();
        let ghost before = comps@;
        comps.push(name);
        proof {
            assert(views(before) =~= self.parts().drop_last());
            assert(name@ =~= hidden_name(self.parts().last(), ext@));
            assert(views(comps@) =~= views(before).push(name@));
        }
        Ok(FsPath { absolute: self.absolute, comps })
    }
}

/// Both paths are the same text.
pub open spec fn same_path(p: FsPath, q: FsPath) -> bool {
    p.absolute == q.absolute && p.parts() == q.parts()
}

/// A path that names an entry of a directory: it has a last component, and
/// that component is not `..`.
pub open spec fn usable(parts: Seq<Seq<u8>>) -> bool {
    parts.len() > 0 && names_entry(parts.last())
}

/// Why `parts` names no entry.
pub open spec fn path_error(parts: Seq<Seq<u8>>) -> PathError {
    if parts.len() == 0 {
        PathError::MissingParent
    } else {
        PathError::MissingFileName
    }
}

/// The sibling of `parts` named by a dot, its last component and `ext`.
pub open spec fn sidecar_of(parts: Seq<Seq<u8>>, ext: Seq<u8>) -> Seq<Seq<u8>> {
    parts.drop_last().push(hidden_name(parts.last(), ext))
}

/// A sidecar is never the entry it belongs to: its name is longer.
pub proof fn lemma_sidecar_differs(parts: Seq<Seq<u8>>, ext: Seq<u8>)
    requires
        usable(parts),
    ensures
        sidecar_of(parts, ext) != parts,
        sidecar_of(parts, ext).len() == parts.len(),
        sidecar_of(parts, ext).drop_last() == parts.drop_last(),
{
    let s = sidecar_of(parts, ext);
    assert(s[s.len() - 1].len() == parts.last().len() + ext.len() + 1);
    assert(s.drop_last() =~= parts.drop_last());
}

/// The name of a sidecar entry: a dot, the entry's own name, then `ext`.
pub open spec fn hidden_name(name: Seq<u8>, ext: Seq<u8>) -> Seq<u8> {
    seq![DOT] + name + ext
}

/// Reads a path text into normal form: separators at its end, doubled
/// separators and `.` segments leave no trace.
pub fn strip_trailing_slash(path: &str) -> (r: FsPath)
    ensures
        r.absolute == (encode_utf8(path@).len() > 0 && encode_utf8(path@)[0] == SLASH),
        r.parts() == components(encode_utf8(path@)),
        r.wf(),
{
    let b = path.as_bytes();
    let comps = parse_components(b);
    proof {
        lemma_components_wf(b@);
    }
    FsPath { absolute: b.len() > 0 && b[0] == SLASH, comps }
}

proof fn lemma_keep_wf(segs: Seq<Seq<u8>>)
    ensures
        forall|i: int|
            0 <= i < keep_components(segs).len() ==> is_component(
                #[trigger] keep_components(segs)[i],
            ),
    decreases segs.len(),
{
    if segs.len() > 0 {
        lemma_keep_wf(segs.drop_last());
        let rest = keep_components(segs.drop_last());
        assert forall|i: int|
            0 <= i < keep_components(segs).len() implies is_component(
                #[trigger] keep_components(segs)[i],
            ) by {
            if i < rest.len() {
                assert(keep_components(segs)[i] == rest[i]);
            }
        }
    }
}

/// Parsing leaves no empty or `.` component.
pub proof fn lemma_components_wf(s: Seq<u8>)
    ensures
        forall|i: int|
            0 <= i < components(s).len() ==> is_component(#[trigger] components(s)[i]),
{
    lemma_keep_wf(segments(s));
}

} // verus!
