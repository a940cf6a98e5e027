//! Byte-string paths compared by their `/`-separated components.
//!
//! A path is the raw bytes of a Unix path. Its components are the pieces between
//! separators, leaving out empty pieces and `.` pieces (as `Path::components`
//! does after the root); two paths are the same when both are absolute or both
//! relative and their components agree, and paths order by their components.

use vstd::prelude::*;

use crate::bytes::{copy_range, eq_bytes, split_bytes, split_on, views};

verus! {

pub open spec fn dot() -> Seq<u8> {
    seq![46u8]
}

pub open spec fn dot_dot() -> Seq<u8> {
    seq![46u8, 46u8]
}

/// Pieces kept as components: nonempty and not `.`.
pub open spec fn keep_segments(parts: Seq<Seq<u8>>) -> Seq<Seq<u8>>
    decreases parts.len(),
{
    if parts.len() == 0 {
        Seq::empty()
    } else {
        let prev = keep_segments(parts.drop_last());
        let last = parts.last();
        if last.len() == 0 || last == dot() {
            prev
        } else {
            prev.push(last)
        }
    }
}

/// The components of a path.
pub open spec fn segments(p: Seq<u8>) -> Seq<Seq<u8>> {
    keep_segments(split_bytes(p, 47u8))
}

pub open spec fn is_absolute(p: Seq<u8>) -> bool {
    p.len() > 0 && p[0] == 47u8
}

/// Absolute, with no `..` component.
pub open spec fn is_canonical_absolute(p: Seq<u8>) -> bool {
    is_absolute(p) && forall|i: int| 0 <= i < segments(p).len() ==> #[trigger] segments(p)[i] != dot_dot()
}

/// Same path: same kind and same components.
pub open spec fn path_same(a: Seq<u8>, b: Seq<u8>) -> bool {
    is_absolute(a) == is_absolute(b) && segments(a) == segments(b)
}

/// `root`'s components begin `p`'s (`Path::starts_with`, which includes equality).
pub open spec fn path_within(p: Seq<u8>, root: Seq<u8>) -> bool {
    is_absolute(p) == is_absolute(root) && segments(root).len() <= segments(p).len()
        && segments(p).take(segments(root).len() as int) == segments(root)
}

/// Lexicographic order of byte strings.
pub open spec fn bytes_lt(a: Seq<u8>, b: Seq<u8>) -> bool
    decreases a.len(),
{
    if a.len() == 0 {
        b.len() > 0
    } else if b.len() == 0 {
        false
    } else if a[0] != b[0] {
        a[0] < b[0]
    } else {
        bytes_lt(a.drop_first(), b.drop_first())
    }
}

/// Lexicographic order of component sequences.
pub open spec fn segs_lt(a: Seq<Seq<u8>>, b: Seq<Seq<u8>>) -> bool
    decreases a.len(),
{
    if a.len() == 0 {
        b.len() > 0
    } else if b.len() == 0 {
        false
    } else if a[0] != b[0] {
        bytes_lt(a[0], b[0])
    } else {
        segs_lt(a.drop_first(), b.drop_first())
    }
}

/// Order of absolute paths by components.
pub open spec fn path_lt(a: Seq<u8>, b: Seq<u8>) -> bool {
    segs_lt(segments(a), segments(b))
}

pub proof fn lemma_bytes_lt_irreflexive(a: Seq<u8>)
    ensures
        !bytes_lt(a, a),
    decreases a.len(),
{
    if a.len() > 0 {
        lemma_bytes_lt_irreflexive(a.drop_first());
    }
}

proof fn lemma_seq_eq_from_tail<A>(a: Seq<A>, b: Seq<A>)
    requires
        a.len() > 0,
        b.len() > 0,
        a[0] == b[0],
        a.drop_first() == b.drop_first(),
    ensures
        a == b,
{
    assert(a.len() == a.drop_first().len() + 1);
    assert(b.len() == b.drop_first().len() + 1);
    assert forall|i: int| 0 <= i < a.len() implies a[i] == b[i] by {
        if i > 0 {
            assert(a[i] == a.drop_first()[i - 1]);
            assert(b[i] == b.drop_first()[i - 1]);
        }
    }
    assert(a =~= b);
}

pub proof fn lemma_bytes_lt_total(a: Seq<u8>, b: Seq<u8>)
    ensures
        a == b || bytes_lt(a, b) || bytes_lt(b, a),
        !(bytes_lt(a, b) && bytes_lt(b, a)),
    decreases a.len(),
{
    if a.len() == 0 || b.len() == 0 {
        if a.len() == 0 && b.len() == 0 {
            assert(a =~= b);
        }
    } else if a[0] != b[0] {
    } else {
        lemma_bytes_lt_total(a.drop_first(), b.drop_first());
        if a.drop_first() == b.drop_first() {
            lemma_seq_eq_from_tail(a, b);
        }
    }
}

pub proof fn lemma_bytes_lt_transitive(a: Seq<u8>, b: Seq<u8>, c: Seq<u8>)
    requires
        bytes_lt(a, b),
        bytes_lt(b, c),
    ensures
        bytes_lt(a, c),
    decreases a.len(),
{
    if a.len() > 0 && b.len() > 0 && c.len() > 0 && a[0] == b[0] && b[0] == c[0] {
        lemma_bytes_lt_transitive(a.drop_first(), b.drop_first(), c.drop_first());
    }
}

pub proof fn lemma_segs_lt_irreflexive(a: Seq<Seq<u8>>)
    ensures
        !segs_lt(a, a),
    decreases a.len(),
{
    if a.len() > 0 {
        lemma_segs_lt_irreflexive(a.drop_first());
    }
}

pub proof fn lemma_segs_lt_total(a: Seq<Seq<u8>>, b: Seq<Seq<u8>>)
    ensures
        a == b || segs_lt(a, b) || segs_lt(b, a),
        !(segs_lt(a, b) && segs_lt(b, a)),
    decreases a.len(),
{
    if a.len() > 0 && b.len() > 0 {
        if a[0] == b[0] {
            lemma_segs_lt_total(a.drop_first(), b.drop_first());
            if a.drop_first() == b.drop_first() {
                lemma_seq_eq_from_tail(a, b);
            }
        } else {
            lemma_bytes_lt_total(a[0], b[0]);
        }
    } else if a.len() == 0 && b.len() == 0 {
        assert(a =~= b);
    }
}

pub proof fn lemma_segs_lt_transitive(a: Seq<Seq<u8>>, b: Seq<Seq<u8>>, c: Seq<Seq<u8>>)
    requires
        segs_lt(a, b),
        segs_lt(b, c),
    ensures
        segs_lt(a, c),
    decreases a.len(),
{
    if a.len() > 0 && b.len() > 0 && c.len() > 0 {
        if a[0] == b[0] && b[0] == c[0] {
            lemma_segs_lt_transitive(a.drop_first(), b.drop_first(), c.drop_first());
        } else if a[0] == b[0] {
        } else if b[0] == c[0] {
        } else {
            lemma_bytes_lt_transitive(a[0], b[0], c[0]);
            if a[0] == c[0] {
                lemma_bytes_lt_total(a[0], b[0]);
            }
        }
    }
}

/// Byte-string order.
pub fn bytes_less(a: &[u8], b: &[u8]) -> (r: bool)
    ensures
        r == bytes_lt(a@, b@),
{
    let mut i: usize = 0;
    assert(a@.skip(0) =~= a@);
    assert(b@.skip(0) =~= b@);
    while i < a.len() && i < b.len()
        invariant
            i <= a.len(),
            i <= b.len(),
            bytes_lt(a@, b@) == bytes_lt(a@.skip(i as int), b@.skip(i as int)),
        decreases a.len() - i,
    {
        let ghost sa = a@.skip(i as int);
        let ghost sb = b@.skip(i as int);
        assert(sa[0] == a@[i as int]);
        assert(sb[0] == b@[i as int]);
        if a[i] != b[i] {
            return a[i] < b[i];
        }
        assert(sa.drop_first() =~= a@.skip(i + 1));
        assert(sb.drop_first() =~= b@.skip(i + 1));
        i += 1;
    }
    i < b.len()
}

/// Component-sequence order.
pub fn segs_less(a: &Vec<Vec<u8>>, b: &Vec<Vec<u8>>) -> (r: bool)
    ensures
        r == segs_lt(views(a@), views(b@)),
{
    let mut i: usize = 0;
    assert(views(a@).skip(0) =~= views(a@));
    assert(views(b@).skip(0) =~= views(b@));
    while i < a.len() && i < b.len()
        invariant
            i <= a.len(),
            i <= b.len(),
            segs_lt(views(a@), views(b@)) == segs_lt(views(a@).skip(i as int), views(b@).skip(i as int)),
        decreases a.len() - i,
    {
        let ghost sa = views(a@).skip(i as int);
        let ghost sb = views(b@).skip(i as int);
        assert(sa[0] == a@[i as int]@);
        assert(sb[0] == b@[i as int]@);
        if !eq_bytes(a[i].as_slice(), b[i].as_slice()) {
            return bytes_less(a[i].as_slice(), b[i].as_slice());
        }
        assert(sa.drop_first() =~= views(a@).skip(i + 1));
        assert(sb.drop_first() =~= views(b@).skip(i + 1));
        i += 1;
    }
    i < b.len()
}

/// Component-sequence equality.
pub fn segs_equal(a: &Vec<Vec<u8>>, b: &Vec<Vec<u8>>) -> (r: bool)
    ensures
        r == (views(a@) == views(b@)),
{
    if a.len() != b.len() {
        assert(views(a@).len() != views(b@).len());
        return false;
    }
    let mut i: usize = 0;
    while i < a.len()
        invariant
            i <= a.len(),
            a.len() == b.len(),
            forall|j: int| 0 <= j < i ==> a@[j]@ == b@[j]@,
        decreases a.len() - i,
    {
        if !eq_bytes(a[i].as_slice(), b[i].as_slice()) {
            assert(views(a@)[i as int] != views(b@)[i as int]);
            return false;
        }
        i += 1;
    }
    assert(views(a@) =~= views(b@));
    true
}

/// `prefix` begins `full`.
pub fn segs_prefix(prefix: &Vec<Vec<u8>>, full: &Vec<Vec<u8>>) -> (r: bool)
    ensures
        r == (views(prefix@).len() <= views(full@).len() && views(full@).take(views(prefix@).len() as int) == views(prefix@)),
{
    if prefix.len() > full.len() {
        return false;
    }
    let mut i: usize = 0;
    while i < prefix.len()
        invariant
            i <= prefix.len(),
            prefix.len() <= full.len(),
            forall|j: int| 0 <= j < i ==> prefix@[j]@ == full@[j]@,
        decreases prefix.len() - i,
    {
        if !eq_bytes(prefix[i].as_slice(), full[i].as_slice()) {
            assert(views(full@).take(prefix.len() as int)[i as int] != views(prefix@)[i as int]);
            return false;
        }
        i += 1;
    }
    assert(views(full@).take(prefix.len() as int) =~= views(prefix@));
    true
}

/// The components of a path.
pub fn path_segments(p: &[u8]) -> (r: Vec<Vec<u8>>)
    ensures
        views(r@) == segments(p@),
{
    let parts = split_on(p, 47u8);
    let ghost ps = split_bytes(p@, 47u8);
    let mut out: Vec<Vec<u8>> = Vec::new();
    let mut i: usize = 0;
    let dot_a: [u8; 1] = [46u8];
    assert(dot_a@ == dot());
    proof {
        assert(ps.take(0) =~= Seq::<Seq<u8>>::empty());
        assert(views(out@) =~= keep_segments(ps.take(0)));
    }
    while i < parts.len()
        invariant
            views(parts@) == ps,
            dot_a@ == dot(),
            i <= parts.len(),
            views(out@) == keep_segments(ps.take(i as int)),
        decreases parts.len() - i,
    {
        let ghost next = ps.take(i + 1);
        assert(next.drop_last() =~= ps.take(i as int));
        assert(next.last() == parts@[i as int]@);
        let piece: &Vec<u8> = &parts[i];
        if piece.len() != 0 && !eq_bytes(piece.as_slice(), &dot_a) {
            let ghost before = views(out@);
            out.push(copy_range(piece.as_slice(), 0, piece.len()));
            assert(piece@.subrange(0, piece@.len() as int) =~= piece@);
            assert(views(out@) =~= before.push(piece@));
        }
        i += 1;
    }
    assert(ps.take(parts.len() as int) =~= ps);
    out
}

pub fn absolute(p: &[u8]) -> (r: bool)
    ensures
        r == is_absolute(p@),
{
    p.len() > 0 && p[0] == 47u8
}

/// Absolute, with no `..` component.
pub fn canonical_absolute(p: &[u8]) -> (r: bool)
    ensures
        r == is_canonical_absolute(p@),
{
    if !absolute(p) {
        return false;
    }
    let segs = path_segments(p);
    let dd: [u8; 2] = [46u8, 46u8];
    assert(dd@ == dot_dot());
    let mut i: usize = 0;
    while i < segs.len()
        invariant
            i <= segs.len(),
            views(segs@) == segments(p@),
            dd@ == dot_dot(),
            forall|j: int| 0 <= j < i ==> #[trigger] segments(p@)[j] != dot_dot(),
        decreases segs.len() - i,
    {
        assert(segs@[i as int]@ == segments(p@)[i as int]);
        if eq_bytes(segs[i].as_slice(), &dd) {
            return false;
        }
        i += 1;
    }
    true
}

/// `base` joined with a relative component name: one `/` between them.
pub open spec fn join_name(base: Seq<u8>, name: Seq<u8>) -> Seq<u8> {
    if base.len() > 0 && base.last() == 47u8 {
        base + name
    } else {
        base.push(47u8) + name
    }
}

/// `base.join(name)` for a relative single-component `name`.
pub fn join_component(base: &[u8], name: &[u8]) -> (r: Vec<u8>)
    ensures
        r@ == join_name(base@, name@),
{
    let mut out = copy_range(base, 0, base.len());
    assert(base@.subrange(0, base@.len() as int) =~= base@);
    if !(base.len() > 0 && base[base.len() - 1] == 47u8) {
        out.push(47u8);
    }
    let mut i: usize = 0;
    let ghost start = out@;
    while i < name.len()
        invariant
            i <= name.len(),
            out@ == start + name@.take(i as int),
        decreases name.len() - i,
    {
        out.push(name[i]);
        i += 1;
        assert(out@ =~= start + name@.take(i as int));
    }
    assert(name@.take(name.len() as int) =~= name@);
    out
}

} // verus!
