//! Small vocabulary on sequences and slices that the models share.

use vstd::prelude::*;
use vstd::slice::slice_subrange;

verus! {

/// The contents of a list of byte slices.
pub open spec fn slices(v: Seq<&[u8]>) -> Seq<Seq<u8>> {
    Seq::new(v.len(), |i: int| v[i]@)
}

/// The contents of a list of byte vectors.
pub open spec fn vecs(v: Seq<Vec<u8>>) -> Seq<Seq<u8>> {
    Seq::new(v.len(), |i: int| v[i]@)
}

/// The contents of a list of strings.
pub open spec fn texts(v: Seq<String>) -> Seq<Seq<char>> {
    Seq::new(v.len(), |i: int| v[i]@)
}

/// The bytes of an optional slice.
pub open spec fn opt_slice(o: Option<&[u8]>) -> Option<Seq<u8>> {
    match o {
        Some(b) => Some(b@),
        None => None,
    }
}

/// The bytes of an optional vector.
pub open spec fn opt_vec(o: Option<Vec<u8>>) -> Option<Seq<u8>> {
    match o {
        Some(b) => Some(b@),
        None => None,
    }
}

/// The smaller of two integers.
pub open spec fn min_int(a: int, b: int) -> int {
    if a <= b {
        a
    } else {
        b
    }
}

/// The bytes of `s` from `i` on.
pub fn tail(s: &[u8], i: usize) -> (r: &[u8])
    requires
        i <= s@.len(),
    ensures
        r@ == s@.skip(i as int),
{
    let r = slice_subrange(s, i, s.len());
    proof {
        assert(r@ =~= s@.skip(i as int));
    }
    r
}

/// The first `i` bytes of `s`.
pub fn head(s: &[u8], i: usize) -> (r: &[u8])
    requires
        i <= s@.len(),
    ensures
        r@ == s@.take(i as int),
{
    let r = slice_subrange(s, 0, i);
    proof {
        assert(r@ =~= s@.take(i as int));
    }
    r
}

/// Whether two byte slices hold the same bytes.
pub fn same_bytes(a: &[u8], b: &[u8]) -> (r: bool)
    ensures
        r == (a@ == b@),
{
    if a.len() != b.len() {
        return false;
    }
    let mut i: usize = 0;
    while i < a.len()
        invariant
            i <= a@.len(),
            a@.len() == b@.len(),
            forall|j: int| 0 <= j < i ==> a@[j] == b@[j],
        decreases a@.len() - i,
    {
        if a[i] != b[i] {
            return false;
        }
        i = i + 1;
    }
    proof {
        assert(a@ =~= b@);
    }
    true
}

/// Appends `s` to `out`.
pub fn push_all(out: &mut Vec<u8>, s: &[u8])
    ensures
        final(out)@ == old(out)@ + s@,
{
    let mut i: usize = 0;
    while i < s.len()
        invariant
            i <= s@.len(),
            out@ == old(out)@ + s@.take(i as int),
        decreases s@.len() - i,
    {
        out.push(s[i]);
        i = i + 1;
        proof {
            assert(s@.take(i as int) =~= s@.take(i - 1).push(s@[i - 1]));
            assert(out@ =~= old(out)@ + s@.take(i as int));
        }
    }
    proof {
        assert(s@.take(i as int) =~= s@);
    }
}

/// An owned copy of `s`.
pub fn copy_bytes(s: &[u8]) -> (r: Vec<u8>)
    ensures
        r@ == s@,
{
    let mut r: Vec<u8> = Vec::new();
    push_all(&mut r, s);
    proof {
        assert(r@ =~= s@);
    }
    r
}

/// The position of the first `b` in `s` at or after `from`, or the length.
pub open spec fn first_at(s: Seq<u8>, b: u8, from: int) -> int
    decreases s.len() - from,
{
    if from >= s.len() || s[from] == b {
        from
    } else {
        first_at(s, b, from + 1)
    }
}

/// Where `first_at` stops.
pub proof fn lemma_first_at(s: Seq<u8>, b: u8, from: int, end: int)
    requires
        0 <= from <= end <= s.len(),
        forall|j: int| from <= j < end ==> s[j] != b,
        end == s.len() || s[end] == b,
    ensures
        first_at(s, b, from) == end,
    decreases end - from,
{
    if from < end {
        lemma_first_at(s, b, from + 1, end);
    }
}

/// What `first_at` finds.
pub proof fn lemma_first_at_range(s: Seq<u8>, b: u8, from: int)
    requires
        0 <= from <= s.len(),
    ensures
        from <= first_at(s, b, from) <= s.len(),
        forall|j: int| from <= j < first_at(s, b, from) ==> s[j] != b,
        first_at(s, b, from) < s.len() ==> s[first_at(s, b, from)] == b,
    decreases s.len() - from,
{
    if from < s.len() && s[from] != b {
        lemma_first_at_range(s, b, from + 1);
    }
}

/// The position of the first `b` in `s`, or the length.
pub fn find_byte(s: &[u8], b: u8) -> (r: usize)
    ensures
        r == first_at(s@, b, 0),
        r <= s@.len(),
        forall|j: int| 0 <= j < r ==> s@[j] != b,
        r < s@.len() ==> s@[r as int] == b,
{
    let mut i: usize = 0;
    while i < s.len() && s[i] != b
        invariant
            i <= s@.len(),
            forall|j: int| 0 <= j < i ==> s@[j] != b,
        decreases s@.len() - i,
    {
        i = i + 1;
    }
    proof {
        lemma_first_at(s@, b, 0, i as int);
    }
    i
}

/// Whether `s` starts with `prefix`.
pub fn starts_with(s: &[u8], prefix: &[u8]) -> (r: bool)
    ensures
        r == prefix@.is_prefix_of(s@),
{
    if s.len() < prefix.len() {
        return false;
    }
    let h = slice_subrange(s, 0, prefix.len());
    let r = same_bytes(h, prefix);
    proof {
        if r {
            assert(prefix@ =~= s@.subrange(0, prefix@.len() as int));
        } else if prefix@.is_prefix_of(s@) {
            assert(h@ =~= prefix@);
        }
    }
    r
}

/// The contents of a list of lists of byte vectors.
pub open spec fn nested(v: Seq<Vec<Vec<u8>>>) -> Seq<Seq<Seq<u8>>> {
    Seq::new(v.len(), |i: int| vecs(v[i]@))
}

/// An owned copy of a list of byte vectors.
pub fn copy_vecs(v: &Vec<Vec<u8>>) -> (r: Vec<Vec<u8>>)
    ensures
        vecs(r@) == vecs(v@),
{
    let mut out: Vec<Vec<u8>> = Vec::new();
    let mut i: usize = 0;
    while i < v.len()
        invariant
            i <= v@.len(),
            out@.len() == i,
            forall|j: int| 0 <= j < i ==> #[trigger] out@[j]@ == v@[j]@,
        decreases v@.len() - i,
    {
        out.push(copy_bytes(v[i].as_slice()));
        i = i + 1;
    }
    proof {
        assert(vecs(out@) =~= vecs(v@));
    }
    out
}

/// Whether two lists of text are the same.
pub fn same_texts(a: &Vec<String>, b: &Vec<String>) -> (r: bool)
    ensures
        r == (texts(a@) == texts(b@)),
{
    if a.len() != b.len() {
        proof {
            assert(texts(a@).len() != texts(b@).len());
        }
        return false;
    }
    let mut i: usize = 0;
    while i < a.len()
        invariant
            i <= a@.len(),
            a@.len() == b@.len(),
            forall|j: int| 0 <= j < i ==> #[trigger] a@[j]@ == b@[j]@,
        decreases a@.len() - i,
    {
        if a[i] != b[i] {
            proof {
                assert(texts(a@)[i as int] != texts(b@)[i as int]);
            }
            return false;
        }
        i = i + 1;
    }
    proof {
        assert(texts(a@) =~= texts(b@));
    }
    true
}

/// Whether two optional byte vectors are the same.
pub fn same_opt(a: &Option<Vec<u8>>, b: &Option<Vec<u8>>) -> (r: bool)
    ensures
        r == (opt_vec(*a) == opt_vec(*b)),
{
    match (a, b) {
        (Some(x), Some(y)) => same_bytes(x.as_slice(), y.as_slice()),
        (None, None) => true,
        _ => false,
    }
}

/// The bit of `b` with the given weight is set.
pub open spec fn bit(b: u8, weight: u8) -> bool {
    b / weight % 2 == 1
}

/// Whether the bit of `b` with the given weight is set.
pub fn has_bit(b: u8, weight: u8) -> (r: bool)
    requires
        weight > 0,
    ensures
        r == bit(b, weight),
{
    b / weight % 2 == 1
}

/// `needle` stands in `hay` at some position.
pub open spec fn occurs(needle: Seq<u8>, hay: Seq<u8>) -> bool {
    exists|i: int| #[trigger] occurs_at(needle, hay, i)
}

/// `needle` stands in `hay` at position `i`.
pub open spec fn occurs_at(needle: Seq<u8>, hay: Seq<u8>, i: int) -> bool {
    0 <= i && i + needle.len() <= hay.len() && hay.subrange(i, i + needle.len()) == needle
}

/// Whether `needle` stands in `hay`.
pub fn contains_bytes(hay: &[u8], needle: &[u8]) -> (r: bool)
    ensures
        r == occurs(needle@, hay@),
{
    if needle.len() > hay.len() {
        return false;
    }
    let last: usize = hay.len() - needle.len();
    let mut i: usize = 0;
    while i <= last
        invariant
            i <= last + 1,
            last == hay@.len() - needle@.len(),
            hay@.len() <= usize::MAX,
            forall|j: int| 0 <= j < i ==> !#[trigger] occurs_at(needle@, hay@, j),
        decreases last + 1 - i,
    {
        if same_bytes(slice_subrange(hay, i, i + needle.len()), needle) {
            proof {
                assert(occurs_at(needle@, hay@, i as int));
            }
            return true;
        }
        proof {
            assert(!occurs_at(needle@, hay@, i as int));
        }
        if i == last {
            return false;
        }
        i = i + 1;
    }
    false
}

/// Whether two lists of byte vectors are the same.
pub fn same_vecs(a: &Vec<Vec<u8>>, b: &Vec<Vec<u8>>) -> (r: bool)
    ensures
        r == (vecs(a@) == vecs(b@)),
{
    if a.len() != b.len() {
        proof {
            assert(vecs(a@).len() != vecs(b@).len());
        }
        return false;
    }
    let mut i: usize = 0;
    while i < a.len()
        invariant
            i <= a@.len(),
            a@.len() == b@.len(),
            forall|j: int| 0 <= j < i ==> (#[trigger] a@[j])@ == b@[j]@,
        decreases a@.len() - i,
    {
        if !same_bytes(a[i].as_slice(), b[i].as_slice()) {
            proof {
                assert(vecs(a@)[i as int] != vecs(b@)[i as int]);
            }
            return false;
        }
        i = i + 1;
    }
    proof {
        assert(vecs(a@) =~= vecs(b@));
    }
    true
}

/// Owned copies of slices.
pub fn own_all(v: &Vec<&[u8]>) -> (r: Vec<Vec<u8>>)
    ensures
        vecs(r@) == slices(v@),
{
    let mut out: Vec<Vec<u8>> = Vec::new();
    let mut i: usize = 0;
    while i < v.len()
        invariant
            i <= v@.len(),
            out@.len() == i,
            forall|j: int| 0 <= j < i ==> (#[trigger] out@[j])@ == v@[j]@,
        decreases v@.len() - i,
    {
        out.push(copy_bytes(v[i]));
        i = i + 1;
    }
    proof {
        assert(vecs(out@) =~= slices(v@));
    }
    out
}

} // verus!
