//! Bounded generation over raw bytes. Nothing here fails: when the input is
//! exhausted, values are short or empty.

use arbitrary::Unstructured;
use vstd::prelude::*;
use vstd::slice::slice_subrange;
use crate::seqs::{copy_bytes, min_int};
use crate::wire_core::namelist_ref::{name_byte, sanitize_name, valid_name as is_name};

verus! {

/// How many bytes a number up to `max` takes: none where there is no choice,
/// one below 256, two above, and no more than there are.
pub open spec fn width_up_to(len: int, max: u16) -> int {
    min_int(
        len,
        if max == 0 {
            0
        } else if max < 256 {
            1
        } else {
            2
        },
    )
}

/// The number up to `max` at the front: big-endian, modulo the range.
pub open spec fn number_up_to(s: Seq<u8>, max: u16) -> u16 {
    let w = width_up_to(s.len() as int, max);
    let raw = if w == 0 {
        0int
    } else if w == 1 {
        s[0] as int
    } else {
        s[0] * 256 + s[1]
    };
    (raw % (max + 1)) as u16
}

/// The `i`-th byte, or 0 beyond the end.
pub open spec fn padded(s: Seq<u8>, i: int) -> int {
    if i < s.len() {
        s[i] as int
    } else {
        0
    }
}

/// The little-endian number in the first `n` bytes, which are 0 beyond the
/// end.
pub open spec fn little(s: Seq<u8>, n: int) -> int
    decreases n,
{
    if n <= 0 {
        0
    } else {
        padded(s, 0) + 256 * little(
            if s.len() == 0 {
                s
            } else {
                s.skip(1)
            },
            n - 1,
        )
    }
}

/// What is left after up to `n` bytes.
pub open spec fn after(s: Seq<u8>, n: int) -> Seq<u8> {
    s.skip(min_int(n, s.len() as int))
}

/// `Unstructured::int_in_range` over `0..=max`: a big-endian number of as many
/// bytes as the range needs, or as there are, modulo the range; and how many
/// bytes are left behind it.
#[verifier::external_body]
fn int_up_to(data: &[u8], max: u16) -> (r: (u16, usize))
    ensures
        r.0 == number_up_to(data@, max),
        r.1 == data@.len() - width_up_to(data@.len() as int, max),
{
    let mut u = Unstructured::new(data);
    let v = u.int_in_range(0..=max).unwrap_or(0);
    (v, u.len())
}

/// `Unstructured::arbitrary` for `u8`: the first byte, or 0; and how many
/// bytes are left behind it.
#[verifier::external_body]
fn arbitrary_u8(data: &[u8]) -> (r: (u8, usize))
    ensures
        r.0 == little(data@, 1),
        r.1 == after(data@, 1).len(),
{
    let mut u = Unstructured::new(data);
    let v = u.arbitrary().unwrap_or(0);
    (v, u.len())
}

/// `Unstructured::arbitrary` for `u32`: four little-endian bytes, 0 beyond
/// the end; and how many bytes are left behind them.
#[verifier::external_body]
fn arbitrary_u32(data: &[u8]) -> (r: (u32, usize))
    ensures
        r.0 == little(data@, 4),
        r.1 == after(data@, 4).len(),
{
    let mut u = Unstructured::new(data);
    let v = u.arbitrary().unwrap_or(0);
    (v, u.len())
}

/// `Unstructured::arbitrary` for `u64`: eight little-endian bytes, 0 beyond
/// the end; and how many bytes are left behind them.
#[verifier::external_body]
fn arbitrary_u64(data: &[u8]) -> (r: (u64, usize))
    ensures
        r.0 == little(data@, 8),
        r.1 == after(data@, 8).len(),
{
    let mut u = Unstructured::new(data);
    let v = u.arbitrary().unwrap_or(0);
    (v, u.len())
}

/// Raw bytes to generate from, seen as those not yet used.
#[derive(Clone, Copy, Debug)]
pub struct Source<'a> {
    data: &'a [u8],
}

impl<'a> View for Source<'a> {
    type V = Seq<u8>;

    closed spec fn view(&self) -> Seq<u8> {
        self.data@
    }
}

impl<'a> Source<'a> {
    /// All of `data`.
    pub fn new(data: &'a [u8]) -> (r: Self)
        ensures
            r@ == data@,
    {
        Source { data }
    }

    /// Whether every byte is used.
    pub fn is_empty(&self) -> (r: bool)
        ensures
            r == (self@.len() == 0),
    {
        self.data.len() == 0
    }

    /// Uses bytes up to those that are left.
    fn keep_last(&mut self, left: usize)
        requires
            left <= old(self)@.len(),
        ensures
            final(self)@ == old(self)@.skip(old(self)@.len() - left),
    {
        let n: usize = self.data.len();
        self.data = slice_subrange(self.data, n - left, n);
        proof {
            assert(self@ =~= old(self)@.skip(old(self)@.len() - left));
        }
    }
}

/// The bytes that a length up to `max` and the input give, and what is left.
pub open spec fn bounded_gen(s: Seq<u8>, max: u16) -> (Seq<u8>, Seq<u8>) {
    let t = after(s, width_up_to(s.len() as int, max));
    let n = min_int(number_up_to(s, max) as int, t.len() as int);
    (t.take(n), t.skip(n))
}

/// The number up to `max`, and what is left.
pub open spec fn small_gen(s: Seq<u8>, max: u16) -> (usize, Seq<u8>) {
    (number_up_to(s, max) as usize, after(s, width_up_to(s.len() as int, max)))
}

/// Integer in `0..=max`.
pub fn small(u: &mut Source<'_>, max: u16) -> (r: usize)
    ensures
        (r, final(u)@) == small_gen(old(u)@, max),
        r <= max,
{
    let (v, left) = int_up_to(u.data, max);
    u.keep_last(left);
    v as usize
}

/// Reads a length in `0..=max` and then that many raw bytes, clamped to what
/// is left.
pub fn bounded_bytes(u: &mut Source<'_>, max: u16) -> (r: Vec<u8>)
    ensures
        (r@, final(u)@) == bounded_gen(old(u)@, max),
        r@.len() <= max,
{
    let n: usize = small(u, max);
    let len: usize = u.data.len();
    let n: usize = if n <= len { n } else { len };
    let out = copy_bytes(slice_subrange(u.data, 0, n));
    u.data = slice_subrange(u.data, n, len);
    proof {
        let t = small_gen(old(u)@, max).1;
        assert(out@ =~= t.take(n as int));
        assert(u@ =~= t.skip(n as int));
    }
    out
}

/// One byte, or 0.
pub fn byte(u: &mut Source<'_>) -> (r: u8)
    ensures
        r == little(old(u)@, 1),
        final(u)@ == after(old(u)@, 1),
{
    let (v, left) = arbitrary_u8(u.data);
    u.keep_last(left);
    v
}

/// Four little-endian bytes, 0 beyond the end.
pub fn word(u: &mut Source<'_>) -> (r: u32)
    ensures
        r == little(old(u)@, 4),
        final(u)@ == after(old(u)@, 4),
{
    let (v, left) = arbitrary_u32(u.data);
    u.keep_last(left);
    v
}

/// Eight little-endian bytes, 0 beyond the end.
pub fn qword(u: &mut Source<'_>) -> (r: u64)
    ensures
        r == little(old(u)@, 8),
        final(u)@ == after(old(u)@, 8),
{
    let (v, left) = arbitrary_u64(u.data);
    u.keep_last(left);
    v
}

/// The name that the input gives: bytes mapped onto the name alphabet, or
/// `a` where there are none.
pub open spec fn name_gen(s: Seq<u8>, max: u16) -> (Seq<u8>, Seq<u8>) {
    let (raw, rest) = bounded_gen(s, max);
    let b = if raw.len() == 0 {
        seq![97u8]
    } else {
        raw
    };
    (Seq::new(b.len(), |i: int| name_byte(b[i])), rest)
}

/// A valid name of length `1..=max` (of length 1 for `max` 0) from the name
/// alphabet.
pub fn valid_name(u: &mut Source<'_>, max: u16) -> (r: Vec<u8>)
    ensures
        (r@, final(u)@) == name_gen(old(u)@, max),
        is_name(r@),
        r@.len() <= max || r@.len() == 1,
{
    let mut name = bounded_bytes(u, max);
    if name.len() == 0 {
        name.push(97);
        proof {
            assert(name@ =~= seq![97u8]);
        }
    }
    sanitize_name(&mut name);
    proof {
        assert(name@ =~= name_gen(old(u)@, max).0);
    }
    name
}

} // verus!
