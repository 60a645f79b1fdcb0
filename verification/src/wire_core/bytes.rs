//! Assembly of SSH primitives (RFC 4251 section 5) with explicit shifts.

use vstd::prelude::*;
use vstd::slice::slice_subrange;
use crate::seqs::{push_all, vecs};
use crate::wire_core::namelist_ref;

verus! {

/// The four bytes of `v`, most significant first.
#[verifier::opaque]
pub open spec fn be32(v: u32) -> Seq<u8> {
    seq![
        (v / 0x100_0000) as u8,
        (v / 0x1_0000 % 0x100) as u8,
        (v / 0x100 % 0x100) as u8,
        (v % 0x100) as u8,
    ]
}

/// The eight bytes of `v`, most significant first.
pub open spec fn be64(v: u64) -> Seq<u8> {
    be32((v / 0x1_0000_0000) as u32) + be32((v % 0x1_0000_0000) as u32)
}

/// The number whose four bytes, most significant first, begin `s`.
#[verifier::opaque]
pub open spec fn u32_of(s: Seq<u8>) -> u32 {
    (s[0] * 0x100_0000 + s[1] * 0x1_0000 + s[2] * 0x100 + s[3]) as u32
}

/// A `uint32` takes four bytes.
pub broadcast proof fn lemma_be32_len(v: u32)
    ensures
        #[trigger] be32(v).len() == 4,
{
    reveal(be32);
}

/// The number whose eight bytes, most significant first, begin `s`.
pub open spec fn u64_of(s: Seq<u8>) -> u64 {
    (u32_of(s) * 0x1_0000_0000 + u32_of(s.skip(4))) as u64
}

/// The byte of a boolean.
pub open spec fn bool_byte(v: bool) -> u8 {
    if v {
        1
    } else {
        0
    }
}

/// A `string`: its length, then its bytes.
pub open spec fn ssh_string(s: Seq<u8>) -> Seq<u8> {
    be32(s.len() as u32) + s
}

/// The length of a `string` fits its length field.
pub open spec fn fits_u32(s: Seq<u8>) -> bool {
    s.len() <= u32::MAX
}

/// A number is read back from the bytes it was written as.
pub proof fn lemma_u32_write_read(v: u32)
    ensures
        u32_of(be32(v)) == v,
        be32(v).len() == 4,
{
    reveal(be32);
    reveal(u32_of);
    let a = v / 0x100_0000;
    let b = v / 0x1_0000 % 0x100;
    let c = v / 0x100 % 0x100;
    let d = v % 0x100;
    assert(a < 0x100 && a * 0x100_0000 + b * 0x1_0000 + c * 0x100 + d == v) by {
        assert(v / 0x100 == (v / 0x1_0000) * 0x100 + v / 0x100 % 0x100);
        assert(v / 0x1_0000 == (v / 0x100_0000) * 0x100 + v / 0x1_0000 % 0x100);
    }
}

/// A number is written as the bytes it was read from.
pub proof fn lemma_u32_read_write(s: Seq<u8>)
    requires
        s.len() >= 4,
    ensures
        be32(u32_of(s)) == s.take(4),
{
    reveal(be32);
    reveal(u32_of);
    let v = s[0] * 0x100_0000 + s[1] * 0x1_0000 + s[2] * 0x100 + s[3];
    assert(0 <= v <= u32::MAX);
    assert(u32_of(s) == v);
    assert(v / 0x100_0000 == s[0]);
    assert(v / 0x1_0000 == s[0] * 0x100 + s[1]);
    assert(v / 0x100 == s[0] * 0x1_0000 + s[1] * 0x100 + s[2]);
    assert(v / 0x1_0000 % 0x100 == s[1]);
    assert(v / 0x100 % 0x100 == s[2]);
    assert(v % 0x100 == s[3]);
    assert(be32(u32_of(s)) =~= s.take(4));
}

/// A 64-bit number is read back from the bytes it was written as.
pub proof fn lemma_u64_write_read(v: u64)
    ensures
        u64_of(be64(v)) == v,
        be64(v).len() == 8,
{
    broadcast use lemma_be32_len;

    let hi = (v / 0x1_0000_0000) as u32;
    let lo = (v % 0x1_0000_0000) as u32;
    lemma_u32_write_read(hi);
    lemma_u32_write_read(lo);
    assert(be64(v).skip(4) =~= be32(lo));
    assert(u32_of(be64(v)) == u32_of(be32(hi))) by {
        reveal(u32_of);
    }
    assert(v == hi * 0x1_0000_0000 + lo);
}

/// A 64-bit number is written as the bytes it was read from.
pub proof fn lemma_u64_read_write(s: Seq<u8>)
    requires
        s.len() >= 8,
    ensures
        be64(u64_of(s)) == s.take(8),
{
    broadcast use lemma_be32_len;

    let hi = u32_of(s);
    let lo = u32_of(s.skip(4));
    lemma_u32_read_write(s);
    lemma_u32_read_write(s.skip(4));
    let v = hi * 0x1_0000_0000 + lo;
    assert(0 <= v <= u64::MAX);
    assert(v / 0x1_0000_0000 == hi && v % 0x1_0000_0000 == lo);
    assert(be64(u64_of(s)) =~= s.take(8));
}

proof fn lemma_shift_bytes(v: u32)
    ensures
        (v >> 24) as u8 == (v / 0x100_0000) as u8,
        (v >> 16) as u8 == (v / 0x1_0000 % 0x100) as u8,
        (v >> 8) as u8 == (v / 0x100 % 0x100) as u8,
        v as u8 == (v % 0x100) as u8,
{
    assert((v >> 24) as u8 == (v / 0x100_0000) as u8 && (v >> 16) as u8 == (v / 0x1_0000 % 0x100) as u8
        && (v >> 8) as u8 == (v / 0x100 % 0x100) as u8 && v as u8 == (v % 0x100) as u8) by (bit_vector);
}

/// Appends a byte.
pub fn put_u8(out: &mut Vec<u8>, v: u8)
    ensures
        final(out)@ == old(out)@.push(v),
{
    out.push(v);
}

/// Appends a boolean as 0 or 1.
pub fn put_bool(out: &mut Vec<u8>, v: bool)
    ensures
        final(out)@ == old(out)@.push(bool_byte(v)),
{
    out.push(if v { 1 } else { 0 });
}

/// Appends a `uint32`.
pub fn put_u32(out: &mut Vec<u8>, v: u32)
    ensures
        final(out)@ == old(out)@ + be32(v),
{
    proof {
        lemma_shift_bytes(v);
        reveal(be32);
    }
    out.push((v >> 24) as u8);
    out.push((v >> 16) as u8);
    out.push((v >> 8) as u8);
    out.push(v as u8);
    proof {
        assert(out@ =~= old(out)@ + be32(v));
    }
}

/// Appends a `uint64`.
pub fn put_u64(out: &mut Vec<u8>, v: u64)
    ensures
        final(out)@ == old(out)@ + be64(v),
{
    proof {
        assert((v >> 32) as u32 == (v / 0x1_0000_0000) as u32 && v as u32 == (v % 0x1_0000_0000) as u32)
            by (bit_vector);
    }
    put_u32(out, (v >> 32) as u32);
    put_u32(out, v as u32);
    proof {
        broadcast use lemma_be32_len;

        assert(out@ =~= old(out)@ + be64(v));
    }
}

/// Appends a `string`.
pub fn put_string(out: &mut Vec<u8>, s: &[u8])
    requires
        fits_u32(s@),
    ensures
        final(out)@ == old(out)@ + ssh_string(s@),
{
    put_u32(out, s.len() as u32);
    push_all(out, s);
    proof {
        broadcast use lemma_be32_len;

        assert(out@ =~= old(out)@ + ssh_string(s@));
    }
}

/// Appends a `name-list`.
pub fn put_name_list(out: &mut Vec<u8>, names: &[Vec<u8>])
    requires
        fits_u32(namelist_ref::joined(vecs(names@))),
    ensures
        final(out)@ == old(out)@ + ssh_string(namelist_ref::joined(vecs(names@))),
{
    let body = namelist_ref::join(names);
    put_string(out, body.as_slice());
}

/// Reads a `uint32`.
pub fn be_u32(b: &[u8]) -> (r: u32)
    requires
        b@.len() >= 4,
    ensures
        r == u32_of(b@),
{
    let b0: u32 = b[0] as u32;
    let b1: u32 = b[1] as u32;
    let b2: u32 = b[2] as u32;
    let b3: u32 = b[3] as u32;
    proof {
        reveal(u32_of);
        assert((b0 << 24) | (b1 << 16) | (b2 << 8) | b3 == b0 * 0x100_0000 + b1 * 0x1_0000 + b2 * 0x100
            + b3) by (bit_vector)
            requires
                b0 < 0x100,
                b1 < 0x100,
                b2 < 0x100,
                b3 < 0x100,
        ;
    }
    (b0 << 24) | (b1 << 16) | (b2 << 8) | b3
}

/// Reads a `uint64`.
pub fn be_u64(b: &[u8]) -> (r: u64)
    requires
        b@.len() >= 8,
    ensures
        r == u64_of(b@),
{
    let hi: u64 = be_u32(slice_subrange(b, 0, 4)) as u64;
    let lo: u64 = be_u32(slice_subrange(b, 4, 8)) as u64;
    proof {
        assert((hi << 32) | lo == hi * 0x1_0000_0000 + lo) by (bit_vector)
            requires
                hi <= 0xffff_ffff,
                lo <= 0xffff_ffff,
        ;
        reveal(u32_of);
        assert(u32_of(b@.subrange(0, 4)) == u32_of(b@));
        assert(u32_of(b@.subrange(4, 8)) == u32_of(b@.skip(4)));
    }
    (hi << 32) | lo
}

} // verus!
