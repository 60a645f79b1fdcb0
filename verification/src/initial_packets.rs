//! Framing of initial packets under test: decoders judged on single buffers
//! and on streams in pieces, encoders judged on whole outputs, and headers
//! that break one rule.

use vstd::prelude::*;
use crate::seqs::{bit, copy_bytes, has_bit, opt_vec, push_all, same_bytes, tail, vecs};
use crate::tcp_support::msg_ref::payload_at;
use crate::tcp_support::packet_ref::{
    self, encode_initial_packet, framed, framing, lemma_framed_decodes, lemma_u32_prefix, max_length,
    max_packet_length, padding_for, Framing, RefStep,
};
use crate::tcp_support::stream_gen::{gen_kexinit, kexinit_gen, Role};
use crate::tcp_support::types::{InitialLimits, PacketError};
use crate::tcp_support::{
    byte_at, dropped, filled, filler, put_string, taken, taken_filled, u16_at, u32_at, ChunkMode, Cursor,
};
use crate::wire_core::bytes::{be32, lemma_u32_write_read, put_u32, u32_of};
use crate::wire_core::messages_ref::{
    debug_bytes, disconnect_bytes, ignore_bytes, unimplemented_bytes, DebugFields, DisconnectFields,
};
use vstd::slice::slice_subrange;

verus! {

/// What a decoder answered for a buffer.
#[derive(Clone, Debug, PartialEq, Eq)]
pub enum Decoded<B = Vec<u8>> {
    NeedMore { total_len: Option<u64> },
    Complete { payload: B, padding: B, size: usize },
}

/// A decoder's answer over plain sequences.
pub open spec fn answer(a: Result<Decoded, PacketError>) -> Result<Decoded<Seq<u8>>, PacketError> {
    match a {
        Ok(Decoded::NeedMore { total_len }) => Ok(Decoded::NeedMore { total_len }),
        Ok(Decoded::Complete { payload, padding, size }) => Ok(
            Decoded::Complete { payload: payload@, padding: padding@, size },
        ),
        Err(e) => Err(e),
    }
}

/// The answer that is right for the front of `buf` under `cap`.
pub open spec fn right_answer(buf: Seq<u8>, cap: u32) -> Result<Decoded<Seq<u8>>, PacketError> {
    match framing(buf, cap) {
        Err(e) => Err(e),
        Ok(Framing::NeedMore { claimed }) => Ok(
            Decoded::NeedMore {
                total_len: match claimed {
                    Some(t) => Some(t as u64),
                    None => None,
                },
            },
        ),
        Ok(Framing::Complete { payload_len, total_len }) => Ok(
            Decoded::Complete {
                payload: payload_at(buf, payload_len),
                padding: buf.subrange(5 + payload_len, total_len),
                size: total_len as usize,
            },
        ),
    }
}

/// Whether a decoder's answer on one buffer is right.
pub fn check_decode(buf: &[u8], cap: u32, actual: &Result<Decoded, PacketError>) -> (r: bool)
    ensures
        r == (answer(*actual) == right_answer(buf@, cap)),
{
    match (actual, packet_ref::decode(buf, cap)) {
        (Ok(Decoded::NeedMore { total_len }), Ok(RefStep::NeedMore { total_len: t })) => match (*total_len, t) {
            (Some(a), Some(b)) => a == b,
            (None, None) => true,
            _ => false,
        },
        (
            Ok(Decoded::Complete { payload, padding, size }),
            Ok(RefStep::Complete { payload: p, padding: d, total_len }),
        ) => {
            let body = slice_subrange(buf, p.start, p.end);
            let fill = slice_subrange(buf, d.start, d.end);
            same_bytes(payload.as_slice(), body) && same_bytes(padding.as_slice(), fill) && *size == total_len
        },
        (Err(a), Err(e)) => *a == e,
        _ => false,
    }
}

/// A right answer asks for more only where bytes are missing, names an
/// aligned size of at least two blocks, and splits a packet into its five
/// header bytes, the payload and at least four bytes of padding.
pub proof fn lemma_answer_shape(buf: Seq<u8>, cap: u32)
    requires
        buf.len() <= usize::MAX,
    ensures
        right_answer(buf, cap) matches Ok(Decoded::NeedMore { total_len: Some(t) }) ==> t > buf.len() && t % 8 == 0
            && t >= 16,
        right_answer(buf, cap) matches Ok(Decoded::Complete { payload, padding, size }) ==> (payload.len()
            + padding.len() + 5 == size && padding.len() >= 4 && size <= buf.len()),
{
}

/// A claim over the cap is refused from the length field alone.
pub proof fn lemma_oversized_refused(buf: Seq<u8>, cap: u32)
    requires
        buf.len() >= 4,
        u32_of(buf) > cap,
    ensures
        right_answer(buf.take(4), cap) == Err::<Decoded<Seq<u8>>, PacketError>(
            PacketError::TooLarge { packet_length: u32_of(buf), limit: cap },
        ),
        right_answer(buf, cap) == right_answer(buf.take(4), cap),
{
    lemma_u32_prefix(buf, buf.take(4));
}

/// A decision about the front of a buffer does not change when more bytes
/// arrive, and a proper prefix of a packet is never taken for a packet.
pub proof fn lemma_decision_stable(a: Seq<u8>, b: Seq<u8>, cap: u32)
    ensures
        !(framing(a, cap) matches Ok(f) && f is NeedMore) ==> framing(a + b, cap) == framing(a, cap),
        framing(a, cap) matches Ok(Framing::Complete { payload_len, total_len }) ==> {
            &&& 16 <= total_len <= a.len()
            &&& forall|n: int|
                0 <= n < total_len ==> (#[trigger] framing(a.take(n), cap) matches Ok(f) && f is NeedMore)
        },
{
    if a.len() >= 4 {
        lemma_u32_prefix(a, a + b);
        if a.len() >= 5 {
            assert((a + b)[4] == a[4]);
        }
    }
    if framing(a, cap) is Ok && framing(a, cap)->Ok_0 is Complete {
        let t = framing(a, cap)->Ok_0->total_len;
        assert forall|n: int| 0 <= n < t implies (#[trigger] framing(a.take(n), cap) matches Ok(f)
            && f is NeedMore) by {
            if n >= 4 {
                lemma_u32_prefix(a, a.take(n));
            }
        }
    }
}

/// The buffers that a decoder sees while it takes whole packets off the front
/// of `acc`, and what it keeps; nothing where a packet is refused.
pub open spec fn settled(acc: Seq<u8>, cap: u32) -> (Seq<Seq<u8>>, Option<Seq<u8>>)
    decreases acc.len(),
{
    match framing(acc, cap) {
        Ok(Framing::Complete { payload_len, total_len }) => {
            let (seen, kept) = settled(acc.skip(total_len), cap);
            (seq![acc] + seen, kept)
        },
        Ok(Framing::NeedMore { claimed }) => (seq![acc], Some(acc)),
        Err(e) => (seq![acc], None),
    }
}

/// The buffers that a decoder sees when the stream arrives in pieces.
pub open spec fn delivered(
    stream: Seq<u8>,
    off: int,
    mode: ChunkMode,
    i: int,
    acc: Seq<u8>,
    cap: u32,
) -> Seq<Seq<u8>>
    decreases stream.len() - off,
{
    if off < 0 || off >= stream.len() {
        Seq::empty()
    } else {
        let left = stream.len() - off;
        let n = if mode.size(i) < left {
            mode.size(i)
        } else {
            left
        };
        if n < 1 {
            Seq::empty()
        } else {
            let (seen, kept) = settled(acc + stream.subrange(off, off + n), cap);
            match kept {
                Some(k) => seen + delivered(stream, off + n, mode, i + 1, k, cap),
                None => seen,
            }
        }
    }
}

fn settle(start: Vec<u8>, cap: u32, out: &mut Vec<Vec<u8>>) -> (r: Option<Vec<u8>>)
    ensures
        vecs(final(out)@) == vecs(old(out)@) + settled(start@, cap).0,
        opt_vec(r) == settled(start@, cap).1,
{
    let ghost first = vecs(out@);
    let ghost whole = settled(start@, cap);
    let mut acc = start;
    loop
        invariant
            whole.0 == (vecs(out@).skip(first.len() as int) + settled(acc@, cap).0),
            whole.1 == settled(acc@, cap).1,
            first.is_prefix_of(vecs(out@)),
            vecs(old(out)@) == first,
            whole == settled(start@, cap),
        decreases acc@.len(),
    {
        let ghost before = vecs(out@);
        let ghost cur = acc@;
        out.push(copy_bytes(acc.as_slice()));
        proof {
            assert(vecs(out@) =~= before.push(cur));
        }
        match packet_ref::decode(acc.as_slice(), cap) {
            Ok(RefStep::Complete { payload, padding, total_len }) => {
                let next = copy_bytes(tail(acc.as_slice(), total_len));
                proof {
                    let now = vecs(out@);
                    assert(settled(cur, cap).0 == seq![cur] + settled(next@, cap).0);
                    assert(now.skip(first.len() as int) + settled(next@, cap).0 =~= before.skip(first.len() as int)
                        + settled(cur, cap).0);
                    assert(first =~= now.subrange(0, first.len() as int));
                }
                acc = next;
            },
            Ok(RefStep::NeedMore { total_len }) => {
                proof {
                    let now = vecs(out@);
                    assert(now =~= first + whole.0);
                }
                return Some(acc);
            },
            Err(e) => {
                proof {
                    let now = vecs(out@);
                    assert(now =~= first + whole.0);
                }
                return None;
            },
        }
    }
}

/// The buffers that a decoder sees when the stream arrives in pieces: after
/// every piece it takes whole packets off the front, until the stream ends or
/// a packet is refused.
pub fn delivered_buffers(stream: &[u8], mode: &ChunkMode, cap: u32) -> (r: Vec<Vec<u8>>)
    ensures
        vecs(r@) == delivered(stream@, 0, *mode, 0, Seq::empty(), cap),
{
    let mut out: Vec<Vec<u8>> = Vec::new();
    let mut acc: Vec<u8> = Vec::new();
    let mut off: usize = 0;
    let mut i: usize = 0;
    let ghost whole = delivered(stream@, 0, *mode, 0, Seq::empty(), cap);
    proof {
        assert(vecs(out@) =~= Seq::empty());
        assert(acc@ =~= Seq::empty());
    }
    while off < stream.len()
        invariant
            i <= off <= stream@.len(),
            whole == delivered(stream@, 0, *mode, 0, Seq::empty(), cap),
            whole == vecs(out@) + delivered(stream@, off as int, *mode, i as int, acc@, cap),
        decreases stream@.len() - off,
    {
        let left: usize = stream.len() - off;
        let want: usize = mode.desired(i);
        let n: usize = if want < left { want } else { left };
        let ghost before = vecs(out@);
        let ghost kept = acc@;
        push_all(&mut acc, slice_subrange(stream, off, off + n));
        let ghost grown = acc@;
        proof {
            assert(grown =~= kept + stream@.subrange(off as int, off + n));
        }
        match settle(acc, cap, &mut out) {
            Some(k) => {
                acc = k;
            },
            None => {
                proof {
                    assert(vecs(out@) =~= whole);
                }
                return out;
            },
        }
        proof {
            assert(vecs(out@) + delivered(stream@, off + n, *mode, i + 1, acc@, cap) =~= before + (
            settled(grown, cap).0 + delivered(stream@, off + n, *mode, i + 1, acc@, cap)));
        }
        off = off + n;
        i = i + 1;
    }
    proof {
        assert(vecs(out@) =~= whole);
    }
    out
}

/// The largest packet length of the cap up to 64 KiB, or that of the
/// smallest packet.
pub open spec fn largest(cap: u32) -> int {
    let c = if cap <= 65536 {
        cap as int
    } else {
        65536
    };
    match max_length(c) {
        Some(pl) => pl,
        None => 12,
    }
}

/// The payload that a selector and the input describe.
pub open spec fn payload_gen(selector: u8, s: Seq<u8>, cap: u32, max_size: bool) -> (Seq<u8>, Seq<u8>) {
    let k = selector % 8;
    if max_size {
        (ignore_bytes(filled(largest(cap) - 10, 21)), s)
    } else if k == 0 {
        (ignore_bytes(filled(u16_at(s) as int % 4097, 22)), dropped(s, 2))
    } else if k == 1 {
        let s1 = dropped(s, 1);
        let m = (byte_at(s1, 0) % 64) as int;
        let s2 = dropped(s1, 1);
        let s3 = dropped(s2, m);
        let l = (byte_at(s3, 0) % 8) as int;
        let s4 = dropped(s3, 1);
        (
            debug_bytes(
                DebugFields {
                    always_display_byte: byte_at(s, 0),
                    message: taken(s2, m),
                    language_tag: taken(s4, l),
                },
            ),
            dropped(s4, l),
        )
    } else if k == 2 {
        (unimplemented_bytes(u32_at(s)), dropped(s, 4))
    } else if k == 3 {
        let s1 = dropped(s, 4);
        let d = (byte_at(s1, 0) % 64) as int;
        let s2 = dropped(s1, 1);
        let s3 = dropped(s2, d);
        let l = (byte_at(s3, 0) % 8) as int;
        let s4 = dropped(s3, 1);
        (
            disconnect_bytes(
                DisconnectFields {
                    reason_code: u32_at(s),
                    description: taken(s2, d),
                    language_tag: taken(s4, l),
                },
            ),
            dropped(s4, l),
        )
    } else if k == 4 {
        let (g, s1) = kexinit_gen(s, Role::Server);
        (g.payload, s1)
    } else if k == 5 {
        (seq![21u8], s)
    } else if k == 6 {
        let s1 = dropped(s, 1);
        let n = (byte_at(s1, 0) % 8) as int;
        let s2 = dropped(s1, 1);
        (seq![(30 + byte_at(s, 0) % 20) as u8] + taken(s2, n), dropped(s2, n))
    } else {
        let n = 1 + (byte_at(s, 0) % 32) as int;
        let s1 = dropped(s, 1);
        (taken_filled(s1, n, 23), dropped(s1, n))
    }
}

/// Draws a payload: by the selector IGNORE, DEBUG, UNIMPLEMENTED, DISCONNECT,
/// KEXINIT, NEWKEYS, a method-specific number or raw bytes; with `max_size`
/// an IGNORE that fills the largest packet of the cap.
pub fn structured_payload(selector: u8, cur: &mut Cursor<'_>, cap: u32, max_size: bool) -> (r: Vec<u8>)
    ensures
        (r@, final(cur)@) == payload_gen(selector, old(cur)@, cap, max_size),
        0 < r@.len() <= 0x2_0000,
        max_size ==> r@.len() == largest(cap) - 5,
{
    broadcast use crate::wire_core::bytes::lemma_be32_len;

    let k: u8 = selector % 8;
    let mut p: Vec<u8> = Vec::new();
    if max_size {
        let c: u32 = if cap <= 65536 { cap } else { 65536 };
        let pl: u32 = match max_packet_length(c) {
            Some(v) => v,
            None => 12,
        };
        p.push(2);
        put_string(&mut p, filler(pl as usize - 10, 21).as_slice());
        proof {
            assert(p@ =~= ignore_bytes(filled(pl - 10, 21)));
        }
    } else if k == 0 {
        let len: usize = cur.u16() as usize % 4097;
        p.push(2);
        put_string(&mut p, filler(len, 22).as_slice());
        proof {
            assert(p@ =~= ignore_bytes(filled(len as int, 22)));
        }
    } else if k == 1 {
        let ghost s = cur@;
        p.push(4);
        p.push(cur.u8());
        let m: usize = (cur.u8() % 64) as usize;
        put_string(&mut p, cur.take(m));
        let l: usize = (cur.u8() % 8) as usize;
        put_string(&mut p, cur.take(l));
        proof {
            assert(p@ =~= payload_gen(selector, s, cap, false).0);
        }
    } else if k == 2 {
        let ghost s = cur@;
        p.push(3);
        put_u32(&mut p, cur.u32());
        proof {
            assert(p@ =~= unimplemented_bytes(u32_at(s)));
        }
    } else if k == 3 {
        let ghost s = cur@;
        p.push(1);
        put_u32(&mut p, cur.u32());
        let d: usize = (cur.u8() % 64) as usize;
        put_string(&mut p, cur.take(d));
        let l: usize = (cur.u8() % 8) as usize;
        put_string(&mut p, cur.take(l));
        proof {
            assert(p@ =~= payload_gen(selector, s, cap, false).0);
        }
    } else if k == 4 {
        p = gen_kexinit(cur, Role::Server).payload;
    } else if k == 5 {
        p.push(21);
        proof {
            assert(p@ =~= seq![21u8]);
        }
    } else if k == 6 {
        let number: u8 = 30 + cur.u8() % 20;
        let n: usize = (cur.u8() % 8) as usize;
        p.push(number);
        proof {
            assert(p@ =~= seq![number]);
        }
        push_all(&mut p, cur.take(n));
    } else {
        let n: usize = 1 + (cur.u8() % 32) as usize;
        p = cur.take_filled(n, 23);
    }
    p
}

/// The bytes are `n` times the same.
pub open spec fn all_same(b: Seq<u8>, n: int, v: u8) -> bool {
    b.len() == n && forall|i: int| 0 <= i < n ==> #[trigger] b[i] == v
}

/// What an encoder did with one payload: the size it named and the whole
/// output buffer, which held zeros and had room for eight bytes more; then
/// the capacity error and the buffer of a second call with one byte too few.
pub struct Encoded {
    pub size: usize,
    pub out: Vec<u8>,
    /// Needed and available bytes.
    pub refused: Option<(usize, usize)>,
    pub short: Vec<u8>,
}

/// An encoder wrote exactly the frame, and nothing where it did not fit.
pub open spec fn encoding_right(e: Encoded, payload: Seq<u8>, pad_byte: u8) -> bool {
    let f = framed(payload, pad_byte);
    &&& e.size == f.len()
    &&& e.out@ == f + Seq::new(8, |i: int| 0u8)
    &&& e.refused == Some((f.len() as usize, (f.len() - 1) as usize))
    &&& all_same(e.short@, f.len() - 1, 0xAA)
}

fn is_all(b: &[u8], n: usize, v: u8) -> (r: bool)
    ensures
        r == all_same(b@, n as int, v),
{
    if b.len() != n {
        return false;
    }
    let mut i: usize = 0;
    while i < n
        invariant
            i <= n,
            b@.len() == n,
            forall|j: int| 0 <= j < i ==> #[trigger] b@[j] == v,
        decreases n - i,
    {
        if b[i] != v {
            return false;
        }
        i = i + 1;
    }
    true
}

/// Whether an encoder did right with one payload.
pub fn check_encode(e: &Encoded, payload: &[u8], pad_byte: u8) -> (r: bool)
    requires
        payload@.len() <= u32::MAX - 16,
    ensures
        r == encoding_right(*e, payload@, pad_byte),
{
    let mut want = encode_initial_packet(payload, pad_byte);
    proof {
        lemma_framed_decodes(payload@, pad_byte, Seq::empty(), u32::MAX);
    }
    let n: usize = want.len();
    let ghost f = want@;
    let mut i: usize = 0;
    while i < 8
        invariant
            i <= 8,
            want@ =~= f + Seq::new(i as nat, |j: int| 0u8),
        decreases 8 - i,
    {
        want.push(0);
        i = i + 1;
    }
    let refused: bool = match e.refused {
        Some((needed, available)) => needed == n && available == n - 1,
        None => false,
    };
    e.size == n && same_bytes(e.out.as_slice(), want.as_slice()) && refused && is_all(
        e.short.as_slice(),
        n - 1,
        0xAA,
    )
}

/// A header with one rule broken as the variant says, and the error that it
/// leads to, if any.
pub open spec fn corrupted(variant: u8, packet_length: u32, padding: u8, cap: u32) -> (
    Seq<u8>,
    Option<PacketError>,
) {
    if variant == 1 {
        (be32(packet_length) + seq![3u8], Some(PacketError::BadPadding { packet_length, padding_length: 3 }))
    } else if variant == 2 {
        let p = (packet_length % 256) as u8;
        (
            be32(packet_length) + seq![p],
            if packet_length < p + 1 || p < 4 {
                Some(PacketError::BadPadding { packet_length, padding_length: p })
            } else {
                None
            },
        )
    } else if variant == 3 {
        let l = (packet_length + 1) as u32;
        (be32(l) + seq![padding], Some(PacketError::Misaligned { packet_length: l }))
    } else if variant == 4 {
        (be32(4) + seq![padding], Some(PacketError::TooSmall { packet_length: 4 }))
    } else if variant == 5 && cap < u32::MAX {
        let l = (cap + 1) as u32;
        (be32(l) + seq![padding], Some(PacketError::TooLarge { packet_length: l, limit: cap }))
    } else {
        (be32(packet_length) + seq![padding], None)
    }
}

/// Breaks one rule of a header: 1 too little padding, 2 padding of the whole
/// packet, 3 misaligned, 4 too small, 5 over the cap; others leave it.
pub fn corrupt(variant: u8, packet_length: u32, padding: u8, cap: u32) -> (r: (Vec<u8>, Option<PacketError>))
    requires
        packet_length < u32::MAX,
    ensures
        (r.0@, r.1) == corrupted(variant, packet_length, padding, cap),
        r.0@.len() == 5,
{
    broadcast use crate::wire_core::bytes::lemma_be32_len;

    let mut length: u32 = packet_length;
    let mut pad: u8 = padding;
    let mut error: Option<PacketError> = None;
    if variant == 1 {
        pad = 3;
        error = Some(PacketError::BadPadding { packet_length, padding_length: 3 });
    } else if variant == 2 {
        pad = (packet_length % 256) as u8;
        if packet_length < pad as u32 + 1 || pad < 4 {
            error = Some(PacketError::BadPadding { packet_length, padding_length: pad });
        }
    } else if variant == 3 {
        length = packet_length + 1;
        error = Some(PacketError::Misaligned { packet_length: length });
    } else if variant == 4 {
        length = 4;
        error = Some(PacketError::TooSmall { packet_length: 4 });
    } else if variant == 5 && cap < u32::MAX {
        length = cap + 1;
        error = Some(PacketError::TooLarge { packet_length: length, limit: cap });
    }
    let mut h: Vec<u8> = Vec::new();
    put_u32(&mut h, length);
    h.push(pad);
    proof {
        assert(h@ =~= be32(length) + seq![pad]);
    }
    (h, error)
}

/// A header with one rule broken is refused for that rule, where no lower cap
/// stands before it; rules of the length field need no more than that field.
pub proof fn lemma_corrupted_refused(variant: u8, packet_length: u32, padding: u8, cap: u32)
    requires
        packet_length >= 12,
        (packet_length + 4) % 8 == 0,
        corrupted(variant, packet_length, padding, cap).1 is Some,
    ensures
        ({
            let (h, e) = corrupted(variant, packet_length, padding, cap);
            let under = if variant == 5 {
                cap
            } else {
                u32::MAX
            };
            &&& framing(h, under) == Err::<Framing, PacketError>(e->0)
            &&& 3 <= variant <= 5 ==> framing(h.take(4), under) == Err::<Framing, PacketError>(e->0)
        }),
{
    broadcast use crate::wire_core::bytes::lemma_be32_len;

    let (h, e) = corrupted(variant, packet_length, padding, cap);
    let n = if variant == 3 {
        (packet_length + 1) as u32
    } else if variant == 4 {
        4u32
    } else if variant == 5 {
        (cap + 1) as u32
    } else {
        packet_length
    };
    lemma_u32_write_read(n);
    lemma_u32_prefix(h, be32(n));
    lemma_u32_prefix(h.take(4), be32(n));
}

/// The largest packet of a cap fits, and the next size does not.
pub proof fn lemma_largest_fits(cap: u32, pad_byte: u8)
    requires
        12 <= cap <= 65536,
    ensures
        ({
            let f = framed(ignore_bytes(filled(largest(cap) - 10, 21)), pad_byte);
            &&& f.len() - 4 == largest(cap)
            &&& largest(cap) <= cap
            &&& largest(cap) + 8 > cap
        }),
{
    broadcast use crate::wire_core::bytes::lemma_be32_len;

    let p = ignore_bytes(filled(largest(cap) - 10, 21));
    assert(p.len() == largest(cap) - 5);
    lemma_framed_decodes(p, pad_byte, Seq::empty(), u32::MAX);
}

/// One packet of a test: what it was drawn as, its payload and its frame, and
/// a broken header with the error it leads to.
#[derive(Debug)]
pub struct PacketCase<B = Vec<u8>> {
    pub variant: u8,
    pub max_size: bool,
    pub pad_byte: u8,
    pub payload: B,
    pub frame: B,
    pub header: B,
    pub error: Option<PacketError>,
}

/// A packet of a test over sequences.
pub type PacketView = PacketCase<Seq<u8>>;

impl View for PacketCase<Vec<u8>> {
    type V = PacketView;

    open spec fn view(&self) -> PacketView {
        PacketCase {
            variant: self.variant,
            max_size: self.max_size,
            pad_byte: self.pad_byte,
            payload: self.payload@,
            frame: self.frame@,
            header: self.header@,
            error: self.error,
        }
    }
}

/// The packets over sequences.
pub open spec fn packet_views(v: Seq<PacketCase>) -> Seq<PacketView> {
    Seq::new(v.len(), |i: int| v[i]@)
}

/// The packet that the input describes; only one may have the largest size.
#[verifier::opaque]
pub open spec fn packet_gen(s: Seq<u8>, cap: u32, used: bool) -> (PacketView, Seq<u8>) {
    let kind = byte_at(s, 0);
    let s1 = dropped(s, 1);
    let variant = kind % 8;
    let max_size = variant == 7 && !used;
    let pad_byte = byte_at(s1, 0);
    let (payload, rest) = payload_gen(kind / 8 % 8, dropped(s1, 1), cap, max_size);
    let frame = framed(payload, pad_byte);
    let (header, error) = corrupted(
        variant,
        (frame.len() - 4) as u32,
        padding_for(payload.len() as int) as u8,
        cap,
    );
    (PacketCase { variant, max_size, pad_byte, payload, frame, header, error }, rest)
}

/// Draws one packet.
pub fn gen_packet(cur: &mut Cursor<'_>, cap: u32, used: bool) -> (r: PacketCase)
    ensures
        (r@, final(cur)@) == packet_gen(old(cur)@, cap, used),
        r.payload@.len() <= 0x2_0000,
{
    let kind: u8 = cur.u8();
    let variant: u8 = kind % 8;
    let max_size: bool = variant == 7 && !used;
    let pad_byte: u8 = cur.u8();
    let payload = structured_payload(kind / 8 % 8, cur, cap, max_size);
    let frame = encode_initial_packet(payload.as_slice(), pad_byte);
    proof {
        reveal(packet_gen);
        lemma_framed_decodes(payload@, pad_byte, Seq::empty(), u32::MAX);
        broadcast use crate::wire_core::bytes::lemma_be32_len;

        assert(frame@[4] == padding_for(payload@.len() as int) as u8);
    }
    let (header, error) = corrupt(variant, (frame.len() - 4) as u32, frame[4], cap);
    PacketCase { variant, max_size, pad_byte, payload, frame, header, error }
}

/// The packets that the input describes.
pub open spec fn packets_gen(s: Seq<u8>, cap: u32, used: bool, n: int) -> (Seq<PacketView>, Seq<u8>)
    decreases n,
{
    if n <= 0 {
        (Seq::empty(), s)
    } else {
        let (p, s1) = packet_gen(s, cap, used);
        let (more, s2) = packets_gen(s1, cap, used || p.max_size, n - 1);
        (seq![p] + more, s2)
    }
}

/// What of the packets goes into the stream: whole frames, and for the sixth
/// variant a frame around no payload.
pub open spec fn packets_stream(v: Seq<PacketView>) -> Seq<u8>
    decreases v.len(),
{
    if v.len() == 0 {
        Seq::empty()
    } else {
        packets_stream(v.drop_last()) + packet_wire(v.last())
    }
}

/// What one packet adds to the stream.
pub open spec fn packet_wire(p: PacketView) -> Seq<u8> {
    if p.variant == 0 || p.variant == 7 {
        p.frame
    } else if p.variant == 6 {
        be32(12) + seq![11u8] + Seq::new(11, |i: int| 0u8)
    } else {
        Seq::empty()
    }
}

/// Draws the packets of a test and the stream that the valid ones make.
pub fn gen_packets(rest: &[u8], cap: u32) -> (r: (Vec<PacketCase>, Vec<u8>))
    ensures
        packet_views(r.0@) == packets_gen(dropped(rest@, 1), cap, false, (byte_at(rest@, 0) % 9) as int).0,
        r.1@ == packets_stream(packet_views(r.0@)),
{
    let mut cur = Cursor::new(rest);
    let n: u8 = cur.u8() % 9;
    let ghost s = cur@;
    let mut out: Vec<PacketCase> = Vec::new();
    let mut stream: Vec<u8> = Vec::new();
    let mut used: bool = false;
    let mut i: u8 = 0;
    proof {
        assert(packet_views(out@) =~= Seq::empty());
        assert(packet_views(out@) + packets_gen(s, cap, false, n as int).0 =~= packets_gen(s, cap, false, n as int).0);
    }
    while i < n
        invariant
            i <= n,
            packet_views(out@) + packets_gen(cur@, cap, used, n - i).0 == packets_gen(s, cap, false, n as int).0,
            stream@ == packets_stream(packet_views(out@)),
        decreases n - i,
    {
        let ghost before = packet_views(out@);
        let ghost at = cur@;
        let ghost was = used;
        let p = gen_packet(&mut cur, cap, used);
        if p.max_size {
            used = true;
        }
        if p.variant == 0 || p.variant == 7 {
            push_all(&mut stream, p.frame.as_slice());
        } else if p.variant == 6 {
            push_empty_frame(&mut stream);
        }
        let ghost pv = p@;
        out.push(p);
        proof {
            assert(packet_views(out@) =~= before.push(pv));
            assert(before.push(pv).drop_last() =~= before);
            assert(stream@ =~= packets_stream(packet_views(out@)));
            assert(before.push(pv) + packets_gen(cur@, cap, used, n - i - 1).0 =~= before + packets_gen(
                at,
                cap,
                was,
                n - i,
            ).0);
        }
        i = i + 1;
    }
    proof {
        assert(packet_views(out@) + packets_gen(cur@, cap, used, 0).0 =~= packet_views(out@));
    }
    (out, stream)
}

fn push_empty_frame(out: &mut Vec<u8>)
    ensures
        final(out)@ == old(out)@ + (be32(12) + seq![11u8] + Seq::new(11, |i: int| 0u8)),
{
    broadcast use crate::wire_core::bytes::lemma_be32_len;

    put_u32(out, 12);
    out.push(11);
    let mut i: usize = 0;
    while i < 11
        invariant
            i <= 11,
            out@ =~= old(out)@ + (be32(12) + seq![11u8] + Seq::new(i as nat, |j: int| 0u8)),
        decreases 11 - i,
    {
        out.push(0);
        i = i + 1;
    }
}

/// The settings of a test.
#[derive(Debug)]
pub struct InitialCase {
    pub limits: InitialLimits,
    /// Also read the rest as packets.
    pub structured: bool,
    pub mode: ChunkMode,
    pub rest: Vec<u8>,
}

/// The cap that a selector picks; the fifth is in the input.
pub open spec fn cap_for(k: u8, s: Seq<u8>) -> u32 {
    if k == 0 {
        16
    } else if k == 1 {
        64
    } else if k == 2 {
        1024
    } else if k == 3 {
        35_000
    } else if k == 4 {
        65_536
    } else if k == 5 {
        u32_at(s)
    } else if k == 6 {
        65_532
    } else {
        0
    }
}

/// The byte budget that a selector picks; the last is in the input.
pub open spec fn budget_for(k: u8, s: Seq<u8>) -> usize {
    if k == 0 {
        262_144
    } else if k == 1 {
        16
    } else if k == 2 {
        64
    } else if k == 3 {
        1024
    } else {
        u32_at(s) as usize
    }
}

/// A schedule is the one that a selector and a list of sizes pick.
pub open spec fn schedule_holds(m: ChunkMode, sel: u8, list: Seq<u8>) -> bool {
    if sel % 4 == 0 && list.len() > 0 {
        m matches ChunkMode::List(l) && l@.len() == list.len() && forall|i: int|
            0 <= i < list.len() ==> #[trigger] l@[i] == crate::tcp_support::at_least_one(list[i] as int)
    } else if sel % 4 <= 1 {
        m == ChunkMode::Fixed(3)
    } else if sel % 4 == 2 {
        m == ChunkMode::Fixed(64)
    } else {
        m == ChunkMode::Fixed(7)
    }
}

/// A case is what the input says.
pub open spec fn case_holds(s: Seq<u8>, c: InitialCase) -> bool {
    let b0 = byte_at(s, 0);
    let b1 = byte_at(dropped(s, 1), 0);
    let s2 = dropped(dropped(s, 1), 1);
    let s3 = if b0 % 8 == 5 {
        dropped(s2, 4)
    } else {
        s2
    };
    let s4 = if b1 % 5 == 4 {
        dropped(s3, 4)
    } else {
        s3
    };
    let n = (byte_at(s4, 0) % 16) as int;
    let s5 = dropped(s4, 1);
    &&& c.limits.max_packet_length == cap_for(b0 % 8, s2)
    &&& c.limits.max_bytes == budget_for(b1 % 5, s3)
    &&& c.limits.max_packets == (if b0 / 64 == 0 {
        16int
    } else {
        (b0 / 64) as int
    })
    &&& c.structured == bit(b0, 8)
    &&& schedule_holds(c.mode, b0 / 16 % 4, taken(s5, n))
    &&& c.rest@ == dropped(s5, n)
}

/// Reads the settings of a test.
pub fn gen_case(data: &[u8]) -> (r: InitialCase)
    ensures
        case_holds(data@, r),
{
    let mut cur = Cursor::new(data);
    let b0: u8 = cur.u8();
    let b1: u8 = cur.u8();
    let k: u8 = b0 % 8;
    let cap: u32 = if k == 0 {
        16
    } else if k == 1 {
        64
    } else if k == 2 {
        1024
    } else if k == 3 {
        35_000
    } else if k == 4 {
        65_536
    } else if k == 5 {
        cur.u32()
    } else if k == 6 {
        65_532
    } else {
        0
    };
    let max_packets: usize = if b0 / 64 == 0 { 16 } else { (b0 / 64) as usize };
    let m: u8 = b1 % 5;
    let max_bytes: usize = if m == 0 {
        262_144
    } else if m == 1 {
        16
    } else if m == 2 {
        64
    } else if m == 3 {
        1024
    } else {
        cur.u32() as usize
    };
    let n: usize = (cur.u8() % 16) as usize;
    let mode = ChunkMode::from_selector(b0 / 16 % 4, cur.take(n));
    let rest = copy_bytes(cur.rest());
    InitialCase {
        limits: InitialLimits { max_packet_length: cap, max_packets, max_bytes },
        structured: has_bit(b0, 8),
        mode,
        rest,
    }
}

} // verus!
