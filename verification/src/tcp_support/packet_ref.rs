//! Framing of initial (unprotected) packets: header rules and slicing.

use core::ops::Range;
use vstd::prelude::*;
use crate::tcp_support::types::PacketError;
use crate::seqs::push_all;
use crate::wire_core::bytes::{be32, be_u32, lemma_u32_write_read, put_u32, u32_of};

verus! {

/// The outcome of decoding the front of a buffer; slices are ranges into it.
#[derive(Debug, PartialEq, Eq)]
#[allow(inconsistent_fields)]
pub enum RefStep {
    NeedMore { total_len: Option<u64> },
    Complete { payload: Range<usize>, padding: Range<usize>, total_len: usize },
}

/// What the length field alone decides: the packet's length with the field,
/// or the first of the cap, the minimum and the alignment rule it breaks.
pub open spec fn header_rule(packet_length: u32, cap: u32) -> Result<int, PacketError> {
    if packet_length > cap {
        Err(PacketError::TooLarge { packet_length, limit: cap })
    } else if packet_length + 4 < 16 {
        Err(PacketError::TooSmall { packet_length })
    } else if (packet_length + 4) % 8 != 0 {
        Err(PacketError::Misaligned { packet_length })
    } else {
        Ok(packet_length + 4)
    }
}

/// A packet at the front of a buffer, by the lengths of its parts.
pub ghost enum Framing {
    NeedMore { claimed: Option<int> },
    Complete { payload_len: int, total_len: int },
}

impl RefStep {
    /// The step says what `f` says.
    pub open spec fn says(self, f: Framing) -> bool {
        match (self, f) {
            (RefStep::NeedMore { total_len }, Framing::NeedMore { claimed: t }) => match (total_len, t) {
                (None, None) => true,
                (Some(a), Some(b)) => a == b,
                _ => false,
            },
            (RefStep::Complete { payload, padding, total_len }, Framing::Complete { payload_len, total_len: t }) => {
                &&& payload.start == 5 && payload.end == 5 + payload_len
                &&& padding.start == 5 + payload_len && padding.end == t
                &&& total_len == t
            },
            _ => false,
        }
    }
}

/// What the front of `buf` is under `cap`.
pub open spec fn framing(buf: Seq<u8>, cap: u32) -> Result<Framing, PacketError> {
    if buf.len() < 4 {
        Ok(Framing::NeedMore { claimed: None })
    } else {
        match header_rule(u32_of(buf), cap) {
            Err(e) => Err(e),
            Ok(total) => if buf.len() < 5 {
                Ok(Framing::NeedMore { claimed: Some(total) })
            } else if buf[4] < 4 || total - 4 < buf[4] + 1 {
                Err(PacketError::BadPadding { packet_length: (total - 4) as u32, padding_length: buf[4] })
            } else if buf.len() < total {
                Ok(Framing::NeedMore { claimed: Some(total) })
            } else {
                Ok(Framing::Complete { payload_len: total - 5 - buf[4], total_len: total })
            },
        }
    }
}

/// Rules that need only the four-byte length field, in the documented
/// precedence: cap, minimum size, alignment. Returns the total length.
pub fn header(len_bytes: [u8; 4], cap: u32) -> (r: Result<u64, PacketError>)
    ensures
        match header_rule(u32_of(len_bytes@), cap) {
            Ok(t) => r matches Ok(v) && v == t,
            Err(e) => r == Err::<u64, PacketError>(e),
        },
{
    let packet_length: u32 = be_u32(len_bytes.as_slice());
    if packet_length > cap {
        return Err(PacketError::TooLarge { packet_length, limit: cap });
    }
    let total: u64 = packet_length as u64 + 4;
    if total < 16 {
        return Err(PacketError::TooSmall { packet_length });
    }
    if total % 8 != 0 {
        return Err(PacketError::Misaligned { packet_length });
    }
    Ok(total)
}

/// Decodes the packet at the front of `buf`.
pub fn decode(buf: &[u8], cap: u32) -> (r: Result<RefStep, PacketError>)
    ensures
        match framing(buf@, cap) {
            Ok(f) => r matches Ok(s) && s.says(f),
            Err(e) => r matches Err(x) && x == e,
        },
{
    if buf.len() < 4 {
        return Ok(RefStep::NeedMore { total_len: None });
    }
    let len_bytes = [buf[0], buf[1], buf[2], buf[3]];
    proof {
        lemma_u32_prefix(len_bytes@, buf@);
    }
    let total_len: u64 = match header(len_bytes, cap) {
        Ok(t) => t,
        Err(e) => {
            return Err(e);
        },
    };
    if buf.len() < 5 {
        return Ok(RefStep::NeedMore { total_len: Some(total_len) });
    }
    let packet_length: u64 = total_len - 4;
    let padding_length: u64 = buf[4] as u64;
    if padding_length < 4 || packet_length < padding_length + 1 {
        return Err(PacketError::BadPadding { packet_length: packet_length as u32, padding_length: buf[4] });
    }
    if (buf.len() as u64) < total_len {
        return Ok(RefStep::NeedMore { total_len: Some(total_len) });
    }
    let payload_len: usize = (packet_length - padding_length - 1) as usize;
    let total_len: usize = total_len as usize;
    Ok(
        RefStep::Complete {
            payload: Range { start: 5, end: 5 + payload_len },
            padding: Range { start: 5 + payload_len, end: total_len },
            total_len,
        },
    )
}

/// The number at the front depends on the first four bytes alone.
pub proof fn lemma_u32_prefix(a: Seq<u8>, b: Seq<u8>)
    requires
        a.len() >= 4,
        b.len() >= 4,
        forall|i: int| 0 <= i < 4 ==> a[i] == b[i],
    ensures
        u32_of(a) == u32_of(b),
{
    reveal(u32_of);
}

/// The padding that aligns a payload with the fewest bytes.
pub open spec fn padding_for(payload_len: int) -> int {
    let short = (8 - (5 + payload_len) % 8) % 8;
    if short < 4 {
        short + 8
    } else {
        short
    }
}

/// Smallest padding `p >= 4` with `(5 + payload_len + p) % 8 == 0`, found by
/// search.
pub fn minimal_padding(payload_len: usize) -> (r: usize)
    requires
        payload_len <= usize::MAX - 16,
    ensures
        4 <= r < 12,
        (5 + payload_len + r) % 8 == 0,
        forall|p: int| 4 <= p < r ==> #[trigger] ((5 + payload_len + p) % 8) != 0,
        r == padding_for(payload_len as int),
{
    let mut p: usize = 4;
    while (5 + payload_len + p) % 8 != 0
        invariant
            4 <= p <= padding_for(payload_len as int),
            payload_len <= usize::MAX - 16,
            forall|q: int| 4 <= q < p ==> #[trigger] ((5 + payload_len + q) % 8) != 0,
        decreases 12 - p,
    {
        p = p + 1;
    }
    p
}

/// Total framed size of a payload with minimal padding.
pub fn framed_len(payload_len: usize) -> (r: usize)
    requires
        payload_len <= usize::MAX - 16,
    ensures
        r == 5 + payload_len + padding_for(payload_len as int),
        r % 8 == 0,
{
    5 + payload_len + minimal_padding(payload_len)
}

/// `p` is a packet length that the size and alignment rules accept.
pub open spec fn regular_length(p: int) -> bool {
    p >= 12 && (p + 4) % 8 == 0
}

/// The largest regular packet length up to `cap`.
pub open spec fn max_length(cap: int) -> Option<int> {
    if cap >= 12 {
        Some(cap - (cap + 4) % 8)
    } else {
        None
    }
}

/// Largest `packet_length` accepted under `cap` that also satisfies the size
/// and alignment rules, if any.
pub fn max_packet_length(cap: u32) -> (r: Option<u32>)
    ensures
        match r {
            Some(pl) => pl <= cap && regular_length(pl as int) && forall|q: int|
                #[trigger] regular_length(q) && q <= cap ==> q <= pl,
            None => forall|q: int| #[trigger] regular_length(q) ==> q > cap,
        },
        match max_length(cap as int) {
            Some(n) => r matches Some(pl) && pl == n,
            None => r is None,
        },
{
    let misalignment: u32 = ((cap as u64 + 4) % 8) as u32;
    if cap < misalignment {
        return None;
    }
    let pl: u32 = cap - misalignment;
    if pl >= 12 {
        Some(pl)
    } else {
        None
    }
}


/// A payload in its frame: length, padding length, payload, padding.
pub open spec fn framed(payload: Seq<u8>, pad_byte: u8) -> Seq<u8> {
    let pad = padding_for(payload.len() as int);
    be32((1 + payload.len() + pad) as u32) + seq![pad as u8] + payload + Seq::new(
        pad as nat,
        |i: int| pad_byte,
    )
}

/// Frames a payload with minimal padding of the given byte.
pub fn encode_initial_packet(payload: &[u8], pad_byte: u8) -> (r: Vec<u8>)
    requires
        payload@.len() <= u32::MAX - 16,
    ensures
        r@ == framed(payload@, pad_byte),
        r@.len() % 8 == 0,
{
    let pad: usize = minimal_padding(payload.len());
    let mut out: Vec<u8> = Vec::new();
    put_u32(&mut out, (1 + payload.len() + pad) as u32);
    out.push(pad as u8);
    push_all(&mut out, payload);
    let ghost sofar = out@;
    let mut i: usize = 0;
    while i < pad
        invariant
            i <= pad,
            out@ == sofar + Seq::new(i as nat, |j: int| pad_byte),
        decreases pad - i,
    {
        out.push(pad_byte);
        i = i + 1;
        proof {
            assert(out@ =~= sofar + Seq::new(i as nat, |j: int| pad_byte));
        }
    }
    proof {
        broadcast use crate::wire_core::bytes::lemma_be32_len;

        assert(out@ =~= framed(payload@, pad_byte));
    }
    out
}

/// A frame decodes to its payload whatever follows it, where the cap admits
/// it; over the cap it is rejected from the length field alone.
pub proof fn lemma_framed_decodes(payload: Seq<u8>, pad_byte: u8, more: Seq<u8>, cap: u32)
    requires
        payload.len() <= u32::MAX - 16,
    ensures
        ({
            let f = framed(payload, pad_byte);
            let packet_length = (f.len() - 4) as u32;
            &&& f.len() == 5 + payload.len() + padding_for(payload.len() as int)
            &&& f.subrange(5, 5 + payload.len() as int) == payload
            &&& u32_of(f + more) == packet_length
            &&& packet_length <= cap ==> framing(f + more, cap) == Ok::<Framing, PacketError>(
                Framing::Complete { payload_len: payload.len() as int, total_len: f.len() as int },
            )
            &&& packet_length > cap ==> framing(f + more, cap) == Err::<Framing, PacketError>(
                PacketError::TooLarge { packet_length, limit: cap },
            )
        }),
{
    broadcast use crate::wire_core::bytes::lemma_be32_len;

    let f = framed(payload, pad_byte);
    let pad = padding_for(payload.len() as int);
    let n = (1 + payload.len() + pad) as u32;
    lemma_u32_write_read(n);
    lemma_u32_prefix(f + more, be32(n));
    assert((f + more)[4] == pad as u8);
    assert(f.subrange(5, 5 + payload.len() as int) =~= payload);
}

/// A proper prefix of an acceptable frame asks for more: nothing of a packet
/// is decided before its last byte, except that it is refused.
pub proof fn lemma_framed_prefix(payload: Seq<u8>, pad_byte: u8, n: int, cap: u32)
    requires
        payload.len() <= u32::MAX - 16,
        framed(payload, pad_byte).len() - 4 <= cap,
        0 <= n < framed(payload, pad_byte).len(),
    ensures
        framing(framed(payload, pad_byte).take(n), cap) matches Ok(f) && f is NeedMore,
{
    broadcast use crate::wire_core::bytes::lemma_be32_len;

    let f = framed(payload, pad_byte);
    lemma_framed_decodes(payload, pad_byte, Seq::empty(), cap);
    assert(f + Seq::<u8>::empty() =~= f);
    if n >= 4 {
        lemma_u32_prefix(f.take(n), f);
    }
}

} // verus!
