//! Protected packets of `aes128-gcm@openssh.com` (RFC 5647 layout): sealed
//! streams, what opening a buffer has to give, and what an opening may leave
//! behind.

use vstd::prelude::*;
use crate::handshake::scenario::chunk_is;
use crate::handshake::types::OpenError;
use crate::kex_support::crypto::{
    body_len, gcm_encrypt, gcm_sealed, nonce_of, packet_of, pad_len, padding_len, rng_bytes, rng_state, rng_steps, Gcm, HarnessRng,
};
use crate::seqs::{bit, copy_bytes, has_bit, push_all, same_bytes, tail, vecs};
use crate::tcp_support::msg_ref::cookie_array;
use crate::tcp_support::packet_ref::lemma_u32_prefix;
use crate::tcp_support::{
    byte_at, dropped, filled, filler, taken, taken_filled, u16_at, ChunkMode, Cursor,
};
use crate::wire_core::bytes::{
    be32, be64, be_u32, lemma_be32_len, lemma_u32_write_read, lemma_u64_write_read, put_u32, put_u64, u32_of, u64_of,
};
use vstd::slice::slice_subrange;

verus! {

/// The length of the length field.
pub const LENGTH_LEN: usize = 4;

/// The length of the tag.
pub const TAG_LEN: usize = 16;

/// The block that packets are aligned to, and the least packet.
pub const BLOCK_SIZE: u32 = 16;

/// The payload that frames to exactly 64 KiB.
pub const CAP_PAYLOAD_LEN: usize = 65_531;

/// What opening a buffer has to give.
#[derive(Clone, Copy, Debug, PartialEq, Eq, Structural)]
pub enum Expect {
    /// More bytes: the length of the packet, where it is known.
    NeedMore(Option<usize>),
    /// A packet of the given length.
    Packet { total_len: usize },
    /// An error.
    Refused(OpenError),
}

/// The rules of the length field: the cap, the least packet, the alignment;
/// then the packet is waited for, then the counter counts, then the tag.
pub open spec fn open_expect(buf: Seq<u8>, limit: u32, counter: u64, tag_ok: bool) -> Expect {
    let n = u32_of(buf);
    if buf.len() < 4 {
        Expect::NeedMore(None)
    } else if n > limit {
        Expect::Refused(OpenError::TooLarge { packet_length: n, limit })
    } else if n < 16 {
        Expect::Refused(OpenError::TooSmall { packet_length: n })
    } else if n % 16 != 0 {
        Expect::Refused(OpenError::Misaligned { packet_length: n })
    } else if buf.len() < n + 20 {
        Expect::NeedMore(Some((n + 20) as usize))
    } else if counter == u64::MAX {
        Expect::Refused(OpenError::CounterExhausted)
    } else if tag_ok {
        Expect::Packet { total_len: (n + 20) as usize }
    } else {
        Expect::Refused(OpenError::TagMismatch)
    }
}

/// What opening a buffer has to give, by its length field, the counter of the
/// direction, and whether the tag verifies.
pub fn expect_from_length(buf: &[u8], limit: u32, counter: u64, tag_ok: bool) -> (r: Expect)
    requires
        limit as int + 20 <= usize::MAX,
    ensures
        r == open_expect(buf@, limit, counter, tag_ok),
{
    if buf.len() < LENGTH_LEN {
        return Expect::NeedMore(None);
    }
    let packet_length: u32 = be_u32(buf);
    if packet_length > limit {
        return Expect::Refused(OpenError::TooLarge { packet_length, limit });
    }
    if packet_length < BLOCK_SIZE {
        return Expect::Refused(OpenError::TooSmall { packet_length });
    }
    if packet_length % BLOCK_SIZE != 0 {
        return Expect::Refused(OpenError::Misaligned { packet_length });
    }
    let total_len: usize = LENGTH_LEN + packet_length as usize + TAG_LEN;
    if buf.len() < total_len {
        Expect::NeedMore(Some(total_len))
    } else if counter == u64::MAX {
        Expect::Refused(OpenError::CounterExhausted)
    } else if tag_ok {
        Expect::Packet { total_len }
    } else {
        Expect::Refused(OpenError::TagMismatch)
    }
}

/// The length field of the packet of a payload.
pub open spec fn length_of(payload_len: int) -> int {
    body_len(payload_len)
}

/// The length field of the packet of a payload.
pub fn packet_length_of(payload_len: usize) -> (r: u32)
    requires
        length_of(payload_len as int) <= u32::MAX,
    ensures
        r == length_of(payload_len as int),
        r % 16 == 0,
        r >= 16,
{
    (1 + payload_len + padding_len(payload_len)) as u32
}

/// The packet limit that a selector picks.
pub open spec fn limit_gen(sel: u8, default: u32, s: Seq<u8>) -> (u32, Seq<u8>) {
    let k = sel % 4;
    if k == 0 {
        (default, s)
    } else if k == 1 {
        (1024, s)
    } else if k == 2 {
        (16, s)
    } else {
        (u16_at(s) as u32, dropped(s, 2))
    }
}

/// Reads the packet limit, with the usual one given.
pub fn limits_from(sel: u8, default: u32, cur: &mut Cursor<'_>) -> (r: u32)
    ensures
        (r, final(cur)@) == limit_gen(sel, default, old(cur)@),
{
    match sel % 4 {
        0 => default,
        1 => 1024,
        2 => 16,
        _ => cur.u16() as u32,
    }
}

/// What an opening gave.
#[derive(Debug, PartialEq, Eq)]
pub enum OpenStep<B = Vec<u8>> {
    /// More bytes are needed.
    NeedMore { total_len: Option<usize> },
    /// A packet.
    Packet { payload: B, total_len: usize },
    /// An error.
    Failed(OpenError),
}

impl View for OpenStep<Vec<u8>> {
    type V = OpenStep<Seq<u8>>;

    open spec fn view(&self) -> OpenStep<Seq<u8>> {
        match self {
            OpenStep::NeedMore { total_len } => OpenStep::NeedMore { total_len: *total_len },
            OpenStep::Packet { payload, total_len } => OpenStep::Packet { payload: payload@, total_len: *total_len },
            OpenStep::Failed(e) => OpenStep::Failed(*e),
        }
    }
}

/// A buffer and a direction before an opening: a copy of the bytes where one
/// is kept, the packets so far, the next nonce.
#[derive(Debug)]
pub struct Snapshot<B = Vec<u8>> {
    pub buffer: Option<B>,
    pub packets: u64,
    pub nonce: B,
}

impl View for Snapshot<Vec<u8>> {
    type V = Snapshot<Seq<u8>>;

    open spec fn view(&self) -> Snapshot<Seq<u8>> {
        Snapshot {
            buffer: match self.buffer {
                Some(b) => Some(b@),
                None => None,
            },
            packets: self.packets,
            nonce: self.nonce@,
        }
    }
}

/// Whether a copy of a buffer is kept: wherever the tag might be checked, and
/// of small buffers. Large incomplete ones go without, so that delivery byte
/// by byte stays linear.
pub open spec fn copy_kept(buf: Seq<u8>, limit: u32) -> bool {
    buf.len() <= 512 || (u32_of(buf) <= limit && buf.len() >= u32_of(buf) + 20)
}

/// What is kept of a buffer and a direction before an opening.
pub fn snapshot(buf: &[u8], limit: u32, packets: u64, nonce: &[u8]) -> (r: Snapshot)
    ensures
        r@ == (Snapshot {
            buffer: if copy_kept(buf@, limit) {
                Some(buf@)
            } else {
                None
            },
            packets,
            nonce: nonce@,
        }),
{
    let kept: bool = buf.len() <= 512 || {
        let n: u32 = be_u32(buf);
        n <= limit && buf.len() - LENGTH_LEN >= TAG_LEN && buf.len() - LENGTH_LEN - TAG_LEN >= n as usize
    };
    let buffer: Option<Vec<u8>> = if kept {
        Some(copy_bytes(buf))
    } else {
        None
    };
    Snapshot { buffer, packets, nonce: copy_bytes(nonce) }
}

/// Nothing has changed since the snapshot: no counter value is spent, and
/// where a copy was kept the bytes are as they were.
pub open spec fn untouched(before: Snapshot<Seq<u8>>, buf: Seq<u8>, packets: u64, nonce: Seq<u8>) -> bool {
    &&& before.buffer matches Some(b) ==> buf == b
    &&& packets == before.packets
    &&& nonce == before.nonce
}

/// What an opening may leave behind: a buffer, a number of packets, a next
/// nonce. Unless it gives a packet nothing has changed: no plaintext shows, no
/// counter value is spent. A packet advances the counter once and stands
/// decrypted in its place, with the clear length and the bytes behind it
/// untouched; a copy was kept of every buffer that holds one.
pub open spec fn opening_holds(
    before: Snapshot<Seq<u8>>,
    step: OpenStep<Seq<u8>>,
    buf: Seq<u8>,
    packets: u64,
    nonce: Seq<u8>,
) -> bool {
    match step {
        OpenStep::NeedMore { total_len } => {
            &&& untouched(before, buf, packets, nonce)
            &&& total_len is Some <==> buf.len() >= 4
        },
        OpenStep::Failed(e) => !(e is BadPadding) && untouched(before, buf, packets, nonce),
        OpenStep::Packet { payload, total_len } => {
            &&& packets == before.packets + 1
            &&& nonce != before.nonce
            &&& before.buffer matches Some(b) && decrypted(b, payload, total_len as int, buf)
        },
    }
}

/// A packet stands decrypted in its place.
pub open spec fn decrypted(b: Seq<u8>, payload: Seq<u8>, total_len: int, a: Seq<u8>) -> bool {
    &&& a.len() == b.len()
    &&& 5 + payload.len() <= a.len()
    &&& total_len <= a.len()
    &&& a.take(4) == b.take(4)
    &&& a[4] >= 4
    &&& a.subrange(5, 5 + payload.len() as int) == payload
    &&& 4 + 1 + payload.len() + a[4] + 16 == total_len
    &&& a.skip(total_len) == b.skip(total_len)
}

fn is_untouched(before: &Snapshot, buf: &[u8], packets: u64, nonce: &[u8]) -> (r: bool)
    ensures
        r == untouched(before@, buf@, packets, nonce@),
{
    let kept: bool = match &before.buffer {
        Some(b) => same_bytes(buf, b.as_slice()),
        None => true,
    };
    kept && packets == before.packets && same_bytes(nonce, before.nonce.as_slice())
}

fn is_decrypted(b: &[u8], payload: &[u8], total: usize, a: &[u8]) -> (r: bool)
    ensures
        r == decrypted(b@, payload@, total as int, a@),
{
    if a.len() != b.len() || a.len() < 5 || payload.len() > a.len() - 5 || total > a.len() {
        return false;
    }
    let n: usize = payload.len();
    proof {
        assert(a@.take(4) =~= a@.subrange(0, 4));
        assert(b@.take(4) =~= b@.subrange(0, 4));
    }
    if !same_bytes(slice_subrange(a, 0, 4), slice_subrange(b, 0, 4)) {
        return false;
    }
    let pad: usize = a[4] as usize;
    pad >= 4 && same_bytes(slice_subrange(a, 5, 5 + n), payload) && total >= 21 && total - 21 >= n && total - 21 - n
        == pad && same_bytes(tail(a, total), tail(b, total))
}

/// Whether an opening left behind what it may.
pub fn open_checked(before: &Snapshot, step: &OpenStep, buf: &[u8], packets: u64, nonce: &[u8]) -> (r: bool)
    ensures
        r == opening_holds(before@, step@, buf@, packets, nonce@),
{
    match step {
        OpenStep::NeedMore { total_len } => is_untouched(before, buf, packets, nonce) && total_len.is_some() == (
        buf.len() >= LENGTH_LEN),
        OpenStep::Failed(e) => {
            let bad: bool = match e {
                OpenError::BadPadding { .. } => true,
                _ => false,
            };
            !bad && is_untouched(before, buf, packets, nonce)
        },
        OpenStep::Packet { payload, total_len } => {
            if before.packets == u64::MAX || packets != before.packets + 1 || same_bytes(
                nonce,
                before.nonce.as_slice(),
            ) {
                return false;
            }
            match &before.buffer {
                Some(b) => is_decrypted(b.as_slice(), payload.as_slice(), *total_len, buf),
                None => false,
            }
        },
    }
}

/// The stream of sealed payloads: packet by packet, each under the next
/// counter value and padded with the next bytes of the padding stream.
pub open spec fn stream_of(key: Seq<u8>, fixed: Seq<u8>, counter: u64, rng: u64, payloads: Seq<Seq<u8>>, n: nat) -> Seq<u8>
    decreases n,
{
    if n == 0 || n > payloads.len() {
        Seq::empty()
    } else {
        stream_of(key, fixed, counter, rng, payloads, (n - 1) as nat) + packet_at(key, fixed, counter, rng, payloads, n - 1)
    }
}

/// The state of the padding stream before the `i`-th packet.
pub open spec fn padding_state(rng: u64, payloads: Seq<Seq<u8>>, i: nat) -> u64
    decreases i,
{
    if i == 0 || i > payloads.len() {
        rng
    } else {
        rng_state(
            padding_state(rng, payloads, (i - 1) as nat),
            rng_steps(pad_len(payloads[i - 1].len() as int)),
        )
    }
}

/// The counter before the `i`-th packet.
pub open spec fn counter_at(counter: u64, i: nat) -> u64
    decreases i,
{
    if i == 0 {
        counter
    } else {
        counter_at(counter, (i - 1) as nat).wrapping_add(1)
    }
}

/// The `i`-th packet.
pub open spec fn packet_at(key: Seq<u8>, fixed: Seq<u8>, counter: u64, rng: u64, payloads: Seq<Seq<u8>>, i: int) -> Seq<u8> {
    packet_of(
        key,
        nonce_of(fixed, counter_at(counter, i as nat)),
        payloads[i],
        rng_bytes(padding_state(rng, payloads, i as nat), pad_len(payloads[i].len() as int)),
    )
}

/// A sealed stream: its bytes, and where each packet starts.
#[derive(Debug)]
pub struct Sealed {
    pub stream: Vec<u8>,
    pub starts: Vec<usize>,
}

/// Where the `i`-th packet of sealed payloads starts.
pub open spec fn start_of(payloads: Seq<Seq<u8>>, i: nat) -> int
    decreases i,
{
    if i == 0 || i > payloads.len() {
        0
    } else {
        start_of(payloads, (i - 1) as nat) + 20 + length_of(payloads[i - 1].len() as int)
    }
}

/// Seals every payload, with padding drawn from a seed.
pub fn seal_all(key: &[u8; 16], iv: &[u8; 12], seed: u64, payloads: &Vec<Vec<u8>>) -> (r: Sealed)
    requires
        forall|i: int| 0 <= i < payloads@.len() ==> length_of((#[trigger] payloads@[i])@.len() as int) <= u32::MAX,
        start_of(vecs(payloads@), payloads@.len()) <= usize::MAX,
    ensures
        ({
            let g = vecs(payloads@);
            &&& r.stream@ == stream_of(
                key@,
                iv@.take(4),
                u64_of(iv@.skip(4)),
                seed | 1,
                g,
                g.len(),
            )
            &&& r.stream@.len() == start_of(g, g.len())
            &&& r.starts@.len() == g.len()
            &&& forall|i: int| 0 <= i < g.len() ==> #[trigger] r.starts@[i] == start_of(g, i as nat)
        }),
{
    let mut model = Gcm::new(key, iv);
    let mut rng = HarnessRng::new(seed);
    let mut stream: Vec<u8> = Vec::new();
    let mut starts: Vec<usize> = Vec::new();
    let ghost g = vecs(payloads@);
    let ghost c = u64_of(iv@.skip(4));
    let mut i: usize = 0;
    while i < payloads.len()
        invariant
            i <= payloads@.len(),
            g == vecs(payloads@),
            c == u64_of(iv@.skip(4)),
            forall|k: int|
                0 <= k < payloads@.len() ==> length_of((#[trigger] payloads@[k])@.len() as int) <= u32::MAX,
            start_of(g, g.len()) <= usize::MAX,
            model.key_bytes() == key@,
            model.fixed_bytes() == iv@.take(4),
            model.count() == counter_at(c, i as nat),
            rng.at() == padding_state(seed | 1, g, i as nat),
            rng.spent() <= start_of(g, i as nat),
            stream@ == stream_of(key@, iv@.take(4), c, seed | 1, g, i as nat),
            stream@.len() == start_of(g, i as nat),
            starts@.len() == i,
            forall|k: int| 0 <= k < i ==> #[trigger] starts@[k] == start_of(g, k as nat),
        decreases payloads@.len() - i,
    {
        proof {
            assert(g[i as int] == payloads@[i as int]@);
            lemma_start_rises(g, i as nat + 1, g.len());
        }
        let pad: usize = padding_len(payloads[i].len());
        let padding = rng.fill_bytes(pad);
        let packet = model.seal_with_padding(payloads[i].as_slice(), padding.as_slice());
        starts.push(stream.len());
        push_all(&mut stream, packet.as_slice());
        i = i + 1;
    }
    Sealed { stream, starts }
}

proof fn lemma_start_rises(payloads: Seq<Seq<u8>>, i: nat, j: nat)
    requires
        i <= j <= payloads.len(),
    ensures
        start_of(payloads, i) <= start_of(payloads, j),
    decreases j,
{
    if i < j {
        lemma_start_rises(payloads, i, (j - 1) as nat);
    }
}

/// The first payload whose packet exceeds the limit, or the number of
/// payloads.
pub open spec fn first_too_large(payloads: Seq<Seq<u8>>, limit: u32, i: int) -> int
    decreases payloads.len() - i,
{
    if i < 0 || i >= payloads.len() || length_of(payloads[i].len() as int) > limit {
        i
    } else {
        first_too_large(payloads, limit, i + 1)
    }
}

/// What opening a sealed stream gives: so many payloads, then the error of a
/// packet over the limit, where there is one.
pub fn round_trip(payloads: &Vec<Vec<u8>>, limit: u32) -> (r: (usize, Option<OpenError>))
    requires
        forall|i: int| 0 <= i < payloads@.len() ==> length_of((#[trigger] payloads@[i])@.len() as int) <= u32::MAX,
    ensures
        ({
            let g = vecs(payloads@);
            let k = first_too_large(g, limit, 0);
            &&& r.0 == k
            &&& 0 <= k <= g.len()
            &&& r.1 == (if k < g.len() {
                Some(OpenError::TooLarge { packet_length: length_of(g[k].len() as int) as u32, limit })
            } else {
                None
            })
        }),
{
    let ghost g = vecs(payloads@);
    let mut i: usize = 0;
    while i < payloads.len()
        invariant
            i <= payloads@.len(),
            g == vecs(payloads@),
            forall|k: int|
                0 <= k < payloads@.len() ==> length_of((#[trigger] payloads@[k])@.len() as int) <= u32::MAX,
            first_too_large(g, limit, 0) == first_too_large(g, limit, i as int),
        decreases payloads@.len() - i,
    {
        let packet_length: u32 = packet_length_of(payloads[i].len());
        if packet_length > limit {
            return (i, Some(OpenError::TooLarge { packet_length, limit }));
        }
        i = i + 1;
    }
    (i, None)
}

/// What an opening of a packet with a chosen padding length under a valid tag
/// gives: the payload length, or the error.
pub open spec fn padding_expect(packet_length: int, forged: u8) -> Result<int, OpenError> {
    if forged >= 4 && forged < packet_length {
        Ok(packet_length - 1 - forged)
    } else {
        Err(OpenError::BadPadding { packet_length: packet_length as u32, padding_length: forged })
    }
}

/// A packet with a chosen padding length under a valid tag.
pub open spec fn forged_packet(key: Seq<u8>, iv: Seq<u8>, payload: Seq<u8>, forged: u8) -> Seq<u8> {
    let aad = be32(length_of(payload.len() as int) as u32);
    let body = seq![forged] + payload + Seq::new(pad_len(payload.len() as int) as nat, |i: int| 0u8);
    let (cipher, tag) = gcm_sealed(key, iv, aad, body);
    aad + cipher + tag
}

/// Builds a packet with a chosen padding length under a valid tag, with what
/// opening it gives.
pub fn forge_padding(key: &[u8; 16], iv: &[u8; 12], payload: &[u8], forged: u8) -> (r: (Vec<u8>, Result<usize, OpenError>))
    requires
        length_of(payload@.len() as int) <= u32::MAX,
    ensures
        r.0@ == forged_packet(key@, iv@, payload@, forged),
        r.0@.len() == 20 + length_of(payload@.len() as int),
        match padding_expect(length_of(payload@.len() as int), forged) {
            Ok(n) => r.1 matches Ok(m) && m == n,
            Err(e) => r.1 == Err::<usize, OpenError>(e),
        },
{
    let packet_length: u32 = packet_length_of(payload.len());
    let pad: usize = padding_len(payload.len());
    let mut out: Vec<u8> = Vec::new();
    put_u32(&mut out, packet_length);
    let aad = copy_bytes(out.as_slice());
    let mut body: Vec<u8> = Vec::new();
    body.push(forged);
    push_all(&mut body, payload);
    let mut i: usize = 0;
    let ghost front = body@;
    while i < pad
        invariant
            i <= pad,
            body@ =~= front + Seq::new(i as nat, |k: int| 0u8),
        decreases pad - i,
    {
        body.push(0);
        i = i + 1;
    }
    proof {
        assert(aad@ =~= be32(packet_length));
        assert(body@ =~= seq![forged] + payload@ + Seq::new(pad as nat, |k: int| 0u8));
        lemma_be32_len(packet_length);
    }
    let (cipher, tag) = gcm_encrypt(key, iv, aad.as_slice(), body);
    push_all(&mut out, cipher.as_slice());
    push_all(&mut out, tag.as_slice());
    let expect = if forged >= 4 && (forged as u32) < packet_length {
        Ok((packet_length - 1 - forged as u32) as usize)
    } else {
        Err(OpenError::BadPadding { packet_length, padding_length: forged })
    };
    (out, expect)
}

/// The nonce that leaves `k` packets before the counter is exhausted.
pub fn boundary_iv(iv: &[u8; 12], k: u8) -> (r: Vec<u8>)
    ensures
        r@ == nonce_of(iv@.take(4), (u64::MAX - k) as u64),
        r@.len() == 12,
{
    let mut out: Vec<u8> = Vec::new();
    push_all(&mut out, slice_subrange(iv.as_slice(), 0, 4));
    put_u64(&mut out, u64::MAX - k as u64);
    proof {
        lemma_u64_write_read((u64::MAX - k) as u64);
        assert(out@ =~= nonce_of(iv@.take(4), (u64::MAX - k) as u64));
    }
    out
}

/// The length claims that are tried: one over the limit, the largest, too
/// small ones, misaligned ones, the limit itself, and a given one.
pub open spec fn claims_of(limit: u32, given: Seq<u8>) -> Seq<Seq<u8>> {
    (if limit < u32::MAX {
        seq![be32((limit + 1) as u32), be32(u32::MAX)]
    } else {
        Seq::empty()
    }) + seq![be32(0), be32(1), be32(4), be32(15), be32(17), be32(24), be32(31), be32(100), be32(limit), given]
}

fn be_vec(v: u32) -> (r: Vec<u8>)
    ensures
        r@ == be32(v),
{
    let mut out: Vec<u8> = Vec::new();
    put_u32(&mut out, v);
    proof {
        assert(out@ =~= be32(v));
    }
    out
}

/// The length claims that are tried.
pub fn length_claims(limit: u32, given: &[u8]) -> (r: Vec<Vec<u8>>)
    ensures
        vecs(r@) == claims_of(limit, given@),
{
    let mut out: Vec<Vec<u8>> = Vec::new();
    if limit < u32::MAX {
        out.push(be_vec(limit + 1));
        out.push(be_vec(u32::MAX));
    }
    out.push(be_vec(0));
    out.push(be_vec(1));
    out.push(be_vec(4));
    out.push(be_vec(15));
    out.push(be_vec(17));
    out.push(be_vec(24));
    out.push(be_vec(31));
    out.push(be_vec(100));
    out.push(be_vec(limit));
    out.push(copy_bytes(given));
    proof {
        assert(vecs(out@) =~= claims_of(limit, given@));
    }
    out
}

/// A claim over the limit is refused at once, a packet is never given for a
/// length field alone, and neither the counter nor the tag matters before the
/// packet is complete.
pub proof fn lemma_length_rules(claim: u32, limit: u32, counter: u64, tag_ok: bool)
    ensures
        open_expect(be32(claim), limit, counter, tag_ok) == (if claim > limit {
            Expect::Refused(OpenError::TooLarge { packet_length: claim, limit })
        } else if claim < 16 {
            Expect::Refused(OpenError::TooSmall { packet_length: claim })
        } else if claim % 16 != 0 {
            Expect::Refused(OpenError::Misaligned { packet_length: claim })
        } else {
            Expect::NeedMore(Some((claim + 20) as usize))
        }),
{
    lemma_be32_len(claim);
    lemma_u32_write_read(claim);
}

/// Every proper prefix of a sealed packet within the limit waits for more, and
/// for exactly the packet from its length field on; whole, it is a packet, or
/// refused where the counter is exhausted.
pub proof fn lemma_prefix_waits(packet: Seq<u8>, payload_len: int, limit: u32, cut: int, counter: u64)
    requires
        0 <= payload_len,
        length_of(payload_len) <= limit,
        packet.len() == length_of(payload_len) + 20,
        u32_of(packet) == length_of(payload_len),
        0 <= cut <= packet.len(),
    ensures
        open_expect(packet.take(cut), limit, counter, true) == (if cut < 4 {
            Expect::NeedMore(None)
        } else if cut < packet.len() {
            Expect::NeedMore(Some(packet.len() as usize))
        } else if counter == u64::MAX {
            Expect::Refused(OpenError::CounterExhausted)
        } else {
            Expect::Packet { total_len: packet.len() as usize }
        }),
{
    let n = length_of(payload_len);
    assert(n % 16 == 0 && n >= 16) by {
        lemma_aligned(payload_len);
    }
    if cut >= 4 {
        lemma_u32_prefix(packet, packet.take(cut));
    }
}

/// From the nonce that leaves `k` packets: the counter of the `i`-th packet is
/// exhausted at the `k`-th and not before, so that exactly `k` open.
pub proof fn lemma_counter_boundary(iv: Seq<u8>, k: u8, i: int, packet: Seq<u8>, payload_len: int, limit: u32)
    requires
        iv.len() == 12,
        0 <= i <= k,
        0 <= payload_len,
        length_of(payload_len) <= limit,
        packet.len() == length_of(payload_len) + 20,
        u32_of(packet) == length_of(payload_len),
    ensures
        ({
            let start = u64_of(nonce_of(iv.take(4), (u64::MAX - k) as u64).skip(4));
            open_expect(packet, limit, (start + i) as u64, true) == (if i < k {
                Expect::Packet { total_len: packet.len() as usize }
            } else {
                Expect::Refused(OpenError::CounterExhausted)
            })
        }),
{
    let first = (u64::MAX - k) as u64;
    lemma_u64_write_read(first);
    assert(nonce_of(iv.take(4), first).skip(4) =~= be64(first));
    lemma_prefix_waits(packet, payload_len, limit, packet.len() as int, (first + i) as u64);
    assert(packet.take(packet.len() as int) =~= packet);
}

proof fn lemma_aligned(p: int)
    requires
        p >= 0,
    ensures
        length_of(p) % 16 == 0,
        length_of(p) >= 16,
{
    let q = (1 + p) / 16;
    let m = (1 + p) % 16;
    assert(1 + p == 16 * q + m);
    if 16 - m < 4 {
        assert(length_of(p) == 16 * (q + 2));
    } else {
        assert(length_of(p) == 16 * (q + 1));
    }
}

/// A change behind the length field leaves a tag mismatch as the only error of
/// a complete packet within the limit.
pub proof fn lemma_body_change(buf: Seq<u8>, at: int, b: u8, limit: u32, counter: u64)
    requires
        4 <= at < buf.len(),
        open_expect(buf, limit, counter, true) is Packet,
    ensures
        open_expect(buf.update(at, b), limit, counter, false) == Expect::Refused(OpenError::TagMismatch),
{
    let w = buf.update(at, b);
    assert(w.take(4) =~= buf.take(4));
    lemma_u32_prefix(w, w.take(4));
    lemma_u32_prefix(buf, buf.take(4));
}

/// The first `n` payloads: a length below 1200, then the bytes.
pub open spec fn payloads_gen(s: Seq<u8>, n: nat) -> (Seq<Seq<u8>>, Seq<u8>)
    decreases n,
{
    if n == 0 {
        (Seq::empty(), s)
    } else {
        let (v, s1) = payloads_gen(s, (n - 1) as nat);
        let len = u16_at(s1) as int % 1200;
        (v.push(taken_filled(dropped(s1, 2), len, (99 + n) as u32)), dropped(dropped(s1, 2), len))
    }
}

fn gen_payloads(cur: &mut Cursor<'_>, n: u8) -> (r: Vec<Vec<u8>>)
    requires
        n <= 5,
    ensures
        (vecs(r@), final(cur)@) == payloads_gen(old(cur)@, n as nat),
        r@.len() == n,
        forall|i: int| 0 <= i < r@.len() ==> (#[trigger] r@[i])@.len() < 1200,
{
    let mut out: Vec<Vec<u8>> = Vec::new();
    let ghost s = cur@;
    let mut i: u8 = 0;
    proof {
        assert(vecs(out@) =~= Seq::empty());
    }
    while i < n
        invariant
            i <= n <= 5,
            s == old(cur)@,
            out@.len() == i,
            vecs(out@) == payloads_gen(s, i as nat).0,
            cur@ == payloads_gen(s, i as nat).1,
            forall|k: int| 0 <= k < out@.len() ==> (#[trigger] out@[k])@.len() < 1200,
        decreases n - i,
    {
        let len: usize = cur.u16() as usize % 1200;
        let p = cur.take_filled(len, 100 + i as u32);
        let ghost before = vecs(out@);
        let ghost x = p@;
        out.push(p);
        proof {
            assert(vecs(out@) =~= before.push(x));
        }
        i = i + 1;
    }
    out
}

/// Everything that one run is drawn from.
#[derive(Debug)]
pub struct GcmCase {
    /// Selects the parts of the run.
    pub flags: u8,
    /// The key.
    pub key: [u8; 16],
    /// The first nonce, its counter below the upper half.
    pub iv: [u8; 12],
    /// The seed of the padding.
    pub pad_seed: u8,
    /// The packet limit.
    pub limit: u32,
    /// The payloads.
    pub payloads: Vec<Vec<u8>>,
    /// How the stream is fed.
    pub mode: ChunkMode,
    /// Selects the changed byte.
    pub mut_sel: u8,
    /// What the changed byte is changed by.
    pub xor: u8,
    /// A length claim.
    pub claim: Vec<u8>,
    /// Packets left before the counter is exhausted.
    pub counter_k: u8,
    /// A padding length.
    pub forged_padding: u8,
    /// A raw stream.
    pub raw: Vec<u8>,
}

/// The parts of a run behind its payloads.
pub open spec fn case_tail(s: Seq<u8>, c: GcmCase) -> bool {
    let k = byte_at(s, 0) as int % 8;
    let s1 = dropped(s, 1);
    let s2 = dropped(s1, k);
    let s3 = dropped(s2, 1);
    let s4 = dropped(s3, 1);
    let s5 = dropped(s4, 4);
    let s6 = dropped(s5, 1);
    &&& chunk_is(c.mode, c.flags / 16, taken(s1, k))
    &&& c.mut_sel == byte_at(s2, 0)
    &&& c.xor == byte_at(s3, 0) | 1
    &&& c.claim@ == taken_filled(s4, 4, 9)
    &&& c.counter_k == byte_at(s5, 0) % 4
    &&& c.forged_padding == byte_at(s6, 0)
    &&& c.raw@ == dropped(s6, 1)
}

/// A run is what the input says.
pub open spec fn gcm_case_holds(s: Seq<u8>, default: u32, c: GcmCase) -> bool {
    let s1 = dropped(s, 1);
    let iv = taken_filled(dropped(s1, 16), 12, 5);
    let s3 = dropped(dropped(s1, 16), 12);
    let (limit, s4) = limit_gen(c.flags, default, dropped(s3, 1));
    let (payloads, s5) = payloads_gen(dropped(s4, 1), (byte_at(s4, 0) % 6) as nat);
    &&& c.flags == byte_at(s, 0)
    &&& c.key@ == taken_filled(s1, 16, 3)
    &&& c.iv@ == iv.update(4, (iv[4] % 128) as u8)
    &&& c.pad_seed == byte_at(s3, 0)
    &&& c.limit == limit
    &&& vecs(c.payloads@) == (if bit(c.flags, 8) {
        payloads.push(filled(CAP_PAYLOAD_LEN as int, 77))
    } else {
        payloads
    })
    &&& case_tail(s5, c)
}

/// Draws a run, with the usual packet limit given.
pub fn gen_gcm_case(data: &[u8], default: u32) -> (r: GcmCase)
    ensures
        gcm_case_holds(data@, default, r),
        r.payloads@.len() <= 6,
        forall|i: int| 0 <= i < r.payloads@.len() ==> (#[trigger] r.payloads@[i])@.len() <= CAP_PAYLOAD_LEN,
{
    let mut cur = Cursor::new(data);
    let flags: u8 = cur.u8();
    let key = cookie_array(cur.take_filled(16, 3).as_slice());
    let given = cur.take_filled(12, 5);
    let iv: [u8; 12] = [
        given[0],
        given[1],
        given[2],
        given[3],
        given[4] % 128,
        given[5],
        given[6],
        given[7],
        given[8],
        given[9],
        given[10],
        given[11],
    ];
    proof {
        assert(iv@ =~= given@.update(4, (given@[4] % 128) as u8));
    }
    let pad_seed: u8 = cur.u8();
    let limit: u32 = limits_from(flags, default, &mut cur);
    let n: u8 = cur.u8() % 6;
    let mut payloads = gen_payloads(&mut cur, n);
    if has_bit(flags, 8) {
        let ghost before = vecs(payloads@);
        payloads.push(filler(CAP_PAYLOAD_LEN, 77));
        proof {
            assert(vecs(payloads@) =~= before.push(filled(CAP_PAYLOAD_LEN as int, 77)));
        }
    }
    let n_sched: usize = cur.u8() as usize % 8;
    let sched = cur.take(n_sched);
    let mode = ChunkMode::from_selector(flags / 16, sched);
    let mut_sel: u8 = cur.u8();
    let xor: u8 = cur.u8() | 1;
    let claim = cur.take_filled(4, 9);
    let counter_k: u8 = cur.u8() % 4;
    let forged_padding: u8 = cur.u8();
    let raw = copy_bytes(cur.rest());
    GcmCase {
        flags,
        key,
        iv,
        pad_seed,
        limit,
        payloads,
        mode,
        mut_sel,
        xor,
        claim,
        counter_k,
        forged_padding,
        raw,
    }
}

/// The payload that frames to the 64 KiB cap does so exactly.
pub proof fn lemma_cap_payload()
    ensures
        length_of(CAP_PAYLOAD_LEN as int) == 65_536,
{
}

} // verus!
