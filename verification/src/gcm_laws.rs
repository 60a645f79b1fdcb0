//! What opening and sealing protected packets decide, in which order, and what
//! they leave behind.

use vstd::prelude::*;
use crate::gcm_packets::{
    counter_at, open_expect, opening_holds, padding_state, start_of, stream_of, Expect, OpenStep, Snapshot,
};
use crate::handshake::types::OpenError;
use crate::kex_support::crypto::{
    gcm_opened, gcm_sealed, packet_of, packet_opened, pad_len, rng_bytes, rng_state, rng_steps,
};
use crate::wire_core::bytes::{be32, be64, u32_of};

verus! {

/// What each buffer is decided as. The length is judged by its cap, then as too
/// small, then as misaligned; a length that keeps to the rules is waited for;
/// then the counter is asked, and last the tag.
pub proof fn lemma_opening_decided(buf: Seq<u8>, limit: u32, counter: u64, tag_ok: bool)
    requires
        limit + 20 <= usize::MAX,
    ensures
        ({
            let n = u32_of(buf);
            let e = open_expect(buf, limit, counter, tag_ok);
            let regular = buf.len() >= 4 && 16 <= n <= limit && n % 16 == 0;
            &&& e == Expect::NeedMore(None) <==> buf.len() < 4
            &&& e is Refused && e->Refused_0 is TooLarge <==> buf.len() >= 4 && n > limit
            &&& e is Refused && e->Refused_0 is TooSmall <==> buf.len() >= 4 && n <= limit && n < 16
            &&& e is Refused && e->Refused_0 is Misaligned <==> buf.len() >= 4 && 16 <= n <= limit && n % 16 != 0
            &&& e matches Expect::Refused(OpenError::TooLarge { packet_length, limit: l }) ==> packet_length == n && l
                == limit
            &&& e matches Expect::Refused(OpenError::TooSmall { packet_length }) ==> packet_length == n
            &&& e matches Expect::Refused(OpenError::Misaligned { packet_length }) ==> packet_length == n
            &&& e matches Expect::NeedMore(Some(t)) ==> regular && t == n + 20 && buf.len() < t
            &&& regular && buf.len() < n + 20 ==> e is NeedMore
            &&& e == Expect::Refused(OpenError::CounterExhausted) <==> regular && buf.len() >= n + 20 && counter
                == u64::MAX
            &&& e == Expect::Refused(OpenError::TagMismatch) <==> regular && buf.len() >= n + 20 && counter < u64::MAX
                && !tag_ok
            &&& e is Packet <==> regular && buf.len() >= n + 20 && counter < u64::MAX && tag_ok
            &&& e matches Expect::Packet { total_len } ==> total_len == n + 20
        }),
{
}

/// Whatever is no packet leaves everything as it was; a packet is one more, with
/// another nonce, and stands open in its place: the length untouched, then the
/// padding length, the payload, the padding, the tag, and behind them what was
/// there.
pub proof fn lemma_opening_left(
    before: Snapshot<Seq<u8>>,
    step: OpenStep<Seq<u8>>,
    buf: Seq<u8>,
    packets: u64,
    nonce: Seq<u8>,
)
    ensures
        !(step is Packet) && opening_holds(before, step, buf, packets, nonce) ==> packets == before.packets && nonce
            == before.nonce && (before.buffer matches Some(b) ==> buf == b),
        step is NeedMore && opening_holds(before, step, buf, packets, nonce) ==> (step->NeedMore_total_len is Some
            <==> buf.len() >= 4),
        step is Failed && opening_holds(before, step, buf, packets, nonce) ==> !(step->Failed_0 is BadPadding),
        step matches OpenStep::Packet { payload, total_len } ==> opening_holds(before, step, buf, packets, nonce) ==> {
            &&& packets == before.packets + 1
            &&& nonce != before.nonce
            &&& before.buffer is Some
            &&& before.buffer matches Some(b) ==> buf.len() == b.len() && buf.take(4) == b.take(4) && buf.skip(
                total_len as int,
            ) == b.skip(total_len as int)
            &&& buf.subrange(5, 5 + payload.len() as int) == payload
            &&& buf[4] >= 4
            &&& total_len == 21 + payload.len() + buf[4]
            &&& total_len <= buf.len()
        },
        step is NeedMore && packets == before.packets && nonce == before.nonce && before.buffer == Some(buf) && (
        step->NeedMore_total_len is Some <==> buf.len() >= 4) ==> opening_holds(before, step, buf, packets, nonce),
        step is Failed && !(step->Failed_0 is BadPadding) && packets == before.packets && nonce == before.nonce
            && before.buffer == Some(buf) ==> opening_holds(before, step, buf, packets, nonce),
{
}

/// A packet that opens: the tag is checked over the clear length and the sealed
/// body, and of the opened body the first byte says how much of its end is
/// padding, at least four bytes.
pub proof fn lemma_opened_parts(key: Seq<u8>, nonce: Seq<u8>, buf: Seq<u8>)
    ensures
        packet_opened(key, nonce, buf) matches Some((payload, total)) ==> {
            let n = u32_of(buf) as int;
            let body = gcm_opened(key, nonce, buf.take(4), buf.subrange(4, 4 + n), buf.subrange(4 + n, 20 + n));
            &&& total == n + 20
            &&& buf.len() >= total
            &&& body is Some
            &&& 4 <= body->0[0] < n
            &&& payload == body->0.subrange(1, n - body->0[0])
        },
        buf.len() < 4 || buf.len() < u32_of(buf) + 20 ==> packet_opened(key, nonce, buf) is None,
{
}

/// A sealed packet: the clear length, which is authenticated, then the sealed
/// padding length, payload and padding, then the tag.
pub proof fn lemma_sealed_parts(key: Seq<u8>, nonce: Seq<u8>, payload: Seq<u8>, padding: Seq<u8>)
    ensures
        ({
            let length = be32((1 + payload.len() + padding.len()) as u32);
            let s = gcm_sealed(key, nonce, length, seq![padding.len() as u8] + payload + padding);
            packet_of(key, nonce, payload, padding) == length + s.0 + s.1
        }),
{
}

/// The counter of the `i`-th packet lies `i` above the first.
pub proof fn lemma_counter_rises(counter: u64, i: nat)
    ensures
        counter + i <= u64::MAX ==> counter_at(counter, i) == counter + i,
        counter_at(counter, i + 1) == counter_at(counter, i).wrapping_add(1),
        counter_at(counter, 0) == counter,
    decreases i,
{
    if i > 0 {
        lemma_counter_rises(counter, (i - 1) as nat);
    }
}

/// A stream of sealed payloads grows by one packet a payload: under the fixed
/// part of the nonce and the next counter, with as much padding as the payload
/// needs, drawn where the packet before it stopped.
pub proof fn lemma_stream_grows(
    key: Seq<u8>,
    fixed: Seq<u8>,
    counter: u64,
    rng: u64,
    payloads: Seq<Seq<u8>>,
    n: nat,
)
    requires
        n < payloads.len(),
        counter + n <= u64::MAX,
    ensures
        stream_of(key, fixed, counter, rng, payloads, 0).len() == 0,
        stream_of(key, fixed, counter, rng, payloads, n + 1) == stream_of(key, fixed, counter, rng, payloads, n)
            + packet_of(
            key,
            fixed + be64((counter + n) as u64),
            payloads[n as int],
            rng_bytes(padding_state(rng, payloads, n), pad_len(payloads[n as int].len() as int)),
        ),
        padding_state(rng, payloads, n + 1) == rng_state(
            padding_state(rng, payloads, n),
            rng_steps(pad_len(payloads[n as int].len() as int)),
        ),
        padding_state(rng, payloads, 0) == rng,
        start_of(payloads, 0) == 0,
        start_of(payloads, n + 1) == start_of(payloads, n) + 21 + payloads[n as int].len() + pad_len(
            payloads[n as int].len() as int,
        ),
{
    lemma_counter_rises(counter, n);
}

} // verus!
