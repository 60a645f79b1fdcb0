//! Messages drawn from raw bytes, changes to their payloads, and what must
//! become of a changed payload.

use vstd::prelude::*;
use crate::seqs::{copy_bytes, head, min_int, nested, push_all, vecs};
use crate::tcp_support::stream_gen::{lemma_joined_short, moderate, MAX_NAME};
use crate::text::{bytes_of, lemma_name_literal, name_chars};
use crate::wire_core::bytes::fits_u32;
use crate::wire_core::error::MessageError;
use crate::wire_core::generate::{
    after, bounded_bytes, bounded_gen, byte, little, name_gen, small, small_gen, valid_name as draw_name, word, Source,
};
use crate::wire_core::laws::{
    lemma_channel_open_confirmation_read_write, lemma_channel_open_confirmation_write_read,
    lemma_channel_open_failure_truncated, lemma_channel_open_failure_write_read, lemma_channel_open_read_write,
    lemma_channel_open_write_read, lemma_debug_truncated, lemma_debug_write_read, lemma_disconnect_truncated,
    lemma_disconnect_write_read, lemma_ignore_truncated, lemma_ignore_write_read, lemma_kexinit_truncated,
    lemma_kexinit_write_read, lemma_unimplemented_write_read,
};
use crate::wire_core::messages_ref::{
    channel_open_bytes, channel_open_confirmation_bytes, channel_open_confirmation_read, channel_open_read,
    ChannelOpenConfirmationFields, ChannelOpenFailureFields, ChannelOpenFields, DebugFields, DisconnectFields,
    KEX_MARKERS, LIST_COUNT,
};
use crate::wire_core::namelist_ref::{joined, valid_name, valid_names};
use crate::wire_messages::{
    kex_fields, kind_of, lemma_dispatch, message_bytes, message_ok, read_as, MessageKind, MessageView, WireMessage,
};

verus! {

/// Single bytes of the input.
pub open spec fn raw_gen(s: Seq<u8>, n: int) -> (Seq<u8>, Seq<u8>)
    decreases n,
{
    if n <= 0 {
        (Seq::empty(), s)
    } else {
        let (more, rest) = raw_gen(after(s, 1), n - 1);
        (seq![little(s, 1) as u8] + more, rest)
    }
}

fn gen_raw(u: &mut Source<'_>, n: usize) -> (r: Vec<u8>)
    ensures
        (r@, final(u)@) == raw_gen(old(u)@, n as int),
        r@.len() == n,
{
    let mut out: Vec<u8> = Vec::new();
    let mut i: usize = 0;
    let ghost all = raw_gen(u@, n as int);
    proof {
        assert(Seq::<u8>::empty() + all.0 =~= all.0);
    }
    while i < n
        invariant
            i <= n,
            out@.len() == i,
            all == raw_gen(old(u)@, n as int),
            all.0 == out@ + raw_gen(u@, n - i).0,
            all.1 == raw_gen(u@, n - i).1,
        decreases n - i,
    {
        let ghost before = out@;
        let ghost at = u@;
        out.push(byte(u));
        proof {
            assert(out@ + raw_gen(u@, n - i - 1).0 =~= before + raw_gen(at, n - i).0);
        }
        i = i + 1;
    }
    proof {
        assert(out@ + raw_gen(u@, 0).0 =~= out@);
    }
    out
}

/// A number: small, or any.
pub open spec fn code_gen(s: Seq<u8>, small_max: u16) -> (u32, Seq<u8>) {
    let s1 = after(s, 1);
    if little(s, 1) % 2 == 1 {
        let (n, s2) = small_gen(s1, small_max);
        (n as u32, s2)
    } else {
        (little(s1, 4) as u32, after(s1, 4))
    }
}

/// Draws a number: half the time up to `small_max`, else any.
pub fn gen_code(u: &mut Source<'_>, small_max: u16) -> (r: u32)
    ensures
        (r, final(u)@) == code_gen(old(u)@, small_max),
{
    if byte(u) % 2 == 1 {
        small(u, small_max) as u32
    } else {
        word(u)
    }
}

/// Channel types in use.
pub const KNOWN_CHANNEL_TYPES: [&'static str; 5] = [
    "session",
    "x11",
    "forwarded-tcpip",
    "direct-tcpip",
    "x@example",
];

/// The channel type that the input gives.
pub open spec fn channel_type_gen(s: Seq<u8>) -> (Seq<u8>, Seq<u8>) {
    let k = little(s, 1) % 3;
    let s1 = after(s, 1);
    if k == 0 {
        let (n, s2) = small_gen(s1, 4);
        (bytes_of(KNOWN_CHANNEL_TYPES@[n as int]), s2)
    } else if k == 1 {
        name_gen(s1, 64)
    } else {
        bounded_gen(s1, 64)
    }
}

/// Draws a channel type: one in use, a name, or any bytes.
pub fn gen_channel_type(u: &mut Source<'_>) -> (r: Vec<u8>)
    ensures
        (r@, final(u)@) == channel_type_gen(old(u)@),
        r@.len() <= 64,
{
    let k: u8 = byte(u) % 3;
    if k == 0 {
        let n: usize = small(u, 4);
        let t = KNOWN_CHANNEL_TYPES.as_slice()[n];
        proof {
            lemma_channel_type_short(n as int);
        }
        copy_bytes(t.as_bytes())
    } else if k == 1 {
        draw_name(u, 64)
    } else {
        bounded_bytes(u, 64)
    }
}

proof fn lemma_channel_type_short(i: int)
    requires
        0 <= i < 5,
    ensures
        bytes_of(KNOWN_CHANNEL_TYPES@[i]).len() <= 64,
{
    reveal_with_fuel(name_chars, 20);
    if i == 0 {
        reveal_strlit("session");
        lemma_name_literal("session");
    } else if i == 1 {
        reveal_strlit("x11");
        lemma_name_literal("x11");
    } else if i == 2 {
        reveal_strlit("forwarded-tcpip");
        lemma_name_literal("forwarded-tcpip");
    } else if i == 3 {
        reveal_strlit("direct-tcpip");
        lemma_name_literal("direct-tcpip");
    } else {
        reveal_strlit("x@example");
        lemma_name_literal("x@example");
    }
}

/// The markers that the bits select, from the `i`-th on; the lowest bit
/// stands for that one.
pub open spec fn markers_for(bits: int, i: int) -> Seq<Seq<u8>>
    decreases 6 - i,
{
    if i < 0 || i >= 6 {
        Seq::empty()
    } else if bits % 2 == 1 {
        seq![bytes_of(KEX_MARKERS@[i])] + markers_for(bits / 2, i + 1)
    } else {
        markers_for(bits / 2, i + 1)
    }
}

proof fn lemma_marker(i: int)
    requires
        0 <= i < 6,
    ensures
        valid_name(bytes_of(KEX_MARKERS@[i])),
        bytes_of(KEX_MARKERS@[i]).len() <= MAX_NAME,
        bytes_of(KEX_MARKERS@[i]).last() > 57,
{
    reveal_with_fuel(name_chars, 30);
    if i == 0 {
        reveal_strlit("ext-info-c");
        lemma_name_literal("ext-info-c");
    } else if i == 1 {
        reveal_strlit("ext-info-s");
        lemma_name_literal("ext-info-s");
    } else if i == 2 {
        reveal_strlit("kex-strict-c-v00@openssh.com");
        lemma_name_literal("kex-strict-c-v00@openssh.com");
    } else if i == 3 {
        reveal_strlit("kex-strict-s-v00@openssh.com");
        lemma_name_literal("kex-strict-s-v00@openssh.com");
    } else if i == 4 {
        reveal_strlit("kex-strict-c");
        lemma_name_literal("kex-strict-c");
    } else {
        reveal_strlit("kex-strict-s");
        lemma_name_literal("kex-strict-s");
    }
}

/// The name of a slot that the input gives: it ends with the slot's digit.
pub open spec fn slot_name(raw: Seq<u8>, slot: int) -> Seq<u8> {
    raw + seq![64u8, (48 + slot) as u8]
}

/// The names of a slot that the input gives.
pub open spec fn slot_names_gen(s: Seq<u8>, n: int, slot: int) -> (Seq<Seq<u8>>, Seq<u8>)
    decreases n,
{
    if n <= 0 {
        (Seq::empty(), s)
    } else {
        let (raw, s1) = name_gen(s, 20);
        let (more, s2) = slot_names_gen(s1, n - 1, slot);
        (seq![slot_name(raw, slot)] + more, s2)
    }
}

/// The list of a slot that the input gives; the first slot has the markers at
/// its end.
pub open spec fn slot_gen(s: Seq<u8>, slot: int, bits: int) -> (Seq<Seq<u8>>, Seq<u8>) {
    let (n, s1) = small_gen(s, 6);
    let (names, s2) = slot_names_gen(s1, n as int, slot);
    (
        if slot == 0 {
            names + markers_for(bits, 0)
        } else {
            names
        },
        s2,
    )
}

/// The lists of the slots from the `slot`-th on.
pub open spec fn slots_gen(s: Seq<u8>, slot: int, bits: int) -> (Seq<Seq<Seq<u8>>>, Seq<u8>)
    decreases 10 - slot,
{
    if slot >= 10 {
        (Seq::empty(), s)
    } else {
        let (list, s1) = slot_gen(s, slot, bits);
        let (more, s2) = slots_gen(s1, slot + 1, bits);
        (seq![list] + more, s2)
    }
}

/// The names of a list stay within bounds, and the last one ends as those of
/// the slot do.
pub open spec fn slot_shape(names: Seq<Seq<u8>>, slot: int) -> bool {
    &&& moderate(names, 12)
    &&& names.len() > 0 ==> names.last().last() == 48 + slot || (slot == 0 && names.last().last() > 57)
}

proof fn lemma_push_moderate(names: Seq<Seq<u8>>, name: Seq<u8>, n: int)
    requires
        moderate(names, n),
        valid_name(name),
        name.len() <= MAX_NAME,
    ensures
        moderate(names.push(name), n + 1),
{
    let all = names.push(name);
    assert forall|i: int| 0 <= i < all.len() implies valid_name(#[trigger] all[i]) && all[i].len() <= MAX_NAME by {
        if i < names.len() {
            assert(all[i] == names[i]);
        }
    }
}

fn gen_slot_names(u: &mut Source<'_>, n: usize, slot: u8) -> (r: Vec<Vec<u8>>)
    requires
        n <= 6,
        slot < 10,
    ensures
        (vecs(r@), final(u)@) == slot_names_gen(old(u)@, n as int, slot as int),
        moderate(vecs(r@), n as int),
        r@.len() > 0 ==> vecs(r@).last().last() == 48 + slot,
{
    let mut out: Vec<Vec<u8>> = Vec::new();
    let mut i: usize = 0;
    let ghost all = slot_names_gen(u@, n as int, slot as int);
    proof {
        assert(vecs(out@) =~= Seq::empty());
        assert(Seq::<Seq<u8>>::empty() + all.0 =~= all.0);
    }
    while i < n
        invariant
            i <= n,
            slot < 10,
            out@.len() == i,
            all == slot_names_gen(old(u)@, n as int, slot as int),
            all.0 == vecs(out@) + slot_names_gen(u@, n - i, slot as int).0,
            all.1 == slot_names_gen(u@, n - i, slot as int).1,
            moderate(vecs(out@), i as int),
            out@.len() > 0 ==> vecs(out@).last().last() == 48 + slot,
        decreases n - i,
    {
        let ghost before = vecs(out@);
        let ghost at = u@;
        let mut name = draw_name(u, 20);
        let ghost raw = name@;
        name.push(64);
        name.push(48 + slot);
        let ghost nv = name@;
        proof {
            assert(nv =~= slot_name(raw, slot as int));
            assert(valid_name(nv)) by {
                assert forall|k: int| 0 <= k < nv.len() implies crate::wire_core::namelist_ref::printable(
                    #[trigger] nv[k],
                ) && nv[k] != 44u8 by {
                    if k < raw.len() {
                        assert(nv[k] == raw[k]);
                    }
                }
            }
        }
        out.push(name);
        proof {
            assert(vecs(out@) =~= before.push(nv));
            lemma_push_moderate(before, nv, i as int);
            assert(before.push(nv) + slot_names_gen(u@, n - i - 1, slot as int).0 =~= before + slot_names_gen(
                at,
                n - i,
                slot as int,
            ).0);
        }
        i = i + 1;
    }
    proof {
        assert(vecs(out@) + slot_names_gen(u@, 0, slot as int).0 =~= vecs(out@));
    }
    out
}

fn push_markers(out: &mut Vec<Vec<u8>>, bits: u8)
    requires
        slot_shape(vecs(old(out)@), 0),
        old(out)@.len() <= 6,
    ensures
        vecs(final(out)@) == vecs(old(out)@) + markers_for(bits as int, 0),
        slot_shape(vecs(final(out)@), 0),
{
    let ghost first = vecs(out@);
    let ghost all = first + markers_for(bits as int, 0);
    let mut b: u8 = bits;
    let mut i: usize = 0;
    while i < 6
        invariant
            i <= 6,
            all == vecs(out@) + markers_for(b as int, i as int),
            moderate(vecs(out@), 6 + i),
            slot_shape(vecs(out@), 0),
        decreases 6 - i,
    {
        let ghost before = vecs(out@);
        let ghost was = b;
        if b % 2 == 1 {
            let m = copy_bytes(KEX_MARKERS.as_slice()[i].as_bytes());
            let ghost mv = m@;
            out.push(m);
            proof {
                lemma_marker(i as int);
                assert(vecs(out@) =~= before.push(mv));
                lemma_push_moderate(before, mv, 6 + i);
                assert(before.push(mv) + markers_for(b as int / 2, i + 1) =~= before + markers_for(
                    was as int,
                    i as int,
                ));
            }
        }
        b = b / 2;
        i = i + 1;
    }
    proof {
        assert(vecs(out@) + markers_for(b as int, 6) =~= vecs(out@));
    }
}

fn gen_slot(u: &mut Source<'_>, slot: u8, bits: u8) -> (r: Vec<Vec<u8>>)
    requires
        slot < 10,
    ensures
        (vecs(r@), final(u)@) == slot_gen(old(u)@, slot as int, bits as int),
        slot_shape(vecs(r@), slot as int),
{
    let n: usize = small(u, 6);
    let mut names = gen_slot_names(u, n, slot);
    if slot == 0 {
        push_markers(&mut names, bits);
    }
    names
}

fn gen_slots(u: &mut Source<'_>, bits: u8) -> (r: Vec<Vec<Vec<u8>>>)
    ensures
        (nested(r@), final(u)@) == slots_gen(old(u)@, 0, bits as int),
        r@.len() == 10,
        forall|i: int| 0 <= i < 10 ==> slot_shape(#[trigger] nested(r@)[i], i),
{
    let mut out: Vec<Vec<Vec<u8>>> = Vec::new();
    let mut slot: u8 = 0;
    let ghost all = slots_gen(u@, 0, bits as int);
    proof {
        assert(nested(out@) =~= Seq::empty());
        assert(Seq::<Seq<Seq<u8>>>::empty() + all.0 =~= all.0);
    }
    while slot < 10
        invariant
            slot <= 10,
            out@.len() == slot,
            all == slots_gen(old(u)@, 0, bits as int),
            all.0 == nested(out@) + slots_gen(u@, slot as int, bits as int).0,
            all.1 == slots_gen(u@, slot as int, bits as int).1,
            forall|i: int| 0 <= i < slot ==> slot_shape(#[trigger] nested(out@)[i], i),
        decreases 10 - slot,
    {
        let ghost before = nested(out@);
        let ghost at = u@;
        let list = gen_slot(u, slot, bits);
        let ghost lv = vecs(list@);
        out.push(list);
        proof {
            assert(nested(out@) =~= before.push(lv));
            assert(before.push(lv) + slots_gen(u@, slot + 1, bits as int).0 =~= before + slots_gen(
                at,
                slot as int,
                bits as int,
            ).0);
        }
        slot = slot + 1;
    }
    proof {
        assert(nested(out@) + slots_gen(u@, 10, bits as int).0 =~= nested(out@));
    }
    out
}

/// The message that a selector and the input give.
#[verifier::opaque]
pub open spec fn message_gen(sel: u8, s: Seq<u8>) -> (MessageView, Seq<u8>) {
    let k = sel % 8;
    if k == 0 {
        let (cookie, s1) = raw_gen(s, 16);
        let (lists, s2) = slots_gen(after(s1, 1), 0, little(s1, 1));
        let first = little(s2, 1) % 2 == 1;
        let s3 = after(s2, 1);
        let zero = little(s3, 1) % 2 == 1;
        let s4 = after(s3, 1);
        (
            WireMessage::KexInit {
                cookie,
                lists,
                first_kex_packet_follows: first,
                reserved: if zero {
                    0
                } else {
                    little(s4, 4) as u32
                },
            },
            if zero {
                s4
            } else {
                after(s4, 4)
            },
        )
    } else if k == 1 {
        let (reason_code, s1) = code_gen(s, 20);
        let (description, s2) = bounded_gen(s1, 256);
        let (language_tag, s3) = bounded_gen(s2, 32);
        (WireMessage::Disconnect { reason_code, description, language_tag }, s3)
    } else if k == 2 {
        let (data, s1) = bounded_gen(s, 512);
        (WireMessage::Ignore { data }, s1)
    } else if k == 3 {
        (WireMessage::Unimplemented { sequence_number: little(s, 4) as u32 }, after(s, 4))
    } else if k == 4 {
        let (message, s1) = bounded_gen(after(s, 1), 256);
        let (language_tag, s2) = bounded_gen(s1, 32);
        (WireMessage::Debug { always_display: little(s, 1) % 2 == 1, message, language_tag }, s2)
    } else if k == 5 {
        let (channel_type, s1) = channel_type_gen(s);
        let s2 = after(s1, 4);
        let s3 = after(s2, 4);
        let (type_specific, s4) = bounded_gen(after(s3, 4), 256);
        (
            WireMessage::ChannelOpen {
                channel_type,
                sender_channel: little(s1, 4) as u32,
                initial_window_size: little(s2, 4) as u32,
                maximum_packet_size: little(s3, 4) as u32,
                type_specific,
            },
            s4,
        )
    } else if k == 6 {
        let s1 = after(s, 4);
        let s2 = after(s1, 4);
        let s3 = after(s2, 4);
        let (type_specific, s4) = bounded_gen(after(s3, 4), 256);
        (
            WireMessage::ChannelOpenConfirmation {
                recipient_channel: little(s, 4) as u32,
                sender_channel: little(s1, 4) as u32,
                initial_window_size: little(s2, 4) as u32,
                maximum_packet_size: little(s3, 4) as u32,
                type_specific,
            },
            s4,
        )
    } else {
        let (reason_code, s1) = code_gen(after(s, 4), 8);
        let (description, s2) = bounded_gen(s1, 256);
        let (language_tag, s3) = bounded_gen(s2, 32);
        (
            WireMessage::ChannelOpenFailure {
                recipient_channel: little(s, 4) as u32,
                reason_code,
                description,
                language_tag,
            },
            s3,
        )
    }
}

fn gen_kexinit(u: &mut Source<'_>) -> (r: WireMessage)
    ensures
        (r@, final(u)@) == message_gen(0, old(u)@),
        message_ok(r@),
{
    proof {
        reveal(message_gen);
    }
    let cookie = gen_raw(u, 16);
    let bits: u8 = byte(u);
    let lists = gen_slots(u, bits);
    let first_kex_packet_follows: bool = byte(u) % 2 == 1;
    let zero: bool = byte(u) % 2 == 1;
    let reserved: u32 = if zero { 0 } else { word(u) };
    proof {
        let l = nested(lists@);
        assert forall|i: int| 0 <= i < LIST_COUNT implies valid_names(#[trigger] l[i]) && fits_u32(joined(l[i])) by {
            assert(slot_shape(l[i], i));
            lemma_joined_short(l[i]);
        }
    }
    WireMessage::KexInit { cookie, lists, first_kex_packet_follows, reserved }
}

/// Draws a message.
pub fn gen_message(sel: u8, u: &mut Source<'_>) -> (r: WireMessage)
    ensures
        (r@, final(u)@) == message_gen(sel, old(u)@),
        message_ok(r@),
{
    let k: u8 = sel % 8;
    if k == 0 {
        let m = gen_kexinit(u);
        proof {
            reveal(message_gen);
        }
        return m;
    }
    proof {
        reveal(message_gen);
    }
    if k == 1 {
        let reason_code: u32 = gen_code(u, 20);
        let description = bounded_bytes(u, 256);
        let language_tag = bounded_bytes(u, 32);
        WireMessage::Disconnect { reason_code, description, language_tag }
    } else if k == 2 {
        WireMessage::Ignore { data: bounded_bytes(u, 512) }
    } else if k == 3 {
        WireMessage::Unimplemented { sequence_number: word(u) }
    } else if k == 4 {
        let always_display: bool = byte(u) % 2 == 1;
        let message = bounded_bytes(u, 256);
        let language_tag = bounded_bytes(u, 32);
        WireMessage::Debug { always_display, message, language_tag }
    } else if k == 5 {
        let channel_type = gen_channel_type(u);
        let sender_channel: u32 = word(u);
        let initial_window_size: u32 = word(u);
        let maximum_packet_size: u32 = word(u);
        let type_specific = bounded_bytes(u, 256);
        WireMessage::ChannelOpen {
            channel_type,
            sender_channel,
            initial_window_size,
            maximum_packet_size,
            type_specific,
        }
    } else if k == 6 {
        let recipient_channel: u32 = word(u);
        let sender_channel: u32 = word(u);
        let initial_window_size: u32 = word(u);
        let maximum_packet_size: u32 = word(u);
        let type_specific = bounded_bytes(u, 256);
        WireMessage::ChannelOpenConfirmation {
            recipient_channel,
            sender_channel,
            initial_window_size,
            maximum_packet_size,
            type_specific,
        }
    } else {
        let recipient_channel: u32 = word(u);
        let reason_code: u32 = gen_code(u, 8);
        let description = bounded_bytes(u, 256);
        let language_tag = bounded_bytes(u, 32);
        WireMessage::ChannelOpenFailure { recipient_channel, reason_code, description, language_tag }
    }
}

proof fn lemma_joined_last(names: Seq<Seq<u8>>)
    requires
        valid_names(names),
        names.len() > 0,
    ensures
        joined(names).len() > 0,
        joined(names).last() == names.last().last(),
{
    assert(valid_name(names.last()));
}

/// Lists that stand in different slots are never taken for each other: where
/// one has names, no other has the same body.
pub proof fn lemma_slots_distinct(a: Seq<Seq<u8>>, i: int, b: Seq<Seq<u8>>, j: int)
    requires
        0 <= i < 10,
        0 <= j < 10,
        i != j,
        slot_shape(a, i),
        slot_shape(b, j),
        joined(a).len() > 0,
    ensures
        joined(a) != joined(b),
{
    lemma_joined_last(a);
    if b.len() > 0 {
        lemma_joined_last(b);
    }
}

/// A change to a payload.
#[derive(Clone, Debug, PartialEq, Eq)]
pub enum Mutation<B = Vec<u8>> {
    Keep,
    /// Cut to so many bytes.
    Cut(usize),
    /// One byte changed.
    Flip { index: usize, xor: u8 },
    /// Bytes behind the end.
    Append(B),
}

/// A change over sequences.
pub type MutationView = Mutation<Seq<u8>>;

impl View for Mutation<Vec<u8>> {
    type V = MutationView;

    open spec fn view(&self) -> MutationView {
        match self {
            Mutation::Keep => Mutation::Keep,
            Mutation::Cut(n) => Mutation::Cut(*n),
            Mutation::Flip { index, xor } => Mutation::Flip { index: *index, xor: *xor },
            Mutation::Append(b) => Mutation::Append(b@),
        }
    }
}

/// A length as a bound of two bytes.
pub open spec fn bound_of(n: int) -> u16 {
    min_int(n, 65535) as u16
}

/// The change that the input gives for a payload of `len` bytes.
pub open spec fn mutation_gen(s: Seq<u8>, len: int) -> (MutationView, Seq<u8>) {
    let k = little(s, 1) % 4;
    let s1 = after(s, 1);
    if k == 0 {
        (Mutation::Keep, s1)
    } else if k == 1 {
        let (n, s2) = small_gen(s1, bound_of(len));
        (Mutation::Cut(n), s2)
    } else if k == 2 {
        let (n, s2) = small_gen(s1, bound_of(len - 1));
        (Mutation::Flip { index: n, xor: (little(s2, 1) as u8) | 1u8 }, after(s2, 1))
    } else {
        let (b, s2) = bounded_gen(s1, 8);
        (
            Mutation::Append(
                if b.len() == 0 {
                    seq![0u8]
                } else {
                    b
                },
            ),
            s2,
        )
    }
}

/// A change that can be made to a payload of `len` bytes and changes it,
/// unless it keeps all.
pub open spec fn mutation_ok(m: MutationView, len: int) -> bool {
    match m {
        Mutation::Keep => true,
        Mutation::Cut(n) => n <= len,
        Mutation::Flip { index, xor } => index < len && xor != 0,
        Mutation::Append(b) => b.len() > 0,
    }
}

/// Draws a change for a payload of `len` bytes.
pub fn gen_mutation(u: &mut Source<'_>, len: usize) -> (r: Mutation)
    requires
        len > 0,
    ensures
        (r@, final(u)@) == mutation_gen(old(u)@, len as int),
        mutation_ok(r@, len as int),
{
    let k: u8 = byte(u) % 4;
    if k == 0 {
        Mutation::Keep
    } else if k == 1 {
        let bound: u16 = if len <= 65535 { len as u16 } else { 65535 };
        Mutation::Cut(small(u, bound))
    } else if k == 2 {
        let bound: u16 = if len - 1 <= 65535 { (len - 1) as u16 } else { 65535 };
        let index: usize = small(u, bound);
        let b: u8 = byte(u);
        proof {
            assert(b | 1u8 != 0) by (bit_vector);
        }
        Mutation::Flip { index, xor: b | 1 }
    } else {
        let mut b = bounded_bytes(u, 8);
        if b.len() == 0 {
            b.push(0);
            proof {
                assert(b@ =~= seq![0u8]);
            }
        }
        Mutation::Append(b)
    }
}

/// A payload after a change.
pub open spec fn mutated(s: Seq<u8>, m: MutationView) -> Seq<u8> {
    match m {
        Mutation::Keep => s,
        Mutation::Cut(n) => s.take(n as int),
        Mutation::Flip { index, xor } => s.update(index as int, s[index as int] ^ xor),
        Mutation::Append(b) => s + b,
    }
}

/// Makes a change to a payload.
pub fn apply(payload: &[u8], m: &Mutation) -> (r: Vec<u8>)
    requires
        mutation_ok(m@, payload@.len() as int),
    ensures
        r@ == mutated(payload@, m@),
{
    match m {
        Mutation::Keep => copy_bytes(payload),
        Mutation::Cut(n) => copy_bytes(head(payload, *n)),
        Mutation::Flip { index, xor } => {
            let mut out = copy_bytes(payload);
            let v: u8 = payload[*index] ^ *xor;
            out.set(*index, v);
            out
        },
        Mutation::Append(b) => {
            let mut out = copy_bytes(payload);
            push_all(&mut out, b.as_slice());
            out
        },
    }
}

/// The length of the part of a message that must be there: all of it, or up
/// to its tail for messages that end in one.
pub open spec fn fixed_len(m: MessageView) -> int {
    match m {
        WireMessage::ChannelOpen {
            channel_type,
            sender_channel,
            initial_window_size,
            maximum_packet_size,
            type_specific,
        } => 17 + channel_type.len() as int,
        WireMessage::ChannelOpenConfirmation { .. } => 17,
        _ => message_bytes(m).len() as int,
    }
}

/// The message ends in a tail of any bytes.
pub open spec fn has_tail(m: MessageView) -> bool {
    m is ChannelOpen || m is ChannelOpenConfirmation
}

/// A message with another tail.
pub open spec fn with_tail(m: MessageView, tail: Seq<u8>) -> MessageView {
    match m {
        WireMessage::ChannelOpen {
            channel_type,
            sender_channel,
            initial_window_size,
            maximum_packet_size,
            type_specific,
        } => WireMessage::ChannelOpen {
            channel_type,
            sender_channel,
            initial_window_size,
            maximum_packet_size,
            type_specific: tail,
        },
        WireMessage::ChannelOpenConfirmation {
            recipient_channel,
            sender_channel,
            initial_window_size,
            maximum_packet_size,
            type_specific,
        } => WireMessage::ChannelOpenConfirmation {
            recipient_channel,
            sender_channel,
            initial_window_size,
            maximum_packet_size,
            type_specific: tail,
        },
        _ => m,
    }
}

/// The tail of a message.
pub open spec fn tail_of(m: MessageView) -> Seq<u8> {
    match m {
        WireMessage::ChannelOpen {
            channel_type,
            sender_channel,
            initial_window_size,
            maximum_packet_size,
            type_specific,
        } => type_specific,
        WireMessage::ChannelOpenConfirmation {
            recipient_channel,
            sender_channel,
            initial_window_size,
            maximum_packet_size,
            type_specific,
        } => type_specific,
        _ => Seq::empty(),
    }
}

/// A message is read back from its payload; bytes behind it are reported as
/// trailing, or belong to its tail.
pub proof fn lemma_append(m: MessageView, extra: Seq<u8>)
    requires
        message_ok(m),
    ensures
        read_as(kind_of(m), message_bytes(m)) == Ok::<MessageView, MessageError>(m),
        extra.len() > 0 && !has_tail(m) ==> read_as(kind_of(m), message_bytes(m) + extra) == Err::<
            MessageView,
            MessageError,
        >(MessageError::TrailingBytes { count: extra.len() as usize }),
        has_tail(m) ==> read_as(kind_of(m), message_bytes(m) + extra) == Ok::<MessageView, MessageError>(
            with_tail(m, tail_of(m) + extra),
        ),
{
    match m {
        WireMessage::KexInit { cookie, lists, first_kex_packet_follows, reserved } => {
            lemma_kexinit_write_read(kex_fields(cookie, lists, first_kex_packet_follows, reserved), extra);
        },
        WireMessage::Disconnect { reason_code, description, language_tag } => {
            lemma_disconnect_write_read(DisconnectFields { reason_code, description, language_tag }, extra);
        },
        WireMessage::Ignore { data } => {
            lemma_ignore_write_read(data, extra);
        },
        WireMessage::Unimplemented { sequence_number } => {
            lemma_unimplemented_write_read(sequence_number, extra, 0);
        },
        WireMessage::Debug { always_display, message, language_tag } => {
            lemma_debug_write_read(
                DebugFields {
                    always_display_byte: crate::wire_core::bytes::bool_byte(always_display),
                    message,
                    language_tag,
                },
                extra,
            );
        },
        WireMessage::ChannelOpen {
            channel_type,
            sender_channel,
            initial_window_size,
            maximum_packet_size,
            type_specific,
        } => {
            lemma_channel_open_write_read(
                ChannelOpenFields {
                    channel_type,
                    sender_channel,
                    initial_window_size,
                    maximum_packet_size,
                    type_specific,
                },
                extra,
            );
        },
        WireMessage::ChannelOpenConfirmation {
            recipient_channel,
            sender_channel,
            initial_window_size,
            maximum_packet_size,
            type_specific,
        } => {
            lemma_channel_open_confirmation_write_read(
                ChannelOpenConfirmationFields {
                    recipient_channel,
                    sender_channel,
                    initial_window_size,
                    maximum_packet_size,
                    type_specific,
                },
                extra,
            );
        },
        WireMessage::ChannelOpenFailure { recipient_channel, reason_code, description, language_tag } => {
            lemma_channel_open_failure_write_read(
                ChannelOpenFailureFields { recipient_channel, reason_code, description, language_tag },
                extra,
            );
        },
    }
}

proof fn lemma_cut_open(m: MessageView, n: int)
    requires
        message_ok(m),
        m is ChannelOpen,
        0 <= n < fixed_len(m),
    ensures
        read_as(MessageKind::ChannelOpen, message_bytes(m).take(n)) is Err,
{
    broadcast use crate::wire_core::bytes::lemma_be32_len;

    let all = message_bytes(m);
    let cut = all.take(n);
    lemma_channel_open_read_write(cut);
    if channel_open_read(cut) is Ok {
        let g = channel_open_read(cut)->Ok_0;
        let b = channel_open_bytes(g);
        assert(b == cut);
        lemma_append(m, Seq::empty());
        let whole = channel_open_bytes(g) + all.skip(n);
        assert(whole =~= all);
        crate::wire_core::laws::lemma_string_was_at(cut, 1);
        lemma_channel_open_write_read(g, all.skip(n));
    }
}

/// A message cut short is refused, unless only its tail is.
pub proof fn lemma_cut(m: MessageView, n: int)
    requires
        message_ok(m),
        0 <= n < message_bytes(m).len(),
    ensures
        n < fixed_len(m) ==> read_as(kind_of(m), message_bytes(m).take(n)) is Err,
        n >= fixed_len(m) ==> has_tail(m) && read_as(kind_of(m), message_bytes(m).take(n)) == Ok::<
            MessageView,
            MessageError,
        >(with_tail(m, tail_of(m).take(n - fixed_len(m)))),
{
    broadcast use crate::wire_core::bytes::lemma_be32_len;

    let cut = message_bytes(m).take(n);
    match m {
        WireMessage::KexInit { cookie, lists, first_kex_packet_follows, reserved } => {
            lemma_kexinit_truncated(kex_fields(cookie, lists, first_kex_packet_follows, reserved), n);
        },
        WireMessage::Disconnect { reason_code, description, language_tag } => {
            lemma_disconnect_truncated(DisconnectFields { reason_code, description, language_tag }, n);
        },
        WireMessage::Ignore { data } => {
            lemma_ignore_truncated(data, n);
        },
        WireMessage::Unimplemented { sequence_number } => {
            lemma_unimplemented_write_read(sequence_number, Seq::empty(), n);
        },
        WireMessage::Debug { always_display, message, language_tag } => {
            lemma_debug_truncated(
                DebugFields {
                    always_display_byte: crate::wire_core::bytes::bool_byte(always_display),
                    message,
                    language_tag,
                },
                n,
            );
        },
        WireMessage::ChannelOpen { .. } => {
            if n < fixed_len(m) {
                lemma_cut_open(m, n);
            } else {
                let t = with_tail(m, tail_of(m).take(n - fixed_len(m)));
                assert(message_bytes(t) =~= cut);
                lemma_append(t, Seq::empty());
            }
        },
        WireMessage::ChannelOpenConfirmation { .. } => {
            if n < fixed_len(m) {
                lemma_channel_open_confirmation_read_write(cut);
                if channel_open_confirmation_read(cut) is Ok {
                    let g = channel_open_confirmation_read(cut)->Ok_0;
                    assert(channel_open_confirmation_bytes(g).len() >= 17);
                }
            } else {
                let t = with_tail(m, tail_of(m).take(n - fixed_len(m)));
                assert(message_bytes(t) =~= cut);
                lemma_append(t, Seq::empty());
            }
        },
        WireMessage::ChannelOpenFailure { recipient_channel, reason_code, description, language_tag } => {
            lemma_channel_open_failure_truncated(
                ChannelOpenFailureFields { recipient_channel, reason_code, description, language_tag },
                n,
            );
        },
    }
}

/// A message whose number was changed is one of another number.
pub proof fn lemma_flip_number(m: MessageView, xor: u8)
    requires
        message_ok(m),
        xor != 0,
    ensures
        ({
            let s = mutated(message_bytes(m), Mutation::Flip { index: 0, xor });
            read_as(kind_of(m), s) == Err::<MessageView, MessageError>(
                MessageError::UnexpectedMessage { expected: kind_of(m).code(), found: kind_of(m).code() ^ xor },
            )
        }),
{
    let n = kind_of(m).code();
    let s = mutated(message_bytes(m), Mutation::Flip { index: 0, xor });
    assert(message_bytes(m).len() > 0 && message_bytes(m)[0] == n);
    assert(n ^ xor != n) by (bit_vector)
        requires
            xor != 0,
    ;
    lemma_dispatch(kind_of(m), s);
}

} // verus!
