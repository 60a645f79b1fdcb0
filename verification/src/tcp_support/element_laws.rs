//! What the generated elements are to the packet reader: each is framed, read
//! and counted as its description says.

use vstd::prelude::*;
use crate::tcp_support::drive::{Ev, EvView};
use crate::tcp_support::msg_ref::{kexinit_of, observed_of, payload_at, Model, ModelStep, Observed, ObservedView};
use crate::tcp_support::packet_ref::{framing, lemma_framed_decodes, lemma_u32_prefix, max_length, Framing};
use crate::tcp_support::stream_gen::{
    element_outcome, elements_gen, expected_elements, expected_kexinit, frame_of, frames_wire, ident_gen, kex_fields,
    headroom, kex_wf, kexinit_gen, lemma_joined_short, lemma_known_valid, lemma_lists_short, lemma_marked_moderate, lists_gen,
    moderate, msg_gen, msg_wf, name_for, name_gen, names_gen, oversized_length, payload_of, prelude_gen, stream_of,
    ExpEnd, ExpEndView, GenKexView, GenMsg, GenMsgView, ModelLimits, Role, MAX_NAME, NAME_COUNT,
};
use crate::tcp_support::types::{InitialError, InitialLimits, PacketError};
use crate::tcp_support::{byte_at, dropped, filled, taken_filled};
use crate::wire_core::bytes::{be32, fits_u32, lemma_be32_len, lemma_u32_write_read, u32_of};
use crate::wire_core::laws::{
    lemma_debug_write_read, lemma_disconnect_write_read, lemma_ignore_write_read, lemma_kexinit_truncated,
    lemma_kexinit_write_read, lemma_unimplemented_write_read,
};
use crate::wire_core::messages_ref::{kexinit_bytes, kexinit_valid, DebugFields, DisconnectFields, LIST_COUNT};
use crate::wire_core::namelist_ref::{joined, printable, valid_name, valid_names};

verus! {

/// A raw element has no number that is decoded before KEXINIT.
pub open spec fn raw_foreign(m: GenMsgView) -> bool {
    m matches GenMsg::Raw { payload } ==> !(1 <= payload[0] <= 4) && payload[0] != 20
}

/// A step over the packet of an element is the one that its outcome asks for.
pub open spec fn element_agrees(
    step: ModelStep<ObservedView>,
    outcome: Result<EvView, ExpEndView>,
    consumed: int,
) -> bool {
    match outcome {
        Ok(Ev::Skipped(message)) => step == ModelStep::<ObservedView>::Observed(
            Observed::Skipped { message, consumed: consumed as usize },
        ),
        Ok(_) => false,
        Err(end) => end_agrees(step, end),
    }
}

/// A step that ends the reading is the one that the expected end asks for.
pub open spec fn end_agrees(step: ModelStep<ObservedView>, end: ExpEndView) -> bool {
    match end {
        ExpEnd::Proposal { kexinit, raw_payload, anomalies } => {
            &&& step matches ModelStep::Observed(Observed::KexInit { kexinit: k, payload, consumed })
            &&& *k == *kexinit
            &&& payload == raw_payload
        },
        ExpEnd::MalformedKexInit => step == ModelStep::<ObservedView>::Malformed(20),
        ExpEnd::Disconnected { reason_code, description, language_tag } => {
            &&& step matches ModelStep::Observed(
                Observed::Disconnect { reason_code: r, description: d, language_tag: l, consumed },
            )
            &&& r == reason_code && d == description && l == language_tag
        },
        ExpEnd::Error(e) => step == ModelStep::<ObservedView>::Observed(Observed::Error(e)),
        _ => false,
    }
}

proof fn lemma_kex_valid(k: GenKexView)
    requires
        kex_wf(k),
    ensures
        kexinit_valid(kex_fields(k.cookie, k.lists, k.first_kex_packet_follows, k.reserved)),
{
    let f = kex_fields(k.cookie, k.lists, k.first_kex_packet_follows, k.reserved);
    assert forall|i: int| 0 <= i < LIST_COUNT implies valid_names(#[trigger] f.names[i]) && fits_u32(
        joined(f.names[i]),
    ) by {
        assert(moderate(k.lists[i], 6));
        lemma_joined_short(k.lists[i]);
    }
}

/// The payload of a framed element is read as the element says.
proof fn lemma_payload_read(m: GenMsgView, consumed: usize)
    requires
        msg_wf(m),
        raw_foreign(m),
        !(m is OversizedClaim),
    ensures
        element_agrees(observed_of(payload_of(m), consumed), element_outcome(m), consumed as int),
{
    match m {
        GenMsg::Ignore { data_len } => {
            lemma_ignore_write_read(filled(data_len as int, 3), Seq::empty());
        },
        GenMsg::Debug { always_display, message, language_tag } => {
            lemma_debug_write_read(
                DebugFields { always_display_byte: always_display, message, language_tag },
                Seq::empty(),
            );
        },
        GenMsg::Unimplemented { sequence_number } => {
            lemma_unimplemented_write_read(sequence_number, Seq::empty(), 0);
        },
        GenMsg::Disconnect { reason_code, description, language_tag } => {
            lemma_disconnect_write_read(DisconnectFields { reason_code, description, language_tag }, Seq::empty());
        },
        GenMsg::KexInit(k) => {
            let f = kex_fields(k.cookie, k.lists, k.first_kex_packet_follows, k.reserved);
            let whole = kexinit_bytes(f);
            lemma_kex_valid(k);
            assert(k.payload[0] == whole[0]);
            if k.truncate > 0 {
                lemma_kexinit_truncated(f, whole.len() - k.truncate);
            } else {
                assert(k.payload =~= whole);
                lemma_kexinit_write_read(f, Seq::empty());
                assert(kexinit_of(f) == expected_kexinit(k));
            }
        },
        _ => {},
    }
}

proof fn lemma_payload_short(m: GenMsgView)
    requires
        msg_wf(m),
    ensures
        payload_of(m).len() <= 0x20_0000,
{
    broadcast use lemma_be32_len;

}

/// The front of a stream that an element stands at: its frame is refused from
/// its length alone, or complete with the element's payload.
pub proof fn lemma_element_framed(m: GenMsgView, pad: u8, cap: u32, more: Seq<u8>)
    requires
        msg_wf(m),
        m is OversizedClaim ==> cap < u32::MAX,
    ensures
        ({
            let f = frame_of(m, pad, cap);
            let n = u32_of(f);
            &&& f.len() >= 5
            &&& framing(f + more, cap) == if n > cap {
                Err::<Framing, PacketError>(PacketError::TooLarge { packet_length: n, limit: cap })
            } else {
                Ok(Framing::Complete { payload_len: payload_of(m).len() as int, total_len: f.len() as int })
            }
            &&& n <= cap ==> !(m is OversizedClaim) && payload_at(f + more, payload_of(m).len() as int) == payload_of(m)
        }),
{
    broadcast use lemma_be32_len;

    let f = frame_of(m, pad, cap);
    match m {
        GenMsg::EmptyPayload => {
            lemma_u32_write_read(12);
            lemma_u32_prefix(f, be32(12));
            lemma_u32_prefix(f + more, be32(12));
            assert((f + more)[4] == 11u8);
            assert(payload_at(f + more, 0) =~= Seq::empty());
        },
        GenMsg::OversizedClaim => {
            let n = oversized_length(cap);
            lemma_u32_write_read(n);
            lemma_u32_prefix(f, be32(n));
            lemma_u32_prefix(f + more, be32(n));
            lemma_oversized(cap);
        },
        _ => {
            let p = payload_of(m);
            lemma_payload_short(m);
            lemma_framed_decodes(p, pad, more, cap);
            lemma_framed_decodes(p, pad, Seq::empty(), cap);
            assert(f + Seq::<u8>::empty() =~= f);
            assert(payload_at(f + more, p.len() as int) =~= f.subrange(5, 5 + p.len() as int));
        },
    }
}

proof fn lemma_oversized(cap: u32)
    requires
        cap < u32::MAX,
    ensures
        oversized_length(cap) > cap,
{
    match max_length(cap as int) {
        Some(pl) => {},
        None => {},
    }
}

/// One element at the front of the stream: the model steps as the description
/// says, whatever follows. The order is the cap, the packet budget, the byte
/// budget, then the element itself.
pub proof fn lemma_element_steps(m: GenMsgView, pad: u8, more: Seq<u8>, model: Model, limits: InitialLimits)
    requires
        msg_wf(m),
        raw_foreign(m),
        m is OversizedClaim ==> limits.max_packet_length < u32::MAX,
        frame_of(m, pad, limits.max_packet_length).len() <= usize::MAX,
    ensures
        ({
            let cap = limits.max_packet_length;
            let f = frame_of(m, pad, cap);
            let step = model.predicts(f + more, limits);
            if u32_of(f) > cap {
                step == ModelStep::<ObservedView>::Observed(
                    Observed::Error(
                        InitialError::Packet(PacketError::TooLarge { packet_length: u32_of(f), limit: cap }),
                    ),
                )
            } else if model.packets >= limits.max_packets {
                step == ModelStep::<ObservedView>::Observed(
                    Observed::Error(InitialError::PacketBudgetExceeded { limit: limits.max_packets }),
                )
            } else if model.bytes + f.len() > limits.max_bytes {
                step == ModelStep::<ObservedView>::Observed(
                    Observed::Error(InitialError::ByteBudgetExceeded { limit: limits.max_bytes }),
                )
            } else {
                &&& element_agrees(step, element_outcome(m), f.len() as int)
                &&& model.after(f + more, limits) == (Model {
                    packets: (model.packets + 1) as usize,
                    bytes: (model.bytes + f.len()) as usize,
                })
            }
        }),
{
    let cap = limits.max_packet_length;
    let f = frame_of(m, pad, cap);
    lemma_element_framed(m, pad, cap, more);
    if u32_of(f) <= cap {
        lemma_payload_read(m, f.len() as usize);
    }
}

/// The events and the last step of the model over a stream from an offset on:
/// it goes on behind every skipped message.
pub open spec fn model_run(stream: Seq<u8>, off: int, model: Model, limits: InitialLimits) -> (
    Seq<EvView>,
    ModelStep<ObservedView>,
)
    decreases stream.len() - off,
{
    let rest = stream.skip(off);
    match model.predicts(rest, limits) {
        ModelStep::Observed(Observed::Skipped { message, consumed }) => if consumed < 1 || off + consumed
            > stream.len() {
            (Seq::empty(), ModelStep::NeedMore)
        } else {
            let (events, end) = model_run(stream, off + consumed, model.after(rest, limits), limits);
            (seq![Ev::Skipped(message)] + events, end)
        },
        step => (Seq::empty(), step),
    }
}

/// A run of the model.
#[verifier::opaque]
pub open spec fn packet_reading(stream: Seq<u8>, off: int, model: Model, limits: InitialLimits) -> (
    Seq<EvView>,
    ModelStep<ObservedView>,
) {
    model_run(stream, off, model, limits)
}

/// An element stands in its own frame.
pub open spec fn in_frame(e: (GenMsgView, Seq<u8>), cap: u32) -> bool {
    exists|pad: u8| e.1 == #[trigger] frame_of(e.0, pad, cap)
}

/// Elements that can stand in a stream read under `cap`.
pub open spec fn elements_ok(msgs: Seq<(GenMsgView, Seq<u8>)>, cap: u32) -> bool {
    forall|i: int|
        0 <= i < msgs.len() ==> msg_wf((#[trigger] msgs[i]).0) && raw_foreign(msgs[i].0) && in_frame(msgs[i], cap)
}

/// The bytes of the elements from the `i`-th on.
pub open spec fn frames_from(msgs: Seq<(GenMsgView, Seq<u8>)>, i: int) -> Seq<u8>
    decreases msgs.len() - i,
{
    if i >= msgs.len() {
        Seq::empty()
    } else {
        msgs[i].1 + frames_from(msgs, i + 1)
    }
}

proof fn lemma_frames_from(msgs: Seq<(GenMsgView, Seq<u8>)>, i: int)
    requires
        0 <= i <= msgs.len(),
    ensures
        frames_wire(msgs.take(i)) + frames_from(msgs, i) == frames_wire(msgs),
    decreases msgs.len() - i,
{
    if i < msgs.len() {
        lemma_frames_from(msgs, i + 1);
        let up = msgs.take(i + 1);
        assert(up.drop_last() =~= msgs.take(i));
        assert(up.last() == msgs[i]);
        assert(frames_wire(msgs.take(i)) + (msgs[i].1 + frames_from(msgs, i + 1)) =~= frames_wire(up) + frames_from(
            msgs,
            i + 1,
        ));
    } else {
        assert(msgs.take(i) =~= msgs);
        assert(frames_wire(msgs) + Seq::empty() =~= frames_wire(msgs));
    }
}

/// The limits of the packets among those of a model.
pub open spec fn packet_limits(lim: ModelLimits) -> InitialLimits {
    InitialLimits { max_packet_length: lim.cap, max_packets: lim.max_packets, max_bytes: lim.max_bytes }
}

/// What a run gives where it stands at an element.
pub open spec fn run_at_element(
    got: (Seq<EvView>, ModelStep<ObservedView>),
    e: (GenMsgView, Seq<u8>),
    lim: ModelLimits,
    model: Model,
    after: (Seq<EvView>, ModelStep<ObservedView>),
) -> bool {
    let n = u32_of(e.1);
    if n > lim.cap {
        got.0.len() == 0 && end_agrees(
            got.1,
            ExpEnd::Error(InitialError::Packet(PacketError::TooLarge { packet_length: n, limit: lim.cap })),
        )
    } else if model.packets >= lim.max_packets {
        got.0.len() == 0 && end_agrees(
            got.1,
            ExpEnd::Error(InitialError::PacketBudgetExceeded { limit: lim.max_packets }),
        )
    } else if model.bytes + e.1.len() > lim.max_bytes {
        got.0.len() == 0 && end_agrees(got.1, ExpEnd::Error(InitialError::ByteBudgetExceeded { limit: lim.max_bytes }))
    } else {
        match element_outcome(e.0) {
            Ok(ev) => got.0 == seq![ev] + after.0 && got.1 == after.1,
            Err(end) => got.0.len() == 0 && end_agrees(got.1, end),
        }
    }
}

/// One element of a run.
proof fn lemma_run_element(
    stream: Seq<u8>,
    off: int,
    e: (GenMsgView, Seq<u8>),
    more: Seq<u8>,
    lim: ModelLimits,
    model: Model,
)
    requires
        msg_wf(e.0),
        raw_foreign(e.0),
        in_frame(e, lim.cap),
        e.0 is OversizedClaim ==> lim.cap < u32::MAX,
        0 <= off <= stream.len() <= usize::MAX,
        stream.skip(off) == e.1 + more,
    ensures
        run_at_element(
            packet_reading(stream, off, model, packet_limits(lim)),
            e,
            lim,
            model,
            packet_reading(
                stream,
                off + e.1.len(),
                Model { packets: (model.packets + 1) as usize, bytes: (model.bytes + e.1.len()) as usize },
                packet_limits(lim),
            ),
        ),
{
    reveal(packet_reading);
    let pad = choose|pad: u8| e.1 == #[trigger] frame_of(e.0, pad, lim.cap);
    assert(stream.skip(off).len() == stream.len() - off);
    lemma_element_framed(e.0, pad, lim.cap, more);
    lemma_element_steps(e.0, pad, more, model, packet_limits(lim));
}

proof fn lemma_elements_from(
    msgs: Seq<(GenMsgView, Seq<u8>)>,
    trailing: Seq<u8>,
    lim: ModelLimits,
    i: int,
    used: int,
)
    requires
        elements_ok(msgs, lim.cap),
        headroom(msgs, lim.cap),
        0 <= i <= msgs.len(),
        i <= lim.max_packets,
        used == frames_wire(msgs.take(i)).len(),
        used <= lim.max_bytes,
        frames_wire(msgs).len() + trailing.len() <= usize::MAX,
    ensures
        ({
            let (events, end) = packet_reading(
                frames_wire(msgs) + trailing,
                used,
                Model { packets: i as usize, bytes: used as usize },
                packet_limits(lim),
            );
            let (want, stop) = expected_elements(msgs, lim, i, used);
            if stop is Incomplete {
                want.is_prefix_of(events)
            } else {
                events == want && end_agrees(end, stop)
            }
        }),
    decreases msgs.len() - i,
{
    let stream = frames_wire(msgs) + trailing;
    let model = Model { packets: i as usize, bytes: used as usize };
    if i < msgs.len() {
        let e = msgs[i];
        let more = frames_from(msgs, i + 1) + trailing;
        assert(stream.skip(used) == e.1 + more && used <= stream.len()) by {
            lemma_frames_from(msgs, i);
            assert(stream.skip(used) =~= e.1 + more);
        }
        assert(frames_wire(msgs.take(i + 1)).len() == used + e.1.len()) by {
            assert(msgs.take(i + 1).drop_last() =~= msgs.take(i));
        }
        lemma_run_element(stream, used, e, more, lim, model);
        let next = Model { packets: (i + 1) as usize, bytes: (used + e.1.len()) as usize };
        let after = packet_reading(stream, used + e.1.len(), next, packet_limits(lim));
        let got = packet_reading(stream, used, model, packet_limits(lim));
        let (want, stop) = expected_elements(msgs, lim, i, used);
        if u32_of(e.1) <= lim.cap && i < lim.max_packets && used + e.1.len() <= lim.max_bytes {
            match element_outcome(e.0) {
                Ok(ev) => {
                    lemma_elements_from(msgs, trailing, lim, i + 1, used + e.1.len());
                    let (w, _) = expected_elements(msgs, lim, i + 1, used + e.1.len());
                    if stop is Incomplete {
                        assert(want.is_prefix_of(got.0)) by {
                            assert(w =~= after.0.subrange(0, w.len() as int));
                            assert(want =~= got.0.subrange(0, want.len() as int));
                        }
                    }
                },
                Err(end) => {
                    assert(got.0 =~= want);
                },
            }
        } else {
            assert(got.0 =~= want);
        }
    } else {
        let got = packet_reading(stream, used, model, packet_limits(lim));
        assert(Seq::<EvView>::empty() =~= got.0.subrange(0, 0));
    }
}

/// The packets of a described stream: the model reads the expected events and
/// ends as expected. Where the elements do not end it, it reads their events
/// first, and what follows them decides.
pub proof fn lemma_elements_run(msgs: Seq<(GenMsgView, Seq<u8>)>, trailing: Seq<u8>, lim: ModelLimits)
    requires
        elements_ok(msgs, lim.cap),
        headroom(msgs, lim.cap),
        frames_wire(msgs).len() + trailing.len() <= usize::MAX,
    ensures
        ({
            let (events, end) = model_run(
                frames_wire(msgs) + trailing,
                0,
                Model { packets: 0, bytes: 0 },
                packet_limits(lim),
            );
            let (want, stop) = expected_elements(msgs, lim, 0, 0);
            if stop is Incomplete {
                want.is_prefix_of(events)
            } else {
                events == want && end_agrees(end, stop)
            }
        }),
{
    reveal(packet_reading);
    assert(msgs.take(0).len() == 0);
    lemma_elements_from(msgs, trailing, lim, 0, 0);
}

proof fn lemma_name_drawn(s: Seq<u8>)
    ensures
        valid_name(name_gen(s).0),
        name_gen(s).0.len() <= MAX_NAME,
{
    let idx = byte_at(s, 0) as int;
    if idx < NAME_COUNT {
        lemma_known_valid(idx);
    } else {
        let len = 1 + (idx - NAME_COUNT) % 16;
        let raw = taken_filled(dropped(s, 1), len, 13);
        let name = name_gen(s).0;
        assert(raw.len() == len);
        assert forall|i: int| 0 <= i < name.len() implies printable(#[trigger] name[i]) && name[i] != 44u8 by {
            assert(name[i] == name_for(raw[i]));
        }
    }
}

proof fn lemma_names_drawn(s: Seq<u8>, n: int)
    requires
        0 <= n,
    ensures
        moderate(names_gen(s, n).0, n),
    decreases n,
{
    if n > 0 {
        lemma_names_drawn(s, n - 1);
        lemma_name_drawn(names_gen(s, n - 1).1);
    }
}

proof fn lemma_lists_drawn(s: Seq<u8>, n: int)
    requires
        0 <= n,
    ensures
        lists_gen(s, n).0.len() == n,
        forall|i: int| 0 <= i < n ==> moderate(#[trigger] lists_gen(s, n).0[i], 3),
    decreases n,
{
    if n > 0 {
        lemma_lists_drawn(s, n - 1);
        let s1 = lists_gen(s, n - 1).1;
        lemma_names_drawn(dropped(s1, 1), (byte_at(s1, 0) % 4) as int);
    }
}

proof fn lemma_kexinit_drawn(s: Seq<u8>, role: Role)
    ensures
        kex_wf(kexinit_gen(s, role).0),
{
    broadcast use lemma_be32_len;

    let flags = byte_at(s, 0);
    let s1 = dropped(s, 1);
    let (drawn, s2) = lists_gen(dropped(s1, 16), 10);
    lemma_lists_drawn(dropped(s1, 16), 10);
    lemma_marked_moderate(drawn[0], flags, role);
    let k = kexinit_gen(s, role).0;
    assert forall|i: int| 0 <= i < 10 implies moderate(#[trigger] k.lists[i], 6) by {
        assert(moderate(drawn[i], 3));
    }
    lemma_lists_short(k.lists, 0);
}

/// A drawn element can be framed, and a raw one has a number that no decoder
/// before KEXINIT takes.
proof fn lemma_msg_drawn(s: Seq<u8>, role: Role, cap: u32)
    ensures
        msg_wf(msg_gen(s, role, cap).0),
        raw_foreign(msg_gen(s, role, cap).0),
{
    lemma_kexinit_drawn(dropped(s, 1), role);
}

proof fn lemma_elements_drawn(s: Seq<u8>, role: Role, cap: u32, n: int)
    ensures
        elements_ok(elements_gen(s, role, cap, n).0, cap),
    decreases n,
{
    if n > 0 {
        lemma_elements_drawn(s, role, cap, n - 1);
        let (msgs, used, s1) = elements_gen(s, role, cap, n - 1);
        lemma_msg_drawn(dropped(s1, 1), role, cap);
        let all = elements_gen(s, role, cap, n).0;
        let e = all.last();
        assert(e.1 == frame_of(e.0, byte_at(s1, 0), cap));
        assert forall|i: int| 0 <= i < all.len() implies msg_wf((#[trigger] all[i]).0) && raw_foreign(all[i].0)
            && in_frame(all[i], cap) by {
            if i < msgs.len() {
                assert(all[i] == msgs[i]);
            }
        }
    }
}

/// The packets of a generated stream: behind the identification the model
/// reads the events of the elements and ends as they say.
pub proof fn lemma_stream_packets(s: Seq<u8>, role: Role, lim: ModelLimits)
    requires
        headroom(stream_of(s, role, lim.cap).0.msgs, lim.cap),
        ({
            let g = stream_of(s, role, lim.cap).0;
            frames_wire(g.msgs).len() + g.trailing.len() <= usize::MAX
        }),
    ensures
        ({
            let g = stream_of(s, role, lim.cap).0;
            let (events, end) = model_run(
                frames_wire(g.msgs) + g.trailing,
                0,
                Model { packets: 0, bytes: 0 },
                packet_limits(lim),
            );
            let (want, stop) = expected_elements(g.msgs, lim, 0, 0);
            if stop is Incomplete {
                want.is_prefix_of(events)
            } else {
                events == want && end_agrees(end, stop)
            }
        }),
{
    let g = stream_of(s, role, lim.cap).0;
    let s1 = dropped(s, 1);
    let s2 = match role {
        Role::Server => prelude_gen(s1, (byte_at(s, 0) % 9) as int).1,
        Role::Client => dropped(s1, (byte_at(s, 0) % 33) as int),
    };
    let s3 = ident_gen(s2).1;
    lemma_elements_drawn(dropped(s3, 1), role, lim.cap, (byte_at(s3, 0) % 9) as int);
    lemma_elements_run(g.msgs, g.trailing, lim);
}

} // verus!
