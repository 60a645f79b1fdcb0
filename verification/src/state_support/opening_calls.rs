//! How the commands and messages of channel opening answer each other: what an
//! open leads to when it is confirmed, refused, accepted or cancelled.

use vstd::prelude::*;
use crate::state_support::opening_laws::{admits, changed, Change};
use crate::state_support::opening_state::{
    accept_event, accepted, answered_late, cancelled, coherent, confirm_event, confirmed, fail_event, failed, handed_out,
    handle_error, incoming, incoming_limited, issued, late_confirm_event, late_fail_event, lemma_cancelled, lemma_fresh,
    lemma_incoming, lemma_live_at, lemma_live_issued, lemma_moved, lemma_not_issued, lemma_opened, limit_refused, live_count, live_of, lost,
    open_error, opened, peer_in_use, phase_of, refused, reply_target, Live, OpeningState, ReplyTarget,
    EXHAUSTED_REFUSAL_DESCRIPTION, LIMIT_REFUSAL_DESCRIPTION, RESOURCE_SHORTAGE,
};
use crate::state_support::opening_types::{
    AcceptParams, ChannelHandle, Credit, Event, HandleError, LateReply, LocalNumber, OpenError, OpenParams, Outgoing,
    PeerNumber, Phase, Violation,
};
use crate::text::bytes_of;
use crate::wire_core::messages_ref::{ChannelOpenConfirmationFields, ChannelOpenFailureFields, ChannelOpenFields};

verus! {

/// Every handle but one is where it was.
pub open spec fn others_stay(m: OpeningState, w: OpeningState, h: ChannelHandle) -> bool {
    forall|x: ChannelHandle| x != h ==> #[trigger] phase_of(w, x) == phase_of(m, x)
}

/// Our open: one OPEN is queued, last, with our number, credit and data, and
/// the handle waits for the peer. A confirmation of that number establishes
/// it, and reports our credit as ours and the credit of the confirmation as
/// the peer's, with both numbers; a failure refuses it, with what the peer
/// gave as its reason. Either way no other handle moves, and nothing is
/// queued.
pub proof fn lemma_open_answered(
    m: OpeningState,
    p: OpenParams<Seq<u8>>,
    h: ChannelHandle,
    yes: ChannelOpenConfirmationFields,
    no: ChannelOpenFailureFields,
)
    requires
        coherent(m),
        m.pending_out.dom().finite(),
        open_error(m) is None,
        !issued(m.slots, h),
        yes.recipient_channel == m.next_local,
        no.recipient_channel == m.next_local,
    ensures
        ({
            let w = opened(m, p, h);
            let n = m.next_local as u32;
            &&& coherent(w)
            &&& w.next_local == m.next_local + 1
            &&& w.outgoing == m.outgoing.push(
                Outgoing::Open {
                    channel_type: p.channel_type,
                    sender_channel: LocalNumber(n),
                    local: p.local,
                    type_specific: p.type_specific,
                },
            )
            &&& phase_of(w, h) == Some(Phase::PendingOutgoing)
            &&& others_stay(m, w, h)
            &&& live_count(w) == live_count(m) + 1
            &&& reply_target(w, n) == Ok::<ReplyTarget, Violation>(ReplyTarget::Pending)
            &&& confirm_event(w, yes) == (Event::Established {
                handle: h,
                channel_type: p.channel_type,
                local_number: LocalNumber(n),
                peer_number: PeerNumber(yes.sender_channel),
                local: p.local,
                peer: Credit {
                    initial_window_size: yes.initial_window_size,
                    maximum_packet_size: yes.maximum_packet_size,
                },
                peer_type_specific: yes.type_specific,
            })
            &&& phase_of(confirmed(w, yes), h) == Some(Phase::Established)
            &&& others_stay(w, confirmed(w, yes), h)
            &&& confirmed(w, yes).outgoing == w.outgoing
            &&& peer_in_use(confirmed(w, yes), yes.sender_channel)
            &&& fail_event(w, no) == (Event::Refused {
                handle: h,
                reason_code: no.reason_code,
                description: no.description,
                language_tag: no.language_tag,
            })
            &&& phase_of(failed(w, no.recipient_channel), h) is None
            &&& others_stay(w, failed(w, no.recipient_channel), h)
            &&& failed(w, no.recipient_channel).outgoing == w.outgoing
            &&& live_count(failed(w, no.recipient_channel)) == live_count(m)
        }),
{
    let w = opened(m, p, h);
    let n = m.next_local as u32;
    lemma_opened(m, p, h);
    lemma_fresh(m.slots, h, Live::Out(n));
    lemma_live_issued(w.slots, h);
    lemma_moved(w.slots, h, Some(Live::Est(n)));
    lemma_moved(w.slots, h, None);
    assert(!m.pending_out.contains_key(n));
    assert(w.pending_out.contains_key(n));
    assert(confirmed(w, yes).established.contains_key(n));
    assert(w.pending_out.remove(n) =~= m.pending_out);
}

/// A cancelled open: its handle is stale and no other moves. A reply to it
/// while its number is kept is reported as late, with the number, and with the
/// peer's number and credit, or its reason.
pub proof fn lemma_cancel_answered(
    m: OpeningState,
    h: ChannelHandle,
    yes: ChannelOpenConfirmationFields,
    no: ChannelOpenFailureFields,
)
    requires
        coherent(m),
        live_of(m.slots, h) == Some(Live::Out(yes.recipient_channel)),
        no.recipient_channel == yes.recipient_channel,
        m.limits.max_tombstones > 0,
        m.pending_out.dom().finite(),
    ensures
        ({
            let n = yes.recipient_channel;
            let w = cancelled(m, h, n);
            &&& coherent(w)
            &&& phase_of(w, h) is None
            &&& others_stay(m, w, h)
            &&& live_count(w) == live_count(m) - 1
            &&& w.outgoing == m.outgoing
            &&& reply_target(w, n) == Ok::<ReplyTarget, Violation>(ReplyTarget::Tombstone)
            &&& late_confirm_event(yes) == Event::<Seq<u8>>::LateReply {
                local_number: LocalNumber(n),
                reply: LateReply::Confirmed {
                    peer_number: PeerNumber(yes.sender_channel),
                    peer: Credit {
                        initial_window_size: yes.initial_window_size,
                        maximum_packet_size: yes.maximum_packet_size,
                    },
                },
            }
            &&& late_fail_event(no) == Event::<Seq<u8>>::LateReply {
                local_number: LocalNumber(n),
                reply: LateReply::Refused { reason_code: no.reason_code },
            }
            &&& !answered_late(w, n).tombstones.contains(n)
        }),
{
    let n = yes.recipient_channel;
    let w = cancelled(m, h, n);
    assert(m.pending_out.contains_key(n));
    lemma_cancelled(m, h, n);
    lemma_live_issued(m.slots, h);
    lemma_moved(m.slots, h, None);
    assert(w.tombstones[w.tombstones.len() - 1] == n);
    crate::state_support::opening_state::lemma_answered_late(w, n);
    let i = w.tombstones.index_of(n);
    if answered_late(w, n).tombstones.contains(n) {
        let t = answered_late(w, n).tombstones;
        let k = choose|k: int| 0 <= k < t.len() && t[k] == n;
        let j = if k < i { k } else { k + 1 };
        assert(w.tombstones[j] == n && w.tombstones[i] == n && i != j);
    }
}

/// The cancelled numbers that are kept are the latest, in order, up to the
/// limit.
pub proof fn lemma_tombstones(m: OpeningState, h: ChannelHandle, n: u32)
    ensures
        ({
            let t = cancelled(m, h, n).tombstones;
            let all = m.tombstones.push(n);
            &&& t.len() == (if all.len() <= m.limits.max_tombstones {
                all.len() as int
            } else {
                m.limits.max_tombstones as int
            })
            &&& forall|i: int| 0 <= i < t.len() ==> #[trigger] t[i] == all[all.len() - t.len() + i]
        }),
{
}

/// The peer's open: the handle waits for the application, nothing is queued,
/// and no number of ours is taken. Accepting it queues one confirmation to the
/// peer's number, with our number, our credit and our data; the event reports
/// the credit we accept with as ours and the credit of the peer's open as the
/// peer's. Refusing it queues one failure to the peer's number, with the reason
/// and the description, and frees the number.
pub proof fn lemma_incoming_answered(
    m: OpeningState,
    f: ChannelOpenFields,
    h: ChannelHandle,
    p: AcceptParams<Seq<u8>>,
    reason_code: u32,
    description: Seq<u8>,
)
    requires
        coherent(m),
        !peer_in_use(m, f.sender_channel),
        !issued(m.slots, h),
        m.next_local <= u32::MAX,
    ensures
        ({
            let w = incoming(m, f, h);
            let n = m.next_local as u32;
            let peer = f.sender_channel;
            let a = accepted(w, h, peer, p);
            let d = refused(w, h, peer, reason_code, description);
            &&& coherent(w)
            &&& w.outgoing == m.outgoing
            &&& w.next_local == m.next_local
            &&& phase_of(w, h) == Some(Phase::PendingIncoming)
            &&& others_stay(m, w, h)
            &&& peer_in_use(w, peer)
            &&& accept_event(w, h, peer, p) == (Event::Established {
                handle: h,
                channel_type: f.channel_type,
                local_number: LocalNumber(n),
                peer_number: PeerNumber(peer),
                local: p.local,
                peer: Credit {
                    initial_window_size: f.initial_window_size,
                    maximum_packet_size: f.maximum_packet_size,
                },
                peer_type_specific: Seq::empty(),
            })
            &&& a.outgoing == m.outgoing.push(
                Outgoing::OpenConfirmation {
                    recipient_channel: PeerNumber(peer),
                    sender_channel: LocalNumber(n),
                    local: p.local,
                    type_specific: p.type_specific,
                },
            )
            &&& a.next_local == m.next_local + 1
            &&& phase_of(a, h) == Some(Phase::Established)
            &&& others_stay(m, a, h)
            &&& peer_in_use(a, peer)
            &&& d.outgoing == m.outgoing.push(
                Outgoing::OpenFailure {
                    recipient_channel: PeerNumber(peer),
                    reason_code,
                    description,
                    language_tag: Seq::empty(),
                },
            )
            &&& phase_of(d, h) is None
            &&& others_stay(m, d, h)
            &&& !peer_in_use(d, peer)
        }),
{
    let w = incoming(m, f, h);
    let n = m.next_local as u32;
    let peer = f.sender_channel;
    lemma_incoming(m, f, h);
    lemma_fresh(m.slots, h, Live::In(peer));
    lemma_live_issued(w.slots, h);
    lemma_moved(w.slots, h, Some(Live::Est(n)));
    lemma_moved(w.slots, h, None);
    lemma_not_issued(m.slots, h);
    let a = accepted(w, h, peer, p);
    assert(a.established.contains_key(n) && a.established[n].peer == peer);
    assert(w.pending_in.remove(peer) =~= m.pending_in);
}

/// What waits for the application keeps, over any change that leaves it
/// waiting, the type and the credit that the peer opened it with; what waits
/// for the peer keeps our type and our credit.
pub proof fn lemma_pending_kept(m: OpeningState, c: Change, n: u32)
    requires
        coherent(m),
        admits(m, c),
    ensures
        m.pending_in.contains_key(n) && changed(m, c).pending_in.contains_key(n) ==> changed(m, c).pending_in[n]
            == m.pending_in[n],
        m.pending_out.contains_key(n) && changed(m, c).pending_out.contains_key(n) ==> changed(m, c).pending_out[n]
            == m.pending_out[n],
{
}

/// The messages of refusals that no application asked for.
pub proof fn lemma_automatic_refusals(m: OpeningState, peer: u32, h: ChannelHandle)
    ensures
        limit_refused(m, peer).outgoing == m.outgoing.push(
            Outgoing::OpenFailure {
                recipient_channel: PeerNumber(peer),
                reason_code: 4,
                description: bytes_of("too many pending channels"),
                language_tag: Seq::empty(),
            },
        ),
        limit_refused(m, peer).slots == m.slots,
        limit_refused(m, peer).pending_in == m.pending_in,
        refused(m, h, peer, RESOURCE_SHORTAGE, bytes_of(EXHAUSTED_REFUSAL_DESCRIPTION)).outgoing == m.outgoing.push(
            Outgoing::OpenFailure {
                recipient_channel: PeerNumber(peer),
                reason_code: 4,
                description: bytes_of("channel numbers exhausted"),
                language_tag: Seq::empty(),
            },
        ),
        LIMIT_REFUSAL_DESCRIPTION@ == "too many pending channels"@,
{
}

/// An open of ours fails exactly at a limit, the pending one first, then the
/// one of all channels, then that of numbers. An open of the peer is over a
/// limit exactly where as many wait as may, or as many live.
pub proof fn lemma_limits(m: OpeningState)
    ensures
        open_error(m) is None <==> m.pending_out.len() < m.limits.max_pending_outgoing && m.pending_out.len()
            + m.pending_in.len() + m.established.len() < m.limits.max_channels && m.next_local <= 0xffff_ffff,
        open_error(m) == Some(OpenError::TooManyPendingOutgoing) <==> m.pending_out.len()
            >= m.limits.max_pending_outgoing,
        open_error(m) == Some(OpenError::TooManyChannels) <==> m.pending_out.len() < m.limits.max_pending_outgoing
            && m.pending_out.len() + m.pending_in.len() + m.established.len() >= m.limits.max_channels,
        incoming_limited(m) <==> m.pending_in.len() >= m.limits.max_pending_incoming || m.pending_out.len()
            + m.pending_in.len() + m.established.len() >= m.limits.max_channels,
{
}

/// A command finds its handle in the phase that it wants, in another one, or
/// stale; never issued counts as stale.
pub proof fn lemma_handle_errors(m: OpeningState, h: ChannelHandle, wanted: Phase)
    ensures
        handle_error(m, h, wanted) is None <==> phase_of(m, h) == Some(wanted),
        handle_error(m, h, wanted) == Some(HandleError::Stale) <==> phase_of(m, h) is None,
        forall|p: Phase|
            #[trigger] handle_error(m, h, wanted) == Some(HandleError::WrongPhase { actual: p }) <==> phase_of(m, h)
                == Some(p) && p != wanted,
        !issued(m.slots, h) ==> phase_of(m, h) is None,
        live_of(m.slots, h) is Some ==> (phase_of(m, h) == Some(Phase::PendingOutgoing) <==> live_of(m.slots, h)->0
            is Out) && (phase_of(m, h) == Some(Phase::PendingIncoming) <==> live_of(m.slots, h)->0 is In) && (phase_of(
            m,
            h,
        ) == Some(Phase::Established) <==> live_of(m.slots, h)->0 is Est),
{
    if !issued(m.slots, h) {
        lemma_not_issued(m.slots, h);
    }
}

/// A reply lands at what waits under its number, at a cancelled number that is
/// kept, or is a violation: a duplicate where the number is established, a
/// reply to the peer's own open where the number was never ours.
pub proof fn lemma_reply_lands(m: OpeningState, n: u32)
    requires
        coherent(m),
    ensures
        match reply_target(m, n) {
            Ok(ReplyTarget::Pending) => m.pending_out.contains_key(n),
            Ok(ReplyTarget::Tombstone) => m.tombstones.contains(n) && n < m.next_local,
            Err(Violation::DuplicateReply { local_number }) => local_number == LocalNumber(n)
                && m.established.contains_key(n),
            Err(Violation::ReplyToIncoming { recipient }) => recipient == n && m.pending_in.contains_key(n) && n
                >= m.next_local,
            Err(Violation::UnknownRecipient { recipient }) => recipient == n && !m.pending_out.contains_key(n)
                && !m.established.contains_key(n) && !m.tombstones.contains(n) && (n < m.next_local
                || !m.pending_in.contains_key(n)),
            Err(Violation::DuplicatePeerNumber { .. }) => false,
        },
{
}

/// A lost transport leaves every handle stale and nothing queued; the cancelled
/// numbers and the next number stay.
pub proof fn lemma_transport_lost(m: OpeningState, h: ChannelHandle)
    requires
        coherent(m),
    ensures
        phase_of(lost(m), h) is None,
        lost(m).outgoing.len() == 0,
        live_count(lost(m)) == 0,
        lost(m).tombstones == m.tombstones,
        lost(m).next_local == m.next_local,
        lost(m).last_wire == m.last_wire,
        forall|x: ChannelHandle| #[trigger] issued(m.slots, x) ==> issued(lost(m).slots, x),
{
    let s = lost(m).slots;
    assert forall|x: ChannelHandle| #[trigger] issued(m.slots, x) implies issued(s, x) by {
        let i = choose|i: int| 0 <= i < m.slots.len() && (#[trigger] m.slots[i]).0 == x;
        assert(s[i].0 == x);
    }
    assert forall|i: int, j: int| 0 <= i < j < s.len() implies (#[trigger] s[i]).0 != (#[trigger] s[j]).0 by {
        assert(m.slots[i].0 != m.slots[j].0);
    }
    if issued(s, h) {
        let i = choose|i: int| 0 <= i < s.len() && (#[trigger] s[i]).0 == h;
        lemma_live_at(s, i);
    } else {
        lemma_not_issued(s, h);
    }
}

/// Queued messages go out in the order they were queued.
pub proof fn lemma_first_out(m: OpeningState)
    requires
        m.outgoing.len() > 0,
    ensures
        handed_out(m).outgoing == m.outgoing.skip(1),
        handed_out(m).slots == m.slots,
        match m.outgoing[0] {
            Outgoing::Open { sender_channel, .. } => handed_out(m).last_wire == Some(sender_channel.0),
            Outgoing::OpenConfirmation { sender_channel, .. } => handed_out(m).last_wire == Some(sender_channel.0),
            Outgoing::OpenFailure { .. } => handed_out(m).last_wire == m.last_wire,
        },
{
    assert(m.outgoing.drop_first() =~= m.outgoing.skip(1));
}

} // verus!
