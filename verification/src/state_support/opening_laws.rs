//! What holds of channel opening over any run of commands and messages.

use vstd::prelude::*;
use crate::state_support::opening_state::{
    accepted, answered_late, cancelled, coherent, confirmed, failed, fresh, handed_out, incoming, incoming_limited,
    issued, lemma_accepted, lemma_answered_late, lemma_cancelled, lemma_confirmed, lemma_failed, lemma_handed_out,
    lemma_incoming, lemma_limit_refused, lemma_live_at, lemma_lost, lemma_opened, lemma_refused, limit_refused,
    live_count, live_of, lost, open_error, opened, peer_in_use, refused, reply_target, Live, OpeningState, ReplyTarget,
};
use crate::state_support::opening_types::{
    wire_number, AcceptParams, ChannelHandle, LocalNumber, OpenParams, OpeningLimits, Violation,
};
use crate::wire_core::messages_ref::{ChannelOpenConfirmationFields, ChannelOpenFields};

verus! {

/// One change of the state of channel opening.
pub ghost enum Change {
    Open { params: OpenParams<Seq<u8>>, handle: ChannelHandle },
    Cancel { handle: ChannelHandle, number: u32 },
    Refuse { handle: ChannelHandle, peer: u32, reason_code: u32, description: Seq<u8> },
    Accept { handle: ChannelHandle, peer: u32, params: AcceptParams<Seq<u8>> },
    Lose,
    RefuseByLimit { peer: u32 },
    Arrive { open: ChannelOpenFields, handle: ChannelHandle },
    ReplyLate { number: u32 },
    Confirm { confirmation: ChannelOpenConfirmationFields },
    Fail { number: u32 },
    HandOut,
}

/// A state admits a change.
pub open spec fn admits(m: OpeningState, c: Change) -> bool {
    match c {
        Change::Open { params, handle } => open_error(m) is None && !issued(m.slots, handle),
        Change::Cancel { handle, number } => live_of(m.slots, handle) == Some(Live::Out(number)),
        Change::Refuse { handle, peer, reason_code, description } => live_of(m.slots, handle) == Some(Live::In(peer)),
        Change::Accept { handle, peer, params } => live_of(m.slots, handle) == Some(Live::In(peer)) && m.next_local
            <= u32::MAX,
        Change::Lose => true,
        Change::RefuseByLimit { peer } => !peer_in_use(m, peer) && incoming_limited(m),
        Change::Arrive { open, handle } => !peer_in_use(m, open.sender_channel) && !incoming_limited(m) && !issued(
            m.slots,
            handle,
        ),
        Change::ReplyLate { number } => reply_target(m, number) == Ok::<ReplyTarget, Violation>(ReplyTarget::Tombstone),
        Change::Confirm { confirmation } => reply_target(m, confirmation.recipient_channel) == Ok::<
            ReplyTarget,
            Violation,
        >(ReplyTarget::Pending),
        Change::Fail { number } => reply_target(m, number) == Ok::<ReplyTarget, Violation>(ReplyTarget::Pending),
        Change::HandOut => m.outgoing.len() > 0,
    }
}

/// The state after a change.
pub open spec fn changed(m: OpeningState, c: Change) -> OpeningState {
    match c {
        Change::Open { params, handle } => opened(m, params, handle),
        Change::Cancel { handle, number } => cancelled(m, handle, number),
        Change::Refuse { handle, peer, reason_code, description } => refused(m, handle, peer, reason_code, description),
        Change::Accept { handle, peer, params } => accepted(m, handle, peer, params),
        Change::Lose => lost(m),
        Change::RefuseByLimit { peer } => limit_refused(m, peer),
        Change::Arrive { open, handle } => incoming(m, open, handle),
        Change::ReplyLate { number } => answered_late(m, number),
        Change::Confirm { confirmation } => confirmed(m, confirmation),
        Change::Fail { number } => failed(m, number),
        Change::HandOut => handed_out(m),
    }
}

/// The state after a run of changes.
pub open spec fn run(m: OpeningState, changes: Seq<Change>) -> OpeningState
    decreases changes.len(),
{
    if changes.len() == 0 {
        m
    } else {
        changed(run(m, changes.drop_last()), changes.last())
    }
}

/// Every change of a run is admitted by the state before it.
pub open spec fn run_admitted(m: OpeningState, changes: Seq<Change>) -> bool
    decreases changes.len(),
{
    changes.len() == 0 || (run_admitted(m, changes.drop_last()) && admits(run(m, changes.drop_last()), changes.last()))
}

/// The local numbers that a run puts onto the wire, in order.
pub open spec fn sent(m: OpeningState, changes: Seq<Change>) -> Seq<u32>
    decreases changes.len(),
{
    if changes.len() == 0 {
        Seq::empty()
    } else {
        let before = sent(m, changes.drop_last());
        if changes.last() is HandOut {
            match wire_number(run(m, changes.drop_last()).outgoing[0]) {
                Some(n) => before.push(n),
                None => before,
            }
        } else {
            before
        }
    }
}

/// The counters keep to the limits.
pub open spec fn within_limits(m: OpeningState) -> bool {
    &&& m.pending_out.dom().finite()
    &&& m.pending_in.dom().finite()
    &&& m.established.dom().finite()
    &&& m.pending_out.len() <= m.limits.max_pending_outgoing
    &&& m.pending_in.len() <= m.limits.max_pending_incoming
    &&& live_count(m) <= m.limits.max_channels
}

/// A fresh state is coherent and within its limits.
pub proof fn lemma_fresh_state(limits: OpeningLimits)
    ensures
        coherent(fresh(limits)),
        within_limits(fresh(limits)),
{
}

/// An admitted change keeps a state coherent.
pub proof fn lemma_change_coherent(m: OpeningState, c: Change)
    requires
        coherent(m),
        admits(m, c),
    ensures
        coherent(changed(m, c)),
{
    match c {
        Change::Open { params, handle } => lemma_opened(m, params, handle),
        Change::Cancel { handle, number } => lemma_cancelled(m, handle, number),
        Change::Refuse { handle, peer, reason_code, description } => lemma_refused(
            m,
            handle,
            peer,
            reason_code,
            description,
        ),
        Change::Accept { handle, peer, params } => lemma_accepted(m, handle, peer, params),
        Change::Lose => lemma_lost(m),
        Change::RefuseByLimit { peer } => lemma_limit_refused(m, peer),
        Change::Arrive { open, handle } => lemma_incoming(m, open, handle),
        Change::ReplyLate { number } => lemma_answered_late(m, number),
        Change::Confirm { confirmation } => lemma_confirmed(m, confirmation),
        Change::Fail { number } => lemma_failed(m, number),
        Change::HandOut => lemma_handed_out(m),
    }
}

/// An admitted change keeps the counters within the limits.
pub proof fn lemma_change_limited(m: OpeningState, c: Change)
    requires
        coherent(m),
        within_limits(m),
        admits(m, c),
    ensures
        within_limits(changed(m, c)),
{
    match c {
        Change::Open { params, handle } => {
            assert(!m.pending_out.contains_key(m.next_local as u32));
        },
        Change::Cancel { handle, number } => {
            assert(m.pending_out.contains_key(number));
        },
        Change::Refuse { handle, peer, .. } => {
            assert(m.pending_in.contains_key(peer));
        },
        Change::Accept { handle, peer, params } => {
            assert(m.pending_in.contains_key(peer));
            assert(!m.established.contains_key(m.next_local as u32));
        },
        Change::Arrive { open, handle } => {
            assert(!m.pending_in.contains_key(open.sender_channel));
        },
        Change::Confirm { confirmation } => {
            assert(!m.established.contains_key(confirmation.recipient_channel));
        },
        _ => {},
    }
}

/// The handles of a state keep their places in another, and the stale ones
/// stay stale.
pub open spec fn handles_kept(m: OpeningState, w: OpeningState) -> bool {
    &&& m.slots.len() <= w.slots.len()
    &&& forall|i: int|
        0 <= i < m.slots.len() ==> (#[trigger] w.slots[i]).0 == m.slots[i].0 && (m.slots[i].1 is None ==> w.slots[i].1
            is None)
}

proof fn lemma_change_handles(m: OpeningState, c: Change)
    requires
        coherent(m),
        admits(m, c),
    ensures
        handles_kept(m, changed(m, c)),
{
    let w = changed(m, c);
    assert forall|i: int| 0 <= i < m.slots.len() implies (#[trigger] w.slots[i]).0 == m.slots[i].0 && (m.slots[i].1
        is None ==> w.slots[i].1 is None) by {
        lemma_live_at(m.slots, i);
        match c {
            Change::Confirm { confirmation } => {
                assert(m.pending_out.contains_key(confirmation.recipient_channel));
            },
            Change::Fail { number } => {
                assert(m.pending_out.contains_key(number));
            },
            _ => {},
        }
    }
}

/// Over any run the state stays coherent and within its limits, which do not
/// change. Local numbers are not given back. No handle is issued again, and one
/// that is stale stays so.
pub proof fn lemma_run_keeps(m: OpeningState, changes: Seq<Change>)
    requires
        coherent(m),
        within_limits(m),
        run_admitted(m, changes),
    ensures
        coherent(run(m, changes)),
        within_limits(run(m, changes)),
        run(m, changes).limits == m.limits,
        m.next_local <= run(m, changes).next_local,
        handles_kept(m, run(m, changes)),
    decreases changes.len(),
{
    if changes.len() > 0 {
        let before = changes.drop_last();
        lemma_run_keeps(m, before);
        let w = run(m, before);
        let c = changes.last();
        lemma_change_coherent(w, c);
        lemma_change_limited(w, c);
        lemma_change_handles(w, c);
        let x = changed(w, c);
        assert forall|i: int| 0 <= i < m.slots.len() implies (#[trigger] x.slots[i]).0 == m.slots[i].0 && (m.slots[i].1
            is None ==> x.slots[i].1 is None) by {
            assert(w.slots[i].0 == m.slots[i].0);
        }
    }
}

/// Over any run the local numbers on the wire rise strictly, from above the
/// last one before the run: none goes out twice.
pub proof fn lemma_sent_rise(m: OpeningState, changes: Seq<Change>)
    requires
        coherent(m),
        run_admitted(m, changes),
    ensures
        coherent(run(m, changes)),
        forall|i: int, j: int|
            0 <= i < j < sent(m, changes).len() ==> #[trigger] sent(m, changes)[i] < #[trigger] sent(m, changes)[j],
        forall|i: int|
            0 <= i < sent(m, changes).len() ==> (m.last_wire matches Some(l) ==> l < #[trigger] sent(m, changes)[i]),
        run(m, changes).last_wire == (if sent(m, changes).len() == 0 {
            m.last_wire
        } else {
            Some(sent(m, changes).last())
        }),
    decreases changes.len(),
{
    if changes.len() > 0 {
        let before = changes.drop_last();
        lemma_sent_rise(m, before);
        let w = run(m, before);
        lemma_change_coherent(w, changes.last());
        if changes.last() is HandOut {
            lemma_handed_out(w);
            let s = sent(m, before);
            if let Some(n) = wire_number(w.outgoing[0]) {
                assert forall|i: int| 0 <= i < s.len() implies #[trigger] s[i] < n by {
                    assert(s[i] <= s.last());
                }
            }
        }
    }
}

/// A number is answered once: a reply to a confirmed one is a duplicate, a
/// reply to a refused one has no recipient.
pub proof fn lemma_answered_once(m: OpeningState, f: ChannelOpenConfirmationFields)
    requires
        coherent(m),
        m.pending_out.contains_key(f.recipient_channel),
    ensures
        ({
            let n = f.recipient_channel;
            &&& reply_target(confirmed(m, f), n) == Err::<ReplyTarget, Violation>(
                Violation::DuplicateReply { local_number: LocalNumber(n) },
            )
            &&& reply_target(failed(m, n), n) == Err::<ReplyTarget, Violation>(
                Violation::UnknownRecipient { recipient: n },
            )
        }),
{
}

/// The number of a cancelled open: where cancelled numbers are kept, the first
/// reply is a late one, which forgets it; the next has no recipient. Where none
/// are kept, the first already has none.
pub proof fn lemma_cancelled_reply(m: OpeningState, h: ChannelHandle, n: u32)
    requires
        coherent(m),
        live_of(m.slots, h) == Some(Live::Out(n)),
    ensures
        ({
            let w = cancelled(m, h, n);
            let unknown = Err::<ReplyTarget, Violation>(Violation::UnknownRecipient { recipient: n });
            if m.limits.max_tombstones > 0 {
                &&& reply_target(w, n) == Ok::<ReplyTarget, Violation>(ReplyTarget::Tombstone)
                &&& reply_target(answered_late(w, n), n) == unknown
            } else {
                reply_target(w, n) == unknown
            }
        }),
{
    let w = cancelled(m, h, n);
    assert(m.pending_out.contains_key(n));
    lemma_cancelled(m, h, n);
    if m.limits.max_tombstones > 0 {
        assert(w.tombstones[w.tombstones.len() - 1] == n);
        lemma_answered_late(w, n);
    } else {
        assert(w.tombstones.len() == 0);
    }
}

/// A cancelled number that another cancellation displaced has no recipient any
/// more.
pub proof fn lemma_displaced(m: OpeningState, h: ChannelHandle, n: u32, oldest: u32)
    requires
        coherent(m),
        live_of(m.slots, h) == Some(Live::Out(n)),
        m.tombstones.contains(oldest),
        !cancelled(m, h, n).tombstones.contains(oldest),
    ensures
        reply_target(cancelled(m, h, n), oldest) == Err::<ReplyTarget, Violation>(
            Violation::UnknownRecipient { recipient: oldest },
        ),
{
    assert(m.pending_out.contains_key(n));
    assert(!m.pending_out.contains_key(oldest));
    assert(!m.established.contains_key(oldest));
}

/// A number that was never allocated and names a pending open of the peer is a
/// reply to that open.
pub proof fn lemma_reply_to_incoming(m: OpeningState, n: u32)
    requires
        coherent(m),
        m.next_local <= n,
    ensures
        reply_target(m, n) == (if m.pending_in.contains_key(n) {
            Err::<ReplyTarget, Violation>(Violation::ReplyToIncoming { recipient: n })
        } else {
            Err(Violation::UnknownRecipient { recipient: n })
        }),
{
}

} // verus!
