//! Channel opening as a state: what is pending, established, cancelled and
//! queued, and how each command and each message of the peer changes it.

use vstd::prelude::*;
use crate::state_support::opening_types::{
    wire_number, AcceptParams, ChannelHandle, Credit, HandleError, Event, LateReply, LocalNumber, OpenError, OpenParams,
    OpeningLimits, Outgoing, PeerNumber, Phase, Violation,
};
use crate::text::bytes_of;
use crate::wire_core::messages_ref::{ChannelOpenConfirmationFields, ChannelOpenFailureFields, ChannelOpenFields};

verus! {

/// The reason code of a refusal for want of resources.
pub const RESOURCE_SHORTAGE: u32 = 4;

/// The description of an automatic refusal at a limit.
pub const LIMIT_REFUSAL_DESCRIPTION: &'static str = "too many pending channels";

/// The description of a refusal for want of a local number.
pub const EXHAUSTED_REFUSAL_DESCRIPTION: &'static str = "channel numbers exhausted";

/// An open that waits for the peer.
#[derive(Debug)]
pub struct PendingOut<B = Vec<u8>> {
    pub handle: ChannelHandle,
    pub channel_type: B,
    pub local: Credit,
}

impl View for PendingOut<Vec<u8>> {
    type V = PendingOut<Seq<u8>>;

    open spec fn view(&self) -> PendingOut<Seq<u8>> {
        PendingOut { handle: self.handle, channel_type: self.channel_type@, local: self.local }
    }
}

/// An open of the peer that waits for the application.
#[derive(Debug)]
pub struct PendingIn<B = Vec<u8>> {
    pub handle: ChannelHandle,
    pub channel_type: B,
    pub peer: Credit,
}

impl View for PendingIn<Vec<u8>> {
    type V = PendingIn<Seq<u8>>;

    open spec fn view(&self) -> PendingIn<Seq<u8>> {
        PendingIn { handle: self.handle, channel_type: self.channel_type@, peer: self.peer }
    }
}

/// An established channel.
#[derive(Clone, Copy, Debug)]
pub struct Established {
    pub handle: ChannelHandle,
    pub peer: u32,
}

impl View for Established {
    type V = Established;

    open spec fn view(&self) -> Established {
        *self
    }
}

/// Where a live handle is, with the number it is found by.
#[derive(Clone, Copy, Debug, PartialEq, Eq, Structural)]
pub enum Live {
    /// Pending outgoing, by our number.
    Out(u32),
    /// Pending incoming, by the peer's number.
    In(u32),
    /// Established, by our number.
    Est(u32),
}

/// The phase of a live handle.
pub open spec fn phase_at(l: Live) -> Phase {
    match l {
        Live::Out(_) => Phase::PendingOutgoing,
        Live::In(_) => Phase::PendingIncoming,
        Live::Est(_) => Phase::Established,
    }
}

/// The state of channel opening.
pub ghost struct OpeningState {
    /// The limits.
    pub limits: OpeningLimits,
    /// The next local number; one beyond the last where none is left.
    pub next_local: int,
    /// Pending outgoing opens by our number.
    pub pending_out: Map<u32, PendingOut<Seq<u8>>>,
    /// Pending incoming opens by the peer's number.
    pub pending_in: Map<u32, PendingIn<Seq<u8>>>,
    /// Established channels by our number.
    pub established: Map<u32, Established>,
    /// Cancelled local numbers, oldest first.
    pub tombstones: Seq<u32>,
    /// Messages to hand out, in order.
    pub outgoing: Seq<Outgoing<Seq<u8>>>,
    /// Every handle ever issued, in order, and where it is while it lives.
    pub slots: Seq<(ChannelHandle, Option<Live>)>,
    /// The last local number that went onto the wire.
    pub last_wire: Option<u32>,
}

/// A handle was issued.
pub open spec fn issued(slots: Seq<(ChannelHandle, Option<Live>)>, h: ChannelHandle) -> bool {
    exists|i: int| 0 <= i < slots.len() && (#[trigger] slots[i]).0 == h
}

/// Where a handle is; nowhere where it is stale.
pub open spec fn live_of(slots: Seq<(ChannelHandle, Option<Live>)>, h: ChannelHandle) -> Option<Live>
    decreases slots.len(),
{
    if slots.len() == 0 {
        None
    } else if slots.last().0 == h {
        slots.last().1
    } else {
        live_of(slots.drop_last(), h)
    }
}

/// The slots with a handle moved.
pub open spec fn moved(slots: Seq<(ChannelHandle, Option<Live>)>, h: ChannelHandle, to: Option<Live>) -> Seq<
    (ChannelHandle, Option<Live>),
> {
    Seq::new(
        slots.len(),
        |i: int|
            if slots[i].0 == h {
                (h, to)
            } else {
                slots[i]
            },
    )
}

/// No handle was issued twice.
pub open spec fn distinct(slots: Seq<(ChannelHandle, Option<Live>)>) -> bool {
    forall|i: int, j: int| 0 <= i < j < slots.len() ==> (#[trigger] slots[i]).0 != (#[trigger] slots[j]).0
}

/// Where an issued handle is.
pub proof fn lemma_live_at(slots: Seq<(ChannelHandle, Option<Live>)>, i: int)
    requires
        distinct(slots),
        0 <= i < slots.len(),
    ensures
        live_of(slots, slots[i].0) == slots[i].1,
        issued(slots, slots[i].0),
    decreases slots.len(),
{
    if i < slots.len() - 1 {
        assert(slots.last().0 != slots[i].0);
        let s = slots.drop_last();
        assert forall|a: int, b: int| 0 <= a < b < s.len() implies (#[trigger] s[a]).0 != (#[trigger] s[b]).0 by {
            assert(slots[a].0 != slots[b].0);
        }
        lemma_live_at(s, i);
        assert(s[i] == slots[i]);
    }
}

/// A handle that was not issued is nowhere.
pub proof fn lemma_not_issued(slots: Seq<(ChannelHandle, Option<Live>)>, h: ChannelHandle)
    requires
        !issued(slots, h),
    ensures
        live_of(slots, h) is None,
    decreases slots.len(),
{
    if slots.len() > 0 {
        assert(slots[slots.len() - 1].0 != h);
        let s = slots.drop_last();
        if issued(s, h) {
            let i = choose|i: int| 0 <= i < s.len() && (#[trigger] s[i]).0 == h;
            assert(slots[i].0 == h);
        }
        lemma_not_issued(s, h);
    }
}

/// Moving a handle moves no other.
pub proof fn lemma_moved(slots: Seq<(ChannelHandle, Option<Live>)>, h: ChannelHandle, to: Option<Live>)
    ensures
        forall|x: ChannelHandle|
            #[trigger] live_of(moved(slots, h, to), x) == (if x == h && issued(slots, h) {
                to
            } else {
                live_of(slots, x)
            }),
        forall|x: ChannelHandle| #[trigger] issued(moved(slots, h, to), x) == issued(slots, x),
        distinct(slots) ==> distinct(moved(slots, h, to)),
    decreases slots.len(),
{
    let m = moved(slots, h, to);
    assert forall|x: ChannelHandle| #[trigger] issued(m, x) == issued(slots, x) by {
        if issued(m, x) {
            let i = choose|i: int| 0 <= i < m.len() && (#[trigger] m[i]).0 == x;
            assert(slots[i].0 == x);
        }
        if issued(slots, x) {
            let i = choose|i: int| 0 <= i < slots.len() && (#[trigger] slots[i]).0 == x;
            assert(m[i].0 == x);
        }
    }
    if distinct(slots) {
        assert forall|a: int, b: int| 0 <= a < b < m.len() implies (#[trigger] m[a]).0 != (#[trigger] m[b]).0 by {
            assert(slots[a].0 != slots[b].0);
        }
    }
    if slots.len() > 0 {
        let s = slots.drop_last();
        lemma_moved(s, h, to);
        assert(m.drop_last() =~= moved(s, h, to));
        assert forall|x: ChannelHandle|
            #[trigger] live_of(m, x) == (if x == h && issued(slots, h) {
                to
            } else {
                live_of(slots, x)
            }) by {
            assert(m.last() == m[m.len() - 1]);
            assert(live_of(m.drop_last(), x) == live_of(moved(s, h, to), x));
            if slots.last().0 == h {
                assert(slots[slots.len() - 1].0 == h);
                assert(issued(slots, h));
            } else if x == h && slots.last().0 != h {
                assert(issued(slots, h) == issued(s, h)) by {
                    if issued(slots, h) {
                        let i = choose|i: int| 0 <= i < slots.len() && (#[trigger] slots[i]).0 == h;
                        assert(s[i].0 == h);
                    }
                    if issued(s, h) {
                        let i = choose|i: int| 0 <= i < s.len() && (#[trigger] s[i]).0 == h;
                        assert(slots[i].0 == h);
                    }
                }
            }
        }
    } else {
        assert(!issued(slots, h));
    }
}

/// A fresh handle moves no other.
pub proof fn lemma_fresh(slots: Seq<(ChannelHandle, Option<Live>)>, h: ChannelHandle, at: Live)
    requires
        !issued(slots, h),
    ensures
        forall|x: ChannelHandle|
            #[trigger] live_of(slots.push((h, Some(at))), x) == (if x == h {
                Some(at)
            } else {
                live_of(slots, x)
            }),
        distinct(slots) ==> distinct(slots.push((h, Some(at)))),
{
    let s = slots.push((h, Some(at)));
    assert(s.drop_last() =~= slots);
    assert(s.last() == (h, Some(at)));
    if distinct(slots) {
        assert forall|a: int, b: int| 0 <= a < b < s.len() implies (#[trigger] s[a]).0 != (#[trigger] s[b]).0 by {
            if b < slots.len() {
                assert(slots[a].0 != slots[b].0);
            } else {
                assert(slots[a].0 != h);
            }
        }
    }
}

/// Handles and tables agree.
pub open spec fn linked(m: OpeningState) -> bool {
    &&& distinct(m.slots)
    &&& forall|h: ChannelHandle|
        match #[trigger] live_of(m.slots, h) {
            Some(Live::Out(n)) => m.pending_out.contains_key(n) && m.pending_out[n].handle == h,
            Some(Live::In(n)) => m.pending_in.contains_key(n) && m.pending_in[n].handle == h,
            Some(Live::Est(n)) => m.established.contains_key(n) && m.established[n].handle == h,
            None => true,
        }
    &&& forall|n: u32| #[trigger]
        m.pending_out.contains_key(n) ==> live_of(m.slots, m.pending_out[n].handle) == Some(Live::Out(n))
    &&& forall|n: u32| #[trigger]
        m.pending_in.contains_key(n) ==> live_of(m.slots, m.pending_in[n].handle) == Some(Live::In(n))
    &&& forall|n: u32| #[trigger]
        m.established.contains_key(n) ==> live_of(m.slots, m.established[n].handle) == Some(Live::Est(n))
}

/// Local numbers were allocated in order, and each is in one place only.
pub open spec fn numbered(m: OpeningState) -> bool {
    &&& 0 <= m.next_local <= 0x1_0000_0000
    &&& forall|n: u32| #[trigger]
        m.pending_out.contains_key(n) ==> n < m.next_local && !m.established.contains_key(n) && !m.tombstones.contains(n)
    &&& forall|n: u32| #[trigger] m.established.contains_key(n) ==> n < m.next_local && !m.tombstones.contains(n)
    &&& forall|n: u32| #[trigger] m.tombstones.contains(n) ==> n < m.next_local
    &&& m.tombstones.no_duplicates()
    &&& m.tombstones.len() <= m.limits.max_tombstones
}

/// The local numbers on the wire rise strictly: those queued, above the last
/// one sent, below the next.
pub open spec fn rising(m: OpeningState) -> bool {
    &&& m.last_wire matches Some(l) ==> l < m.next_local
    &&& forall|i: int|
        0 <= i < m.outgoing.len() ==> (wire_number(#[trigger] m.outgoing[i]) matches Some(n) ==> n < m.next_local && (
        m.last_wire matches Some(l) ==> l < n))
    &&& forall|i: int, j: int|
        0 <= i < j < m.outgoing.len() ==> (wire_number(#[trigger] m.outgoing[i]) matches Some(a) ==> (wire_number(
            #[trigger] m.outgoing[j],
        ) matches Some(b) ==> a < b))
}

/// The invariant of channel opening.
pub open spec fn coherent(m: OpeningState) -> bool {
    linked(m) && numbered(m) && rising(m)
}

/// The state of a fresh engine.
pub open spec fn fresh(limits: OpeningLimits) -> OpeningState {
    OpeningState {
        limits,
        next_local: 0,
        pending_out: Map::empty(),
        pending_in: Map::empty(),
        established: Map::empty(),
        tombstones: Seq::empty(),
        outgoing: Seq::empty(),
        slots: Seq::empty(),
        last_wire: None,
    }
}

/// Channels in any live phase.
pub open spec fn live_count(m: OpeningState) -> nat {
    m.pending_out.len() + m.pending_in.len() + m.established.len()
}

/// The phase of a handle.
pub open spec fn phase_of(m: OpeningState, h: ChannelHandle) -> Option<Phase> {
    match live_of(m.slots, h) {
        Some(l) => Some(phase_at(l)),
        None => None,
    }
}

/// Why a command that wants a phase fails on a handle.
pub open spec fn handle_error(m: OpeningState, h: ChannelHandle, wanted: Phase) -> Option<HandleError> {
    match phase_of(m, h) {
        Some(actual) => if actual == wanted {
            None
        } else {
            Some(HandleError::WrongPhase { actual })
        },
        None => Some(HandleError::Stale),
    }
}

/// Why an open fails.
pub open spec fn open_error(m: OpeningState) -> Option<OpenError> {
    if m.pending_out.len() >= m.limits.max_pending_outgoing {
        Some(OpenError::TooManyPendingOutgoing)
    } else if live_count(m) >= m.limits.max_channels {
        Some(OpenError::TooManyChannels)
    } else if m.next_local > u32::MAX {
        Some(OpenError::NumbersExhausted)
    } else {
        None
    }
}

/// After an open that succeeded with a handle.
pub open spec fn opened(m: OpeningState, p: OpenParams<Seq<u8>>, h: ChannelHandle) -> OpeningState {
    let n = m.next_local as u32;
    OpeningState {
        next_local: m.next_local + 1,
        slots: m.slots.push((h, Some(Live::Out(n)))),
        pending_out: m.pending_out.insert(n, PendingOut { handle: h, channel_type: p.channel_type, local: p.local }),
        outgoing: m.outgoing.push(
            Outgoing::Open {
                channel_type: p.channel_type,
                sender_channel: LocalNumber(n),
                local: p.local,
                type_specific: p.type_specific,
            },
        ),
        ..m
    }
}

/// Cancelled numbers with one more: the oldest beyond the limit are forgotten.
pub open spec fn buried(t: Seq<u32>, n: u32, max: int) -> Seq<u32> {
    let u = t.push(n);
    if u.len() > max {
        u.skip(u.len() - max)
    } else {
        u
    }
}

/// After the cancellation of a pending outgoing open.
pub open spec fn cancelled(m: OpeningState, h: ChannelHandle, n: u32) -> OpeningState {
    OpeningState {
        slots: moved(m.slots, h, None),
        pending_out: m.pending_out.remove(n),
        tombstones: buried(m.tombstones, n, m.limits.max_tombstones as int),
        ..m
    }
}

/// A refusal of the peer's open.
pub open spec fn failure_to(peer: u32, reason_code: u32, description: Seq<u8>) -> Outgoing<Seq<u8>> {
    Outgoing::OpenFailure {
        recipient_channel: PeerNumber(peer),
        reason_code,
        description,
        language_tag: Seq::empty(),
    }
}

/// After a pending incoming open was answered with a refusal.
pub open spec fn refused(m: OpeningState, h: ChannelHandle, peer: u32, reason_code: u32, description: Seq<u8>) -> OpeningState {
    OpeningState {
        slots: moved(m.slots, h, None),
        pending_in: m.pending_in.remove(peer),
        outgoing: m.outgoing.push(failure_to(peer, reason_code, description)),
        ..m
    }
}

/// What an acceptance reports.
pub open spec fn accept_event(m: OpeningState, h: ChannelHandle, peer: u32, p: AcceptParams<Seq<u8>>) -> Event<Seq<u8>> {
    Event::Established {
        handle: h,
        channel_type: m.pending_in[peer].channel_type,
        local_number: LocalNumber(m.next_local as u32),
        peer_number: PeerNumber(peer),
        local: p.local,
        peer: m.pending_in[peer].peer,
        peer_type_specific: Seq::empty(),
    }
}

/// After a pending incoming open was accepted.
pub open spec fn accepted(m: OpeningState, h: ChannelHandle, peer: u32, p: AcceptParams<Seq<u8>>) -> OpeningState {
    let n = m.next_local as u32;
    OpeningState {
        next_local: m.next_local + 1,
        slots: moved(m.slots, h, Some(Live::Est(n))),
        pending_in: m.pending_in.remove(peer),
        established: m.established.insert(n, Established { handle: h, peer }),
        outgoing: m.outgoing.push(
            Outgoing::OpenConfirmation {
                recipient_channel: PeerNumber(peer),
                sender_channel: LocalNumber(n),
                local: p.local,
                type_specific: p.type_specific,
            },
        ),
        ..m
    }
}

/// After the transport was lost: nothing lives, nothing is queued. Cancelled
/// numbers stay, and the number space goes on.
pub open spec fn lost(m: OpeningState) -> OpeningState {
    OpeningState {
        pending_out: Map::empty(),
        pending_in: Map::empty(),
        established: Map::empty(),
        outgoing: Seq::empty(),
        slots: Seq::new(m.slots.len(), |i: int| (m.slots[i].0, None)),
        ..m
    }
}

/// A peer number is in use.
pub open spec fn peer_in_use(m: OpeningState, peer: u32) -> bool {
    m.pending_in.contains_key(peer) || exists|n: u32| #[trigger]
        m.established.contains_key(n) && m.established[n].peer == peer
}

/// An open of the peer is over a limit.
pub open spec fn incoming_limited(m: OpeningState) -> bool {
    m.pending_in.len() >= m.limits.max_pending_incoming || live_count(m) >= m.limits.max_channels
}

/// After an open of the peer that was refused at a limit.
pub open spec fn limit_refused(m: OpeningState, peer: u32) -> OpeningState {
    OpeningState {
        outgoing: m.outgoing.push(failure_to(peer, RESOURCE_SHORTAGE, bytes_of(LIMIT_REFUSAL_DESCRIPTION))),
        ..m
    }
}

/// What the peer grants in an open.
pub open spec fn open_credit(f: ChannelOpenFields) -> Credit {
    Credit { initial_window_size: f.initial_window_size, maximum_packet_size: f.maximum_packet_size }
}

/// After an open of the peer that waits for the application.
pub open spec fn incoming(m: OpeningState, f: ChannelOpenFields, h: ChannelHandle) -> OpeningState {
    OpeningState {
        slots: m.slots.push((h, Some(Live::In(f.sender_channel)))),
        pending_in: m.pending_in.insert(
            f.sender_channel,
            PendingIn { handle: h, channel_type: f.channel_type, peer: open_credit(f) },
        ),
        ..m
    }
}

/// Where a reply lands that is no violation.
pub enum ReplyTarget {
    /// At a pending open.
    Pending,
    /// At a cancelled number.
    Tombstone,
}

/// Where a reply lands.
pub open spec fn reply_target(m: OpeningState, recipient: u32) -> Result<ReplyTarget, Violation> {
    if m.pending_out.contains_key(recipient) {
        Ok(ReplyTarget::Pending)
    } else if m.established.contains_key(recipient) {
        Err(Violation::DuplicateReply { local_number: LocalNumber(recipient) })
    } else if m.tombstones.contains(recipient) {
        Ok(ReplyTarget::Tombstone)
    } else if recipient >= m.next_local && m.pending_in.contains_key(recipient) {
        Err(Violation::ReplyToIncoming { recipient })
    } else {
        Err(Violation::UnknownRecipient { recipient })
    }
}

/// After a late reply: the cancelled number is forgotten.
pub open spec fn answered_late(m: OpeningState, recipient: u32) -> OpeningState {
    OpeningState { tombstones: m.tombstones.remove(m.tombstones.index_of(recipient)), ..m }
}

/// What the peer grants in a confirmation.
pub open spec fn confirm_credit(f: ChannelOpenConfirmationFields) -> Credit {
    Credit { initial_window_size: f.initial_window_size, maximum_packet_size: f.maximum_packet_size }
}

/// What a confirmation reports.
pub open spec fn confirm_event(m: OpeningState, f: ChannelOpenConfirmationFields) -> Event<Seq<u8>> {
    let p = m.pending_out[f.recipient_channel];
    Event::Established {
        handle: p.handle,
        channel_type: p.channel_type,
        local_number: LocalNumber(f.recipient_channel),
        peer_number: PeerNumber(f.sender_channel),
        local: p.local,
        peer: confirm_credit(f),
        peer_type_specific: f.type_specific,
    }
}

/// What a late confirmation reports.
pub open spec fn late_confirm_event(f: ChannelOpenConfirmationFields) -> Event<Seq<u8>> {
    Event::LateReply {
        local_number: LocalNumber(f.recipient_channel),
        reply: LateReply::Confirmed { peer_number: PeerNumber(f.sender_channel), peer: confirm_credit(f) },
    }
}

/// After a confirmation of a pending open.
pub open spec fn confirmed(m: OpeningState, f: ChannelOpenConfirmationFields) -> OpeningState {
    let n = f.recipient_channel;
    let h = m.pending_out[n].handle;
    OpeningState {
        slots: moved(m.slots, h, Some(Live::Est(n))),
        pending_out: m.pending_out.remove(n),
        established: m.established.insert(n, Established { handle: h, peer: f.sender_channel }),
        ..m
    }
}

/// What a failure reports.
pub open spec fn fail_event(m: OpeningState, f: ChannelOpenFailureFields) -> Event<Seq<u8>> {
    Event::Refused {
        handle: m.pending_out[f.recipient_channel].handle,
        reason_code: f.reason_code,
        description: f.description,
        language_tag: f.language_tag,
    }
}

/// What a late failure reports.
pub open spec fn late_fail_event(f: ChannelOpenFailureFields) -> Event<Seq<u8>> {
    Event::LateReply {
        local_number: LocalNumber(f.recipient_channel),
        reply: LateReply::Refused { reason_code: f.reason_code },
    }
}

/// After a failure of a pending open.
pub open spec fn failed(m: OpeningState, n: u32) -> OpeningState {
    OpeningState {
        slots: moved(m.slots, m.pending_out[n].handle, None),
        pending_out: m.pending_out.remove(n),
        ..m
    }
}

/// After the first queued message was handed out.
pub open spec fn handed_out(m: OpeningState) -> OpeningState {
    OpeningState {
        outgoing: m.outgoing.drop_first(),
        last_wire: match wire_number(m.outgoing[0]) {
            Some(n) => Some(n),
            None => m.last_wire,
        },
        ..m
    }
}

/// A live handle was issued.
pub proof fn lemma_live_issued(slots: Seq<(ChannelHandle, Option<Live>)>, h: ChannelHandle)
    requires
        live_of(slots, h) is Some,
    ensures
        issued(slots, h),
{
    if !issued(slots, h) {
        lemma_not_issued(slots, h);
    }
}

proof fn lemma_queued(m: OpeningState, w: OpeningState, o: Outgoing<Seq<u8>>)
    requires
        rising(m),
        w.outgoing == m.outgoing.push(o),
        w.last_wire == m.last_wire,
        w.next_local >= m.next_local,
        wire_number(o) matches Some(n) ==> m.next_local <= n < w.next_local,
    ensures
        rising(w),
{
    assert forall|i: int|
        0 <= i < w.outgoing.len() implies (wire_number(#[trigger] w.outgoing[i]) matches Some(n) ==> n < w.next_local && (
    w.last_wire matches Some(l) ==> l < n)) by {
        if i < m.outgoing.len() {
            assert(w.outgoing[i] == m.outgoing[i]);
        }
    }
    assert forall|i: int, j: int|
        0 <= i < j < w.outgoing.len() implies (wire_number(#[trigger] w.outgoing[i]) matches Some(a) ==> (wire_number(
            #[trigger] w.outgoing[j],
        ) matches Some(b) ==> a < b)) by {
        assert(w.outgoing[i] == m.outgoing[i]);
        if j < m.outgoing.len() {
            assert(w.outgoing[j] == m.outgoing[j]);
        }
    }
}

/// An open keeps the invariant.
pub proof fn lemma_opened(m: OpeningState, p: OpenParams<Seq<u8>>, h: ChannelHandle)
    requires
        coherent(m),
        m.next_local <= u32::MAX,
        !issued(m.slots, h),
    ensures
        coherent(opened(m, p, h)),
{
    let w = opened(m, p, h);
    let n = m.next_local as u32;
    lemma_fresh(m.slots, h, Live::Out(n));
    lemma_not_issued(m.slots, h);
    assert(linked(w));
    lemma_queued(m, w, w.outgoing.last());
}

proof fn lemma_buried(t: Seq<u32>, n: u32, max: int)
    requires
        t.no_duplicates(),
        !t.contains(n),
        max >= 0,
    ensures
        buried(t, n, max).no_duplicates(),
        buried(t, n, max).len() <= max,
        forall|x: u32| #[trigger] buried(t, n, max).contains(x) ==> x == n || t.contains(x),
{
    let u = t.push(n);
    let b = buried(t, n, max);
    let d = u.len() - b.len();
    assert(forall|i: int| 0 <= i < b.len() ==> b[i] == u[i + d]);
    assert forall|i: int, j: int| 0 <= i < j < b.len() implies b[i] != b[j] by {
        assert(t[i + d] == u[i + d]);
        if j + d < t.len() {
            assert(t[j + d] == u[j + d]);
        }
    }
    assert forall|x: u32| #[trigger] b.contains(x) implies x == n || t.contains(x) by {
        let i = choose|i: int| 0 <= i < b.len() && b[i] == x;
        if i + d < t.len() {
            assert(t[i + d] == x);
        }
    }
}

/// A cancellation keeps the invariant.
pub proof fn lemma_cancelled(m: OpeningState, h: ChannelHandle, n: u32)
    requires
        coherent(m),
        live_of(m.slots, h) == Some(Live::Out(n)),
    ensures
        coherent(cancelled(m, h, n)),
{
    let w = cancelled(m, h, n);
    lemma_live_issued(m.slots, h);
    lemma_moved(m.slots, h, None);
    assert(m.pending_out.contains_key(n));
    lemma_buried(m.tombstones, n, m.limits.max_tombstones as int);
    assert(linked(w));
    assert(numbered(w));
    assert(rising(w));
}

/// A refusal keeps the invariant.
pub proof fn lemma_refused(m: OpeningState, h: ChannelHandle, peer: u32, reason_code: u32, description: Seq<u8>)
    requires
        coherent(m),
        live_of(m.slots, h) == Some(Live::In(peer)),
    ensures
        coherent(refused(m, h, peer, reason_code, description)),
{
    let w = refused(m, h, peer, reason_code, description);
    lemma_live_issued(m.slots, h);
    lemma_moved(m.slots, h, None);
    assert(m.pending_in.contains_key(peer));
    assert(linked(w));
    lemma_queued(m, w, w.outgoing.last());
}

/// An acceptance keeps the invariant.
pub proof fn lemma_accepted(m: OpeningState, h: ChannelHandle, peer: u32, p: AcceptParams<Seq<u8>>)
    requires
        coherent(m),
        live_of(m.slots, h) == Some(Live::In(peer)),
        m.next_local <= u32::MAX,
    ensures
        coherent(accepted(m, h, peer, p)),
{
    let w = accepted(m, h, peer, p);
    let n = m.next_local as u32;
    lemma_live_issued(m.slots, h);
    lemma_moved(m.slots, h, Some(Live::Est(n)));
    assert(m.pending_in.contains_key(peer));
    assert(linked(w));
    assert(numbered(w));
    lemma_queued(m, w, w.outgoing.last());
}

/// A loss of the transport keeps the invariant, and leaves nothing live and
/// nothing to hand out.
pub proof fn lemma_lost(m: OpeningState)
    requires
        coherent(m),
    ensures
        coherent(lost(m)),
        live_count(lost(m)) == 0,
        lost(m).outgoing.len() == 0,
        forall|h: ChannelHandle| #[trigger] phase_of(lost(m), h) is None,
{
    let w = lost(m);
    assert forall|h: ChannelHandle| #[trigger] live_of(w.slots, h) is None by {
        lemma_all_stale(w.slots, h);
    }
    assert forall|a: int, b: int| 0 <= a < b < w.slots.len() implies (#[trigger] w.slots[a]).0 != (#[trigger] w.slots[
        b
    ]).0 by {
        assert(m.slots[a].0 != m.slots[b].0);
    }
}

proof fn lemma_all_stale(slots: Seq<(ChannelHandle, Option<Live>)>, h: ChannelHandle)
    requires
        forall|i: int| 0 <= i < slots.len() ==> (#[trigger] slots[i]).1 is None,
    ensures
        live_of(slots, h) is None,
    decreases slots.len(),
{
    if slots.len() > 0 {
        assert(slots[slots.len() - 1].1 is None);
        let s = slots.drop_last();
        assert forall|i: int| 0 <= i < s.len() implies (#[trigger] s[i]).1 is None by {
            assert(slots[i].1 is None);
        }
        lemma_all_stale(s, h);
    }
}

/// A refusal at a limit keeps the invariant.
pub proof fn lemma_limit_refused(m: OpeningState, peer: u32)
    requires
        coherent(m),
    ensures
        coherent(limit_refused(m, peer)),
{
    let w = limit_refused(m, peer);
    assert(linked(w));
    lemma_queued(m, w, w.outgoing.last());
}

/// An open of the peer keeps the invariant.
pub proof fn lemma_incoming(m: OpeningState, f: ChannelOpenFields, h: ChannelHandle)
    requires
        coherent(m),
        !m.pending_in.contains_key(f.sender_channel),
        !issued(m.slots, h),
    ensures
        coherent(incoming(m, f, h)),
{
    let w = incoming(m, f, h);
    lemma_fresh(m.slots, h, Live::In(f.sender_channel));
    lemma_not_issued(m.slots, h);
    assert(linked(w));
    assert(rising(w));
}

/// A late reply keeps the invariant, and changes nothing but the cancelled
/// number, which is forgotten.
pub proof fn lemma_answered_late(m: OpeningState, n: u32)
    requires
        coherent(m),
        m.tombstones.contains(n),
    ensures
        coherent(answered_late(m, n)),
        !answered_late(m, n).tombstones.contains(n),
        forall|x: u32| x != n ==> #[trigger] answered_late(m, n).tombstones.contains(x) == m.tombstones.contains(x),
{
    let t = m.tombstones;
    let i = t.index_of(n);
    assert(0 <= i < t.len() && t[i] == n);
    let u = t.remove(i);
    let w = answered_late(m, n);
    assert forall|x: u32| x != n implies #[trigger] u.contains(x) == t.contains(x) by {
        if u.contains(x) {
            let k = choose|k: int| 0 <= k < u.len() && u[k] == x;
            assert(t[if k < i { k } else { k + 1 }] == x);
        }
        if t.contains(x) {
            let k = choose|k: int| 0 <= k < t.len() && t[k] == x;
            assert(u[if k < i { k } else { k - 1 }] == x);
        }
    }
    if u.contains(n) {
        let k = choose|k: int| 0 <= k < u.len() && u[k] == n;
        let y = if k < i { k } else { k + 1 };
        assert(t[y] == n && y != i);
    }
    assert forall|a: int, b: int| 0 <= a < b < u.len() implies u[a] != u[b] by {
        let x = if a < i { a } else { a + 1 };
        let y = if b < i { b } else { b + 1 };
        assert(u[a] == t[x] && u[b] == t[y]);
    }
    assert forall|x: u32| #[trigger] u.contains(x) implies t.contains(x) by {
        if x == n {
            assert(t.contains(n));
        }
    }
    assert(linked(w));
    assert(rising(w));
}

/// A confirmation keeps the invariant.
pub proof fn lemma_confirmed(m: OpeningState, f: ChannelOpenConfirmationFields)
    requires
        coherent(m),
        m.pending_out.contains_key(f.recipient_channel),
    ensures
        coherent(confirmed(m, f)),
{
    let w = confirmed(m, f);
    let h = m.pending_out[f.recipient_channel].handle;
    lemma_live_issued(m.slots, h);
    lemma_moved(m.slots, h, Some(Live::Est(f.recipient_channel)));
    assert(linked(w));
    assert(numbered(w));
    assert(rising(w));
}

/// A failure keeps the invariant.
pub proof fn lemma_failed(m: OpeningState, n: u32)
    requires
        coherent(m),
        m.pending_out.contains_key(n),
    ensures
        coherent(failed(m, n)),
{
    let w = failed(m, n);
    let h = m.pending_out[n].handle;
    lemma_live_issued(m.slots, h);
    lemma_moved(m.slots, h, None);
    assert(linked(w));
    assert(numbered(w));
    assert(rising(w));
}

/// Handing out keeps the invariant, and the local number that goes onto the
/// wire is above every one before it.
pub proof fn lemma_handed_out(m: OpeningState)
    requires
        coherent(m),
        m.outgoing.len() > 0,
    ensures
        coherent(handed_out(m)),
        wire_number(m.outgoing[0]) matches Some(n) ==> (m.last_wire matches Some(l) ==> l < n),
{
    let w = handed_out(m);
    assert(m.outgoing[0] == m.outgoing.first());
    assert forall|i: int| 0 <= i < w.outgoing.len() implies #[trigger] w.outgoing[i] == m.outgoing[i + 1] by {}
    assert(linked(w));
    assert(numbered(w));
    assert forall|i: int|
        0 <= i < w.outgoing.len() implies (wire_number(#[trigger] w.outgoing[i]) matches Some(n) ==> n < w.next_local && (
    w.last_wire matches Some(l) ==> l < n)) by {
        assert(w.outgoing[i] == m.outgoing[i + 1]);
    }
    assert(rising(w));
}

} // verus!
