//! A model of channel opening, keyed by protocol identities: it says what
//! every command, every message of the peer and every handed-out message has
//! to be, and whether what an engine did agrees.

use std::collections::VecDeque;
use vstd::prelude::*;
use crate::seqs::{copy_bytes, same_bytes};
use crate::state_support::opening_state::{
    accept_event, accepted, answered_late, cancelled, coherent, confirm_event, confirmed, fail_event, failed,
    fresh, handed_out, handle_error, incoming, incoming_limited, issued, late_confirm_event, late_fail_event,
    lemma_accepted, lemma_answered_late, lemma_cancelled, lemma_confirmed, lemma_failed, lemma_handed_out,
    lemma_incoming, lemma_limit_refused, lemma_live_at, lemma_live_issued, lemma_lost, lemma_not_issued,
    lemma_opened, lemma_refused, limit_refused, live_count, live_of, lost, moved, open_credit, open_error, opened,
    peer_in_use, phase_at, phase_of, refused, reply_target, buried, Established, Live, OpeningState, PendingIn,
    PendingOut, ReplyTarget, EXHAUSTED_REFUSAL_DESCRIPTION, LIMIT_REFUSAL_DESCRIPTION, RESOURCE_SHORTAGE,
};
use crate::state_support::opening_types::{
    wire_number, AcceptParams, ChannelHandle, Credit, Event, HandleError, LateReply, LocalNumber, OpenError, OpenParams,
    OpeningLimits, Outgoing, PeerNumber, Phase, Violation,
};
use crate::state_support::table::{is_keys, Table};
use crate::text::bytes_of;
use crate::wire_core::laws::{
    lemma_channel_open_confirmation_read_write, lemma_channel_open_confirmation_write_read,
    lemma_channel_open_failure_read_write, lemma_channel_open_failure_write_read, lemma_channel_open_read_write,
    lemma_channel_open_write_read,
};
use crate::wire_core::messages_ref::{
    channel_open, channel_open_bytes, channel_open_confirmation, channel_open_confirmation_bytes, channel_open_failure,
    channel_open_failure_bytes, ChannelOpenConfirmationFields, ChannelOpenFailureFields, ChannelOpenFields,
    RefChannelOpen, RefChannelOpenConfirmation, RefChannelOpenFailure,
};

verus! {

/// Messages over sequences.
pub open spec fn queue_of(v: Seq<Outgoing>) -> Seq<Outgoing<Seq<u8>>> {
    Seq::new(v.len(), |i: int| v[i]@)
}

/// The live handles among the first `n` slots, in order of issue.
pub open spec fn live_list(slots: Seq<(ChannelHandle, Option<Live>)>, n: nat) -> Seq<ChannelHandle>
    decreases n,
{
    if n == 0 || n > slots.len() {
        Seq::empty()
    } else if slots[n - 1].1 is Some {
        live_list(slots, (n - 1) as nat).push(slots[n - 1].0)
    } else {
        live_list(slots, (n - 1) as nat)
    }
}

/// A local number was allocated and is in no place any more.
pub open spec fn retired(m: OpeningState, n: u32) -> bool {
    n < m.next_local && !m.pending_out.contains_key(n) && !m.established.contains_key(n) && !m.tombstones.contains(n)
}

/// The peer numbers of established channels, by ascending local number.
pub open spec fn peers_of(keys: Seq<u32>, m: Map<u32, Established>) -> Seq<u32> {
    Seq::new(keys.len(), |i: int| m[keys[i]].peer)
}

/// Events report the loss of every live channel, each once, with its phase.
pub open spec fn losses_reported(m: OpeningState, events: Seq<Event<Seq<u8>>>) -> bool {
    &&& forall|i: int|
        0 <= i < events.len() ==> (#[trigger] events[i] matches Event::TransportLost { handle, phase } && phase_of(
            m,
            handle,
        ) == Some(phase))
    &&& forall|i: int, j: int| 0 <= i < j < events.len() ==> #[trigger] events[i] != #[trigger] events[j]
    &&& forall|h: ChannelHandle|
        #[trigger] phase_of(m, h) matches Some(phase) ==> events.contains(Event::TransportLost { handle: h, phase })
}

/// Events over sequences.
pub open spec fn events_of(v: Seq<Event>) -> Seq<Event<Seq<u8>>> {
    Seq::new(v.len(), |i: int| v[i]@)
}

/// An engine's counters and the phases of all issued handles agree.
pub open spec fn state_agrees(m: OpeningState, live: int, outgoing: int, incoming: int, phases: Seq<Option<Phase>>) -> bool {
    &&& live == live_count(m)
    &&& outgoing == m.pending_out.len()
    &&& incoming == m.pending_in.len()
    &&& phases.len() == m.slots.len()
    &&& forall|i: int| 0 <= i < phases.len() ==> #[trigger] phases[i] == phase_of(m, m.slots[i].0)
}

/// A result over sequences.
pub open spec fn result_of<E>(r: Result<Event, E>) -> Result<Event<Seq<u8>>, E> {
    match r {
        Ok(e) => Ok(e@),
        Err(e) => Err(e),
    }
}

/// The phase of a live handle.
fn phase_from(l: Live) -> (r: Phase)
    ensures
        r == phase_at(l),
{
    match l {
        Live::Out(_) => Phase::PendingOutgoing,
        Live::In(_) => Phase::PendingIncoming,
        Live::Est(_) => Phase::Established,
    }
}

fn same_open_error(a: OpenError, b: OpenError) -> (r: bool)
    ensures
        r == (a == b),
{
    a == b
}

/// The model of channel opening.
#[derive(Debug)]
pub struct Model {
    limits: OpeningLimits,
    next_local: u64,
    pending_out: Table<PendingOut>,
    pending_in: Table<PendingIn>,
    established: Table<Established>,
    tombstones: VecDeque<u32>,
    expected_outgoing: VecDeque<Outgoing>,
    slots: Vec<(ChannelHandle, Option<Live>)>,
    last_wire_local: Option<u32>,
}

impl View for Model {
    type V = OpeningState;

    closed spec fn view(&self) -> OpeningState {
        OpeningState {
            limits: self.limits,
            next_local: self.next_local as int,
            pending_out: self.pending_out@,
            pending_in: self.pending_in@,
            established: self.established@,
            tombstones: self.tombstones@,
            outgoing: queue_of(self.expected_outgoing@),
            slots: self.slots@,
            last_wire: self.last_wire_local,
        }
    }
}

impl Model {
    /// The invariant of the model.
    pub closed spec fn wf(&self) -> bool {
        coherent(self@)
    }

    /// The invariant gives a coherent state.
    pub proof fn lemma_coherent(&self)
        requires
            self.wf(),
        ensures
            coherent(self@),
    {
    }

    /// The model of a fresh engine.
    pub fn new(limits: OpeningLimits) -> (r: Self)
        ensures
            r.wf(),
            r@ == fresh(limits),
    {
        let r = Model {
            limits,
            next_local: 0,
            pending_out: Table::new(),
            pending_in: Table::new(),
            established: Table::new(),
            tombstones: VecDeque::new(),
            expected_outgoing: VecDeque::new(),
            slots: Vec::new(),
            last_wire_local: None,
        };
        proof {
            assert(r@.outgoing =~= Seq::empty());
            assert(r@ == fresh(limits));
        }
        r
    }

    /// Channels in any live phase, exactly.
    fn total(&self) -> (r: u128)
        requires
            self.wf(),
        ensures
            r == live_count(self@),
    {
        self.pending_out.len() as u128 + self.pending_in.len() as u128 + self.established.len() as u128
    }

    /// Channels in any live phase.
    pub fn live_count(&self) -> (r: usize)
        requires
            self.wf(),
            live_count(self@) <= usize::MAX,
        ensures
            r == live_count(self@),
    {
        self.total() as usize
    }

    /// Every handle ever issued, in order.
    pub fn handles(&self) -> (r: Vec<ChannelHandle>)
        ensures
            r@ == Seq::new(self@.slots.len(), |i: int| self@.slots[i].0),
    {
        let mut out: Vec<ChannelHandle> = Vec::new();
        let mut i: usize = 0;
        while i < self.slots.len()
            invariant
                i <= self.slots@.len(),
                out@.len() == i,
                forall|k: int| 0 <= k < i ==> #[trigger] out@[k] == self.slots@[k].0,
            decreases self.slots@.len() - i,
        {
            out.push(self.slots[i].0);
            i = i + 1;
        }
        proof {
            assert(out@ =~= Seq::new(self@.slots.len(), |k: int| self@.slots[k].0));
        }
        out
    }

    /// Handles that are live, in order of issue.
    pub fn live_handles(&self) -> (r: Vec<ChannelHandle>)
        ensures
            r@ == live_list(self@.slots, self@.slots.len()),
    {
        let mut out: Vec<ChannelHandle> = Vec::new();
        let mut i: usize = 0;
        while i < self.slots.len()
            invariant
                i <= self.slots@.len(),
                out@ == live_list(self.slots@, i as nat),
            decreases self.slots@.len() - i,
        {
            if self.slots[i].1.is_some() {
                out.push(self.slots[i].0);
            }
            i = i + 1;
        }
        out
    }

    /// Local numbers of pending outgoing opens, ascending.
    pub fn pending_out_numbers(&self) -> (r: Vec<u32>)
        requires
            self.wf(),
        ensures
            is_keys(r@, self@.pending_out),
    {
        self.pending_out.keys()
    }

    /// Local numbers of established channels, ascending.
    pub fn established_numbers(&self) -> (r: Vec<u32>)
        requires
            self.wf(),
        ensures
            is_keys(r@, self@.established),
    {
        self.established.keys()
    }

    /// Cancelled local numbers that are remembered, oldest first.
    pub fn tombstoned_numbers(&self) -> (r: Vec<u32>)
        ensures
            r@ == self@.tombstones,
    {
        let mut out: Vec<u32> = Vec::new();
        let mut i: usize = 0;
        while i < self.tombstones.len()
            invariant
                i <= self.tombstones@.len(),
                out@ =~= self.tombstones@.take(i as int),
            decreases self.tombstones@.len() - i,
        {
            out.push(self.tombstones[i]);
            i = i + 1;
        }
        proof {
            assert(out@ =~= self.tombstones@);
        }
        out
    }

    /// Peer numbers in use: pending incoming ones, ascending, then those of
    /// established channels.
    pub fn in_use_peer_numbers(&self) -> (r: Vec<u32>)
        requires
            self.wf(),
        ensures
            exists|a: Seq<u32>, b: Seq<u32>| #[trigger]
                is_keys(a, self@.pending_in) && #[trigger] is_keys(b, self@.established) && r@ == a + peers_of(
                    b,
                    self@.established,
                ),
    {
        let mut out = self.pending_in.keys();
        let keys = self.established.keys();
        let ghost a = out@;
        let mut i: usize = 0;
        while i < keys.len()
            invariant
                i <= keys@.len(),
                self.wf(),
                is_keys(keys@, self@.established),
                out@ =~= a + peers_of(keys@.take(i as int), self@.established),
            decreases keys@.len() - i,
        {
            proof {
                assert(keys@.contains(keys@[i as int]));
            }
            match self.established.get(keys[i]) {
                Some(e) => out.push(e.peer),
                None => {},
            }
            i = i + 1;
        }
        proof {
            assert(keys@.take(i as int) =~= keys@);
        }
        out
    }

    /// Local numbers that were allocated and are in no place any more,
    /// ascending.
    pub fn retired_numbers(&self) -> (r: Vec<u32>)
        requires
            self.wf(),
        ensures
            forall|i: int, j: int| 0 <= i < j < r@.len() ==> (#[trigger] r@[i]) < (#[trigger] r@[j]),
            forall|n: u32| #[trigger] r@.contains(n) == retired(self@, n),
    {
        let mut out: Vec<u32> = Vec::new();
        let mut n: u64 = 0;
        while n < self.next_local
            invariant
                n <= self.next_local <= 0x1_0000_0000,
                self.wf(),
                forall|i: int| 0 <= i < out@.len() ==> (#[trigger] out@[i]) < n && retired(self@, out@[i]),
                forall|i: int, j: int| 0 <= i < j < out@.len() ==> (#[trigger] out@[i]) < (#[trigger] out@[j]),
                forall|x: u32| x < n && retired(self@, x) ==> #[trigger] out@.contains(x),
            decreases self.next_local - n,
        {
            let x: u32 = n as u32;
            let ghost before = out@;
            if !self.pending_out.contains(x) && !self.established.contains(x) && self.tombstone_at(x).is_none() {
                out.push(x);
                proof {
                    assert(out@[out@.len() - 1] == x);
                    assert forall|y: u32| y < n + 1 && retired(self@, y) implies #[trigger] out@.contains(y) by {
                        if y == x {
                            assert(out@[out@.len() - 1] == y);
                        } else {
                            assert(before.contains(y));
                            let k = choose|k: int| 0 <= k < before.len() && before[k] == y;
                            assert(out@[k] == y);
                        }
                    }
                }
            }
            n = n + 1;
        }
        out
    }

    /// The next local number.
    pub fn next_local(&self) -> (r: u64)
        ensures
            r == self@.next_local,
    {
        self.next_local
    }

    /// Where a handle is.
    fn find(&self, h: ChannelHandle) -> (r: Option<Live>)
        requires
            self.wf(),
        ensures
            r == live_of(self@.slots, h),
    {
        let mut i: usize = 0;
        while i < self.slots.len()
            invariant
                i <= self.slots@.len(),
                self.wf(),
                forall|k: int| 0 <= k < i ==> (#[trigger] self.slots@[k]).0 != h,
            decreases self.slots@.len() - i,
        {
            if self.slots[i].0 == h {
                proof {
                    lemma_live_at(self.slots@, i as int);
                }
                return self.slots[i].1;
            }
            i = i + 1;
        }
        proof {
            lemma_not_issued(self.slots@, h);
        }
        None
    }

    /// Whether a handle was issued.
    fn was_issued(&self, h: ChannelHandle) -> (r: bool)
        ensures
            r == issued(self@.slots, h),
    {
        let mut i: usize = 0;
        while i < self.slots.len()
            invariant
                i <= self.slots@.len(),
                forall|k: int| 0 <= k < i ==> (#[trigger] self.slots@[k]).0 != h,
            decreases self.slots@.len() - i,
        {
            if self.slots[i].0 == h {
                return true;
            }
            i = i + 1;
        }
        false
    }

    /// Moves a handle.
    fn shift(&mut self, h: ChannelHandle, to: Option<Live>)
        ensures
            final(self).slots@ == moved(old(self).slots@, h, to),
            final(self).limits == old(self).limits,
            final(self).next_local == old(self).next_local,
            final(self).pending_out == old(self).pending_out,
            final(self).pending_in == old(self).pending_in,
            final(self).established == old(self).established,
            final(self).tombstones == old(self).tombstones,
            final(self).expected_outgoing == old(self).expected_outgoing,
            final(self).last_wire_local == old(self).last_wire_local,
    {
        let ghost s = self.slots@;
        let mut i: usize = 0;
        while i < self.slots.len()
            invariant
                i <= self.slots@.len(),
                self.slots@.len() == s.len(),
                s == old(self).slots@,
                forall|k: int| 0 <= k < i ==> #[trigger] self.slots@[k] == moved(s, h, to)[k],
                forall|k: int| i <= k < s.len() ==> #[trigger] self.slots@[k] == s[k],
                self.limits == old(self).limits,
                self.next_local == old(self).next_local,
                self.pending_out == old(self).pending_out,
                self.pending_in == old(self).pending_in,
                self.established == old(self).established,
                self.tombstones == old(self).tombstones,
                self.expected_outgoing == old(self).expected_outgoing,
                self.last_wire_local == old(self).last_wire_local,
            decreases s.len() - i,
        {
            if self.slots[i].0 == h {
                self.slots.set(i, (h, to));
            }
            i = i + 1;
        }
        proof {
            assert(self.slots@ =~= moved(s, h, to));
        }
    }

    /// The phase of a handle.
    pub fn phase(&self, handle: ChannelHandle) -> (r: Option<Phase>)
        requires
            self.wf(),
        ensures
            r == phase_of(self@, handle),
    {
        match self.find(handle) {
            Some(l) => Some(phase_from(l)),
            None => None,
        }
    }

    /// Where a cancelled number stands.
    fn tombstone_at(&self, n: u32) -> (r: Option<usize>)
        ensures
            match r {
                Some(i) => i < self.tombstones@.len() && self.tombstones@[i as int] == n && self@.tombstones.contains(n)
                    && forall|k: int| 0 <= k < i ==> self.tombstones@[k] != n,
                None => !self@.tombstones.contains(n),
            },
    {
        let mut i: usize = 0;
        while i < self.tombstones.len()
            invariant
                i <= self.tombstones@.len(),
                forall|k: int| 0 <= k < i ==> self.tombstones@[k] != n,
            decreases self.tombstones@.len() - i,
        {
            if self.tombstones[i] == n {
                proof {
                    assert(self@.tombstones[i as int] == n);
                }
                return Some(i);
            }
            i = i + 1;
        }
        None
    }

    /// Whether the result of an open agrees; the open takes effect where it
    /// succeeds. A handle is never issued twice.
    pub fn open(&mut self, params: &OpenParams, result: &Result<ChannelHandle, OpenError>) -> (r: bool)
        requires
            old(self).wf(),
        ensures
            final(self).wf(),
            r == (match (open_error(old(self)@), *result) {
                (Some(e), Err(a)) => a == e,
                (None, Ok(h)) => !issued(old(self)@.slots, h),
                _ => false,
            }),
            final(self)@ == (if r && *result is Ok {
                opened(old(self)@, params@, result->Ok_0)
            } else {
                old(self)@
            }),
            r && *result is Ok ==> final(self)@.outgoing == old(self)@.outgoing.push(
                Outgoing::Open {
                    channel_type: params.channel_type@,
                    sender_channel: LocalNumber(old(self)@.next_local as u32),
                    local: params.local,
                    type_specific: params.type_specific@,
                },
            ),
    {
        let expected = if self.pending_out.len() >= self.limits.max_pending_outgoing {
            Some(OpenError::TooManyPendingOutgoing)
        } else if self.total() >= self.limits.max_channels as u128 {
            Some(OpenError::TooManyChannels)
        } else if self.next_local > 0xffff_ffff {
            Some(OpenError::NumbersExhausted)
        } else {
            None
        };
        match (expected, result) {
            (Some(e), Err(a)) => same_open_error(*a, e),
            (None, Ok(h)) => {
                let handle = *h;
                if self.was_issued(handle) {
                    return false;
                }
                let n: u32 = self.next_local as u32;
                let ghost before = self@;
                self.next_local = self.next_local + 1;
                self.slots.push((handle, Some(Live::Out(n))));
                self.pending_out.insert(
                    n,
                    PendingOut { handle, channel_type: copy_bytes(params.channel_type.as_slice()), local: params.local },
                );
                self.queue(
                    Outgoing::Open {
                        channel_type: copy_bytes(params.channel_type.as_slice()),
                        sender_channel: LocalNumber(n),
                        local: params.local,
                        type_specific: copy_bytes(params.type_specific.as_slice()),
                    },
                );
                proof {
                    lemma_opened(before, params@, handle);
                    assert(self@ == opened(before, params@, handle));
                }
                true
            },
            _ => false,
        }
    }

    /// Queues a message.
    fn queue(&mut self, o: Outgoing)
        ensures
            queue_of(final(self).expected_outgoing@) == queue_of(old(self).expected_outgoing@).push(o@),
            final(self).slots == old(self).slots,
            final(self).limits == old(self).limits,
            final(self).next_local == old(self).next_local,
            final(self).pending_out == old(self).pending_out,
            final(self).pending_in == old(self).pending_in,
            final(self).established == old(self).established,
            final(self).tombstones == old(self).tombstones,
            final(self).last_wire_local == old(self).last_wire_local,
    {
        self.expected_outgoing.push_back(o);
        proof {
            assert(queue_of(self.expected_outgoing@) =~= queue_of(old(self).expected_outgoing@).push(o@));
        }
    }

    /// Whether the result of a cancellation agrees; it takes effect where it
    /// succeeds.
    pub fn cancel(&mut self, handle: ChannelHandle, result: &Result<(), HandleError>) -> (r: bool)
        requires
            old(self).wf(),
        ensures
            final(self).wf(),
            r == (match *result {
                Ok(_) => handle_error(old(self)@, handle, Phase::PendingOutgoing) is None,
                Err(e) => handle_error(old(self)@, handle, Phase::PendingOutgoing) == Some(e),
            }),
            final(self)@ == (match live_of(old(self)@.slots, handle) {
                Some(Live::Out(n)) => if r {
                    cancelled(old(self)@, handle, n)
                } else {
                    old(self)@
                },
                _ => old(self)@,
            }),
    {
        match self.find(handle) {
            Some(Live::Out(n)) => {
                if result.is_err() {
                    return false;
                }
                let ghost before = self@;
                proof {
                    lemma_cancelled(before, handle, n);
                }
                self.shift(handle, None);
                let _gone = self.pending_out.remove(n);
                self.bury(n);
                proof {
                    assert(self@ == cancelled(before, handle, n));
                }
                true
            },
            Some(l) => match result {
                Err(e) => *e == (HandleError::WrongPhase { actual: phase_from(l) }),
                Ok(_) => false,
            },
            None => match result {
                Err(e) => *e == HandleError::Stale,
                Ok(_) => false,
            },
        }
    }

    /// Remembers a cancelled number, and forgets the oldest beyond the limit.
    fn bury(&mut self, n: u32)
        ensures
            final(self).tombstones@ == buried(old(self).tombstones@, n, old(self).limits.max_tombstones as int),
            final(self).slots == old(self).slots,
            final(self).limits == old(self).limits,
            final(self).next_local == old(self).next_local,
            final(self).pending_out == old(self).pending_out,
            final(self).pending_in == old(self).pending_in,
            final(self).established == old(self).established,
            final(self).expected_outgoing == old(self).expected_outgoing,
            final(self).last_wire_local == old(self).last_wire_local,
    {
        self.tombstones.push_back(n);
        let ghost u = self.tombstones@;
        let ghost mut d: int = 0;
        while self.tombstones.len() > self.limits.max_tombstones
            invariant
                u == old(self).tombstones@.push(n),
                0 <= d <= u.len(),
                self.tombstones@ =~= u.skip(d),
                d == 0 || u.len() - d >= self.limits.max_tombstones,
                self.slots == old(self).slots,
                self.limits == old(self).limits,
                self.next_local == old(self).next_local,
                self.pending_out == old(self).pending_out,
                self.pending_in == old(self).pending_in,
                self.established == old(self).established,
                self.expected_outgoing == old(self).expected_outgoing,
                self.last_wire_local == old(self).last_wire_local,
            decreases self.tombstones@.len(),
        {
            let _oldest: Option<u32> = self.tombstones.pop_front();
            proof {
                assert(self.tombstones@ =~= u.skip(d + 1));
                d = d + 1;
            }
        }
        proof {
            assert(u.skip(0) =~= u);
        }
    }

    /// Whether the result of an acceptance agrees; it takes effect where the
    /// handle is a pending incoming open. Without a number left the open is
    /// refused.
    pub fn accept(&mut self, handle: ChannelHandle, params: &AcceptParams, result: &Result<Event, HandleError>) -> (r: bool)
        requires
            old(self).wf(),
        ensures
            final(self).wf(),
            r == (match live_of(old(self)@.slots, handle) {
                Some(Live::In(peer)) => if old(self)@.next_local > u32::MAX {
                    *result matches Err(e) && e == HandleError::Stale
                } else {
                    *result matches Ok(e) && e@ == accept_event(old(self)@, handle, peer, params@)
                },
                _ => *result matches Err(e) && handle_error(old(self)@, handle, Phase::PendingIncoming) == Some(e),
            }),
            final(self)@ == (match live_of(old(self)@.slots, handle) {
                Some(Live::In(peer)) => if !r {
                    old(self)@
                } else if old(self)@.next_local > u32::MAX {
                    refused(old(self)@, handle, peer, RESOURCE_SHORTAGE, bytes_of(EXHAUSTED_REFUSAL_DESCRIPTION))
                } else {
                    accepted(old(self)@, handle, peer, params@)
                },
                _ => old(self)@,
            }),
            r && *result is Ok ==> {
                &&& live_of(old(self)@.slots, handle) matches Some(Live::In(number))
                &&& result->Ok_0 matches Event::Established { handle: seen, local, peer, peer_number, local_number, .. }
                &&& seen == handle
                &&& local == params.local
                &&& peer == old(self)@.pending_in[number].peer
                &&& peer_number == PeerNumber(number)
                &&& final(self)@.outgoing == old(self)@.outgoing.push(
                    Outgoing::OpenConfirmation {
                        recipient_channel: peer_number,
                        sender_channel: local_number,
                        local: params.local,
                        type_specific: params.type_specific@,
                    },
                )
            },
    {
        match self.find(handle) {
            Some(Live::In(peer)) => {
                let ghost before = self@;
                if self.next_local > 0xffff_ffff {
                    let agrees: bool = match result {
                        Err(e) => *e == HandleError::Stale,
                        Ok(_) => false,
                    };
                    if !agrees {
                        return false;
                    }
                    let description = copy_bytes(EXHAUSTED_REFUSAL_DESCRIPTION.as_bytes());
                    self.turn_down(handle, peer, RESOURCE_SHORTAGE, description);
                    return true;
                }
                let n: u32 = self.next_local as u32;
                let expected = match self.pending_in.get(peer) {
                    Some(pin) => Event::Established {
                        handle,
                        channel_type: copy_bytes(pin.channel_type.as_slice()),
                        local_number: LocalNumber(n),
                        peer_number: PeerNumber(peer),
                        local: params.local,
                        peer: pin.peer,
                        peer_type_specific: Vec::new(),
                    },
                    None => {
                        return false;
                    },
                };
                proof {
                    assert(expected@ == accept_event(before, handle, peer, params@));
                }
                let agrees: bool = match result {
                    Ok(e) => e.same(&expected),
                    Err(_) => false,
                };
                if !agrees {
                    return false;
                }
                proof {
                    lemma_accepted(before, handle, peer, params@);
                }
                self.next_local = self.next_local + 1;
                self.shift(handle, Some(Live::Est(n)));
                let _gone = self.pending_in.remove(peer);
                self.established.insert(n, Established { handle, peer });
                self.queue(
                    Outgoing::OpenConfirmation {
                        recipient_channel: PeerNumber(peer),
                        sender_channel: LocalNumber(n),
                        local: params.local,
                        type_specific: copy_bytes(params.type_specific.as_slice()),
                    },
                );
                proof {
                    assert(self@ == accepted(before, handle, peer, params@));
                }
                true
            },
            Some(l) => match result {
                Err(e) => *e == (HandleError::WrongPhase { actual: phase_from(l) }),
                Ok(_) => false,
            },
            None => match result {
                Err(e) => *e == HandleError::Stale,
                Ok(_) => false,
            },
        }
    }

    /// Refuses a pending incoming open.
    fn turn_down(&mut self, handle: ChannelHandle, peer: u32, reason_code: u32, description: Vec<u8>)
        requires
            old(self).wf(),
            live_of(old(self)@.slots, handle) == Some(Live::In(peer)),
        ensures
            final(self).wf(),
            final(self)@ == refused(old(self)@, handle, peer, reason_code, description@),
    {
        let ghost before = self@;
        let ghost text = description@;
        proof {
            lemma_refused(before, handle, peer, reason_code, text);
        }
        self.shift(handle, None);
        let _gone = self.pending_in.remove(peer);
        let none: Vec<u8> = Vec::new();
        proof {
            assert(none@ =~= Seq::empty());
        }
        self.queue(
            Outgoing::OpenFailure {
                recipient_channel: PeerNumber(peer),
                reason_code,
                description,
                language_tag: none,
            },
        );
        proof {
            assert(self@ == refused(before, handle, peer, reason_code, text));
        }
    }

    /// Whether the result of a refusal agrees; it takes effect where it
    /// succeeds.
    pub fn refuse(&mut self, handle: ChannelHandle, reason_code: u32, description: &[u8], result: &Result<(), HandleError>) -> (r: bool)
        requires
            old(self).wf(),
        ensures
            final(self).wf(),
            r == (match *result {
                Ok(_) => handle_error(old(self)@, handle, Phase::PendingIncoming) is None,
                Err(e) => handle_error(old(self)@, handle, Phase::PendingIncoming) == Some(e),
            }),
            final(self)@ == (match live_of(old(self)@.slots, handle) {
                Some(Live::In(peer)) => if r {
                    refused(old(self)@, handle, peer, reason_code, description@)
                } else {
                    old(self)@
                },
                _ => old(self)@,
            }),
    {
        match self.find(handle) {
            Some(Live::In(peer)) => {
                if result.is_err() {
                    return false;
                }
                self.turn_down(handle, peer, reason_code, copy_bytes(description));
                true
            },
            Some(l) => match result {
                Err(e) => *e == (HandleError::WrongPhase { actual: phase_from(l) }),
                Ok(_) => false,
            },
            None => match result {
                Err(e) => *e == HandleError::Stale,
                Ok(_) => false,
            },
        }
    }

    /// Whether one event reports the loss of a live channel.
    fn reports_loss(&self, e: &Event) -> (r: bool)
        requires
            self.wf(),
        ensures
            r == (e@ matches Event::TransportLost { handle, phase } && phase_of(self@, handle) == Some(phase)),
    {
        match e {
            Event::TransportLost { handle, phase } => match self.phase(*handle) {
                Some(p) => p == *phase,
                None => false,
            },
            _ => false,
        }
    }

    /// Whether the events of a lost transport report exactly the live
    /// channels.
    fn losses_agree(&self, events: &Vec<Event>) -> (r: bool)
        requires
            self.wf(),
        ensures
            r == losses_reported(self@, events_of(events@)),
    {
        let ghost ev = events_of(events@);
        let mut i: usize = 0;
        while i < events.len()
            invariant
                i <= events@.len(),
                self.wf(),
                ev == events_of(events@),
                forall|k: int|
                    0 <= k < i ==> (#[trigger] ev[k] matches Event::TransportLost { handle, phase } && phase_of(
                        self@,
                        handle,
                    ) == Some(phase)),
                forall|a: int, b: int| 0 <= a < b < i ==> #[trigger] ev[a] != #[trigger] ev[b],
            decreases events@.len() - i,
        {
            if !self.reports_loss(&events[i]) {
                proof {
                    assert(ev[i as int] == events@[i as int]@);
                }
                return false;
            }
            let mut j: usize = 0;
            while j < i
                invariant
                    j <= i < events@.len(),
                    ev == events_of(events@),
                    forall|a: int| 0 <= a < j ==> #[trigger] ev[a] != ev[i as int],
                decreases i - j,
            {
                if events[j].same(&events[i]) {
                    proof {
                        assert(ev[j as int] == ev[i as int]);
                    }
                    return false;
                }
                j = j + 1;
            }
            i = i + 1;
        }
        let mut s: usize = 0;
        while s < self.slots.len()
            invariant
                s <= self.slots@.len(),
                self.wf(),
                ev == events_of(events@),
                forall|k: int|
                    0 <= k < s ==> (phase_of(self@, (#[trigger] self.slots@[k]).0) matches Some(phase) ==> ev.contains(
                        Event::TransportLost { handle: self.slots@[k].0, phase },
                    )),
            decreases self.slots@.len() - s,
        {
            let h = self.slots[s].0;
            if let Some(phase) = self.phase(h) {
                let want: Event = Event::TransportLost { handle: h, phase };
                if !contains_event(events, &want) {
                    return false;
                }
            }
            s = s + 1;
        }
        proof {
            assert forall|h: ChannelHandle| phase_of(self@, h) is Some implies ev.contains(
                Event::TransportLost { handle: h, phase: #[trigger] phase_of(self@, h)->0 },
            ) by {
                lemma_live_issued(self.slots@, h);
                let k = choose|k: int| 0 <= k < self.slots@.len() && (#[trigger] self.slots@[k]).0 == h;
                assert(phase_of(self@, self.slots@[k].0) is Some);
            }
        }
        true
    }

    /// Whether the events of a lost transport agree: one for every live
    /// channel, with its phase. Then nothing is live and nothing is queued.
    pub fn transport_lost(&mut self, events: &Vec<Event>) -> (r: bool)
        requires
            old(self).wf(),
        ensures
            final(self).wf(),
            r == losses_reported(old(self)@, events_of(events@)),
            final(self)@ == (if r {
                lost(old(self)@)
            } else {
                old(self)@
            }),
    {
        if !self.losses_agree(events) {
            return false;
        }
        let ghost before = self@;
        proof {
            lemma_lost(before);
        }
        self.pending_out = Table::new();
        self.pending_in = Table::new();
        self.established = Table::new();
        self.expected_outgoing = VecDeque::new();
        let ghost s = self.slots@;
        let mut i: usize = 0;
        while i < self.slots.len()
            invariant
                i <= self.slots@.len(),
                self.slots@.len() == s.len(),
                before.slots == s,
                forall|k: int| 0 <= k < i ==> #[trigger] self.slots@[k] == (s[k].0, None::<Live>),
                forall|k: int| i <= k < s.len() ==> #[trigger] self.slots@[k] == s[k],
                self.limits == before.limits,
                self.next_local == before.next_local,
                self.tombstones@ == before.tombstones,
                self.last_wire_local == before.last_wire,
                self.pending_out@ == Map::<u32, PendingOut<Seq<u8>>>::empty(),
                self.pending_in@ == Map::<u32, PendingIn<Seq<u8>>>::empty(),
                self.established@ == Map::<u32, Established>::empty(),
                self.expected_outgoing@.len() == 0,
            decreases s.len() - i,
        {
            let h = self.slots[i].0;
            self.slots.set(i, (h, None));
            i = i + 1;
        }
        proof {
            assert(self@.slots =~= lost(before).slots);
            assert(self@.outgoing =~= Seq::empty());
            assert(self@ == lost(before));
        }
        true
    }

    /// Whether a peer number is in use.
    fn in_use(&self, peer: u32) -> (r: bool)
        requires
            self.wf(),
        ensures
            r == peer_in_use(self@, peer),
    {
        if self.pending_in.contains(peer) {
            return true;
        }
        let keys = self.established.keys();
        let mut i: usize = 0;
        while i < keys.len()
            invariant
                i <= keys@.len(),
                self.wf(),
                is_keys(keys@, self@.established),
                forall|k: int| 0 <= k < i ==> self@.established[#[trigger] keys@[k]].peer != peer,
            decreases keys@.len() - i,
        {
            proof {
                assert(keys@.contains(keys@[i as int]));
            }
            if let Some(e) = self.established.get(keys[i]) {
                if e.peer == peer {
                    return true;
                }
            }
            i = i + 1;
        }
        proof {
            assert forall|n: u32| #[trigger] self@.established.contains_key(n) implies self@.established[n].peer != peer by {
                assert(keys@.contains(n));
            }
        }
        false
    }

    /// Whether what an engine made of an open of the peer agrees: a duplicate
    /// number is a violation, an open over a limit is refused, any other is
    /// reported with a fresh handle.
    pub fn peer_open(&mut self, msg: &RefChannelOpen<'_>, result: &Result<Event, Violation>) -> (r: bool)
        requires
            old(self).wf(),
        ensures
            final(self).wf(),
            r == (if peer_in_use(old(self)@, msg.sender_channel) {
                *result matches Err(e) && e == (Violation::DuplicatePeerNumber {
                    peer_number: PeerNumber(msg.sender_channel),
                })
            } else if incoming_limited(old(self)@) {
                *result matches Ok(e) && e@ == (Event::IncomingRefusedByLimit {
                    peer_number: PeerNumber(msg.sender_channel),
                    channel_type: msg@.channel_type,
                })
            } else {
                *result matches Ok(Event::IncomingOpen { handle, channel_type, peer_number, peer, type_specific })
                    && !issued(old(self)@.slots, handle) && channel_type@ == msg@.channel_type && peer_number
                    == PeerNumber(msg.sender_channel) && peer == open_credit(msg@) && type_specific@
                    == msg@.type_specific
            }),
            final(self)@ == (if !r || peer_in_use(old(self)@, msg.sender_channel) {
                old(self)@
            } else if incoming_limited(old(self)@) {
                limit_refused(old(self)@, msg.sender_channel)
            } else {
                match *result {
                    Ok(Event::IncomingOpen { handle, .. }) => incoming(old(self)@, msg@, handle),
                    _ => old(self)@,
                }
            }),
            r && *result is Ok && !incoming_limited(old(self)@) ==> {
                &&& final(self)@.pending_in.contains_key(msg.sender_channel)
                &&& final(self)@.pending_in[msg.sender_channel].peer == (Credit {
                    initial_window_size: msg.initial_window_size,
                    maximum_packet_size: msg.maximum_packet_size,
                })
                &&& final(self)@.pending_in[msg.sender_channel].channel_type == msg.channel_type@
            },
    {
        let peer: u32 = msg.sender_channel;
        let credit = Credit {
            initial_window_size: msg.initial_window_size,
            maximum_packet_size: msg.maximum_packet_size,
        };
        let ghost before = self@;
        if self.in_use(peer) {
            return match result {
                Err(e) => *e == (Violation::DuplicatePeerNumber { peer_number: PeerNumber(peer) }),
                Ok(_) => false,
            };
        }
        if self.pending_in.len() >= self.limits.max_pending_incoming || self.total() >= self.limits.max_channels as u128 {
            let expected: Event = Event::IncomingRefusedByLimit {
                peer_number: PeerNumber(peer),
                channel_type: copy_bytes(msg.channel_type),
            };
            let agrees: bool = match result {
                Ok(e) => e.same(&expected),
                Err(_) => false,
            };
            if !agrees {
                return false;
            }
            let none: Vec<u8> = Vec::new();
            proof {
                lemma_limit_refused(before, peer);
                assert(none@ =~= Seq::empty());
            }
            self.queue(
                Outgoing::OpenFailure {
                    recipient_channel: PeerNumber(peer),
                    reason_code: RESOURCE_SHORTAGE,
                    description: copy_bytes(LIMIT_REFUSAL_DESCRIPTION.as_bytes()),
                    language_tag: none,
                },
            );
            proof {
                assert(self@ == limit_refused(before, peer));
            }
            return true;
        }
        match result {
            Ok(Event::IncomingOpen { handle, channel_type, peer_number, peer: got, type_specific }) => {
                if !same_bytes(channel_type.as_slice(), msg.channel_type) || peer_number.0 != peer || *got != credit
                    || !same_bytes(type_specific.as_slice(), msg.type_specific) || self.was_issued(*handle) {
                    return false;
                }
                proof {
                    lemma_incoming(before, msg@, *handle);
                }
                self.slots.push((*handle, Some(Live::In(peer))));
                self.pending_in.insert(
                    peer,
                    PendingIn { handle: *handle, channel_type: copy_bytes(msg.channel_type), peer: credit },
                );
                proof {
                    assert(self@ == incoming(before, msg@, *handle));
                }
                true
            },
            _ => false,
        }
    }

    /// Where a reply lands.
    fn target(&self, recipient: u32) -> (r: Result<ReplyTarget, Violation>)
        requires
            self.wf(),
        ensures
            r == reply_target(self@, recipient),
    {
        if self.pending_out.contains(recipient) {
            Ok(ReplyTarget::Pending)
        } else if self.established.contains(recipient) {
            Err(Violation::DuplicateReply { local_number: LocalNumber(recipient) })
        } else if self.tombstone_at(recipient).is_some() {
            Ok(ReplyTarget::Tombstone)
        } else if recipient as u64 >= self.next_local && self.pending_in.contains(recipient) {
            Err(Violation::ReplyToIncoming { recipient })
        } else {
            Err(Violation::UnknownRecipient { recipient })
        }
    }

    /// Forgets a cancelled number that was answered.
    fn unbury(&mut self, n: u32)
        requires
            old(self).wf(),
            old(self)@.tombstones.contains(n),
        ensures
            final(self).wf(),
            final(self)@ == answered_late(old(self)@, n),
    {
        let ghost before = self@;
        proof {
            lemma_answered_late(before, n);
        }
        if let Some(i) = self.tombstone_at(n) {
            proof {
                let k = before.tombstones.index_of(n);
                assert(before.tombstones[k] == n && before.tombstones[i as int] == n);
                assert(k == i);
            }
            let _gone: Option<u32> = self.tombstones.remove(i);
            proof {
                assert(self@ == answered_late(before, n));
            }
        }
    }

    /// Whether what an engine made of a confirmation agrees.
    pub fn peer_confirm(&mut self, msg: &RefChannelOpenConfirmation<'_>, result: &Result<Event, Violation>) -> (r: bool)
        requires
            old(self).wf(),
        ensures
            final(self).wf(),
            r == (result_of(*result) == (match reply_target(old(self)@, msg.recipient_channel) {
                Ok(ReplyTarget::Pending) => Ok(confirm_event(old(self)@, msg@)),
                Ok(ReplyTarget::Tombstone) => Ok(late_confirm_event(msg@)),
                Err(v) => Err(v),
            })),
            final(self)@ == (match reply_target(old(self)@, msg.recipient_channel) {
                Ok(t) => if !r {
                    old(self)@
                } else if t is Pending {
                    confirmed(old(self)@, msg@)
                } else {
                    answered_late(old(self)@, msg.recipient_channel)
                },
                Err(_) => old(self)@,
            }),
            r ==> (*result matches Ok(Event::Established { handle, local_number, peer_number, local, peer, .. }) ==> {
                &&& local_number == LocalNumber(msg.recipient_channel)
                &&& peer_number == PeerNumber(msg.sender_channel)
                &&& peer == (Credit {
                    initial_window_size: msg.initial_window_size,
                    maximum_packet_size: msg.maximum_packet_size,
                })
                &&& old(self)@.pending_out.contains_key(msg.recipient_channel)
                &&& local == old(self)@.pending_out[msg.recipient_channel].local
                &&& handle == old(self)@.pending_out[msg.recipient_channel].handle
            }),
    {
        let n: u32 = msg.recipient_channel;
        let peer = PeerNumber(msg.sender_channel);
        let credit = Credit {
            initial_window_size: msg.initial_window_size,
            maximum_packet_size: msg.maximum_packet_size,
        };
        let ghost before = self@;
        match self.target(n) {
            Ok(ReplyTarget::Pending) => {
                let expected = match self.pending_out.get(n) {
                    Some(p) => Event::Established {
                        handle: p.handle,
                        channel_type: copy_bytes(p.channel_type.as_slice()),
                        local_number: LocalNumber(n),
                        peer_number: peer,
                        local: p.local,
                        peer: credit,
                        peer_type_specific: copy_bytes(msg.type_specific),
                    },
                    None => {
                        return false;
                    },
                };
                proof {
                    assert(expected@ == confirm_event(before, msg@));
                }
                let agrees: bool = match result {
                    Ok(e) => e.same(&expected),
                    Err(_) => false,
                };
                if !agrees {
                    return false;
                }
                proof {
                    lemma_confirmed(before, msg@);
                }
                let p = self.pending_out.remove(n);
                self.shift(p.handle, Some(Live::Est(n)));
                self.established.insert(n, Established { handle: p.handle, peer: msg.sender_channel });
                proof {
                    assert(self@ == confirmed(before, msg@));
                }
                true
            },
            Ok(ReplyTarget::Tombstone) => {
                let expected: Event = Event::LateReply {
                    local_number: LocalNumber(n),
                    reply: LateReply::Confirmed { peer_number: peer, peer: credit },
                };
                let agrees: bool = match result {
                    Ok(e) => e.same(&expected),
                    Err(_) => false,
                };
                if agrees {
                    self.unbury(n);
                }
                agrees
            },
            Err(v) => match result {
                Err(e) => *e == v,
                Ok(_) => false,
            },
        }
    }

    /// Whether what an engine made of a failure agrees.
    pub fn peer_fail(&mut self, msg: &RefChannelOpenFailure<'_>, result: &Result<Event, Violation>) -> (r: bool)
        requires
            old(self).wf(),
        ensures
            final(self).wf(),
            r == (result_of(*result) == (match reply_target(old(self)@, msg.recipient_channel) {
                Ok(ReplyTarget::Pending) => Ok(fail_event(old(self)@, msg@)),
                Ok(ReplyTarget::Tombstone) => Ok(late_fail_event(msg@)),
                Err(v) => Err(v),
            })),
            final(self)@ == (match reply_target(old(self)@, msg.recipient_channel) {
                Ok(t) => if !r {
                    old(self)@
                } else if t is Pending {
                    failed(old(self)@, msg.recipient_channel)
                } else {
                    answered_late(old(self)@, msg.recipient_channel)
                },
                Err(_) => old(self)@,
            }),
    {
        let n: u32 = msg.recipient_channel;
        let ghost before = self@;
        match self.target(n) {
            Ok(ReplyTarget::Pending) => {
                let expected = match self.pending_out.get(n) {
                    Some(p) => Event::Refused {
                        handle: p.handle,
                        reason_code: msg.reason_code,
                        description: copy_bytes(msg.description),
                        language_tag: copy_bytes(msg.language_tag),
                    },
                    None => {
                        return false;
                    },
                };
                proof {
                    assert(expected@ == fail_event(before, msg@));
                }
                let agrees: bool = match result {
                    Ok(e) => e.same(&expected),
                    Err(_) => false,
                };
                if !agrees {
                    return false;
                }
                proof {
                    lemma_failed(before, n);
                }
                let p = self.pending_out.remove(n);
                self.shift(p.handle, None);
                proof {
                    assert(self@ == failed(before, n));
                }
                true
            },
            Ok(ReplyTarget::Tombstone) => {
                let expected: Event = Event::LateReply {
                    local_number: LocalNumber(n),
                    reply: LateReply::Refused { reason_code: msg.reason_code },
                };
                let agrees: bool = match result {
                    Ok(e) => e.same(&expected),
                    Err(_) => false,
                };
                if agrees {
                    self.unbury(n);
                }
                agrees
            },
            Err(v) => match result {
                Err(e) => *e == v,
                Ok(_) => false,
            },
        }
    }

    /// Whether what an engine hands out is what is queued: nothing where
    /// nothing is. A local number on the wire is above every one before it.
    pub fn check_outgoing(&mut self, actual: &Option<Outgoing>) -> (r: bool)
        requires
            old(self).wf(),
        ensures
            final(self).wf(),
            r == (match *actual {
                Some(o) => old(self)@.outgoing.len() > 0 && o@ == old(self)@.outgoing[0],
                None => old(self)@.outgoing.len() == 0,
            }),
            final(self)@ == (if r && *actual is Some {
                handed_out(old(self)@)
            } else {
                old(self)@
            }),
            r ==> (*actual matches Some(o) ==> (wire_number(o@) matches Some(n) ==> (old(
                self,
            )@.last_wire matches Some(l) ==> l < n))),
    {
        match actual {
            None => self.expected_outgoing.len() == 0,
            Some(o) => {
                if self.expected_outgoing.len() == 0 || !o.same(&self.expected_outgoing[0]) {
                    return false;
                }
                let ghost before = self@;
                proof {
                    lemma_handed_out(before);
                }
                let first = self.expected_outgoing.pop_front();
                match first {
                    Some(Outgoing::Open { sender_channel, .. }) => {
                        self.last_wire_local = Some(sender_channel.0);
                    },
                    Some(Outgoing::OpenConfirmation { sender_channel, .. }) => {
                        self.last_wire_local = Some(sender_channel.0);
                    },
                    _ => {},
                }
                proof {
                    assert(self@.outgoing =~= before.outgoing.drop_first());
                    assert(self@ == handed_out(before));
                }
                true
            },
        }
    }

    /// Whether an engine's counters, and the phases of all handles in order of
    /// issue, agree.
    pub fn check_state(&self, live: usize, outgoing: usize, incoming: usize, phases: &Vec<Option<Phase>>) -> (r: bool)
        requires
            self.wf(),
        ensures
            r == state_agrees(self@, live as int, outgoing as int, incoming as int, phases@),
    {
        if live as u128 != self.total() || outgoing != self.pending_out.len() || incoming != self.pending_in.len()
            || phases.len() != self.slots.len() {
            return false;
        }
        let mut i: usize = 0;
        while i < phases.len()
            invariant
                i <= phases@.len(),
                self.wf(),
                phases@.len() == self.slots@.len(),
                forall|k: int| 0 <= k < i ==> #[trigger] phases@[k] == phase_of(self@, self@.slots[k].0),
            decreases phases@.len() - i,
        {
            let same: bool = match (self.phase(self.slots[i].0), phases[i]) {
                (Some(a), Some(b)) => a == b,
                (None, None) => true,
                _ => false,
            };
            if !same {
                return false;
            }
            i = i + 1;
        }
        true
    }
}

fn contains_event(events: &Vec<Event>, want: &Event) -> (r: bool)
    ensures
        r == events_of(events@).contains(want@),
{
    let ghost ev = events_of(events@);
    let mut i: usize = 0;
    while i < events.len()
        invariant
            i <= events@.len(),
            ev == events_of(events@),
            forall|k: int| 0 <= k < i ==> #[trigger] ev[k] != want@,
        decreases events@.len() - i,
    {
        if events[i].same(want) {
            proof {
                assert(ev[i as int] == want@);
            }
            return true;
        }
        proof {
            assert(ev[i as int] == events@[i as int]@);
        }
        i = i + 1;
    }
    false
}

/// The payload of a message.
pub open spec fn outgoing_bytes(o: Outgoing<Seq<u8>>) -> Seq<u8> {
    match o {
        Outgoing::Open { channel_type, sender_channel, local, type_specific } => channel_open_bytes(
            ChannelOpenFields {
                channel_type,
                sender_channel: sender_channel.0,
                initial_window_size: local.initial_window_size,
                maximum_packet_size: local.maximum_packet_size,
                type_specific,
            },
        ),
        Outgoing::OpenConfirmation { recipient_channel, sender_channel, local, type_specific } => channel_open_confirmation_bytes(
            ChannelOpenConfirmationFields {
                recipient_channel: recipient_channel.0,
                sender_channel: sender_channel.0,
                initial_window_size: local.initial_window_size,
                maximum_packet_size: local.maximum_packet_size,
                type_specific,
            },
        ),
        Outgoing::OpenFailure { recipient_channel, reason_code, description, language_tag } => channel_open_failure_bytes(
            ChannelOpenFailureFields {
                recipient_channel: recipient_channel.0,
                reason_code,
                description,
                language_tag,
            },
        ),
    }
}

/// The strings of a message fit their length fields.
pub open spec fn outgoing_fits(o: Outgoing<Seq<u8>>) -> bool {
    match o {
        Outgoing::Open { channel_type, .. } => channel_type.len() <= u32::MAX,
        Outgoing::OpenConfirmation { .. } => true,
        Outgoing::OpenFailure { description, language_tag, .. } => description.len() <= u32::MAX && language_tag.len()
            <= u32::MAX,
    }
}

/// Whether bytes are the payload of a message: they decode, and every field
/// comes back.
pub fn check_wire_roundtrip(out: &Outgoing, encoded: &[u8]) -> (r: bool)
    requires
        outgoing_fits(out@),
    ensures
        r == (encoded@ == outgoing_bytes(out@)),
{
    match out {
        Outgoing::Open { channel_type, sender_channel, local, type_specific } => {
            proof {
                lemma_channel_open_read_write(encoded@);
                lemma_channel_open_write_read(
                    ChannelOpenFields {
                        channel_type: channel_type@,
                        sender_channel: sender_channel.0,
                        initial_window_size: local.initial_window_size,
                        maximum_packet_size: local.maximum_packet_size,
                        type_specific: type_specific@,
                    },
                    Seq::empty(),
                );
            }
            match channel_open(encoded) {
                Ok(d) => same_bytes(d.channel_type, channel_type.as_slice()) && d.sender_channel == sender_channel.0
                    && d.initial_window_size == local.initial_window_size && d.maximum_packet_size
                    == local.maximum_packet_size && same_bytes(d.type_specific, type_specific.as_slice()),
                Err(_) => false,
            }
        },
        Outgoing::OpenConfirmation { recipient_channel, sender_channel, local, type_specific } => {
            proof {
                lemma_channel_open_confirmation_read_write(encoded@);
                lemma_channel_open_confirmation_write_read(
                    ChannelOpenConfirmationFields {
                        recipient_channel: recipient_channel.0,
                        sender_channel: sender_channel.0,
                        initial_window_size: local.initial_window_size,
                        maximum_packet_size: local.maximum_packet_size,
                        type_specific: type_specific@,
                    },
                    Seq::empty(),
                );
            }
            match channel_open_confirmation(encoded) {
                Ok(d) => d.recipient_channel == recipient_channel.0 && d.sender_channel == sender_channel.0
                    && d.initial_window_size == local.initial_window_size && d.maximum_packet_size
                    == local.maximum_packet_size && same_bytes(d.type_specific, type_specific.as_slice()),
                Err(_) => false,
            }
        },
        Outgoing::OpenFailure { recipient_channel, reason_code, description, language_tag } => {
            proof {
                lemma_channel_open_failure_read_write(encoded@);
                lemma_channel_open_failure_write_read(
                    ChannelOpenFailureFields {
                        recipient_channel: recipient_channel.0,
                        reason_code: *reason_code,
                        description: description@,
                        language_tag: language_tag@,
                    },
                    Seq::empty(),
                );
            }
            match channel_open_failure(encoded) {
                Ok(d) => d.recipient_channel == recipient_channel.0 && d.reason_code == *reason_code && same_bytes(
                    d.description,
                    description.as_slice(),
                ) && same_bytes(d.language_tag, language_tag.as_slice()),
                Err(_) => false,
            }
        },
    }
}

} // verus!
