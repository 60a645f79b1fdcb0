//! The vocabulary of channel opening. Types that hold bytes take the
//! representation as a parameter, so that contracts speak of the same value
//! over sequences.

use vstd::prelude::*;
use crate::seqs::same_bytes;

verus! {

/// A channel as the application holds it.
#[derive(Clone, Copy, Debug, PartialEq, Eq, Structural)]
pub struct ChannelHandle(pub u64);

/// A channel number that we chose.
#[derive(Clone, Copy, Debug, PartialEq, Eq, Structural)]
pub struct LocalNumber(pub u32);

/// A channel number that the peer chose.
#[derive(Clone, Copy, Debug, PartialEq, Eq, Structural)]
pub struct PeerNumber(pub u32);

/// What one side lets the other send.
#[derive(Clone, Copy, Debug, PartialEq, Eq, Structural)]
pub struct Credit {
    pub initial_window_size: u32,
    pub maximum_packet_size: u32,
}

/// The limits of an engine.
#[derive(Clone, Copy, Debug, PartialEq, Eq, Structural)]
pub struct OpeningLimits {
    pub max_pending_outgoing: usize,
    pub max_pending_incoming: usize,
    pub max_channels: usize,
    pub max_tombstones: usize,
}

/// What an application opens a channel with.
#[derive(Debug, PartialEq, Eq)]
pub struct OpenParams<B = Vec<u8>> {
    pub channel_type: B,
    pub local: Credit,
    pub type_specific: B,
}

impl View for OpenParams<Vec<u8>> {
    type V = OpenParams<Seq<u8>>;

    open spec fn view(&self) -> OpenParams<Seq<u8>> {
        OpenParams { channel_type: self.channel_type@, local: self.local, type_specific: self.type_specific@ }
    }
}

/// What an application accepts a channel with.
#[derive(Debug, PartialEq, Eq)]
pub struct AcceptParams<B = Vec<u8>> {
    pub local: Credit,
    pub type_specific: B,
}

impl View for AcceptParams<Vec<u8>> {
    type V = AcceptParams<Seq<u8>>;

    open spec fn view(&self) -> AcceptParams<Seq<u8>> {
        AcceptParams { local: self.local, type_specific: self.type_specific@ }
    }
}

/// Where a live channel is.
#[derive(Clone, Copy, Debug, PartialEq, Eq, Structural)]
pub enum Phase {
    PendingOutgoing,
    PendingIncoming,
    Established,
}

/// Why a command on a handle fails.
#[derive(Clone, Copy, Debug, PartialEq, Eq, Structural)]
pub enum HandleError {
    Stale,
    WrongPhase { actual: Phase },
}

/// Why an open fails.
#[derive(Clone, Copy, Debug, PartialEq, Eq, Structural)]
pub enum OpenError {
    TooManyPendingOutgoing,
    TooManyChannels,
    NumbersExhausted,
}

/// What a peer must not do.
#[derive(Clone, Copy, Debug, PartialEq, Eq, Structural)]
pub enum Violation {
    DuplicatePeerNumber { peer_number: PeerNumber },
    DuplicateReply { local_number: LocalNumber },
    ReplyToIncoming { recipient: u32 },
    UnknownRecipient { recipient: u32 },
}

/// A reply to an open that was cancelled.
#[derive(Clone, Copy, Debug, PartialEq, Eq, Structural)]
pub enum LateReply {
    Confirmed { peer_number: PeerNumber, peer: Credit },
    Refused { reason_code: u32 },
}

/// What an engine tells the application.
#[derive(Debug, PartialEq, Eq)]
pub enum Event<B = Vec<u8>> {
    IncomingOpen { handle: ChannelHandle, channel_type: B, peer_number: PeerNumber, peer: Credit, type_specific: B },
    IncomingRefusedByLimit { peer_number: PeerNumber, channel_type: B },
    Established {
        handle: ChannelHandle,
        channel_type: B,
        local_number: LocalNumber,
        peer_number: PeerNumber,
        local: Credit,
        peer: Credit,
        peer_type_specific: B,
    },
    Refused { handle: ChannelHandle, reason_code: u32, description: B, language_tag: B },
    LateReply { local_number: LocalNumber, reply: LateReply },
    TransportLost { handle: ChannelHandle, phase: Phase },
}

impl View for Event<Vec<u8>> {
    type V = Event<Seq<u8>>;

    open spec fn view(&self) -> Event<Seq<u8>> {
        match self {
            Event::IncomingOpen { handle, channel_type, peer_number, peer, type_specific } => Event::IncomingOpen {
                handle: *handle,
                channel_type: channel_type@,
                peer_number: *peer_number,
                peer: *peer,
                type_specific: type_specific@,
            },
            Event::IncomingRefusedByLimit { peer_number, channel_type } => Event::IncomingRefusedByLimit {
                peer_number: *peer_number,
                channel_type: channel_type@,
            },
            Event::Established { handle, channel_type, local_number, peer_number, local, peer, peer_type_specific } => Event::Established {
                handle: *handle,
                channel_type: channel_type@,
                local_number: *local_number,
                peer_number: *peer_number,
                local: *local,
                peer: *peer,
                peer_type_specific: peer_type_specific@,
            },
            Event::Refused { handle, reason_code, description, language_tag } => Event::Refused {
                handle: *handle,
                reason_code: *reason_code,
                description: description@,
                language_tag: language_tag@,
            },
            Event::LateReply { local_number, reply } => Event::LateReply { local_number: *local_number, reply: *reply },
            Event::TransportLost { handle, phase } => Event::TransportLost { handle: *handle, phase: *phase },
        }
    }
}

impl Event<Vec<u8>> {
    /// Whether both hold the same.
    pub fn same(&self, other: &Self) -> (r: bool)
        ensures
            r == (self@ == other@),
    {
        match (self, other) {
            (
                Event::IncomingOpen { handle: h, channel_type: c, peer_number: n, peer: p, type_specific: t },
                Event::IncomingOpen { handle: h2, channel_type: c2, peer_number: n2, peer: p2, type_specific: t2 },
            ) => *h == *h2 && same_bytes(c.as_slice(), c2.as_slice()) && *n == *n2 && *p == *p2 && same_bytes(
                t.as_slice(),
                t2.as_slice(),
            ),
            (
                Event::IncomingRefusedByLimit { peer_number: n, channel_type: c },
                Event::IncomingRefusedByLimit { peer_number: n2, channel_type: c2 },
            ) => *n == *n2 && same_bytes(c.as_slice(), c2.as_slice()),
            (
                Event::Established {
                    handle: h,
                    channel_type: c,
                    local_number: l,
                    peer_number: n,
                    local: a,
                    peer: p,
                    peer_type_specific: t,
                },
                Event::Established {
                    handle: h2,
                    channel_type: c2,
                    local_number: l2,
                    peer_number: n2,
                    local: a2,
                    peer: p2,
                    peer_type_specific: t2,
                },
            ) => *h == *h2 && same_bytes(c.as_slice(), c2.as_slice()) && *l == *l2 && *n == *n2 && *a == *a2 && *p == *p2
                && same_bytes(t.as_slice(), t2.as_slice()),
            (
                Event::Refused { handle: h, reason_code: r, description: d, language_tag: t },
                Event::Refused { handle: h2, reason_code: r2, description: d2, language_tag: t2 },
            ) => *h == *h2 && *r == *r2 && same_bytes(d.as_slice(), d2.as_slice()) && same_bytes(
                t.as_slice(),
                t2.as_slice(),
            ),
            (
                Event::LateReply { local_number: l, reply: r },
                Event::LateReply { local_number: l2, reply: r2 },
            ) => *l == *l2 && *r == *r2,
            (
                Event::TransportLost { handle: h, phase: p },
                Event::TransportLost { handle: h2, phase: p2 },
            ) => *h == *h2 && *p == *p2,
            _ => false,
        }
    }
}

/// A message that an engine hands out.
#[derive(Debug, PartialEq, Eq)]
pub enum Outgoing<B = Vec<u8>> {
    Open { channel_type: B, sender_channel: LocalNumber, local: Credit, type_specific: B },
    OpenConfirmation {
        recipient_channel: PeerNumber,
        sender_channel: LocalNumber,
        local: Credit,
        type_specific: B,
    },
    OpenFailure { recipient_channel: PeerNumber, reason_code: u32, description: B, language_tag: B },
}

impl View for Outgoing<Vec<u8>> {
    type V = Outgoing<Seq<u8>>;

    open spec fn view(&self) -> Outgoing<Seq<u8>> {
        match self {
            Outgoing::Open { channel_type, sender_channel, local, type_specific } => Outgoing::Open {
                channel_type: channel_type@,
                sender_channel: *sender_channel,
                local: *local,
                type_specific: type_specific@,
            },
            Outgoing::OpenConfirmation { recipient_channel, sender_channel, local, type_specific } => Outgoing::OpenConfirmation {
                recipient_channel: *recipient_channel,
                sender_channel: *sender_channel,
                local: *local,
                type_specific: type_specific@,
            },
            Outgoing::OpenFailure { recipient_channel, reason_code, description, language_tag } => Outgoing::OpenFailure {
                recipient_channel: *recipient_channel,
                reason_code: *reason_code,
                description: description@,
                language_tag: language_tag@,
            },
        }
    }
}

impl Outgoing<Vec<u8>> {
    /// Whether both hold the same.
    pub fn same(&self, other: &Self) -> (r: bool)
        ensures
            r == (self@ == other@),
    {
        match (self, other) {
            (
                Outgoing::Open { channel_type: c, sender_channel: s, local: l, type_specific: t },
                Outgoing::Open { channel_type: c2, sender_channel: s2, local: l2, type_specific: t2 },
            ) => same_bytes(c.as_slice(), c2.as_slice()) && *s == *s2 && *l == *l2 && same_bytes(
                t.as_slice(),
                t2.as_slice(),
            ),
            (
                Outgoing::OpenConfirmation { recipient_channel: r, sender_channel: s, local: l, type_specific: t },
                Outgoing::OpenConfirmation { recipient_channel: r2, sender_channel: s2, local: l2, type_specific: t2 },
            ) => *r == *r2 && *s == *s2 && *l == *l2 && same_bytes(t.as_slice(), t2.as_slice()),
            (
                Outgoing::OpenFailure { recipient_channel: r, reason_code: c, description: d, language_tag: t },
                Outgoing::OpenFailure { recipient_channel: r2, reason_code: c2, description: d2, language_tag: t2 },
            ) => *r == *r2 && *c == *c2 && same_bytes(d.as_slice(), d2.as_slice()) && same_bytes(
                t.as_slice(),
                t2.as_slice(),
            ),
            _ => false,
        }
    }
}

/// The local number that a message puts on the wire.
pub open spec fn wire_number<B>(o: Outgoing<B>) -> Option<u32> {
    match o {
        Outgoing::Open { sender_channel, .. } => Some(sender_channel.0),
        Outgoing::OpenConfirmation { sender_channel, .. } => Some(sender_channel.0),
        Outgoing::OpenFailure { .. } => None,
    }
}

} // verus!
