//! The vocabulary of the handshake: phases, trust, outcomes.

use vstd::prelude::*;
use crate::kex_support::negotiate_ref::NegotiationError;
use crate::seqs::same_bytes;
use crate::tcp_support::types::{IdentError, InputOverflow, PacketError};
use crate::wire_core::error::{DecodeError, MessageError};
use crate::wire_core::kex_ref::ExtInfoError;

verus! {

/// Where the handshake stands.
#[derive(Clone, Copy, Debug, PartialEq, Eq, Structural)]
pub enum Phase {
    ServerIdentification,
    ServerKexInit,
    EcdhReply,
    TrustDecision,
    ServerNewKeys,
    Service,
    Finished,
}

/// Why a host key is not trusted.
#[derive(Clone, Copy, Debug, PartialEq, Eq, Structural)]
pub enum UntrustedReason {
    FingerprintMismatch,
    NoPolicy,
}

/// What the trust rests on.
#[derive(Clone, Copy, Debug, PartialEq, Eq, Structural)]
pub enum TrustSource {
    PinnedFingerprint,
}

/// The caller's decision on a host key.
#[derive(Clone, Copy, Debug, PartialEq, Eq, Structural)]
pub enum TrustDecision {
    Trusted { source: TrustSource },
    Untrusted { reason: UntrustedReason },
}

impl TrustDecision {
    /// Whether the key is trusted.
    pub fn is_trusted(self) -> (r: bool)
        ensures
            r == (self is Trusted),
    {
        match self {
            TrustDecision::Trusted { source } => true,
            TrustDecision::Untrusted { reason } => false,
        }
    }
}

/// A part of a key or signature blob.
#[derive(Clone, Copy, Debug, PartialEq, Eq, Structural)]
pub enum BlobField {
    Algorithm,
    Key,
    Signature,
}

impl BlobField {
    /// The name of the part in diagnostics.
    pub open spec fn text(self) -> &'static str {
        match self {
            BlobField::Algorithm => "algorithm",
            BlobField::Key => "key",
            BlobField::Signature => "signature",
        }
    }

    /// The name of the part in diagnostics.
    pub fn name(self) -> (r: &'static str)
        ensures
            r == self.text(),
    {
        match self {
            BlobField::Algorithm => "algorithm",
            BlobField::Key => "key",
            BlobField::Signature => "signature",
        }
    }
}

/// Why a blob could not be read.
#[derive(Clone, Copy, Debug, PartialEq, Eq, Structural)]
pub enum BlobError {
    Field { field: BlobField, offset: usize, error: DecodeError },
    TrailingBytes { count: usize },
}

/// Why a key or a signature is not usable.
#[derive(Clone, Debug, PartialEq, Eq)]
pub enum KeyError<B = Vec<u8>> {
    Blob(BlobError),
    UnsupportedAlgorithm(B),
    WrongLength { field: BlobField, expected: usize, found: usize },
    InvalidKey,
}

impl View for KeyError<Vec<u8>> {
    type V = KeyError<Seq<u8>>;

    open spec fn view(&self) -> KeyError<Seq<u8>> {
        match self {
            KeyError::Blob(e) => KeyError::Blob(*e),
            KeyError::UnsupportedAlgorithm(b) => KeyError::UnsupportedAlgorithm(b@),
            KeyError::WrongLength { field, expected, found } => KeyError::WrongLength {
                field: *field,
                expected: *expected,
                found: *found,
            },
            KeyError::InvalidKey => KeyError::InvalidKey,
        }
    }
}

impl KeyError<Vec<u8>> {
    /// Whether both hold the same.
    pub fn same(&self, other: &Self) -> (r: bool)
        ensures
            r == (self@ == other@),
    {
        match (self, other) {
            (KeyError::Blob(a), KeyError::Blob(b)) => *a == *b,
            (KeyError::UnsupportedAlgorithm(a), KeyError::UnsupportedAlgorithm(b)) => same_bytes(
                a.as_slice(),
                b.as_slice(),
            ),
            (
                KeyError::WrongLength { field: f, expected: e, found: n },
                KeyError::WrongLength { field: g, expected: d, found: m },
            ) => *f == *g && *e == *d && *n == *m,
            (KeyError::InvalidKey, KeyError::InvalidKey) => true,
            _ => false,
        }
    }
}

/// Why the key exchange failed.
#[derive(Clone, Copy, Debug, PartialEq, Eq, Structural)]
pub enum KexError {
    ServerEphemeralLength { found: usize },
    AllZeroSharedSecret,
}

/// Why a protected packet is refused from its length alone.
#[derive(Clone, Copy, Debug, PartialEq, Eq, Structural)]
pub enum OpenError {
    TooLarge { packet_length: u32, limit: u32 },
    TooSmall { packet_length: u32 },
    Misaligned { packet_length: u32 },
    TagMismatch,
    BadPadding { packet_length: u32, padding_length: u8 },
    CounterExhausted,
}

/// What the server did against the protocol.
#[derive(Clone, Debug, PartialEq, Eq)]
pub enum ProtocolViolation<B = Vec<u8>> {
    Ident(IdentError),
    Packet(PacketError),
    Protected(OpenError),
    EmptyPayload,
    Message { number: u8, error: MessageError },
    HostKey(KeyError<B>),
    Kex(KexError),
    ExtInfo(ExtInfoError),
    ServiceMismatch { requested: B, accepted: B },
}

impl View for ProtocolViolation<Vec<u8>> {
    type V = ProtocolViolation<Seq<u8>>;

    open spec fn view(&self) -> ProtocolViolation<Seq<u8>> {
        match self {
            ProtocolViolation::Ident(e) => ProtocolViolation::Ident(*e),
            ProtocolViolation::Packet(e) => ProtocolViolation::Packet(*e),
            ProtocolViolation::Protected(e) => ProtocolViolation::Protected(*e),
            ProtocolViolation::EmptyPayload => ProtocolViolation::EmptyPayload,
            ProtocolViolation::Message { number, error } => ProtocolViolation::Message {
                number: *number,
                error: *error,
            },
            ProtocolViolation::HostKey(e) => ProtocolViolation::HostKey(e@),
            ProtocolViolation::Kex(e) => ProtocolViolation::Kex(*e),
            ProtocolViolation::ExtInfo(e) => ProtocolViolation::ExtInfo(*e),
            ProtocolViolation::ServiceMismatch { requested, accepted } => ProtocolViolation::ServiceMismatch {
                requested: requested@,
                accepted: accepted@,
            },
        }
    }
}

impl ProtocolViolation<Vec<u8>> {
    /// Whether both hold the same.
    pub fn same(&self, other: &Self) -> (r: bool)
        ensures
            r == (self@ == other@),
    {
        match (self, other) {
            (ProtocolViolation::Ident(a), ProtocolViolation::Ident(b)) => *a == *b,
            (ProtocolViolation::Packet(a), ProtocolViolation::Packet(b)) => *a == *b,
            (ProtocolViolation::Protected(a), ProtocolViolation::Protected(b)) => *a == *b,
            (ProtocolViolation::EmptyPayload, ProtocolViolation::EmptyPayload) => true,
            (
                ProtocolViolation::Message { number: n, error: a },
                ProtocolViolation::Message { number: m, error: b },
            ) => *n == *m && *a == *b,
            (ProtocolViolation::HostKey(a), ProtocolViolation::HostKey(b)) => a.same(b),
            (ProtocolViolation::Kex(a), ProtocolViolation::Kex(b)) => *a == *b,
            (ProtocolViolation::ExtInfo(a), ProtocolViolation::ExtInfo(b)) => *a == *b,
            (
                ProtocolViolation::ServiceMismatch { requested: a, accepted: c },
                ProtocolViolation::ServiceMismatch { requested: b, accepted: d },
            ) => same_bytes(a.as_slice(), b.as_slice()) && same_bytes(c.as_slice(), d.as_slice()),
            _ => false,
        }
    }
}

/// A bound that was reached.
#[derive(Clone, Copy, Debug, PartialEq, Eq, Structural)]
pub enum LimitKind {
    PreKexPackets { limit: usize },
    ProtectedPackets { limit: usize },
}

/// How the handshake ended.
#[derive(Clone, Debug, PartialEq, Eq)]
pub enum HandshakeOutcome<B = Vec<u8>, T = String> {
    Completed,
    ProtocolError(ProtocolViolation<B>),
    NegotiationFailed(NegotiationError<T>),
    StrictKexViolation { detail: T },
    UnexpectedMessage { number: u8, phase: Phase },
    SignatureInvalid,
    HostNotTrusted { reason: UntrustedReason },
    TagMismatch,
    ServerDisconnected { reason_code: u32, description: B },
    RekeyNotSupported,
    Limit(LimitKind),
    Eof { phase: Phase },
    InputOverflow(InputOverflow),
}

/// An outcome over sequences.
pub type OutcomeView = HandshakeOutcome<Seq<u8>, Seq<char>>;

impl View for HandshakeOutcome<Vec<u8>, String> {
    type V = OutcomeView;

    open spec fn view(&self) -> OutcomeView {
        match self {
            HandshakeOutcome::Completed => HandshakeOutcome::Completed,
            HandshakeOutcome::ProtocolError(v) => HandshakeOutcome::ProtocolError(v@),
            HandshakeOutcome::NegotiationFailed(e) => HandshakeOutcome::NegotiationFailed(e@),
            HandshakeOutcome::StrictKexViolation { detail } => HandshakeOutcome::StrictKexViolation {
                detail: detail@,
            },
            HandshakeOutcome::UnexpectedMessage { number, phase } => HandshakeOutcome::UnexpectedMessage {
                number: *number,
                phase: *phase,
            },
            HandshakeOutcome::SignatureInvalid => HandshakeOutcome::SignatureInvalid,
            HandshakeOutcome::HostNotTrusted { reason } => HandshakeOutcome::HostNotTrusted { reason: *reason },
            HandshakeOutcome::TagMismatch => HandshakeOutcome::TagMismatch,
            HandshakeOutcome::ServerDisconnected { reason_code, description } =>
                HandshakeOutcome::ServerDisconnected { reason_code: *reason_code, description: description@ },
            HandshakeOutcome::RekeyNotSupported => HandshakeOutcome::RekeyNotSupported,
            HandshakeOutcome::Limit(l) => HandshakeOutcome::Limit(*l),
            HandshakeOutcome::Eof { phase } => HandshakeOutcome::Eof { phase: *phase },
            HandshakeOutcome::InputOverflow(o) => HandshakeOutcome::InputOverflow(*o),
        }
    }
}

impl NegotiationError<String> {
    /// Whether both hold the same.
    pub fn same(&self, other: &Self) -> (r: bool)
        ensures
            r == (self@ == other@),
    {
        match (self, other) {
            (NegotiationError::NoCommonKex, NegotiationError::NoCommonKex) => true,
            (NegotiationError::NoCommonHostKey, NegotiationError::NoCommonHostKey) => true,
            (NegotiationError::NoCommonCipher(a), NegotiationError::NoCommonCipher(b)) => *a == *b,
            (NegotiationError::NoMacImplemented(a), NegotiationError::NoMacImplemented(b)) => *a == *b,
            (NegotiationError::NoCommonCompression(a), NegotiationError::NoCommonCompression(b)) => *a == *b,
            (
                NegotiationError::UnsupportedSelection { field: f, name: n },
                NegotiationError::UnsupportedSelection { field: g, name: m },
            ) => *f == *g && *n == *m,
            _ => false,
        }
    }
}

impl HandshakeOutcome<Vec<u8>, String> {
    /// Whether both hold the same.
    pub fn same(&self, other: &Self) -> (r: bool)
        ensures
            r == (self@ == other@),
    {
        match (self, other) {
            (HandshakeOutcome::Completed, HandshakeOutcome::Completed) => true,
            (HandshakeOutcome::ProtocolError(a), HandshakeOutcome::ProtocolError(b)) => a.same(b),
            (HandshakeOutcome::NegotiationFailed(a), HandshakeOutcome::NegotiationFailed(b)) => a.same(b),
            (
                HandshakeOutcome::StrictKexViolation { detail: a },
                HandshakeOutcome::StrictKexViolation { detail: b },
            ) => *a == *b,
            (
                HandshakeOutcome::UnexpectedMessage { number: n, phase: p },
                HandshakeOutcome::UnexpectedMessage { number: m, phase: q },
            ) => *n == *m && *p == *q,
            (HandshakeOutcome::SignatureInvalid, HandshakeOutcome::SignatureInvalid) => true,
            (
                HandshakeOutcome::HostNotTrusted { reason: a },
                HandshakeOutcome::HostNotTrusted { reason: b },
            ) => *a == *b,
            (HandshakeOutcome::TagMismatch, HandshakeOutcome::TagMismatch) => true,
            (
                HandshakeOutcome::ServerDisconnected { reason_code: a, description: c },
                HandshakeOutcome::ServerDisconnected { reason_code: b, description: d },
            ) => *a == *b && same_bytes(c.as_slice(), d.as_slice()),
            (HandshakeOutcome::RekeyNotSupported, HandshakeOutcome::RekeyNotSupported) => true,
            (HandshakeOutcome::Limit(a), HandshakeOutcome::Limit(b)) => *a == *b,
            (HandshakeOutcome::Eof { phase: a }, HandshakeOutcome::Eof { phase: b }) => *a == *b,
            (HandshakeOutcome::InputOverflow(a), HandshakeOutcome::InputOverflow(b)) => *a == *b,
            _ => false,
        }
    }

    /// Whether the handshake succeeded.
    pub fn is_complete(&self) -> (r: bool)
        ensures
            r == (self@ is Completed),
    {
        match self {
            HandshakeOutcome::Completed => true,
            _ => false,
        }
    }
}

} // verus!
