//! The vocabulary of the TCP exchange: identifications, packets, messages
//! before key exchange, and their faults. Types that hold bytes or text take
//! the representation as a parameter, so that contracts speak of the same
//! value over sequences.

use vstd::prelude::*;
use crate::seqs::{copy_bytes, opt_vec, same_bytes, same_opt, same_texts, texts};
use crate::wire_core::error::{Field, MessageError};

verus! {

/// How a line ended.
#[derive(Clone, Copy, Debug, PartialEq, Eq, Structural)]
pub enum LineTerminator {
    CrLf,
    Lf,
}

impl LineTerminator {
    /// The bytes of the terminator.
    pub open spec fn bytes(self) -> Seq<u8> {
        match self {
            LineTerminator::CrLf => seq![13u8, 10u8],
            LineTerminator::Lf => seq![10u8],
        }
    }

    /// The length of the terminator.
    pub fn byte_len(self) -> (r: usize)
        ensures
            r == self.bytes().len(),
            1 <= r <= 2,
    {
        match self {
            LineTerminator::CrLf => 2,
            LineTerminator::Lf => 1,
        }
    }
}

/// How far an accepted protocol version reaches.
#[derive(Clone, Copy, Debug, PartialEq, Eq, Structural)]
pub enum VersionSupport {
    /// `2.0`.
    Ssh2,
    /// `1.99`: SSH 2 with compatibility announced.
    Ssh2Compatibility,
}

/// Why an identification line does not follow the grammar.
#[derive(Clone, Copy, Debug, PartialEq, Eq, Structural)]
pub enum InvalidIdentification {
    MissingSeparator,
    BadProtocolVersion,
    BadSoftwareVersion,
    ControlCharacter,
}

/// Why the identification exchange failed.
#[derive(Clone, Copy, Debug, PartialEq, Eq, Structural)]
pub enum IdentError {
    PreludeLineTooLong,
    TooManyPreludeLines,
    PreludeBytesExceeded,
    IdentificationTooLong,
    InvalidIdentification(InvalidIdentification),
    UnsupportedVersion,
}

/// Bounds on the identification exchange.
#[derive(Clone, Copy, Debug, PartialEq, Eq, Structural)]
pub struct IdentLimits {
    pub max_prelude_lines: usize,
    pub max_prelude_bytes: usize,
    pub max_prelude_line: usize,
    pub max_identification_line: usize,
}

/// An identification that outlives the buffer it was read from.
#[derive(Clone, Debug, PartialEq, Eq)]
pub struct OwnedIdentification<B = Vec<u8>, T = String> {
    pub line: B,
    pub terminator: LineTerminator,
    pub protocol_version: T,
    pub software_version: T,
    pub comments: Option<B>,
    pub support: VersionSupport,
}

impl View for OwnedIdentification<Vec<u8>, String> {
    type V = OwnedIdentification<Seq<u8>, Seq<char>>;

    open spec fn view(&self) -> OwnedIdentification<Seq<u8>, Seq<char>> {
        OwnedIdentification {
            line: self.line@,
            terminator: self.terminator,
            protocol_version: self.protocol_version@,
            software_version: self.software_version@,
            comments: opt_vec(self.comments),
            support: self.support,
        }
    }
}

/// Why a packet header is not acceptable.
#[derive(Clone, Copy, Debug, PartialEq, Eq, Structural)]
pub enum PacketError {
    TooLarge { packet_length: u32, limit: u32 },
    TooSmall { packet_length: u32 },
    Misaligned { packet_length: u32 },
    BadPadding { packet_length: u32, padding_length: u8 },
}

/// A feed that did not fit the buffer.
#[derive(Clone, Copy, Debug, PartialEq, Eq, Structural)]
pub struct InputOverflow {
    pub capacity: usize,
    pub pending: usize,
    pub offered: usize,
}

/// Why the exchange before key exchange failed.
#[derive(Clone, Copy, Debug, PartialEq, Eq, Structural)]
pub enum InitialError {
    Ident(IdentError),
    Packet(PacketError),
    EmptyPayload,
    Message { number: u8, error: MessageError },
    UnexpectedMessage { number: u8 },
    UnsupportedTransition { number: u8 },
    PacketBudgetExceeded { limit: usize },
    ByteBudgetExceeded { limit: usize },
    InputOverflow(InputOverflow),
}

/// Bounds on the packets before KEXINIT.
#[derive(Clone, Copy, Debug, PartialEq, Eq, Structural)]
pub struct InitialLimits {
    pub max_packet_length: u32,
    pub max_packets: usize,
    pub max_bytes: usize,
}

/// A message that carries no protocol meaning before key exchange.
#[derive(Clone, Debug, PartialEq, Eq)]
pub enum SkippedMessage<B = Vec<u8>> {
    Ignored { data_len: usize },
    Debug { always_display: bool, message: B, language_tag: B },
    Unimplemented { sequence_number: u32 },
}

impl View for SkippedMessage<Vec<u8>> {
    type V = SkippedMessage<Seq<u8>>;

    open spec fn view(&self) -> SkippedMessage<Seq<u8>> {
        match self {
            SkippedMessage::Ignored { data_len } => SkippedMessage::Ignored { data_len: *data_len },
            SkippedMessage::Debug { always_display, message, language_tag } => SkippedMessage::Debug {
                always_display: *always_display,
                message: message@,
                language_tag: language_tag@,
            },
            SkippedMessage::Unimplemented { sequence_number } => SkippedMessage::Unimplemented {
                sequence_number: *sequence_number,
            },
        }
    }
}

/// A decoded KEXINIT with its names as text, one list per slot.
#[derive(Clone, Debug, PartialEq, Eq)]
pub struct OwnedKexInit<C = [u8; 16], L = Vec<String>> {
    pub cookie: C,
    pub kex_algorithms: L,
    pub server_host_key_algorithms: L,
    pub encryption_client_to_server: L,
    pub encryption_server_to_client: L,
    pub mac_client_to_server: L,
    pub mac_server_to_client: L,
    pub compression_client_to_server: L,
    pub compression_server_to_client: L,
    pub languages_client_to_server: L,
    pub languages_server_to_client: L,
    pub first_kex_packet_follows: bool,
    pub reserved: u32,
}

impl View for OwnedKexInit<[u8; 16], Vec<String>> {
    type V = OwnedKexInit<Seq<u8>, Seq<Seq<char>>>;

    open spec fn view(&self) -> OwnedKexInit<Seq<u8>, Seq<Seq<char>>> {
        OwnedKexInit {
            cookie: self.cookie@,
            kex_algorithms: texts(self.kex_algorithms@),
            server_host_key_algorithms: texts(self.server_host_key_algorithms@),
            encryption_client_to_server: texts(self.encryption_client_to_server@),
            encryption_server_to_client: texts(self.encryption_server_to_client@),
            mac_client_to_server: texts(self.mac_client_to_server@),
            mac_server_to_client: texts(self.mac_server_to_client@),
            compression_client_to_server: texts(self.compression_client_to_server@),
            compression_server_to_client: texts(self.compression_server_to_client@),
            languages_client_to_server: texts(self.languages_client_to_server@),
            languages_server_to_client: texts(self.languages_server_to_client@),
            first_kex_packet_follows: self.first_kex_packet_follows,
            reserved: self.reserved,
        }
    }
}

/// A proposal that decodes and is still irregular.
#[derive(Clone, Copy, Debug, PartialEq, Eq, Structural)]
pub enum ProposalAnomaly {
    NonzeroReserved(u32),
    EmptyAlgorithmList(Field),
}

/// What an entry of `kex_algorithms` stands for.
#[derive(Clone, Copy, Debug, PartialEq, Eq, Structural)]
pub enum KexName {
    Method,
    ExtInfoClient,
    ExtInfoServer,
    StrictKexClient,
    StrictKexServer,
}


impl OwnedIdentification<Vec<u8>, String> {
    /// Whether both hold the same.
    pub fn same(&self, other: &Self) -> (r: bool)
        ensures
            r == (self@ == other@),
    {
        same_bytes(self.line.as_slice(), other.line.as_slice()) && self.terminator == other.terminator
            && self.protocol_version == other.protocol_version && self.software_version
            == other.software_version && same_opt(&self.comments, &other.comments) && self.support
            == other.support
    }

    /// An equal identification.
    pub fn copied(&self) -> (r: Self)
        ensures
            r@ == self@,
    {
        OwnedIdentification {
            line: copy_bytes(self.line.as_slice()),
            terminator: self.terminator,
            protocol_version: self.protocol_version.clone(),
            software_version: self.software_version.clone(),
            comments: match &self.comments {
                Some(c) => Some(copy_bytes(c.as_slice())),
                None => None,
            },
            support: self.support,
        }
    }
}

impl SkippedMessage<Vec<u8>> {
    /// Whether both hold the same.
    pub fn same(&self, other: &Self) -> (r: bool)
        ensures
            r == (self@ == other@),
    {
        match (self, other) {
            (SkippedMessage::Ignored { data_len: a }, SkippedMessage::Ignored { data_len: b }) => *a == *b,
            (
                SkippedMessage::Debug { always_display: a, message: m, language_tag: l },
                SkippedMessage::Debug { always_display: b, message: n, language_tag: k },
            ) => *a == *b && same_bytes(m.as_slice(), n.as_slice()) && same_bytes(l.as_slice(), k.as_slice()),
            (
                SkippedMessage::Unimplemented { sequence_number: a },
                SkippedMessage::Unimplemented { sequence_number: b },
            ) => *a == *b,
            _ => false,
        }
    }
}

impl OwnedKexInit<[u8; 16], Vec<String>> {
    /// Whether both hold the same.
    pub fn same(&self, other: &Self) -> (r: bool)
        ensures
            r == (self@ == other@),
    {
        same_bytes(self.cookie.as_slice(), other.cookie.as_slice()) && same_texts(
            &self.kex_algorithms,
            &other.kex_algorithms,
        ) && same_texts(&self.server_host_key_algorithms, &other.server_host_key_algorithms) && same_texts(
            &self.encryption_client_to_server,
            &other.encryption_client_to_server,
        ) && same_texts(&self.encryption_server_to_client, &other.encryption_server_to_client) && same_texts(
            &self.mac_client_to_server,
            &other.mac_client_to_server,
        ) && same_texts(&self.mac_server_to_client, &other.mac_server_to_client) && same_texts(
            &self.compression_client_to_server,
            &other.compression_client_to_server,
        ) && same_texts(&self.compression_server_to_client, &other.compression_server_to_client)
            && same_texts(&self.languages_client_to_server, &other.languages_client_to_server) && same_texts(
            &self.languages_server_to_client,
            &other.languages_server_to_client,
        ) && self.first_kex_packet_follows == other.first_kex_packet_follows && self.reserved
            == other.reserved
    }
}

/// Whether two lists of anomalies are the same.
pub fn same_anomalies(a: &Vec<ProposalAnomaly>, b: &Vec<ProposalAnomaly>) -> (r: bool)
    ensures
        r == (a@ == b@),
{
    if a.len() != b.len() {
        return false;
    }
    let mut i: usize = 0;
    while i < a.len()
        invariant
            i <= a@.len(),
            a@.len() == b@.len(),
            forall|j: int| 0 <= j < i ==> a@[j] == b@[j],
        decreases a@.len() - i,
    {
        if a[i] != b[i] {
            return false;
        }
        i = i + 1;
    }
    proof {
        assert(a@ =~= b@);
    }
    true
}

/// Where an observation stood when it ended.
#[derive(Clone, Copy, Debug, PartialEq, Eq, Structural)]
pub enum ObserverStage {
    ClientIdentification,
    InitialPackets,
    Finished,
}

/// A client's first proposal as it was observed.
#[derive(Debug, PartialEq, Eq)]
pub struct Proposal<K = OwnedKexInit, B = Vec<u8>, A = Vec<ProposalAnomaly>> {
    pub kexinit: K,
    pub raw_payload: B,
    pub anomalies: A,
    pub unexamined_bytes: usize,
}

impl View for Proposal<OwnedKexInit, Vec<u8>, Vec<ProposalAnomaly>> {
    type V = Proposal<OwnedKexInit<Seq<u8>, Seq<Seq<char>>>, Seq<u8>, Seq<ProposalAnomaly>>;

    open spec fn view(&self) -> Proposal<OwnedKexInit<Seq<u8>, Seq<Seq<char>>>, Seq<u8>, Seq<ProposalAnomaly>> {
        Proposal {
            kexinit: self.kexinit@,
            raw_payload: self.raw_payload@,
            anomalies: self.anomalies@,
            unexamined_bytes: self.unexamined_bytes,
        }
    }
}

impl Proposal<OwnedKexInit, Vec<u8>, Vec<ProposalAnomaly>> {
    /// Whether both hold the same.
    pub fn same(&self, other: &Self) -> (r: bool)
        ensures
            r == (self@ == other@),
    {
        self.kexinit.same(&other.kexinit) && same_bytes(self.raw_payload.as_slice(), other.raw_payload.as_slice())
            && same_anomalies(&self.anomalies, &other.anomalies) && self.unexamined_bytes == other.unexamined_bytes
    }
}

/// A proposal over sequences.
pub type ProposalView = Proposal<OwnedKexInit<Seq<u8>, Seq<Seq<char>>>, Seq<u8>, Seq<ProposalAnomaly>>;

/// What an observer made of a connection.
#[derive(Debug, PartialEq, Eq)]
pub enum ObservationOutcome<B = Vec<u8>, P = Proposal> {
    BannerOnly,
    Proposal(Box<P>),
    Disconnected { reason_code: u32, description: B, language_tag: B },
    UnexpectedInput { sample: B, truncated: bool },
    Eof { stage: ObserverStage, pending_bytes: usize },
    Error(InitialError),
}

impl View for ObservationOutcome<Vec<u8>, Proposal> {
    type V = ObservationOutcome<Seq<u8>, ProposalView>;

    open spec fn view(&self) -> ObservationOutcome<Seq<u8>, ProposalView> {
        match self {
            ObservationOutcome::BannerOnly => ObservationOutcome::BannerOnly,
            ObservationOutcome::Proposal(p) => ObservationOutcome::Proposal(Box::new((**p)@)),
            ObservationOutcome::Disconnected { reason_code, description, language_tag } => ObservationOutcome::Disconnected {
                reason_code: *reason_code,
                description: description@,
                language_tag: language_tag@,
            },
            ObservationOutcome::UnexpectedInput { sample, truncated } => ObservationOutcome::UnexpectedInput {
                sample: sample@,
                truncated: *truncated,
            },
            ObservationOutcome::Eof { stage, pending_bytes } => ObservationOutcome::Eof {
                stage: *stage,
                pending_bytes: *pending_bytes,
            },
            ObservationOutcome::Error(e) => ObservationOutcome::Error(*e),
        }
    }
}

impl ObservationOutcome<Vec<u8>, Proposal> {
    /// Whether both hold the same.
    pub fn same(&self, other: &Self) -> (r: bool)
        ensures
            r == (self@ == other@),
    {
        match (self, other) {
            (ObservationOutcome::BannerOnly, ObservationOutcome::BannerOnly) => true,
            (ObservationOutcome::Proposal(a), ObservationOutcome::Proposal(b)) => a.same(b),
            (
                ObservationOutcome::Disconnected { reason_code: a, description: d, language_tag: l },
                ObservationOutcome::Disconnected { reason_code: b, description: e, language_tag: m },
            ) => *a == *b && same_bytes(d.as_slice(), e.as_slice()) && same_bytes(l.as_slice(), m.as_slice()),
            (
                ObservationOutcome::UnexpectedInput { sample: a, truncated: t },
                ObservationOutcome::UnexpectedInput { sample: b, truncated: u },
            ) => same_bytes(a.as_slice(), b.as_slice()) && *t == *u,
            (
                ObservationOutcome::Eof { stage: a, pending_bytes: p },
                ObservationOutcome::Eof { stage: b, pending_bytes: q },
            ) => *a == *b && *p == *q,
            (ObservationOutcome::Error(a), ObservationOutcome::Error(b)) => *a == *b,
            _ => false,
        }
    }
}

} // verus!
