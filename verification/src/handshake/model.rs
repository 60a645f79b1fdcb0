//! The model of the handshake: what every message of the server leads to,
//! and everything the client must report at the end.

use vstd::prelude::*;
use crate::handshake::scenario::{
    msg_views, pair_texts, prot_views, Mal, Msg, MsgView, PairsView, Prot, ProtView, Reply, Scenario,
    ScenarioView,
};
use crate::handshake::types::{
    BlobError, BlobField, HandshakeOutcome, KexError, KeyError, LimitKind, OpenError, OutcomeView, Phase,
    ProtocolViolation, TrustDecision,
};
use crate::kex_support::lists::{client_proposal, Lists};
use crate::kex_support::negotiate_ref::{
    strict_of, strict_offered, Negotiated, NegotiationError, StrictKex,
};
use crate::seqs::{copy_bytes, push_all, same_bytes, texts};
use crate::tcp_support::types::{IdentError, PacketError, SkippedMessage};
use crate::text::{bytes_of, lossy_string, text_of};
use crate::wire_core::error::{DecodeError, Field, InvalidEncoding, MessageError};
use crate::wire_core::kex_ref::{pair_views, ExtInfoError};
use crate::wire_core::namelist_ref::{names_of, parse};

verus! {

/// The decimal digits of a byte.
pub open spec fn digits(n: u8) -> Seq<u8> {
    if n < 10 {
        seq![(48 + n) as u8]
    } else if n < 100 {
        seq![(48 + n / 10) as u8, (48 + n % 10) as u8]
    } else {
        seq![(48 + n / 100) as u8, (48 + n / 10 % 10) as u8, (48 + n % 10) as u8]
    }
}

fn push_digits(out: &mut Vec<u8>, n: u8)
    ensures
        final(out)@ == old(out)@ + digits(n),
{
    if n >= 100 {
        out.push(48 + n / 100);
    }
    if n >= 10 {
        out.push(48 + n / 10 % 10);
    }
    out.push(48 + n % 10);
    proof {
        assert(out@ =~= old(out)@ + digits(n));
    }
}

/// The name of a message number in diagnostics.
pub open spec fn number_name(n: u8) -> Seq<u8> {
    if n == 1 {
        bytes_of("SSH_MSG_DISCONNECT (1)")
    } else if n == 2 {
        bytes_of("SSH_MSG_IGNORE (2)")
    } else if n == 3 {
        bytes_of("SSH_MSG_UNIMPLEMENTED (3)")
    } else if n == 4 {
        bytes_of("SSH_MSG_DEBUG (4)")
    } else {
        bytes_of("message number ") + digits(n)
    }
}

/// The name of a message number in diagnostics, as bytes.
pub fn msg_name(n: u8) -> (r: Vec<u8>)
    ensures
        r@ == number_name(n),
{
    if n == 1 {
        copy_bytes("SSH_MSG_DISCONNECT (1)".as_bytes())
    } else if n == 2 {
        copy_bytes("SSH_MSG_IGNORE (2)".as_bytes())
    } else if n == 3 {
        copy_bytes("SSH_MSG_UNIMPLEMENTED (3)".as_bytes())
    } else if n == 4 {
        copy_bytes("SSH_MSG_DEBUG (4)".as_bytes())
    } else {
        let mut r = copy_bytes("message number ".as_bytes());
        push_digits(&mut r, n);
        r
    }
}

/// What distinguishes the detail of a strict kex violation.
#[derive(Clone, Copy, Debug, PartialEq, Eq, Structural)]
pub enum Keyword {
    NotFirstPacket,
    SecondKexInit,
    SecondReply,
    NewKeysBeforeReply,
    KexMessage(u8),
    Transport(u8),
    Disconnect,
}

impl Keyword {
    /// The words that the detail contains.
    pub open spec fn words(self) -> Seq<u8> {
        match self {
            Keyword::NotFirstPacket => bytes_of("not the first packet"),
            Keyword::SecondKexInit => bytes_of("second KEXINIT"),
            Keyword::SecondReply => bytes_of("second KEX_ECDH_REPLY"),
            Keyword::NewKeysBeforeReply => bytes_of("NEWKEYS before KEX_ECDH_REPLY"),
            Keyword::KexMessage(n) => bytes_of("key-exchange message ") + digits(n) + bytes_of(" during"),
            Keyword::Transport(n) => number_name(n) + bytes_of(" during the initial key exchange"),
            Keyword::Disconnect => bytes_of("SSH_MSG_DISCONNECT (reason code"),
        }
    }

    /// The words that the detail contains.
    pub fn text(self) -> (r: Vec<u8>)
        ensures
            r@ == self.words(),
    {
        match self {
            Keyword::NotFirstPacket => copy_bytes("not the first packet".as_bytes()),
            Keyword::SecondKexInit => copy_bytes("second KEXINIT".as_bytes()),
            Keyword::SecondReply => copy_bytes("second KEX_ECDH_REPLY".as_bytes()),
            Keyword::NewKeysBeforeReply => copy_bytes("NEWKEYS before KEX_ECDH_REPLY".as_bytes()),
            Keyword::KexMessage(n) => {
                let mut r = copy_bytes("key-exchange message ".as_bytes());
                push_digits(&mut r, n);
                push_all(&mut r, " during".as_bytes());
                r
            },
            Keyword::Transport(n) => {
                let mut r = msg_name(n);
                push_all(&mut r, " during the initial key exchange".as_bytes());
                r
            },
            Keyword::Disconnect => copy_bytes("SSH_MSG_DISCONNECT (reason code".as_bytes()),
        }
    }
}

/// Expected terminal outcome.
#[derive(Clone, Debug, PartialEq, Eq)]
pub enum Expect<O = HandshakeOutcome> {
    Exact(O),
    /// A strict kex violation whose detail contains the words.
    Strict(Keyword),
}

/// An expectation over sequences.
pub type ExpectView = Expect<OutcomeView>;

impl View for Expect<HandshakeOutcome> {
    type V = ExpectView;

    open spec fn view(&self) -> ExpectView {
        match self {
            Expect::Exact(o) => Expect::Exact(o@),
            Expect::Strict(k) => Expect::Strict(*k),
        }
    }
}

/// What the client reports of extension negotiation.
#[derive(Clone, Debug, PartialEq, Eq)]
pub struct ExtInfoModel<L = Vec<String>> {
    pub received: bool,
    pub server_sig_algs: Option<L>,
    pub extension_names: L,
}

/// The same over sequences.
pub type ExtInfoView = ExtInfoModel<Seq<Seq<char>>>;

impl View for ExtInfoModel<Vec<String>> {
    type V = ExtInfoView;

    open spec fn view(&self) -> ExtInfoView {
        ExtInfoModel {
            received: self.received,
            server_sig_algs: match self.server_sig_algs {
                Some(l) => Some(texts(l@)),
                None => None,
            },
            extension_names: texts(self.extension_names@),
        }
    }
}

/// The part of the model that holds no lists.
#[derive(Clone, Copy, Debug, PartialEq, Eq, Structural)]
pub struct Facts {
    pub tiny_budget: bool,
    /// Phase when the stream ran out without a terminal outcome.
    pub phase_at_end: Phase,
    pub kexinit_was_first: Option<bool>,
    pub strict: StrictKex,
    pub strict_active: bool,
    pub server_seen: bool,
    pub guess_discarded: bool,
    pub host_key_seen: bool,
    pub signature_valid: Option<bool>,
    pub trust: Option<TrustDecision>,
    pub newkeys_sent: bool,
    pub newkeys_received: bool,
    pub protected_sent: u32,
    pub protected_received: u32,
    pub unprotected_received: u32,
    /// The service `ssh-userauth` was accepted.
    pub service_accepted: bool,
}

/// Everything the report must say at the end.
#[derive(Clone, Debug)]
pub struct Model {
    pub facts: Facts,
    pub outcome: Option<Expect>,
    pub selected: Option<Negotiated>,
    pub skipped: Vec<SkippedMessage>,
    pub ext_info: Option<ExtInfoModel>,
    pub server_disconnect: Option<(u32, Vec<u8>)>,
    /// Message numbers the client must have sent, in order.
    pub client_messages: Vec<u8>,
}

/// The model over sequences.
pub ghost struct ModelView {
    pub facts: Facts,
    pub outcome: Option<ExpectView>,
    pub selected: Option<Negotiated<Seq<char>>>,
    pub skipped: Seq<SkippedMessage<Seq<u8>>>,
    pub ext_info: Option<ExtInfoView>,
    pub server_disconnect: Option<(u32, Seq<u8>)>,
    pub client_messages: Seq<u8>,
}

/// Skipped messages over sequences.
pub open spec fn skipped_views(v: Seq<SkippedMessage>) -> Seq<SkippedMessage<Seq<u8>>> {
    Seq::new(v.len(), |i: int| v[i]@)
}

/// An optional expectation over sequences.
#[verifier::opaque]
pub open spec fn expect_view(o: Option<Expect>) -> Option<ExpectView> {
    match o {
        Some(e) => Some(e@),
        None => None,
    }
}

/// An optional selection over sequences.
#[verifier::opaque]
pub open spec fn selected_view(o: Option<Negotiated>) -> Option<Negotiated<Seq<char>>> {
    match o {
        Some(n) => Some(n@),
        None => None,
    }
}

/// Optional extensions over sequences.
#[verifier::opaque]
pub open spec fn extensions_view(o: Option<ExtInfoModel>) -> Option<ExtInfoView> {
    match o {
        Some(x) => Some(x@),
        None => None,
    }
}

/// An optional disconnect over sequences.
#[verifier::opaque]
pub open spec fn disconnect_view(o: Option<(u32, Vec<u8>)>) -> Option<(u32, Seq<u8>)> {
    match o {
        Some(d) => Some((d.0, d.1@)),
        None => None,
    }
}

impl View for Model {
    type V = ModelView;

    open spec fn view(&self) -> ModelView {
        ModelView {
            facts: self.facts,
            outcome: expect_view(self.outcome),
            selected: selected_view(self.selected),
            skipped: skipped_views(self.skipped@),
            ext_info: extensions_view(self.ext_info),
            server_disconnect: disconnect_view(self.server_disconnect),
            client_messages: self.client_messages@,
        }
    }
}

/// The verdict on a malformed message.
pub open spec fn mal_outcome(mal: Mal) -> OutcomeView {
    HandshakeOutcome::ProtocolError(ProtocolViolation::Message { number: mal.bytes()[0], error: mal.fault() })
}

/// The frame-level verdict on an unframeable length: the cap is checked from
/// the length alone, before anything is counted.
pub open spec fn bad_frame() -> OutcomeView {
    HandshakeOutcome::ProtocolError(
        ProtocolViolation::Packet(PacketError::TooLarge { packet_length: 0xffff_ffff, limit: 0x1_0000 }),
    )
}

/// The verdict on a junk reply: the length of its host key is short.
pub open spec fn junk_reply() -> OutcomeView {
    HandshakeOutcome::ProtocolError(
        ProtocolViolation::Message {
            number: 31,
            error: MessageError::Field {
                field: Field::HostKey,
                offset: 1,
                error: DecodeError::Truncated { needed: 4, available: 2 },
            },
        },
    )
}

/// The number of a message that has one.
pub open spec fn number_of(m: MsgView) -> u8 {
    match m {
        Msg::Ignore(d) => 2,
        Msg::Debug { always_display, message, language_tag } => 4,
        Msg::Unimplemented(s) => 3,
        Msg::Disconnect { reason_code, description } => 1,
        Msg::Other(n) => n,
        Msg::KexInitAgain => 20,
        Msg::NewKeys => 21,
        Msg::ReplyAgain => 31,
        Msg::Malformed(mal) => mal.bytes()[0],
        Msg::Empty => 0,
        Msg::BadFrame => 0,
    }
}

/// The message number; an empty payload and an unframeable length have none,
/// for which 0 stands.
pub fn msg_number(m: &Msg) -> (r: u8)
    ensures
        r == number_of(m@),
{
    match m {
        Msg::Ignore(d) => 2,
        Msg::Debug { always_display, message, language_tag } => 4,
        Msg::Unimplemented(s) => 3,
        Msg::Disconnect { reason_code, description } => 1,
        Msg::Other(n) => *n,
        Msg::KexInitAgain => 20,
        Msg::NewKeys => 21,
        Msg::ReplyAgain => 31,
        Msg::Malformed(mal) => mal.number(),
        Msg::Empty => 0,
        Msg::BadFrame => 0,
    }
}

/// A message without protocol meaning.
pub open spec fn skippable(m: MsgView) -> bool {
    m is Ignore || m is Debug || m is Unimplemented
}

/// Whether a message has no protocol meaning.
pub fn is_skippable(m: &Msg) -> (r: bool)
    ensures
        r == skippable(m@),
{
    match m {
        Msg::Ignore(d) => true,
        Msg::Debug { always_display, message, language_tag } => true,
        Msg::Unimplemented(s) => true,
        _ => false,
    }
}

/// What is recorded of a skipped message.
pub open spec fn skip_record(m: MsgView) -> SkippedMessage<Seq<u8>> {
    match m {
        Msg::Debug { always_display, message, language_tag } => SkippedMessage::Debug {
            always_display,
            message,
            language_tag,
        },
        Msg::Unimplemented(s) => SkippedMessage::Unimplemented { sequence_number: s },
        Msg::Ignore(d) => SkippedMessage::Ignored { data_len: d.len() as usize },
        _ => SkippedMessage::Ignored { data_len: 0 },
    }
}

/// What is recorded of a skippable message.
pub fn skipped_of(m: &Msg) -> (r: SkippedMessage)
    requires
        skippable(m@),
    ensures
        r@ == skip_record(m@),
{
    match m {
        Msg::Debug { always_display, message, language_tag } => SkippedMessage::Debug {
            always_display: *always_display,
            message: copy_bytes(message.as_slice()),
            language_tag: copy_bytes(language_tag.as_slice()),
        },
        Msg::Unimplemented(s) => SkippedMessage::Unimplemented { sequence_number: *s },
        Msg::Ignore(d) => SkippedMessage::Ignored { data_len: d.len() },
        _ => SkippedMessage::Ignored { data_len: 0 },
    }
}

/// Ordered server items after KEXINIT.
#[derive(Clone, Copy, Debug)]
pub enum Item<'a> {
    Guess(u8),
    Msg(&'a Msg),
    Reply,
    NewKeys,
}

/// An item over sequences.
pub ghost enum ItemView {
    Guess(u8),
    Msg(MsgView),
    Reply,
    NewKeys,
}

impl<'a> View for Item<'a> {
    type V = ItemView;

    open spec fn view(&self) -> ItemView {
        match self {
            Item::Guess(g) => ItemView::Guess(*g),
            Item::Msg(m) => ItemView::Msg(m@),
            Item::Reply => ItemView::Reply,
            Item::NewKeys => ItemView::NewKeys,
        }
    }
}

/// Items over sequences.
pub open spec fn item_views(v: Seq<Item<'_>>) -> Seq<ItemView> {
    Seq::new(v.len(), |i: int| v[i]@)
}

/// Messages as items.
pub open spec fn msg_items(v: Seq<MsgView>) -> Seq<ItemView> {
    Seq::new(v.len(), |i: int| ItemView::Msg(v[i]))
}

/// Everything unprotected after KEXINIT, in wire order.
pub open spec fn items_of(sc: ScenarioView) -> Seq<ItemView> {
    (match sc.guess {
        Some(g) => seq![ItemView::Guess(g)],
        None => Seq::empty(),
    }) + msg_items(sc.before_reply) + seq![ItemView::Reply] + msg_items(sc.before_newkeys) + if sc.send_newkeys {
        seq![ItemView::NewKeys]
    } else {
        Seq::empty()
    }
}

/// The message number of an item.
pub open spec fn item_number(i: ItemView) -> u8 {
    match i {
        ItemView::Guess(g) => g,
        ItemView::Msg(m) => number_of(m),
        ItemView::Reply => 31,
        ItemView::NewKeys => 21,
    }
}

impl ModelView {
    /// Ends with an outcome, unless the run has ended already.
    #[verifier::opaque]
    pub open spec fn ended(self, o: OutcomeView) -> ModelView {
        if self.outcome is None {
            ModelView { outcome: Some(Expect::Exact(o)), ..self }
        } else {
            self
        }
    }

    /// Ends with a strict kex violation, unless the run has ended already.
    #[verifier::opaque]
    pub open spec fn violated(self, k: Keyword) -> ModelView {
        if self.outcome is None {
            ModelView { outcome: Some(Expect::Strict(k)), ..self }
        } else {
            self
        }
    }

    /// One framed unprotected packet counts against the budget; refused, it is
    /// neither counted nor handled.
    #[verifier::opaque]
    pub open spec fn counted(self) -> ModelView {
        if self.facts.tiny_budget && self.facts.unprotected_received >= 3 {
            self.ended(HandshakeOutcome::Limit(LimitKind::PreKexPackets { limit: 3 }))
        } else {
            ModelView {
                facts: Facts {
                    unprotected_received: (self.facts.unprotected_received + 1) as u32,
                    ..self.facts
                },
                ..self
            }
        }
    }

    /// A skipped message is recorded.
    #[verifier::opaque]
    pub open spec fn skipping(self, r: SkippedMessage<Seq<u8>>) -> ModelView {
        ModelView { skipped: self.skipped.push(r), ..self }
    }

    /// The server's disconnect is recorded.
    #[verifier::opaque]
    pub open spec fn disconnecting(self, reason_code: u32, description: Seq<u8>) -> ModelView {
        ModelView { server_disconnect: Some((reason_code, description)), ..self }
    }

    /// The client sends a message.
    #[verifier::opaque]
    pub open spec fn sending(self, number: u8) -> ModelView {
        ModelView { client_messages: self.client_messages.push(number), ..self }
    }

    /// A message with number `n` that is not the reply and not skipped, after
    /// the server KEXINIT and before its NEWKEYS.
    #[verifier::opaque]
    pub open spec fn ruled(self, n: u8, awaiting_reply: bool) -> ModelView {
        let phase = if awaiting_reply {
            Phase::EcdhReply
        } else {
            Phase::ServerNewKeys
        };
        if !self.facts.strict_active {
            self.ended(HandshakeOutcome::UnexpectedMessage { number: n, phase })
        } else if n == 20 {
            self.violated(Keyword::SecondKexInit)
        } else if n == 31 {
            self.violated(Keyword::SecondReply)
        } else if n == 21 {
            self.violated(Keyword::NewKeysBeforeReply)
        } else if 30 <= n <= 49 {
            self.violated(Keyword::KexMessage(n))
        } else if 2 <= n <= 4 {
            self.violated(Keyword::Transport(n))
        } else if n == 1 {
            self.violated(Keyword::Disconnect)
        } else {
            self.ended(HandshakeOutcome::UnexpectedMessage { number: n, phase })
        }
    }

    /// A malformed message in the key-exchange phases: the strict rule is
    /// applied before decoding for transport messages and out-of-place KEXINIT
    /// and NEWKEYS; DISCONNECT and an in-place NEWKEYS are decoded first.
    #[verifier::opaque]
    pub open spec fn malformed(self, mal: Mal, awaiting_reply: bool) -> ModelView {
        let n = mal.bytes()[0];
        if n == 1 {
            self.ended(mal_outcome(mal))
        } else if 2 <= n <= 4 {
            if self.facts.strict_active {
                self.ruled(n, awaiting_reply)
            } else {
                self.ended(mal_outcome(mal))
            }
        } else if n == 21 && !awaiting_reply {
            self.ended(mal_outcome(mal))
        } else {
            self.ruled(n, awaiting_reply)
        }
    }

    /// The host key was read.
    #[verifier::opaque]
    pub open spec fn with_host_key(self) -> ModelView {
        ModelView { facts: Facts { host_key_seen: true, ..self.facts }, ..self }
    }

    /// A reply that is not valid.
    #[verifier::opaque]
    pub open spec fn refused(self, reply: Reply) -> ModelView {
        match reply {
            Reply::Truncated => self.ended(junk_reply()),
            Reply::Trailing => self.ended(
                HandshakeOutcome::ProtocolError(
                    ProtocolViolation::Message { number: 31, error: MessageError::TrailingBytes { count: 1 } },
                ),
            ),
            Reply::KsMalformed => self.ended(
                HandshakeOutcome::ProtocolError(
                    ProtocolViolation::HostKey(
                        KeyError::Blob(
                            BlobError::Field {
                                field: BlobField::Algorithm,
                                offset: 0,
                                error: DecodeError::LengthOverflow { claimed: 9, available: 1 },
                            },
                        ),
                    ),
                ),
            ),
            Reply::KsAlgRsa => self.ended(
                HandshakeOutcome::ProtocolError(
                    ProtocolViolation::HostKey(KeyError::UnsupportedAlgorithm(bytes_of("ssh-rsa"))),
                ),
            ),
            Reply::KsKey31 => self.ended(
                HandshakeOutcome::ProtocolError(
                    ProtocolViolation::HostKey(
                        KeyError::WrongLength { field: BlobField::Key, expected: 32, found: 31 },
                    ),
                ),
            ),
            Reply::QsShort => self.with_host_key().ended(
                HandshakeOutcome::ProtocolError(
                    ProtocolViolation::Kex(KexError::ServerEphemeralLength { found: 31 }),
                ),
            ),
            Reply::QsZero => self.with_host_key().ended(
                HandshakeOutcome::ProtocolError(ProtocolViolation::Kex(KexError::AllZeroSharedSecret)),
            ),
            _ => self.unsigned(),
        }
    }

    /// The signature does not verify.
    #[verifier::opaque]
    pub open spec fn unsigned(self) -> ModelView {
        ModelView {
            facts: Facts { host_key_seen: true, signature_valid: Some(false), ..self.facts },
            ..self
        }.ended(HandshakeOutcome::SignatureInvalid)
    }

    /// The signature verifies, and the caller decides on the host key.
    #[verifier::opaque]
    pub open spec fn decided(self, trust: TrustDecision) -> ModelView {
        let valid = ModelView {
            facts: Facts { host_key_seen: true, signature_valid: Some(true), trust: Some(trust), ..self.facts },
            ..self
        };
        match trust {
            TrustDecision::Untrusted { reason } => valid.ended(HandshakeOutcome::HostNotTrusted { reason }),
            TrustDecision::Trusted { source } => ModelView {
                facts: Facts { newkeys_sent: true, phase_at_end: Phase::ServerNewKeys, ..valid.facts },
                ..valid
            }.sending(21),
        }
    }

    /// The real KEX_ECDH_REPLY; without an outcome the run goes on to the
    /// NEWKEYS phase.
    pub open spec fn replied(self, sc: ScenarioView) -> ModelView {
        if sc.reply is Valid {
            self.decided(sc.trust)
        } else {
            self.refused(sc.reply)
        }
    }

    /// The protected phase begins: the client requests the service.
    #[verifier::opaque]
    pub open spec fn protected_begun(self) -> ModelView {
        ModelView {
            facts: Facts {
                newkeys_received: true,
                phase_at_end: Phase::Service,
                protected_sent: 1,
                ..self.facts
            },
            ext_info: Some(
                ExtInfoModel { received: false, server_sig_algs: None, extension_names: Seq::empty() },
            ),
            ..self
        }.sending(5)
    }

    /// The client sends one more protected message.
    #[verifier::opaque]
    pub open spec fn sending_protected(self, number: u8) -> ModelView {
        ModelView {
            facts: Facts { protected_sent: (self.facts.protected_sent + 1) as u32, ..self.facts },
            ..self
        }.sending(number)
    }

    /// A message that the service phase does not expect.
    pub open spec fn unexpected(self, number: u8) -> ModelView {
        self.ended(HandshakeOutcome::UnexpectedMessage { number, phase: Phase::Service })
    }

    /// The extensions of the server.
    #[verifier::opaque]
    pub open spec fn extended(self, pairs: PairsView) -> ModelView {
        match sig_algs_of(pairs, 0) {
            Err(e) => self.ended(
                HandshakeOutcome::ProtocolError(
                    ProtocolViolation::ExtInfo(ExtInfoError::InvalidServerSigAlgs(e)),
                ),
            ),
            Ok(algs) => ModelView {
                ext_info: Some(
                    ExtInfoModel { received: true, server_sig_algs: algs, extension_names: pair_texts(pairs) },
                ),
                ..self
            },
        }
    }

    /// The server accepts a service.
    #[verifier::opaque]
    pub open spec fn accepted(self, name: Seq<u8>) -> ModelView {
        if name == bytes_of("ssh-userauth") {
            ModelView {
                facts: Facts { service_accepted: true, ..self.facts },
                ..self
            }.sending_protected(1).ended(HandshakeOutcome::Completed)
        } else {
            self.ended(
                HandshakeOutcome::ProtocolError(
                    ProtocolViolation::ServiceMismatch { requested: bytes_of("ssh-userauth"), accepted: name },
                ),
            )
        }
    }

    /// One protected packet was opened; `first` says whether it is the first.
    #[verifier::opaque]
    pub open spec fn opened(self, p: ProtView, first: bool) -> ModelView {
        match p {
            Prot::Empty => self.ended(HandshakeOutcome::ProtocolError(ProtocolViolation::EmptyPayload)),
            Prot::Malformed(mal) => if mal.bytes()[0] == 7 && !first {
                self.unexpected(7)
            } else {
                self.ended(mal_outcome(mal))
            },
            Prot::BadLength => self,
            Prot::ExtInfo(pairs) => if !first {
                self.unexpected(7)
            } else {
                self.extended(pairs)
            },
            Prot::ExtInfoTooMany => if !first {
                self.unexpected(7)
            } else {
                self.ended(
                    HandshakeOutcome::ProtocolError(
                        ProtocolViolation::ExtInfo(ExtInfoError::TooManyExtensions { claimed: 65, max: 64 }),
                    ),
                )
            },
            Prot::ServiceAccept(name) => self.accepted(name),
            Prot::Disconnect { reason_code, description } => self.disconnecting(reason_code, description).ended(
                HandshakeOutcome::ServerDisconnected { reason_code, description },
            ),
            Prot::KexInit => self.sending_protected(1).ended(HandshakeOutcome::RekeyNotSupported),
            Prot::Ignore(d) => self.skipping(SkippedMessage::Ignored { data_len: d.len() as usize }),
            Prot::Debug { always_display, message, language_tag } => self.skipping(
                SkippedMessage::Debug { always_display, message, language_tag },
            ),
            Prot::Unimplemented(s) => self.unexpected(3),
            Prot::Other(n) => self.unexpected(n),
        }
    }

    /// One protected packet arrives, tampered with or not. A length that is
    /// not aligned is refused before anything is counted.
    #[verifier::opaque]
    pub open spec fn protected_step(self, p: ProtView, tampered: bool) -> ModelView {
        if p is BadLength {
            self.ended(
                HandshakeOutcome::ProtocolError(
                    ProtocolViolation::Protected(OpenError::Misaligned { packet_length: 17 }),
                ),
            )
        } else if tampered {
            self.ended(HandshakeOutcome::TagMismatch)
        } else {
            let c = ModelView {
                facts: Facts { protected_received: (self.facts.protected_received + 1) as u32, ..self.facts },
                ..self
            };
            c.opened(p, c.facts.protected_received == 1)
        }
    }

    /// The protected packets from the `i`-th on.
    pub open spec fn protected_run(self, sc: ScenarioView, i: int) -> ModelView
        decreases sc.protected.len() - i,
    {
        if i >= sc.protected.len() || self.outcome is Some {
            self
        } else {
            self.protected_step(sc.protected[i], sc.tamper matches Some(t) && t.0 == i).protected_run(sc, i + 1)
        }
    }

    /// The messages before KEXINIT from the `i`-th on: transport messages are
    /// accepted provisionally.
    pub open spec fn before_kexinit(self, v: Seq<MsgView>, i: int) -> ModelView
        decreases v.len() - i,
    {
        if i >= v.len() || self.outcome is Some {
            self
        } else if v[i] is BadFrame {
            self.ended(bad_frame())
        } else {
            let c = self.counted();
            if c.outcome is Some {
                c
            } else {
                match v[i] {
                    Msg::Empty => c.ended(HandshakeOutcome::ProtocolError(ProtocolViolation::EmptyPayload)),
                    Msg::Disconnect { reason_code, description } => c.disconnecting(
                        reason_code,
                        description,
                    ).ended(HandshakeOutcome::ServerDisconnected { reason_code, description }),
                    Msg::Malformed(mal) => if mal is NewKeys {
                        c.ended(
                            HandshakeOutcome::UnexpectedMessage { number: 21, phase: Phase::ServerKexInit },
                        )
                    } else if mal is KexInit {
                        ModelView {
                            facts: Facts {
                                kexinit_was_first: Some(c.facts.unprotected_received == 1),
                                ..c.facts
                            },
                            ..c
                        }.ended(mal_outcome(mal))
                    } else {
                        c.ended(mal_outcome(mal))
                    },
                    _ => if skippable(v[i]) {
                        c.skipping(skip_record(v[i])).before_kexinit(v, i + 1)
                    } else {
                        c.ended(
                            HandshakeOutcome::UnexpectedMessage {
                                number: number_of(v[i]),
                                phase: Phase::ServerKexInit,
                            },
                        )
                    },
                }
            }
        }
    }

    /// An item that is neither malformed nor skipped nor a disconnect.
    #[verifier::opaque]
    pub open spec fn exchanged(self, sc: ScenarioView, item: ItemView, awaiting_reply: bool, guess_wrong: bool) -> (
        ModelView,
        Option<bool>,
    ) {
        let n = item_number(item);
        if !awaiting_reply {
            if n == 21 {
                (self.protected_begun().protected_run(sc, 0), None)
            } else {
                (self.ruled(n, false), None)
            }
        } else if 30 <= n <= 49 && guess_wrong && !self.facts.guess_discarded {
            // RFC 4253 section 7.1: the wrongly guessed first packet, whatever
            // it is (even the real reply when the server sent no guess).
            (ModelView { facts: Facts { guess_discarded: true, ..self.facts }, ..self }, Some(true))
        } else if n == 31 {
            if item is Reply {
                (self.replied(sc), Some(false))
            } else {
                (self.ended(junk_reply()), None)
            }
        } else {
            (self.ruled(n, true), None)
        }
    }

    /// The server disconnects during the key exchange.
    #[verifier::opaque]
    pub open spec fn disconnected(self, reason_code: u32, description: Seq<u8>, awaiting_reply: bool) -> ModelView {
        let d = self.disconnecting(reason_code, description);
        if self.facts.strict_active {
            d.ruled(1, awaiting_reply)
        } else {
            d.ended(HandshakeOutcome::ServerDisconnected { reason_code, description })
        }
    }

    /// One item after KEXINIT: the model behind it, and whether the reply is
    /// still awaited, or nothing where the run stops.
    #[verifier::opaque]
    pub open spec fn item_step(self, sc: ScenarioView, item: ItemView, awaiting_reply: bool, guess_wrong: bool) -> (
        ModelView,
        Option<bool>,
    ) {
        let c = self.counted();
        if item == ItemView::Msg(Msg::BadFrame) {
            (self.ended(bad_frame()), None)
        } else if c.outcome is Some {
            (c, None)
        } else {
            match item {
                ItemView::Msg(Msg::Empty) => (
                    c.ended(HandshakeOutcome::ProtocolError(ProtocolViolation::EmptyPayload)),
                    None,
                ),
                ItemView::Msg(Msg::Malformed(mal)) => (c.malformed(mal, awaiting_reply), None),
                ItemView::Msg(Msg::Disconnect { reason_code, description }) => (
                    c.disconnected(reason_code, description, awaiting_reply),
                    None,
                ),
                ItemView::Msg(m) => if skippable(m) && !c.facts.strict_active {
                    (c.skipping(skip_record(m)), Some(awaiting_reply))
                } else {
                    c.exchanged(sc, item, awaiting_reply, guess_wrong)
                },
                _ => c.exchanged(sc, item, awaiting_reply, guess_wrong),
            }
        }
    }

    /// The items after KEXINIT from the `i`-th on.
    pub open spec fn after_kexinit(
        self,
        sc: ScenarioView,
        items: Seq<ItemView>,
        i: int,
        awaiting_reply: bool,
        guess_wrong: bool,
    ) -> ModelView
        decreases items.len() - i,
    {
        if i >= items.len() || self.outcome is Some {
            self
        } else {
            match self.item_step(sc, items[i], awaiting_reply, guess_wrong) {
                (m, None) => m,
                (m, Some(awaiting)) => m.after_kexinit(sc, items, i + 1, awaiting, guess_wrong),
            }
        }
    }

    /// The algorithms are selected.
    #[verifier::opaque]
    pub open spec fn chosen(self, n: Negotiated<Seq<char>>, was_first: bool) -> ModelView {
        let chosen = ModelView {
            facts: Facts { strict: n.strict_kex, strict_active: n.strict_kex.negotiated, ..self.facts },
            selected: Some(n),
            ..self
        };
        if n.strict_kex.negotiated && !was_first {
            chosen.violated(Keyword::NotFirstPacket)
        } else {
            ModelView { facts: Facts { phase_at_end: Phase::EcdhReply, ..chosen.facts }, ..chosen }.sending(30)
        }
    }
}

/// The names in the first `server-sig-algs` from the `i`-th pair on, as text.
pub open spec fn sig_algs_of(pairs: PairsView, i: int) -> Result<Option<Seq<Seq<char>>>, InvalidEncoding>
    decreases pairs.len() - i,
{
    if i >= pairs.len() {
        Ok(None)
    } else if pairs[i].0 == bytes_of("server-sig-algs") {
        match names_text(pairs[i].1) {
            Ok(names) => Ok(Some(names)),
            Err(e) => Err(e),
        }
    } else {
        sig_algs_of(pairs, i + 1)
    }
}

/// The names of a name-list body as text.
pub open spec fn names_text(body: Seq<u8>) -> Result<Seq<Seq<char>>, InvalidEncoding> {
    match names_of(body) {
        Ok(names) => Ok(Seq::new(names.len(), |i: int| text_of(names[i]))),
        Err(e) => Err(e),
    }
}

/// The model before anything was received.
pub open spec fn fresh(sc: ScenarioView) -> ModelView {
    ModelView {
        facts: Facts {
            tiny_budget: sc.tiny_budget,
            phase_at_end: Phase::ServerIdentification,
            kexinit_was_first: None,
            strict: strict_of(
                client_proposal(Seq::new(16, |i: int| 0u8), sc.advertise_ext_info, sc.offer_strict_kex).kex(),
                Seq::empty(),
            ),
            strict_active: false,
            server_seen: false,
            guess_discarded: false,
            host_key_seen: false,
            signature_valid: None,
            trust: None,
            newkeys_sent: false,
            newkeys_received: false,
            protected_sent: 0,
            protected_received: 0,
            unprotected_received: 0,
            service_accepted: false,
        },
        outcome: None,
        selected: None,
        skipped: Seq::empty(),
        ext_info: None,
        server_disconnect: None,
        client_messages: seq![20u8],
    }
}

/// A negotiation over sequences.
pub type NegotiationView = Result<Negotiated<Seq<char>>, NegotiationError<Seq<char>>>;

/// The server KEXINIT was received and negotiated.
#[verifier::opaque]
pub open spec fn negotiating(
    m: ModelView,
    sc: ScenarioView,
    negotiated: NegotiationView,
    strict_eval: StrictKex,
) -> ModelView {
    let was_first = sc.pre_kexinit.len() == 0;
    let seen = ModelView {
        facts: Facts { server_seen: true, kexinit_was_first: Some(was_first), ..m.facts },
        ..m
    };
    match negotiated {
        Err(e) => ModelView { facts: Facts { strict: strict_eval, ..seen.facts }, ..seen }.ended(
            HandshakeOutcome::NegotiationFailed(e),
        ),
        Ok(n) => seen.chosen(n, was_first),
    }
}

/// Everything the client must report and send in a scenario.
pub open spec fn modelled(sc: ScenarioView, negotiated: NegotiationView, strict_eval: StrictKex) -> ModelView {
    let m0 = fresh(sc);
    if sc.ident is V15 {
        m0.ended(HandshakeOutcome::ProtocolError(ProtocolViolation::Ident(IdentError::UnsupportedVersion)))
    } else {
        let m1 = ModelView {
            facts: Facts { phase_at_end: Phase::ServerKexInit, ..m0.facts },
            ..m0
        }.before_kexinit(sc.pre_kexinit, 0);
        if m1.outcome is Some {
            m1
        } else {
            let m2 = m1.counted();
            if m2.outcome is Some {
                m2
            } else {
                let m3 = negotiating(m2, sc, negotiated, strict_eval);
                m3.after_kexinit(
                    sc,
                    items_of(sc),
                    0,
                    true,
                    negotiated matches Ok(n) && n.server_guess_wrong,
                )
            }
        }
    }
}

/// The names of a name-list body as text (RFC 4251 section 5).
pub fn name_list(body: &[u8]) -> (r: Result<Vec<String>, InvalidEncoding>)
    ensures
        match names_text(body@) {
            Ok(names) => r matches Ok(v) && texts(v@) == names,
            Err(e) => r matches Err(f) && f == e,
        },
{
    let names = match parse(body) {
        Ok(v) => v,
        Err(e) => {
            return Err(e);
        },
    };
    let ghost all = names_of(body@)->Ok_0;
    let mut out: Vec<String> = Vec::new();
    let mut i: usize = 0;
    while i < names.len()
        invariant
            i <= names@.len(),
            out@.len() == i,
            crate::seqs::slices(names@) == all,
            forall|j: int| 0 <= j < i ==> (#[trigger] out@[j])@ == text_of(all[j]),
        decreases names@.len() - i,
    {
        proof {
            assert(names@[i as int]@ == all[i as int]);
        }
        out.push(lossy_string(names[i]));
        i = i + 1;
    }
    proof {
        assert(texts(out@) =~= names_text(body@)->Ok_0);
    }
    Ok(out)
}

/// The verdict on a malformed message.
pub fn malformed_outcome(mal: Mal) -> (r: HandshakeOutcome)
    ensures
        r@ == mal_outcome(mal),
{
    HandshakeOutcome::ProtocolError(ProtocolViolation::Message { number: mal.number(), error: mal.error() })
}

/// The verdict on an unframeable length.
pub fn bad_frame_outcome() -> (r: HandshakeOutcome)
    ensures
        r@ == bad_frame(),
{
    HandshakeOutcome::ProtocolError(
        ProtocolViolation::Packet(PacketError::TooLarge { packet_length: 0xffff_ffff, limit: 0x1_0000 }),
    )
}

/// The verdict on a junk reply.
pub fn junk_reply_error() -> (r: HandshakeOutcome)
    ensures
        r@ == junk_reply(),
{
    HandshakeOutcome::ProtocolError(
        ProtocolViolation::Message {
            number: 31,
            error: MessageError::Field {
                field: Field::HostKey,
                offset: 1,
                error: DecodeError::Truncated { needed: 4, available: 2 },
            },
        },
    )
}

fn empty_payload() -> (r: HandshakeOutcome)
    ensures
        r@ == HandshakeOutcome::<Seq<u8>, Seq<char>>::ProtocolError(ProtocolViolation::EmptyPayload),
{
    HandshakeOutcome::ProtocolError(ProtocolViolation::EmptyPayload)
}

/// The names of pairs as text.
fn pair_names(pairs: &Vec<(Vec<u8>, Vec<u8>)>) -> (r: Vec<String>)
    ensures
        texts(r@) == pair_texts(pair_views(pairs@)),
{
    let ghost all = pair_views(pairs@);
    let mut out: Vec<String> = Vec::new();
    let mut i: usize = 0;
    while i < pairs.len()
        invariant
            i <= pairs@.len(),
            out@.len() == i,
            all == pair_views(pairs@),
            forall|j: int| 0 <= j < i ==> (#[trigger] out@[j])@ == text_of(all[j].0),
        decreases pairs@.len() - i,
    {
        out.push(lossy_string(pairs[i].0.as_slice()));
        i = i + 1;
    }
    proof {
        assert(texts(out@) =~= pair_texts(all));
    }
    out
}

/// An optional list of text over sequences.
pub open spec fn opt_texts(o: Option<Vec<String>>) -> Option<Seq<Seq<char>>> {
    match o {
        Some(l) => Some(texts(l@)),
        None => None,
    }
}

fn sig_algs(pairs: &Vec<(Vec<u8>, Vec<u8>)>) -> (r: Result<Option<Vec<String>>, InvalidEncoding>)
    ensures
        match sig_algs_of(pair_views(pairs@), 0) {
            Ok(o) => r matches Ok(v) && opt_texts(v) == o,
            Err(e) => r matches Err(f) && f == e,
        },
{
    let ghost all = pair_views(pairs@);
    let mut i: usize = 0;
    while i < pairs.len()
        invariant
            i <= pairs@.len(),
            all == pair_views(pairs@),
            sig_algs_of(all, i as int) == sig_algs_of(all, 0),
        decreases pairs@.len() - i,
    {
        proof {
            assert(all[i as int] == (pairs@[i as int].0@, pairs@[i as int].1@));
        }
        if same_bytes(pairs[i].0.as_slice(), "server-sig-algs".as_bytes()) {
            return match name_list(pairs[i].1.as_slice()) {
                Ok(names) => Ok(Some(names)),
                Err(e) => Err(e),
            };
        }
        i = i + 1;
    }
    Ok(None)
}

impl Model {
    /// The counters leave room for `n` more packets.
    pub open spec fn room(self, n: int) -> bool {
        self.facts.unprotected_received + n <= u32::MAX
    }

    /// Ends with an outcome, unless the run has ended already.
    pub fn exact(&mut self, o: HandshakeOutcome)
        ensures
            final(self)@ == old(self)@.ended(o@),
            final(self)@.outcome is Some,
            final(self)@.facts == old(self)@.facts,
    {
        reveal(ModelView::ended);
        reveal(expect_view);
        if self.outcome.is_none() {
            self.outcome = Some(Expect::Exact(o));
        }
    }

    /// Ends with a strict kex violation, unless the run has ended already.
    pub fn strict(&mut self, k: Keyword)
        ensures
            final(self)@ == old(self)@.violated(k),
            final(self)@.outcome is Some,
            final(self)@.facts == old(self)@.facts,
    {
        reveal(ModelView::violated);
        reveal(expect_view);
        if self.outcome.is_none() {
            self.outcome = Some(Expect::Strict(k));
        }
    }

    /// Whether the run has ended.
    pub fn done(&self) -> (r: bool)
        ensures
            r == (self@.outcome is Some),
    {
        reveal(expect_view);
        self.outcome.is_some()
    }

    /// Counts one framed unprotected packet against the budget; `false` when
    /// the budget refuses it (the packet is then neither counted nor handled).
    pub fn unprotected(&mut self) -> (r: bool)
        requires
            old(self)@.facts.unprotected_received < u32::MAX,
            old(self)@.outcome is None,
        ensures
            final(self)@ == old(self)@.counted(),
            r == (final(self)@.outcome is None),
            final(self)@.facts.unprotected_received <= old(self)@.facts.unprotected_received + 1,
            final(self)@.facts.protected_received == old(self)@.facts.protected_received,
    {
        reveal(ModelView::counted);
        if self.facts.tiny_budget && self.facts.unprotected_received >= 3 {
            self.exact(HandshakeOutcome::Limit(LimitKind::PreKexPackets { limit: 3 }));
            return false;
        }
        self.facts.unprotected_received = self.facts.unprotected_received + 1;
        true
    }

    fn skip(&mut self, r: SkippedMessage)
        ensures
            final(self)@ == old(self)@.skipping(r@),
            final(self)@.facts == old(self)@.facts,
            final(self)@.outcome == old(self)@.outcome,
    {
        reveal(ModelView::skipping);
        let ghost v = r@;
        self.skipped.push(r);
        proof {
            assert(skipped_views(self.skipped@) =~= skipped_views(old(self).skipped@).push(v));
        }
    }

    fn send(&mut self, number: u8)
        ensures
            final(self)@ == old(self)@.sending(number),
            final(self)@.facts == old(self)@.facts,
            final(self)@.outcome == old(self)@.outcome,
    {
        reveal(ModelView::sending);
        self.client_messages.push(number);
    }

    fn send_protected(&mut self, number: u8)
        requires
            old(self)@.facts.protected_sent < u32::MAX,
        ensures
            final(self)@ == old(self)@.sending_protected(number),
            final(self)@.facts.protected_received == old(self)@.facts.protected_received,
            final(self)@.outcome == old(self)@.outcome,
    {
        reveal(ModelView::sending_protected);
        self.facts.protected_sent = self.facts.protected_sent + 1;
        self.send(number);
    }

    fn disconnect(&mut self, reason_code: u32, description: &Vec<u8>)
        ensures
            final(self)@ == old(self)@.disconnecting(reason_code, description@),
            final(self)@.facts == old(self)@.facts,
            final(self)@.outcome == old(self)@.outcome,
    {
        reveal(ModelView::disconnecting);
        reveal(disconnect_view);
        self.server_disconnect = Some((reason_code, copy_bytes(description.as_slice())));
    }

    /// A message with number `n` that is not the reply and not skipped, after
    /// the server KEXINIT and before its NEWKEYS.
    pub fn kex_phase_rule(&mut self, n: u8, awaiting_reply: bool)
        ensures
            final(self)@ == old(self)@.ruled(n, awaiting_reply),
            final(self)@.outcome is Some,
    {
        reveal(ModelView::ruled);
        let phase = if awaiting_reply { Phase::EcdhReply } else { Phase::ServerNewKeys };
        if !self.facts.strict_active {
            self.exact(HandshakeOutcome::UnexpectedMessage { number: n, phase });
        } else if n == 20 {
            self.strict(Keyword::SecondKexInit);
        } else if n == 31 {
            self.strict(Keyword::SecondReply);
        } else if n == 21 {
            self.strict(Keyword::NewKeysBeforeReply);
        } else if 30 <= n && n <= 49 {
            self.strict(Keyword::KexMessage(n));
        } else if 2 <= n && n <= 4 {
            self.strict(Keyword::Transport(n));
        } else if n == 1 {
            self.strict(Keyword::Disconnect);
        } else {
            self.exact(HandshakeOutcome::UnexpectedMessage { number: n, phase });
        }
    }

    /// A malformed message in the key-exchange phases.
    pub fn kex_phase_malformed(&mut self, mal: Mal, awaiting_reply: bool)
        ensures
            final(self)@ == old(self)@.malformed(mal, awaiting_reply),
            final(self)@.outcome is Some,
    {
        reveal(ModelView::malformed);
        let n: u8 = mal.number();
        if n == 1 {
            self.exact(malformed_outcome(mal));
        } else if 2 <= n && n <= 4 {
            if self.facts.strict_active {
                self.kex_phase_rule(n, awaiting_reply);
            } else {
                self.exact(malformed_outcome(mal));
            }
        } else if n == 21 && !awaiting_reply {
            self.exact(malformed_outcome(mal));
        } else {
            self.kex_phase_rule(n, awaiting_reply);
        }
    }

    fn host_key_error(&mut self, e: KeyError)
        ensures
            final(self)@ == old(self)@.ended(
                HandshakeOutcome::ProtocolError(ProtocolViolation::HostKey(e@)),
            ),
            final(self)@.outcome is Some,
            final(self)@.facts == old(self)@.facts,
    {
        self.exact(HandshakeOutcome::ProtocolError(ProtocolViolation::HostKey(e)));
    }

    /// The signature does not verify.
    fn signature_fails(&mut self)
        ensures
            final(self)@ == old(self)@.unsigned(),
            final(self)@.outcome is Some,
            final(self)@.facts.unprotected_received == old(self)@.facts.unprotected_received,
            final(self)@.facts.protected_received == old(self)@.facts.protected_received,
    {
        reveal(ModelView::unsigned);
        self.facts.host_key_seen = true;
        self.facts.signature_valid = Some(false);
        self.exact(HandshakeOutcome::SignatureInvalid);
    }

    fn kex_error(&mut self, e: KexError)
        ensures
            final(self)@ == old(self)@.with_host_key().ended(
                HandshakeOutcome::ProtocolError(ProtocolViolation::Kex(e)),
            ),
            final(self)@.outcome is Some,
            final(self)@.facts.unprotected_received == old(self)@.facts.unprotected_received,
            final(self)@.facts.protected_received == old(self)@.facts.protected_received,
    {
        reveal(ModelView::with_host_key);
        self.facts.host_key_seen = true;
        self.exact(HandshakeOutcome::ProtocolError(ProtocolViolation::Kex(e)));
    }

    /// A reply that is not valid.
    fn refuse(&mut self, reply: Reply)
        requires
            reply !is Valid,
        ensures
            final(self)@ == old(self)@.refused(reply),
            final(self)@.outcome is Some,
            final(self)@.facts.unprotected_received == old(self)@.facts.unprotected_received,
            final(self)@.facts.protected_received == old(self)@.facts.protected_received,
    {
        reveal(ModelView::refused);
        match reply {
            Reply::Truncated => {
                self.exact(junk_reply_error());
            },
            Reply::Trailing => {
                self.exact(
                    HandshakeOutcome::ProtocolError(
                        ProtocolViolation::Message {
                            number: 31,
                            error: MessageError::TrailingBytes { count: 1 },
                        },
                    ),
                );
            },
            Reply::KsMalformed => {
                self.host_key_error(
                    KeyError::Blob(
                        BlobError::Field {
                            field: BlobField::Algorithm,
                            offset: 0,
                            error: DecodeError::LengthOverflow { claimed: 9, available: 1 },
                        },
                    ),
                );
            },
            Reply::KsAlgRsa => {
                self.host_key_error(KeyError::UnsupportedAlgorithm(copy_bytes("ssh-rsa".as_bytes())));
            },
            Reply::KsKey31 => {
                self.host_key_error(KeyError::WrongLength { field: BlobField::Key, expected: 32, found: 31 });
            },
            Reply::QsShort => {
                self.kex_error(KexError::ServerEphemeralLength { found: 31 });
            },
            Reply::QsZero => {
                self.kex_error(KexError::AllZeroSharedSecret);
            },
            _ => {
                self.signature_fails();
            },
        }
    }

    /// The signature verifies, and the caller decides on the host key.
    fn decide(&mut self, trust: TrustDecision)
        requires
            old(self)@.outcome is None,
        ensures
            final(self)@ == old(self)@.decided(trust),
            (final(self)@.outcome is None) == (trust is Trusted),
            final(self)@.facts.unprotected_received == old(self)@.facts.unprotected_received,
            final(self)@.facts.protected_received == old(self)@.facts.protected_received,
    {
        reveal(ModelView::decided);
        self.facts.host_key_seen = true;
        self.facts.signature_valid = Some(true);
        self.facts.trust = Some(trust);
        match trust {
            TrustDecision::Untrusted { reason } => {
                self.exact(HandshakeOutcome::HostNotTrusted { reason });
            },
            TrustDecision::Trusted { source } => {
                self.facts.newkeys_sent = true;
                self.facts.phase_at_end = Phase::ServerNewKeys;
                self.send(21);
            },
        }
    }

    /// The real KEX_ECDH_REPLY. Returns whether the run continues to the
    /// NEWKEYS phase (trusted).
    pub fn reply(&mut self, sc: &Scenario) -> (r: bool)
        requires
            old(self)@.outcome is None,
        ensures
            final(self)@ == old(self)@.replied(sc@),
            r == (final(self)@.outcome is None),
            final(self)@.facts.unprotected_received == old(self)@.facts.unprotected_received,
            final(self)@.facts.protected_received == old(self)@.facts.protected_received,
    {
        match sc.reply {
            Reply::Valid => {
                self.decide(sc.trust);
                sc.trust.is_trusted()
            },
            _ => {
                self.refuse(sc.reply);
                false
            },
        }
    }

    fn unexpected_in_service(&mut self, number: u8)
        ensures
            final(self)@ == old(self)@.unexpected(number),
            final(self)@.outcome is Some,
            final(self)@.facts == old(self)@.facts,
    {
        self.exact(HandshakeOutcome::UnexpectedMessage { number, phase: Phase::Service });
    }

    fn ext_info_error(&mut self, e: ExtInfoError)
        ensures
            final(self)@ == old(self)@.ended(HandshakeOutcome::ProtocolError(ProtocolViolation::ExtInfo(e))),
            final(self)@.outcome is Some,
            final(self)@.facts == old(self)@.facts,
    {
        self.exact(HandshakeOutcome::ProtocolError(ProtocolViolation::ExtInfo(e)));
    }

    /// The extensions of the server.
    fn extend(&mut self, pairs: &Vec<(Vec<u8>, Vec<u8>)>)
        ensures
            final(self)@ == old(self)@.extended(pair_views(pairs@)),
            final(self)@.facts == old(self)@.facts,
            final(self)@.outcome is None ==> old(self)@.outcome is None,
    {
        reveal(ModelView::extended);
        reveal(extensions_view);
        match sig_algs(pairs) {
            Err(e) => {
                self.ext_info_error(ExtInfoError::InvalidServerSigAlgs(e));
            },
            Ok(algs) => {
                self.ext_info = Some(
                    ExtInfoModel { received: true, server_sig_algs: algs, extension_names: pair_names(pairs) },
                );
            },
        }
    }

    /// The server accepts a service.
    fn accept(&mut self, name: &Vec<u8>)
        requires
            old(self)@.facts.protected_sent < u32::MAX,
        ensures
            final(self)@ == old(self)@.accepted(name@),
            final(self)@.outcome is Some,
            final(self)@.facts.protected_received == old(self)@.facts.protected_received,
    {
        reveal(ModelView::accepted);
        if same_bytes(name.as_slice(), "ssh-userauth".as_bytes()) {
            self.facts.service_accepted = true;
            self.send_protected(1);
            self.exact(HandshakeOutcome::Completed);
        } else {
            self.exact(
                HandshakeOutcome::ProtocolError(
                    ProtocolViolation::ServiceMismatch {
                        requested: copy_bytes("ssh-userauth".as_bytes()),
                        accepted: copy_bytes(name.as_slice()),
                    },
                ),
            );
        }
    }

    /// One protected packet was opened.
    fn open_packet(&mut self, p: &Prot, first: bool)
        requires
            old(self)@.facts.protected_sent < u32::MAX,
        ensures
            final(self)@ == old(self)@.opened(p@, first),
            final(self)@.outcome is None ==> final(self)@.facts.protected_sent == old(self)@.facts.protected_sent,
            final(self)@.facts.protected_received == old(self)@.facts.protected_received,
            final(self)@.outcome is None ==> old(self)@.outcome is None,
    {
        reveal(ModelView::opened);
        match p {
            Prot::Empty => {
                self.exact(empty_payload());
            },
            Prot::Malformed(mal) => {
                if mal.number() == 7 && !first {
                    self.unexpected_in_service(7);
                } else {
                    self.exact(malformed_outcome(*mal));
                }
            },
            Prot::BadLength => {},
            Prot::ExtInfo(pairs) => {
                if !first {
                    self.unexpected_in_service(7);
                } else {
                    self.extend(pairs);
                }
            },
            Prot::ExtInfoTooMany => {
                if !first {
                    self.unexpected_in_service(7);
                } else {
                    self.ext_info_error(ExtInfoError::TooManyExtensions { claimed: 65, max: 64 });
                }
            },
            Prot::ServiceAccept(name) => {
                self.accept(name);
            },
            Prot::Disconnect { reason_code, description } => {
                self.disconnect(*reason_code, description);
                self.exact(
                    HandshakeOutcome::ServerDisconnected {
                        reason_code: *reason_code,
                        description: copy_bytes(description.as_slice()),
                    },
                );
            },
            Prot::KexInit => {
                self.send_protected(1);
                self.exact(HandshakeOutcome::RekeyNotSupported);
            },
            Prot::Ignore(d) => {
                self.skip(SkippedMessage::Ignored { data_len: d.len() });
            },
            Prot::Debug { always_display, message, language_tag } => {
                self.skip(
                    SkippedMessage::Debug {
                        always_display: *always_display,
                        message: copy_bytes(message.as_slice()),
                        language_tag: copy_bytes(language_tag.as_slice()),
                    },
                );
            },
            Prot::Unimplemented(s) => {
                self.unexpected_in_service(3);
            },
            Prot::Other(n) => {
                self.unexpected_in_service(*n);
            },
        }
    }

    /// The protected phase begins: the client requests the service.
    fn begin_protected(&mut self)
        requires
            old(self)@.outcome is None,
        ensures
            final(self)@ == old(self)@.protected_begun(),
            final(self)@.outcome is None,
            final(self)@.facts.protected_sent == 1,
            final(self)@.facts.protected_received == old(self)@.facts.protected_received,
    {
        reveal(ModelView::protected_begun);
        reveal(extensions_view);
        self.facts.newkeys_received = true;
        self.facts.phase_at_end = Phase::Service;
        self.facts.protected_sent = 1;
        let none: Vec<String> = Vec::new();
        proof {
            assert(texts(none@) =~= Seq::<Seq<char>>::empty());
        }
        self.ext_info = Some(ExtInfoModel { received: false, server_sig_algs: None, extension_names: none });
        self.send(5);
    }

    /// The protected phase: the client requests the service, and every packet
    /// of the server is opened until one of them ends the run.
    pub fn protected_phase(&mut self, sc: &Scenario)
        requires
            old(self)@.outcome is None,
            old(self)@.facts.protected_received == 0,
            sc@.protected.len() < u32::MAX,
        ensures
            final(self)@ == old(self)@.protected_begun().protected_run(sc@, 0),
    {
        self.begin_protected();
        let ghost goal = old(self)@.protected_begun().protected_run(sc@, 0);
        let mut i: usize = 0;
        while i < sc.protected.len() && !self.done()
            invariant
                i <= sc.protected@.len(),
                sc@.protected.len() < u32::MAX,
                sc@.protected == prot_views(sc.protected@),
                goal == old(self)@.protected_begun().protected_run(sc@, 0),
                self@.protected_run(sc@, i as int) == goal,
                self@.outcome is None ==> self@.facts.protected_sent == 1 && self@.facts.protected_received == i,
            decreases sc.protected@.len() - i,
        {
            proof {
                assert(sc@.protected[i as int] == sc.protected@[i as int]@);
            }
            let tampered: bool = match sc.tamper {
                Some(t) => t.0 == i,
                None => false,
            };
            self.receive_protected(&sc.protected[i], tampered);
            i = i + 1;
        }
    }

    /// One protected packet arrives.
    fn receive_protected(&mut self, p: &Prot, tampered: bool)
        requires
            old(self)@.outcome is None,
            old(self)@.facts.protected_sent == 1,
            old(self)@.facts.protected_received < u32::MAX,
        ensures
            final(self)@ == old(self)@.protected_step(p@, tampered),
            final(self)@.outcome is None ==> final(self)@.facts.protected_sent == 1,
            final(self)@.outcome is None ==> final(self)@.facts.protected_received
                == old(self)@.facts.protected_received + 1,
    {
        reveal(ModelView::protected_step);
        let bad_length: bool = match p {
            Prot::BadLength => true,
            _ => false,
        };
        if bad_length {
            // Rejected from the clear length field: never counted.
            self.exact(
                HandshakeOutcome::ProtocolError(
                    ProtocolViolation::Protected(OpenError::Misaligned { packet_length: 17 }),
                ),
            );
        } else if tampered {
            self.exact(HandshakeOutcome::TagMismatch);
        } else {
            self.facts.protected_received = self.facts.protected_received + 1;
            let first: bool = self.facts.protected_received == 1;
            self.open_packet(p, first);
        }
    }

    /// The server disconnects during the key exchange.
    fn kex_phase_disconnect(&mut self, reason_code: u32, description: &Vec<u8>, awaiting_reply: bool)
        ensures
            final(self)@ == old(self)@.disconnected(reason_code, description@, awaiting_reply),
            final(self)@.outcome is Some,
    {
        reveal(ModelView::disconnected);
        self.disconnect(reason_code, description);
        if self.facts.strict_active {
            self.kex_phase_rule(1, awaiting_reply);
        } else {
            self.exact(
                HandshakeOutcome::ServerDisconnected {
                    reason_code,
                    description: copy_bytes(description.as_slice()),
                },
            );
        }
    }

    /// An item that is neither malformed nor skipped nor a disconnect.
    fn exchange(&mut self, sc: &Scenario, item: Item<'_>, awaiting_reply: bool, guess_wrong: bool) -> (r: Option<bool>)
        requires
            old(self)@.outcome is None,
            old(self)@.facts.protected_received == 0,
            sc@.protected.len() < u32::MAX,
        ensures
            (final(self)@, r) == old(self)@.exchanged(sc@, item@, awaiting_reply, guess_wrong),
            r is Some ==> final(self)@.facts.unprotected_received == old(self)@.facts.unprotected_received,
            r is Some ==> final(self)@.facts.protected_received == 0,
    {
        reveal(ModelView::exchanged);
        let n: u8 = match item {
            Item::Guess(g) => g,
            Item::Msg(m) => msg_number(m),
            Item::Reply => 31,
            Item::NewKeys => 21,
        };
        if !awaiting_reply {
            if n == 21 {
                self.protected_phase(sc);
            } else {
                self.kex_phase_rule(n, false);
            }
            None
        } else if 30 <= n && n <= 49 && guess_wrong && !self.facts.guess_discarded {
            self.facts.guess_discarded = true;
            Some(true)
        } else if n == 31 {
            match item {
                Item::Reply => {
                    let goes_on: bool = self.reply(sc);
                    Some(false)
                },
                _ => {
                    self.exact(junk_reply_error());
                    None
                },
            }
        } else {
            self.kex_phase_rule(n, true);
            None
        }
    }

    /// One item after KEXINIT.
    fn receive_item(&mut self, sc: &Scenario, item: Item<'_>, awaiting_reply: bool, guess_wrong: bool) -> (r: Option<
        bool,
    >)
        requires
            old(self)@.outcome is None,
            old(self)@.facts.unprotected_received < u32::MAX,
            old(self)@.facts.protected_received == 0,
            sc@.protected.len() < u32::MAX,
        ensures
            (final(self)@, r) == old(self)@.item_step(sc@, item@, awaiting_reply, guess_wrong),
            r is Some ==> final(self)@.facts.unprotected_received <= old(self)@.facts.unprotected_received + 1,
            r is Some ==> final(self)@.facts.protected_received == 0,
    {
        reveal(ModelView::item_step);
        if let Item::Msg(Msg::BadFrame) = item {
            self.exact(bad_frame_outcome());
            return None;
        }
        if !self.unprotected() {
            return None;
        }
        match item {
            Item::Msg(Msg::Empty) => {
                self.exact(empty_payload());
                None
            },
            Item::Msg(Msg::Malformed(mal)) => {
                self.kex_phase_malformed(*mal, awaiting_reply);
                None
            },
            Item::Msg(Msg::Disconnect { reason_code, description }) => {
                self.kex_phase_disconnect(*reason_code, description, awaiting_reply);
                None
            },
            Item::Msg(m) => {
                if is_skippable(m) && !self.facts.strict_active {
                    self.skip(skipped_of(m));
                    Some(awaiting_reply)
                } else {
                    self.exchange(sc, item, awaiting_reply, guess_wrong)
                }
            },
            _ => self.exchange(sc, item, awaiting_reply, guess_wrong),
        }
    }

    /// The algorithms are selected.
    fn select(&mut self, n: Negotiated, was_first: bool)
        requires
            old(self)@.outcome is None,
        ensures
            final(self)@ == old(self)@.chosen(n@, was_first),
            final(self)@.facts.unprotected_received == old(self)@.facts.unprotected_received,
            final(self)@.facts.protected_received == old(self)@.facts.protected_received,
    {
        reveal(ModelView::chosen);
        reveal(selected_view);
        let strict_kex = n.strict_kex;
        self.facts.strict = strict_kex;
        self.facts.strict_active = strict_kex.negotiated;
        self.selected = Some(n);
        if strict_kex.negotiated && !was_first {
            self.strict(Keyword::NotFirstPacket);
        } else {
            self.facts.phase_at_end = Phase::EcdhReply;
            self.send(30);
        }
    }
}

fn push_msgs<'a>(items: &mut Vec<Item<'a>>, v: &'a Vec<Msg>)
    ensures
        item_views(final(items)@) == item_views(old(items)@) + msg_items(msg_views(v@)),
{
    let ghost start = item_views(items@);
    let mut i: usize = 0;
    proof {
        assert(start + msg_items(msg_views(v@).take(0)) =~= start);
    }
    while i < v.len()
        invariant
            i <= v@.len(),
            item_views(items@) == start + msg_items(msg_views(v@).take(i as int)),
        decreases v@.len() - i,
    {
        let ghost before = item_views(items@);
        items.push(Item::Msg(&v[i]));
        proof {
            let item = ItemView::Msg(msg_views(v@)[i as int]);
            assert(item_views(items@) =~= before.push(item));
            assert(msg_items(msg_views(v@).take(i + 1)) =~= msg_items(msg_views(v@).take(i as int)).push(item));
            assert(item_views(items@) =~= start + msg_items(msg_views(v@).take(i + 1)));
        }
        i = i + 1;
    }
    proof {
        assert(msg_views(v@).take(i as int) =~= msg_views(v@));
    }
}

fn items<'a>(sc: &'a Scenario) -> (r: Vec<Item<'a>>)
    ensures
        item_views(r@) == items_of(sc@),
{
    let mut items: Vec<Item<'a>> = Vec::new();
    if let Some(g) = sc.guess {
        items.push(Item::Guess(g));
        proof {
            assert(item_views(items@) =~= seq![ItemView::Guess(g)]);
        }
    } else {
        proof {
            assert(item_views(items@) =~= Seq::empty());
        }
    }
    push_msgs(&mut items, &sc.before_reply);
    let ghost before = item_views(items@);
    items.push(Item::Reply);
    proof {
        assert(item_views(items@) =~= before + seq![ItemView::Reply]);
    }
    push_msgs(&mut items, &sc.before_newkeys);
    let ghost before = item_views(items@);
    if sc.send_newkeys {
        items.push(Item::NewKeys);
        proof {
            assert(item_views(items@) =~= before + seq![ItemView::NewKeys]);
        }
    } else {
        proof {
            assert(before + Seq::<ItemView>::empty() =~= before);
        }
    }
    items
}

/// The messages before KEXINIT; whether the run goes on.
fn receive_before_kexinit(m: &mut Model, v: &Vec<Msg>) -> (r: bool)
    requires
        old(m)@.outcome is None,
        old(m)@.facts.unprotected_received + v@.len() < u32::MAX,
        old(m)@.facts.protected_received == 0,
    ensures
        final(m)@ == old(m)@.before_kexinit(msg_views(v@), 0),
        r == (final(m)@.outcome is None),
        final(m)@.outcome is None ==> final(m)@.facts.unprotected_received <= old(m)@.facts.unprotected_received
            + v@.len(),
        final(m)@.outcome is None ==> final(m)@.facts.protected_received == 0,
{
    let ghost all = msg_views(v@);
    let ghost goal = m@.before_kexinit(all, 0);
    let mut i: usize = 0;
    while i < v.len()
        invariant
            i <= v@.len(),
            all == msg_views(v@),
            goal == old(m)@.before_kexinit(all, 0),
            m@.before_kexinit(all, i as int) == goal,
            m@.outcome is None,
            m@.facts.unprotected_received <= old(m)@.facts.unprotected_received + i,
            m@.facts.protected_received == 0,
            old(m)@.facts.unprotected_received + v@.len() < u32::MAX,
        decreases v@.len() - i,
    {
        proof {
            assert(all[i as int] == v@[i as int]@);
        }
        let msg = &v[i];
        match msg {
            Msg::BadFrame => {
                m.exact(bad_frame_outcome());
                return false;
            },
            _ => {},
        }
        if !m.unprotected() {
            return false;
        }
        match msg {
            Msg::Empty => {
                m.exact(empty_payload());
                return false;
            },
            Msg::Disconnect { reason_code, description } => {
                m.disconnect(*reason_code, description);
                m.exact(
                    HandshakeOutcome::ServerDisconnected {
                        reason_code: *reason_code,
                        description: copy_bytes(description.as_slice()),
                    },
                );
                return false;
            },
            Msg::Malformed(mal) => {
                match *mal {
                    Mal::NewKeys => {
                        m.exact(
                            HandshakeOutcome::UnexpectedMessage { number: 21, phase: Phase::ServerKexInit },
                        );
                    },
                    Mal::KexInit => {
                        // Recorded from the message number, before decoding.
                        m.facts.kexinit_was_first = Some(m.facts.unprotected_received == 1);
                        m.exact(malformed_outcome(*mal));
                    },
                    _ => {
                        m.exact(malformed_outcome(*mal));
                    },
                }
                return false;
            },
            _ => {},
        }
        if is_skippable(msg) {
            m.skip(skipped_of(msg));
        } else {
            m.exact(
                HandshakeOutcome::UnexpectedMessage { number: msg_number(msg), phase: Phase::ServerKexInit },
            );
            return false;
        }
        i = i + 1;
    }
    true
}

/// The items after KEXINIT.
fn receive_after_kexinit(m: &mut Model, sc: &Scenario, items: &Vec<Item<'_>>, guess_wrong: bool)
    requires
        old(m)@.facts.unprotected_received + items@.len() < u32::MAX,
        old(m)@.facts.protected_received == 0,
        sc@.protected.len() < u32::MAX,
    ensures
        final(m)@ == old(m)@.after_kexinit(sc@, item_views(items@), 0, true, guess_wrong),
{
    let ghost all = item_views(items@);
    let ghost goal = m@.after_kexinit(sc@, all, 0, true, guess_wrong);
    let mut awaiting_reply: bool = true;
    let mut i: usize = 0;
    while i < items.len() && !m.done()
        invariant
            i <= items@.len(),
            all == item_views(items@),
            goal == old(m)@.after_kexinit(sc@, all, 0, true, guess_wrong),
            m@.after_kexinit(sc@, all, i as int, awaiting_reply, guess_wrong) == goal,
            m@.facts.unprotected_received <= old(m)@.facts.unprotected_received + i,
            m@.facts.protected_received == 0,
            old(m)@.facts.unprotected_received + items@.len() < u32::MAX,
            sc@.protected.len() < u32::MAX,
        decreases items@.len() - i,
    {
        proof {
            assert(all[i as int] == items@[i as int]@);
        }
        match m.receive_item(sc, items[i], awaiting_reply, guess_wrong) {
            Some(awaiting) => {
                awaiting_reply = awaiting;
            },
            None => {
                return;
            },
        }
        i = i + 1;
    }
}

/// Everything the client must report and send in a scenario, given what the
/// two proposals negotiate.
pub fn model(sc: &Scenario, negotiated: Result<Negotiated, NegotiationError>, strict_eval: StrictKex) -> (r: Model)
    requires
        sc@.pre_kexinit.len() + sc@.before_reply.len() + sc@.before_newkeys.len() < u32::MAX - 4,
        sc@.protected.len() < u32::MAX,
    ensures
        r@ == modelled(sc@, negotiation_view(negotiated), strict_eval),
{
    let cookie: [u8; 16] = [0; 16];
    let ours = Lists::tatami_client(cookie, sc.advertise_ext_info, sc.offer_strict_kex);
    proof {
        assert(cookie@ =~= Seq::new(16, |i: int| 0u8));
    }
    let mut client_messages: Vec<u8> = Vec::new();
    client_messages.push(20);
    let mut m = Model {
        facts: Facts {
            tiny_budget: sc.tiny_budget,
            phase_at_end: Phase::ServerIdentification,
            kexinit_was_first: None,
            strict: strict_offered(&ours),
            strict_active: false,
            server_seen: false,
            guess_discarded: false,
            host_key_seen: false,
            signature_valid: None,
            trust: None,
            newkeys_sent: false,
            newkeys_received: false,
            protected_sent: 0,
            protected_received: 0,
            unprotected_received: 0,
            service_accepted: false,
        },
        outcome: None,
        selected: None,
        skipped: Vec::new(),
        ext_info: None,
        server_disconnect: None,
        client_messages,
    };
    proof {
        reveal(expect_view);
        reveal(selected_view);
        reveal(extensions_view);
        reveal(disconnect_view);
        assert(m@.skipped =~= Seq::empty());
        assert(m@.client_messages =~= seq![20u8]);
        assert(m@ == fresh(sc@));
    }
    match sc.ident {
        crate::handshake::scenario::IdentKind::V15 => {
            m.exact(
                HandshakeOutcome::ProtocolError(ProtocolViolation::Ident(IdentError::UnsupportedVersion)),
            );
            return m;
        },
        _ => {},
    }
    m.facts.phase_at_end = Phase::ServerKexInit;
    if !receive_before_kexinit(&mut m, &sc.pre_kexinit) {
        return m;
    }
    if !m.unprotected() {
        return m;
    }
    let guess_wrong: bool = match &negotiated {
        Ok(n) => n.server_guess_wrong,
        Err(e) => false,
    };
    let ghost before = m@;
    receive_kexinit(&mut m, sc, negotiated, strict_eval);
    let items = items(sc);
    receive_after_kexinit(&mut m, sc, &items, guess_wrong);
    m
}

/// A negotiation over sequences.
pub open spec fn negotiation_view(n: Result<Negotiated, NegotiationError>) -> NegotiationView {
    match n {
        Ok(v) => Ok(v@),
        Err(e) => Err(e@),
    }
}

/// The server KEXINIT was received and negotiated.
fn receive_kexinit(
    m: &mut Model,
    sc: &Scenario,
    negotiated: Result<Negotiated, NegotiationError>,
    strict_eval: StrictKex,
)
    requires
        old(m)@.outcome is None,
    ensures
        final(m)@ == negotiating(old(m)@, sc@, negotiation_view(negotiated), strict_eval),
        final(m)@.facts.unprotected_received == old(m)@.facts.unprotected_received,
        final(m)@.facts.protected_received == old(m)@.facts.protected_received,
{
    reveal(negotiating);
    let was_first: bool = sc.pre_kexinit.len() == 0;
    m.facts.server_seen = true;
    m.facts.kexinit_was_first = Some(was_first);
    match negotiated {
        Err(e) => {
            m.facts.strict = strict_eval;
            m.exact(HandshakeOutcome::NegotiationFailed(e));
        },
        Ok(n) => {
            m.select(n, was_first);
        },
    }
}

} // verus!
