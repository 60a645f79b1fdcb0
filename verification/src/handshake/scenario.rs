//! A generated server: what it says at every point of the exchange, and how
//! it deviates.

use vstd::prelude::*;
use crate::handshake::types::{TrustDecision, TrustSource, UntrustedReason};
use crate::kex_support::lists::{gen_lists, lists_drawn, one_name, Lists, ListsView};
use crate::seqs::{bit, copy_bytes, has_bit, same_bytes, vecs};
use crate::tcp_support::stream_gen::{lemma_joined_short, moderate};
use crate::tcp_support::{at_least_one, byte_at, dropped, taken, taken_filled, u32_at, ChunkMode, Cursor};
use crate::text::{bytes_of, text_of};
use crate::wire_core::bytes::fits_u32;
use crate::wire_core::error::{DecodeError, Field, MessageError};
use crate::wire_core::kex_ref::pair_views;
use crate::wire_core::messages_ref::LIST_COUNT;
use crate::wire_core::namelist_ref::joined;

verus! {

/// How the server identifies itself.
#[derive(Clone, Copy, Debug, PartialEq, Eq, Structural)]
pub enum IdentKind {
    V20,
    V199,
    V20LfOnly,
    V15,
}

/// A message whose body does not decode.
#[derive(Clone, Copy, Debug, PartialEq, Eq, Structural)]
pub enum Mal {
    /// Data length 5 with nothing after.
    Ignore,
    /// No `always_display` byte.
    Debug,
    /// One byte of the sequence number.
    Unimplemented,
    /// Two bytes of the reason code.
    Disconnect,
    /// A trailing byte.
    NewKeys,
    /// Four cookie bytes.
    KexInit,
    /// One extension claimed, one byte present.
    ExtInfo,
    /// Service name length 9 with nothing after.
    ServiceAccept,
}

impl Mal {
    /// The payload of the message.
    pub open spec fn bytes(self) -> Seq<u8> {
        match self {
            Mal::Ignore => seq![2u8, 0, 0, 0, 5],
            Mal::Debug => seq![4u8],
            Mal::Unimplemented => seq![3u8, 0],
            Mal::Disconnect => seq![1u8, 0, 0],
            Mal::NewKeys => seq![21u8, 0],
            Mal::KexInit => seq![20u8, 1, 2, 3, 4],
            Mal::ExtInfo => seq![7u8, 0, 0, 0, 1, 0],
            Mal::ServiceAccept => seq![6u8, 0, 0, 0, 9],
        }
    }

    /// The payload of the message.
    pub fn payload(self) -> (r: Vec<u8>)
        ensures
            r@ == self.bytes(),
    {
        let r: Vec<u8> = match self {
            Mal::Ignore => vec![2, 0, 0, 0, 5],
            Mal::Debug => vec![4],
            Mal::Unimplemented => vec![3, 0],
            Mal::Disconnect => vec![1, 0, 0],
            Mal::NewKeys => vec![21, 0],
            Mal::KexInit => vec![20, 1, 2, 3, 4],
            Mal::ExtInfo => vec![7, 0, 0, 0, 1, 0],
            Mal::ServiceAccept => vec![6, 0, 0, 0, 9],
        };
        proof {
            assert(r@ =~= self.bytes());
        }
        r
    }

    /// The message number.
    pub fn number(self) -> (r: u8)
        ensures
            r == self.bytes()[0],
    {
        match self {
            Mal::Ignore => 2,
            Mal::Debug => 4,
            Mal::Unimplemented => 3,
            Mal::Disconnect => 1,
            Mal::NewKeys => 21,
            Mal::KexInit => 20,
            Mal::ExtInfo => 7,
            Mal::ServiceAccept => 6,
        }
    }

    /// What is wrong with the message.
    pub open spec fn fault(self) -> MessageError {
        match self {
            Mal::Ignore => MessageError::Field {
                field: Field::Data,
                offset: 1,
                error: DecodeError::LengthOverflow { claimed: 5, available: 0 },
            },
            Mal::Debug => MessageError::Field {
                field: Field::AlwaysDisplay,
                offset: 1,
                error: DecodeError::Truncated { needed: 1, available: 0 },
            },
            Mal::Unimplemented => MessageError::Field {
                field: Field::SequenceNumber,
                offset: 1,
                error: DecodeError::Truncated { needed: 4, available: 1 },
            },
            Mal::Disconnect => MessageError::Field {
                field: Field::ReasonCode,
                offset: 1,
                error: DecodeError::Truncated { needed: 4, available: 2 },
            },
            Mal::NewKeys => MessageError::TrailingBytes { count: 1 },
            Mal::KexInit => MessageError::Field {
                field: Field::Cookie,
                offset: 1,
                error: DecodeError::Truncated { needed: 16, available: 4 },
            },
            Mal::ExtInfo => MessageError::Field {
                field: Field::ExtensionCount,
                offset: 1,
                error: DecodeError::LengthOverflow { claimed: 1, available: 1 },
            },
            Mal::ServiceAccept => MessageError::Field {
                field: Field::ServiceName,
                offset: 1,
                error: DecodeError::LengthOverflow { claimed: 9, available: 0 },
            },
        }
    }

    /// The decoder's verdict, from the message layouts.
    pub fn error(self) -> (r: MessageError)
        ensures
            r == self.fault(),
    {
        match self {
            Mal::Ignore => MessageError::Field {
                field: Field::Data,
                offset: 1,
                error: DecodeError::LengthOverflow { claimed: 5, available: 0 },
            },
            Mal::Debug => MessageError::Field {
                field: Field::AlwaysDisplay,
                offset: 1,
                error: DecodeError::Truncated { needed: 1, available: 0 },
            },
            Mal::Unimplemented => MessageError::Field {
                field: Field::SequenceNumber,
                offset: 1,
                error: DecodeError::Truncated { needed: 4, available: 1 },
            },
            Mal::Disconnect => MessageError::Field {
                field: Field::ReasonCode,
                offset: 1,
                error: DecodeError::Truncated { needed: 4, available: 2 },
            },
            Mal::NewKeys => MessageError::TrailingBytes { count: 1 },
            Mal::KexInit => MessageError::Field {
                field: Field::Cookie,
                offset: 1,
                error: DecodeError::Truncated { needed: 16, available: 4 },
            },
            Mal::ExtInfo => MessageError::Field {
                field: Field::ExtensionCount,
                offset: 1,
                error: DecodeError::LengthOverflow { claimed: 1, available: 1 },
            },
            Mal::ServiceAccept => MessageError::Field {
                field: Field::ServiceName,
                offset: 1,
                error: DecodeError::LengthOverflow { claimed: 9, available: 0 },
            },
        }
    }
}

/// An unprotected message the server may interleave.
#[derive(Clone, Debug, PartialEq, Eq)]
pub enum Msg<B = Vec<u8>> {
    Ignore(B),
    Debug { always_display: bool, message: B, language_tag: B },
    Unimplemented(u32),
    Disconnect { reason_code: u32, description: B },
    /// Any other message number with a short body.
    Other(u8),
    /// A second copy of the server KEXINIT.
    KexInitAgain,
    /// A NEWKEYS out of place.
    NewKeys,
    /// A junk KEX_ECDH_REPLY.
    ReplyAgain,
    /// A well-framed packet whose payload does not decode.
    Malformed(Mal),
    /// A well-framed packet with an empty payload.
    Empty,
    /// Four `0xff` bytes: an unframeable length; nothing after it is read.
    BadFrame,
}

/// A message over sequences.
pub type MsgView = Msg<Seq<u8>>;

impl View for Msg<Vec<u8>> {
    type V = MsgView;

    open spec fn view(&self) -> MsgView {
        match self {
            Msg::Ignore(d) => Msg::Ignore(d@),
            Msg::Debug { always_display, message, language_tag } => Msg::Debug {
                always_display: *always_display,
                message: message@,
                language_tag: language_tag@,
            },
            Msg::Unimplemented(s) => Msg::Unimplemented(*s),
            Msg::Disconnect { reason_code, description } => Msg::Disconnect {
                reason_code: *reason_code,
                description: description@,
            },
            Msg::Other(n) => Msg::Other(*n),
            Msg::KexInitAgain => Msg::KexInitAgain,
            Msg::NewKeys => Msg::NewKeys,
            Msg::ReplyAgain => Msg::ReplyAgain,
            Msg::Malformed(m) => Msg::Malformed(*m),
            Msg::Empty => Msg::Empty,
            Msg::BadFrame => Msg::BadFrame,
        }
    }
}

/// Messages over sequences.
pub open spec fn msg_views(v: Seq<Msg>) -> Seq<MsgView> {
    Seq::new(v.len(), |i: int| v[i]@)
}

/// What the server makes of its KEX_ECDH_REPLY.
#[derive(Clone, Copy, Debug, PartialEq, Eq, Structural)]
pub enum Reply {
    Valid,
    WrongSig(u8),
    SigOverWrongHash,
    SigAlgRsa,
    SigTrailing,
    SigShort,
    KsAlgRsa,
    KsKey31,
    KsMalformed,
    QsZero,
    QsShort,
    Trailing,
    Truncated,
}

/// A message of the protected phase.
#[derive(Clone, Debug, PartialEq, Eq)]
pub enum Prot<B = Vec<u8>, P = Vec<(Vec<u8>, Vec<u8>)>> {
    ExtInfo(P),
    ExtInfoTooMany,
    ServiceAccept(B),
    Disconnect { reason_code: u32, description: B },
    KexInit,
    Ignore(B),
    Debug { always_display: bool, message: B, language_tag: B },
    Unimplemented(u32),
    Other(u8),
    Empty,
    Malformed(Mal),
    /// A sealed IGNORE whose clear length field is overwritten with 17:
    /// rejected by the alignment rule before any body is waited for.
    BadLength,
}

/// Name and value pairs over sequences.
pub type PairsView = Seq<(Seq<u8>, Seq<u8>)>;

/// The names of pairs, as text.
pub open spec fn pair_texts(v: PairsView) -> Seq<Seq<char>> {
    Seq::new(v.len(), |i: int| text_of(v[i].0))
}

/// A protected message over sequences.
pub type ProtView = Prot<Seq<u8>, PairsView>;

impl View for Prot<Vec<u8>, Vec<(Vec<u8>, Vec<u8>)>> {
    type V = ProtView;

    open spec fn view(&self) -> ProtView {
        match self {
            Prot::ExtInfo(p) => Prot::ExtInfo(pair_views(p@)),
            Prot::ExtInfoTooMany => Prot::ExtInfoTooMany,
            Prot::ServiceAccept(n) => Prot::ServiceAccept(n@),
            Prot::Disconnect { reason_code, description } => Prot::Disconnect {
                reason_code: *reason_code,
                description: description@,
            },
            Prot::KexInit => Prot::KexInit,
            Prot::Ignore(d) => Prot::Ignore(d@),
            Prot::Debug { always_display, message, language_tag } => Prot::Debug {
                always_display: *always_display,
                message: message@,
                language_tag: language_tag@,
            },
            Prot::Unimplemented(s) => Prot::Unimplemented(*s),
            Prot::Other(n) => Prot::Other(*n),
            Prot::Empty => Prot::Empty,
            Prot::Malformed(m) => Prot::Malformed(*m),
            Prot::BadLength => Prot::BadLength,
        }
    }
}

/// Protected messages over sequences.
pub open spec fn prot_views(v: Seq<Prot>) -> Seq<ProtView> {
    Seq::new(v.len(), |i: int| v[i]@)
}

/// One server and one client configuration.
#[derive(Clone, Debug)]
pub struct Scenario {
    pub rng_seed: u64,
    pub server_secret: [u8; 32],
    pub host_seed: [u8; 32],
    pub advertise_ext_info: bool,
    pub offer_strict_kex: bool,
    pub entropy_fail: bool,
    /// Three packets before the key exchange.
    pub tiny_budget: bool,
    pub prelude: Vec<Vec<u8>>,
    pub ident: IdentKind,
    pub software: &'static str,
    pub pre_kexinit: Vec<Msg>,
    pub server: Lists,
    /// Key-exchange-specific message number sent right after KEXINIT when
    /// `first_kex_packet_follows` is set (the server's "guess", junk body).
    pub guess: Option<u8>,
    pub before_reply: Vec<Msg>,
    pub reply: Reply,
    pub before_newkeys: Vec<Msg>,
    pub send_newkeys: bool,
    pub protected: Vec<Prot>,
    /// `(protected packet index, byte offset selector, xor)`; the offset is
    /// mapped into the body or tag, never the clear length.
    pub tamper: Option<(usize, usize, u8)>,
    pub trust: TrustDecision,
    pub chunk: ChunkMode,
}

/// A scenario over sequences; the chunk schedule by its selector and list.
pub ghost struct ScenarioView {
    pub rng_seed: u64,
    pub server_secret: Seq<u8>,
    pub host_seed: Seq<u8>,
    pub advertise_ext_info: bool,
    pub offer_strict_kex: bool,
    pub entropy_fail: bool,
    pub tiny_budget: bool,
    pub prelude: Seq<Seq<u8>>,
    pub ident: IdentKind,
    pub software: Seq<u8>,
    pub pre_kexinit: Seq<MsgView>,
    pub server: ListsView,
    pub guess: Option<u8>,
    pub before_reply: Seq<MsgView>,
    pub reply: Reply,
    pub before_newkeys: Seq<MsgView>,
    pub send_newkeys: bool,
    pub protected: Seq<ProtView>,
    pub tamper: Option<(usize, usize, u8)>,
    pub trust: TrustDecision,
}

impl View for Scenario {
    type V = ScenarioView;

    open spec fn view(&self) -> ScenarioView {
        ScenarioView {
            rng_seed: self.rng_seed,
            server_secret: self.server_secret@,
            host_seed: self.host_seed@,
            advertise_ext_info: self.advertise_ext_info,
            offer_strict_kex: self.offer_strict_kex,
            entropy_fail: self.entropy_fail,
            tiny_budget: self.tiny_budget,
            prelude: vecs(self.prelude@),
            ident: self.ident,
            software: bytes_of(self.software),
            pre_kexinit: msg_views(self.pre_kexinit@),
            server: self.server@,
            guess: self.guess,
            before_reply: msg_views(self.before_reply@),
            reply: self.reply,
            before_newkeys: msg_views(self.before_newkeys@),
            send_newkeys: self.send_newkeys,
            protected: prot_views(self.protected@),
            tamper: self.tamper,
            trust: self.trust,
        }
    }
}

/// The software versions that servers announce.
pub open spec fn software_text(i: int) -> &'static str {
    if i == 0 {
        "OpenSSH_9.6"
    } else if i == 1 {
        "tatami_0.1.0"
    } else if i == 2 {
        "x"
    } else {
        "Srv_1.0 comments here"
    }
}

fn software(i: u8) -> (r: &'static str)
    ensures
        r == software_text(i as int),
{
    if i == 0 {
        "OpenSSH_9.6"
    } else if i == 1 {
        "tatami_0.1.0"
    } else if i == 2 {
        "x"
    } else {
        "Srv_1.0 comments here"
    }
}

/// The lines that servers send before their identification.
pub open spec fn prelude_text(i: int) -> &'static str {
    if i == 0 {
        "banner"
    } else if i == 1 {
        "Welcome to the diagnostic server"
    } else {
        "x"
    }
}

fn prelude_line(i: u8) -> (r: &'static str)
    ensures
        r == prelude_text(i as int),
{
    if i == 0 {
        "banner"
    } else if i == 1 {
        "Welcome to the diagnostic server"
    } else {
        "x"
    }
}

/// The descriptions in disconnects.
pub open spec fn description_text(i: int) -> &'static str {
    if i == 0 {
        ""
    } else if i == 1 {
        "bye"
    } else {
        "too many"
    }
}

fn description(i: u8) -> (r: &'static str)
    ensures
        r == description_text(i as int),
{
    if i == 0 {
        ""
    } else if i == 1 {
        "bye"
    } else {
        "too many"
    }
}

/// The services that servers accept.
pub open spec fn service_text(i: int) -> &'static str {
    if i == 0 {
        "ssh-userauth"
    } else if i == 1 {
        "ssh-connection"
    } else {
        "ssh-userauth "
    }
}

fn service(i: u8) -> (r: &'static str)
    ensures
        r == service_text(i as int),
{
    if i == 0 {
        "ssh-userauth"
    } else if i == 1 {
        "ssh-connection"
    } else {
        "ssh-userauth "
    }
}

/// The extensions that servers name.
pub open spec fn extension_text(i: int) -> &'static str {
    if i == 0 {
        "server-sig-algs"
    } else if i == 1 {
        "publickey-hostbound@openssh.com"
    } else if i == 2 {
        "ping@openssh.com"
    } else {
        "elevation"
    }
}

fn extension(i: u8) -> (r: &'static str)
    ensures
        r == extension_text(i as int),
{
    if i == 0 {
        "server-sig-algs"
    } else if i == 1 {
        "publickey-hostbound@openssh.com"
    } else if i == 2 {
        "ping@openssh.com"
    } else {
        "elevation"
    }
}

/// The values of `server-sig-algs`.
pub open spec fn sig_algs_text(i: int) -> &'static str {
    if i == 0 {
        "ssh-ed25519"
    } else if i == 1 {
        "ssh-ed25519,rsa-sha2-512"
    } else if i == 2 {
        "a,,b"
    } else {
        ""
    }
}

fn sig_algs(i: u8) -> (r: &'static str)
    ensures
        r == sig_algs_text(i as int),
{
    if i == 0 {
        "ssh-ed25519"
    } else if i == 1 {
        "ssh-ed25519,rsa-sha2-512"
    } else if i == 2 {
        "a,,b"
    } else {
        ""
    }
}

/// Numbers that no phase handles.
pub open spec fn unhandled_number(i: int) -> u8 {
    if i == 0 {
        5
    } else if i == 1 {
        50
    } else if i == 2 {
        80
    } else if i == 3 {
        22
    } else if i == 4 {
        255
    } else {
        60
    }
}

fn unhandled(i: u8) -> (r: u8)
    ensures
        r == unhandled_number(i as int),
{
    if i == 0 {
        5
    } else if i == 1 {
        50
    } else if i == 2 {
        80
    } else if i == 3 {
        22
    } else if i == 4 {
        255
    } else {
        60
    }
}

/// The malformed messages of the unprotected phase.
pub open spec fn plain_mal(i: int) -> Mal {
    if i == 0 {
        Mal::Ignore
    } else if i == 1 {
        Mal::Debug
    } else if i == 2 {
        Mal::Unimplemented
    } else if i == 3 {
        Mal::Disconnect
    } else if i == 4 {
        Mal::NewKeys
    } else {
        Mal::KexInit
    }
}

/// The malformed messages of the protected phase.
pub open spec fn protected_mal(i: int) -> Mal {
    if i == 0 {
        Mal::Ignore
    } else if i == 1 {
        Mal::Debug
    } else if i == 2 {
        Mal::Disconnect
    } else if i == 3 {
        Mal::ExtInfo
    } else {
        Mal::ServiceAccept
    }
}

/// Up to seven bytes of the input, and the input behind them.
pub open spec fn short_gen(s: Seq<u8>) -> (Seq<u8>, Seq<u8>) {
    let n = (byte_at(s, 0) % 8) as int;
    (taken(dropped(s, 1), n), dropped(dropped(s, 1), n))
}

/// Up to seven bytes.
fn short(cur: &mut Cursor<'_>) -> (r: Vec<u8>)
    ensures
        (r@, final(cur)@) == short_gen(old(cur)@),
        r@.len() <= 7,
{
    let n: usize = (cur.u8() % 8) as usize;
    copy_bytes(cur.take(n))
}

/// The disconnect that the input describes: reason code and description.
pub open spec fn disconnect_gen(s: Seq<u8>) -> (u32, Seq<u8>, Seq<u8>) {
    (
        (byte_at(s, 0) % 20) as u32,
        bytes_of(description_text((byte_at(dropped(s, 1), 0) % 3) as int)),
        dropped(dropped(s, 1), 1),
    )
}

/// The unprotected message that the input describes, and the input behind it.
pub open spec fn msg_gen(s0: Seq<u8>) -> (MsgView, Seq<u8>) {
    let k = byte_at(s0, 0) % 11;
    let s = dropped(s0, 1);
    let b = byte_at(s, 0);
    let s1 = dropped(s, 1);
    if k <= 1 {
        let (d, rest) = short_gen(s);
        (Msg::Ignore(d), rest)
    } else if k == 2 {
        let (m, rest) = short_gen(s1);
        (Msg::Debug { always_display: bit(b, 1), message: m, language_tag: Seq::empty() }, rest)
    } else if k == 3 {
        (Msg::Unimplemented(u32_at(s)), dropped(s, 4))
    } else if k == 4 {
        let (reason_code, description, rest) = disconnect_gen(s);
        (Msg::Disconnect { reason_code, description }, rest)
    } else if k == 5 {
        (Msg::Other(unhandled_number((b % 6) as int)), s1)
    } else if k == 6 {
        (Msg::KexInitAgain, s)
    } else if k == 7 {
        (
            if bit(b, 1) {
                Msg::NewKeys
            } else {
                Msg::ReplyAgain
            },
            s1,
        )
    } else if k == 8 {
        (Msg::Malformed(plain_mal((b % 6) as int)), s1)
    } else if k == 9 {
        (Msg::Empty, s)
    } else {
        (Msg::BadFrame, s)
    }
}

/// Lengths that the wire can carry.
pub open spec fn msg_fits(m: MsgView) -> bool {
    match m {
        Msg::Ignore(d) => d.len() <= 0x1_0000,
        Msg::Debug { always_display, message, language_tag } => message.len() <= 0x1_0000 && language_tag.len()
            <= 0x1_0000,
        Msg::Disconnect { reason_code, description } => description.len() <= 0x1_0000,
        _ => true,
    }
}

/// Every message fits.
pub open spec fn msgs_fit(v: Seq<MsgView>) -> bool {
    forall|i: int| 0 <= i < v.len() ==> msg_fits(#[trigger] v[i])
}

proof fn lemma_tables_short()
    ensures
        forall|i: int| (#[trigger] bytes_of(description_text(i))).len() <= 64,
        forall|i: int| (#[trigger] bytes_of(service_text(i))).len() <= 64,
        forall|i: int| (#[trigger] bytes_of(extension_text(i))).len() <= 64,
        forall|i: int| (#[trigger] bytes_of(sig_algs_text(i))).len() <= 64,
        forall|i: int| (#[trigger] bytes_of(prelude_text(i))).len() <= 64,
        forall|i: int| (#[trigger] bytes_of(software_text(i))).len() <= 64,
        bytes_of("hi").len() == 2,
        bytes_of("en").len() == 2,
{
    reveal_strlit("");
    reveal_strlit("bye");
    reveal_strlit("too many");
    reveal_strlit("ssh-userauth");
    reveal_strlit("ssh-connection");
    reveal_strlit("ssh-userauth ");
    reveal_strlit("server-sig-algs");
    reveal_strlit("publickey-hostbound@openssh.com");
    reveal_strlit("ping@openssh.com");
    reveal_strlit("elevation");
    reveal_strlit("ssh-ed25519");
    reveal_strlit("ssh-ed25519,rsa-sha2-512");
    reveal_strlit("a,,b");
    reveal_strlit("banner");
    reveal_strlit("Welcome to the diagnostic server");
    reveal_strlit("x");
    reveal_strlit("OpenSSH_9.6");
    reveal_strlit("tatami_0.1.0");
    reveal_strlit("Srv_1.0 comments here");
    reveal_strlit("hi");
    reveal_strlit("en");
    assert forall|i: int| (#[trigger] bytes_of(description_text(i))).len() <= 64 by {
        crate::text::lemma_ascii_len(description_text(i));
    }
    assert forall|i: int| (#[trigger] bytes_of(service_text(i))).len() <= 64 by {
        crate::text::lemma_ascii_len(service_text(i));
    }
    assert forall|i: int| (#[trigger] bytes_of(extension_text(i))).len() <= 64 by {
        crate::text::lemma_ascii_len(extension_text(i));
    }
    assert forall|i: int| (#[trigger] bytes_of(sig_algs_text(i))).len() <= 64 by {
        crate::text::lemma_ascii_len(sig_algs_text(i));
    }
    assert forall|i: int| (#[trigger] bytes_of(prelude_text(i))).len() <= 64 by {
        crate::text::lemma_ascii_len(prelude_text(i));
    }
    assert forall|i: int| (#[trigger] bytes_of(software_text(i))).len() <= 64 by {
        crate::text::lemma_ascii_len(software_text(i));
    }
    crate::text::lemma_ascii_len("hi");
    crate::text::lemma_ascii_len("en");
}

fn gen_disconnect(cur: &mut Cursor<'_>) -> (r: (u32, Vec<u8>))
    ensures
        (r.0, r.1@, final(cur)@) == disconnect_gen(old(cur)@),
        r.1@.len() <= 64,
{
    let reason_code: u32 = (cur.u8() % 20) as u32;
    let i: u8 = cur.u8() % 3;
    proof {
        lemma_tables_short();
        assert(bytes_of(description_text(i as int)).len() <= 64);
    }
    (reason_code, copy_bytes(description(i).as_bytes()))
}

/// An unprotected message.
pub fn gen_msg(cur: &mut Cursor<'_>) -> (r: Msg)
    ensures
        (r@, final(cur)@) == msg_gen(old(cur)@),
        msg_fits(r@),
{
    let k: u8 = cur.u8() % 11;
    if k <= 1 {
        Msg::Ignore(short(cur))
    } else if k == 2 {
        let always_display: bool = has_bit(cur.u8(), 1);
        let message = short(cur);
        let language_tag: Vec<u8> = Vec::new();
        proof {
            assert(language_tag@ =~= Seq::empty());
        }
        Msg::Debug { always_display, message, language_tag }
    } else if k == 3 {
        Msg::Unimplemented(cur.u32())
    } else if k == 4 {
        let (reason_code, description) = gen_disconnect(cur);
        Msg::Disconnect { reason_code, description }
    } else if k == 5 {
        Msg::Other(unhandled(cur.u8() % 6))
    } else if k == 6 {
        Msg::KexInitAgain
    } else if k == 7 {
        if has_bit(cur.u8(), 1) {
            Msg::NewKeys
        } else {
            Msg::ReplyAgain
        }
    } else if k == 8 {
        let i: u8 = cur.u8() % 6;
        Msg::Malformed(
            match i {
                0 => Mal::Ignore,
                1 => Mal::Debug,
                2 => Mal::Unimplemented,
                3 => Mal::Disconnect,
                4 => Mal::NewKeys,
                _ => Mal::KexInit,
            },
        )
    } else if k == 9 {
        Msg::Empty
    } else {
        Msg::BadFrame
    }
}

/// `n` messages from the input, and the input behind them.
pub open spec fn msgs_gen(s: Seq<u8>, n: int) -> (Seq<MsgView>, Seq<u8>)
    decreases n,
{
    if n <= 0 {
        (Seq::empty(), s)
    } else {
        let (v, s1) = msgs_gen(s, n - 1);
        let (m, s2) = msg_gen(s1);
        (v.push(m), s2)
    }
}

fn gen_msgs(cur: &mut Cursor<'_>, n: u8) -> (r: Vec<Msg>)
    ensures
        (msg_views(r@), final(cur)@) == msgs_gen(old(cur)@, n as int),
        r@.len() == n,
        msgs_fit(msg_views(r@)),
{
    let ghost start = cur@;
    let mut out: Vec<Msg> = Vec::new();
    let mut i: u8 = 0;
    proof {
        assert(msg_views(out@) =~= Seq::empty());
    }
    while i < n
        invariant
            i <= n,
            out@.len() == i,
            (msg_views(out@), cur@) == msgs_gen(start, i as int),
            msgs_fit(msg_views(out@)),
        decreases n - i,
    {
        let ghost before = msg_views(out@);
        let m = gen_msg(cur);
        let ghost v = m@;
        out.push(m);
        i = i + 1;
        proof {
            assert(msg_views(out@) =~= before.push(v));
        }
    }
    out
}

/// The extension that the input describes, and the input behind it.
pub open spec fn pair_gen(s: Seq<u8>) -> ((Seq<u8>, Seq<u8>), Seq<u8>) {
    let i = (byte_at(s, 0) % 4) as int;
    let s1 = dropped(s, 1);
    let name = bytes_of(extension_text(i));
    if name == bytes_of("server-sig-algs") {
        ((name, bytes_of(sig_algs_text((byte_at(s1, 0) % 4) as int))), dropped(s1, 1))
    } else {
        let (v, rest) = short_gen(s1);
        ((name, v), rest)
    }
}

/// `n` extensions from the input, and the input behind them.
pub open spec fn pairs_gen(s: Seq<u8>, n: int) -> (PairsView, Seq<u8>)
    decreases n,
{
    if n <= 0 {
        (Seq::empty(), s)
    } else {
        let (v, s1) = pairs_gen(s, n - 1);
        let (p, s2) = pair_gen(s1);
        (v.push(p), s2)
    }
}

/// The protected message that the input describes, and the input behind it.
pub open spec fn prot_gen(s0: Seq<u8>) -> (ProtView, Seq<u8>) {
    let k = byte_at(s0, 0) % 13;
    let s = dropped(s0, 1);
    let b = byte_at(s, 0);
    let s1 = dropped(s, 1);
    if k <= 1 {
        let (p, rest) = pairs_gen(s1, (b % 4) as int);
        (Prot::ExtInfo(p), rest)
    } else if k == 2 {
        (Prot::ExtInfoTooMany, s)
    } else if k <= 5 {
        (Prot::ServiceAccept(bytes_of(service_text((b % 3) as int))), s1)
    } else if k == 6 {
        let (reason_code, description, rest) = disconnect_gen(s);
        (Prot::Disconnect { reason_code, description }, rest)
    } else if k == 7 {
        (Prot::KexInit, s)
    } else if k == 8 {
        if b % 3 == 0 {
            let (d, rest) = short_gen(s1);
            (Prot::Ignore(d), rest)
        } else if b % 3 == 1 {
            (
                Prot::Debug { always_display: true, message: bytes_of("hi"), language_tag: bytes_of("en") },
                s1,
            )
        } else {
            (Prot::Unimplemented(u32_at(s1)), dropped(s1, 4))
        }
    } else if k == 9 {
        (Prot::Other(unhandled_number((b % 6) as int)), s1)
    } else if k == 10 {
        (Prot::Empty, s)
    } else if k == 11 {
        (Prot::Malformed(protected_mal((b % 5) as int)), s1)
    } else {
        (Prot::BadLength, s)
    }
}

/// Lengths that the wire can carry.
pub open spec fn prot_fits(p: ProtView) -> bool {
    match p {
        Prot::ExtInfo(pairs) => pairs.len() <= 64 && forall|i: int|
            0 <= i < pairs.len() ==> (#[trigger] pairs[i]).0.len() <= 64 && pairs[i].1.len() <= 64,
        Prot::ServiceAccept(n) => n.len() <= 0x1_0000,
        Prot::Ignore(d) => d.len() <= 0x1_0000,
        Prot::Debug { always_display, message, language_tag } => message.len() <= 0x1_0000 && language_tag.len()
            <= 0x1_0000,
        Prot::Disconnect { reason_code, description } => description.len() <= 0x1_0000,
        _ => true,
    }
}

/// Every protected message fits.
pub open spec fn prots_fit(v: Seq<ProtView>) -> bool {
    forall|i: int| 0 <= i < v.len() ==> prot_fits(#[trigger] v[i])
}

fn gen_pair(cur: &mut Cursor<'_>) -> (r: (Vec<u8>, Vec<u8>))
    ensures
        ((r.0@, r.1@), final(cur)@) == pair_gen(old(cur)@),
        r.0@.len() <= 64,
        r.1@.len() <= 64,
{
    proof {
        lemma_tables_short();
    }
    let name = copy_bytes(extension(cur.u8() % 4).as_bytes());
    if same_bytes(name.as_slice(), "server-sig-algs".as_bytes()) {
        let i: u8 = cur.u8() % 4;
        (name, copy_bytes(sig_algs(i).as_bytes()))
    } else {
        let value = short(cur);
        (name, value)
    }
}

fn gen_pairs(cur: &mut Cursor<'_>, n: u8) -> (r: Vec<(Vec<u8>, Vec<u8>)>)
    requires
        n <= 64,
    ensures
        (pair_views(r@), final(cur)@) == pairs_gen(old(cur)@, n as int),
        prot_fits(Prot::ExtInfo(pair_views(r@))),
{
    let ghost start = cur@;
    let mut out: Vec<(Vec<u8>, Vec<u8>)> = Vec::new();
    let mut i: u8 = 0;
    proof {
        assert(pair_views(out@) =~= Seq::empty());
    }
    while i < n
        invariant
            i <= n <= 64,
            out@.len() == i,
            (pair_views(out@), cur@) == pairs_gen(start, i as int),
            prot_fits(Prot::ExtInfo(pair_views(out@))),
        decreases n - i,
    {
        let ghost before = pair_views(out@);
        let p = gen_pair(cur);
        let ghost v = (p.0@, p.1@);
        out.push(p);
        i = i + 1;
        proof {
            assert(pair_views(out@) =~= before.push(v));
        }
    }
    out
}

/// A protected message.
pub fn gen_prot(cur: &mut Cursor<'_>) -> (r: Prot)
    ensures
        (r@, final(cur)@) == prot_gen(old(cur)@),
        prot_fits(r@),
{
    proof {
        lemma_tables_short();
    }
    let k: u8 = cur.u8() % 13;
    if k <= 1 {
        let n: u8 = cur.u8() % 4;
        Prot::ExtInfo(gen_pairs(cur, n))
    } else if k == 2 {
        Prot::ExtInfoTooMany
    } else if k <= 5 {
        Prot::ServiceAccept(copy_bytes(service(cur.u8() % 3).as_bytes()))
    } else if k == 6 {
        let (reason_code, description) = gen_disconnect(cur);
        Prot::Disconnect { reason_code, description }
    } else if k == 7 {
        Prot::KexInit
    } else if k == 8 {
        let b: u8 = cur.u8() % 3;
        if b == 0 {
            Prot::Ignore(short(cur))
        } else if b == 1 {
            Prot::Debug {
                always_display: true,
                message: copy_bytes("hi".as_bytes()),
                language_tag: copy_bytes("en".as_bytes()),
            }
        } else {
            Prot::Unimplemented(cur.u32())
        }
    } else if k == 9 {
        Prot::Other(unhandled(cur.u8() % 6))
    } else if k == 10 {
        Prot::Empty
    } else if k == 11 {
        let i: u8 = cur.u8() % 5;
        Prot::Malformed(
            match i {
                0 => Mal::Ignore,
                1 => Mal::Debug,
                2 => Mal::Disconnect,
                3 => Mal::ExtInfo,
                _ => Mal::ServiceAccept,
            },
        )
    } else {
        Prot::BadLength
    }
}

/// `n` protected messages from the input, and the input behind them.
pub open spec fn prots_gen(s: Seq<u8>, n: int) -> (Seq<ProtView>, Seq<u8>)
    decreases n,
{
    if n <= 0 {
        (Seq::empty(), s)
    } else {
        let (v, s1) = prots_gen(s, n - 1);
        let (m, s2) = prot_gen(s1);
        (v.push(m), s2)
    }
}

fn gen_prots(cur: &mut Cursor<'_>, n: u8) -> (r: Vec<Prot>)
    ensures
        (prot_views(r@), final(cur)@) == prots_gen(old(cur)@, n as int),
        r@.len() == n,
        prots_fit(prot_views(r@)),
{
    let ghost start = cur@;
    let mut out: Vec<Prot> = Vec::new();
    let mut i: u8 = 0;
    proof {
        assert(prot_views(out@) =~= Seq::empty());
    }
    while i < n
        invariant
            i <= n,
            out@.len() == i,
            (prot_views(out@), cur@) == prots_gen(start, i as int),
            prots_fit(prot_views(out@)),
        decreases n - i,
    {
        let ghost before = prot_views(out@);
        let m = gen_prot(cur);
        let ghost v = m@;
        out.push(m);
        i = i + 1;
        proof {
            assert(prot_views(out@) =~= before.push(v));
        }
    }
    out
}

/// Before the real KEXINIT, a copy of it would be the KEXINIT.
pub open spec fn provisional(m: MsgView) -> MsgView {
    if m is KexInitAgain {
        Msg::NewKeys
    } else {
        m
    }
}

/// The position of the first NEWKEYS from `i` on, or the length.
pub open spec fn first_newkeys(v: Seq<MsgView>, i: int) -> int
    decreases v.len() - i,
{
    if i >= v.len() || v[i] is NewKeys {
        i
    } else {
        first_newkeys(v, i + 1)
    }
}

/// The number in eight bytes, least significant first.
pub open spec fn le64(b: Seq<u8>) -> u64 {
    (b[0] + b[1] * 0x100 + b[2] * 0x1_0000 + b[3] * 0x100_0000 + b[4] * 0x1_0000_0000 + b[5] * 0x100_0000_0000
        + b[6] * 0x1_0000_0000_0000 + b[7] * 0x100_0000_0000_0000) as u64
}

fn le_u64(b: &Vec<u8>) -> (r: u64)
    requires
        b@.len() == 8,
    ensures
        r == le64(b@),
{
    b[0] as u64 + b[1] as u64 * 0x100 + b[2] as u64 * 0x1_0000 + b[3] as u64 * 0x100_0000 + b[4] as u64
        * 0x1_0000_0000 + b[5] as u64 * 0x100_0000_0000 + b[6] as u64 * 0x1_0000_0000_0000 + b[7] as u64
        * 0x100_0000_0000_0000
}

/// The 32 bytes of a vector as an array.
pub fn array32(v: &[u8]) -> (r: [u8; 32])
    requires
        v@.len() == 32,
    ensures
        r@ == v@,
{
    let mut r: [u8; 32] = [0; 32];
    let mut i: usize = 0;
    while i < 32
        invariant
            i <= 32,
            v@.len() == 32,
            forall|j: int| 0 <= j < i ==> r@[j] == v@[j],
        decreases 32 - i,
    {
        r[i] = v[i];
        i = i + 1;
    }
    proof {
        assert(r@ =~= v@);
    }
    r
}

/// The identification that a selector stands for.
pub open spec fn ident_kind(k: u8) -> IdentKind {
    if k <= 4 {
        IdentKind::V20
    } else if k == 5 {
        IdentKind::V199
    } else if k == 6 {
        IdentKind::V20LfOnly
    } else {
        IdentKind::V15
    }
}

/// `n` prelude lines from the input, and the input behind them.
pub open spec fn prelude_gen(s: Seq<u8>, n: int) -> (Seq<Seq<u8>>, Seq<u8>)
    decreases n,
{
    if n <= 0 {
        (Seq::empty(), s)
    } else {
        let (v, s1) = prelude_gen(s, n - 1);
        (v.push(bytes_of(prelude_text((byte_at(s1, 0) % 3) as int))), dropped(s1, 1))
    }
}

/// The server's proposal: as drawn, or biased towards one that negotiates.
pub open spec fn biased(l: ListsView, flags: u8) -> ListsView {
    if bit(flags, 0x80) {
        l
    } else {
        let kex = if bit(flags, 0x40) {
            l.kex()
        } else {
            one_name("curve25519-sha256") + l.kex()
        };
        ListsView {
            slots: seq![
                kex,
                one_name("ssh-ed25519"),
                one_name("aes128-gcm@openssh.com"),
                one_name("aes128-gcm@openssh.com"),
                if l.slots[4].len() == 0 {
                    one_name("hmac-sha2-256")
                } else {
                    l.slots[4]
                },
                if l.slots[5].len() == 0 {
                    one_name("hmac-sha2-256")
                } else {
                    l.slots[5]
                },
                one_name("none"),
                one_name("none"),
                l.slots[8],
                l.slots[9],
            ],
            ..l
        }
    }
}

/// The server's guess that a selector stands for.
pub open spec fn guess_of(first: bool, b: u8) -> Option<u8> {
    if first && bit(b, 1) {
        Some((30 + b / 2 % 20) as u8)
    } else {
        None
    }
}

/// The reply that the input describes, and the input behind it.
pub open spec fn reply_gen(s: Seq<u8>) -> (Reply, Seq<u8>) {
    let k = byte_at(s, 0) % 24;
    let s1 = dropped(s, 1);
    if k <= 11 {
        (Reply::Valid, s1)
    } else if k == 12 {
        (Reply::WrongSig(byte_at(s1, 0)), dropped(s1, 1))
    } else if k == 13 {
        (Reply::SigOverWrongHash, s1)
    } else if k == 14 {
        (Reply::SigAlgRsa, s1)
    } else if k == 15 {
        (Reply::SigTrailing, s1)
    } else if k == 16 {
        (Reply::SigShort, s1)
    } else if k == 17 {
        (Reply::KsAlgRsa, s1)
    } else if k == 18 {
        (Reply::KsKey31, s1)
    } else if k == 19 {
        (Reply::KsMalformed, s1)
    } else if k == 20 {
        (Reply::QsZero, s1)
    } else if k == 21 {
        (Reply::QsShort, s1)
    } else if k == 22 {
        (Reply::Trailing, s1)
    } else {
        (Reply::Truncated, s1)
    }
}

/// An odd byte: `b` with its lowest bit set.
pub open spec fn odd(b: u8) -> u8 {
    if b % 2 == 0 {
        (b + 1) as u8
    } else {
        b
    }
}

/// The tampering that the input describes, and the input behind it.
pub open spec fn tamper_gen(s: Seq<u8>, packets: int) -> (Option<(usize, usize, u8)>, Seq<u8>) {
    let s1 = dropped(s, 1);
    if bit(byte_at(s, 0), 1) && packets > 0 {
        let s2 = dropped(s1, 1);
        let s3 = dropped(s2, 1);
        (
            Some(((byte_at(s1, 0) as int % packets) as usize, byte_at(s2, 0) as usize, odd(byte_at(s3, 0)))),
            dropped(s3, 1),
        )
    } else {
        (None, s1)
    }
}

/// The trust decision that a selector stands for.
pub open spec fn trust_of(k: u8) -> TrustDecision {
    if k == 0 {
        TrustDecision::Untrusted { reason: UntrustedReason::FingerprintMismatch }
    } else if k == 1 {
        TrustDecision::Untrusted { reason: UntrustedReason::NoPolicy }
    } else {
        TrustDecision::Trusted { source: TrustSource::PinnedFingerprint }
    }
}

/// The server's parts up to its proposal.
pub open spec fn opening_gen(data: Seq<u8>) -> (ScenarioView, u8, Seq<u8>) {
    let s1 = dropped(dropped(dropped(data, 8), 32), 32);
    let flags = byte_at(s1, 0);
    let s2 = dropped(s1, 1);
    let s3 = dropped(s2, 1);
    let s4 = dropped(s3, 1);
    let (prelude, s5) = prelude_gen(dropped(s4, 1), (byte_at(s4, 0) % 3) as int);
    let (pre, s6) = msgs_gen(dropped(s5, 1), (byte_at(s5, 0) % 3) as int);
    let (server, s7) = lists_drawn(s6);
    (
        ScenarioView {
            rng_seed: le64(taken_filled(data, 8, 1)),
            server_secret: taken_filled(dropped(data, 8), 32, 2),
            host_seed: taken_filled(dropped(dropped(data, 8), 32), 32, 3),
            advertise_ext_info: bit(flags, 1),
            offer_strict_kex: !bit(flags, 2),
            entropy_fail: flags % 16 == 12,
            tiny_budget: flags % 16 == 8,
            prelude,
            ident: ident_kind((byte_at(s2, 0) % 8) as u8),
            software: bytes_of(software_text((byte_at(s3, 0) % 4) as int)),
            pre_kexinit: pre.map_values(|m: MsgView| provisional(m)),
            server: biased(server, flags),
            guess: None,
            before_reply: Seq::empty(),
            reply: Reply::Valid,
            before_newkeys: Seq::empty(),
            send_newkeys: false,
            protected: Seq::empty(),
            tamper: None,
            trust: trust_of(2),
        },
        flags,
        s7,
    )
}

/// The scenario that the input describes, with the selector and the list of
/// its chunk schedule. At most one NEWKEYS follows the reply: one among the
/// messages before it is the server's NEWKEYS, and everything after it would
/// be read as protected.
pub open spec fn scenario_gen(data: Seq<u8>) -> (ScenarioView, u8, Seq<u8>) {
    let (opening, flags, s0) = opening_gen(data);
    let s1 = dropped(s0, 1);
    let (before_reply, s2) = msgs_gen(dropped(s1, 1), (byte_at(s1, 0) % 3) as int);
    let (reply, s3) = reply_gen(s2);
    let (drawn, s4) = msgs_gen(dropped(s3, 1), (byte_at(s3, 0) % 3) as int);
    let cut = first_newkeys(drawn, 0);
    let s5 = dropped(s4, 1);
    let (protected, s6) = prots_gen(dropped(s5, 1), (byte_at(s5, 0) % 5) as int);
    let (tamper, s7) = tamper_gen(s6, protected.len() as int);
    let s8 = dropped(s7, 1);
    (
        ScenarioView {
            guess: guess_of(opening.server.first, byte_at(s0, 0)),
            before_reply,
            reply,
            before_newkeys: drawn.take(cut),
            send_newkeys: cut < drawn.len() || byte_at(s4, 0) % 8 != 0,
            protected,
            tamper,
            trust: trust_of((byte_at(s7, 0) % 6) as u8),
            ..opening
        },
        (flags / 16) as u8,
        taken(dropped(s8, 1), (byte_at(s8, 0) % 8) as int),
    )
}

/// The schedule is the one that a selector and a list stand for.
pub open spec fn chunk_is(c: ChunkMode, sel: u8, list: Seq<u8>) -> bool {
    &&& sel % 4 == 0 && list.len() > 0 ==> (c matches ChunkMode::List(l) && l@.len() == list.len() && forall|
        i: int,
    |
        0 <= i < list.len() ==> #[trigger] l@[i] == at_least_one(list[i] as int))
    &&& sel % 4 == 0 && list.len() == 0 ==> c == ChunkMode::Fixed(3)
    &&& sel % 4 == 1 ==> c == ChunkMode::Fixed(3)
    &&& sel % 4 == 2 ==> c == ChunkMode::Fixed(64)
    &&& sel % 4 == 3 ==> c == ChunkMode::Fixed(7)
}

/// What every generated scenario keeps.
pub open spec fn scenario_wf(sc: ScenarioView) -> bool {
    &&& sc.server_secret.len() == 32
    &&& sc.host_seed.len() == 32
    &&& sc.server.fits()
    &&& sc.server.slots.len() == LIST_COUNT
    &&& forall|i: int| 0 <= i < LIST_COUNT ==> moderate(#[trigger] sc.server.slots[i], 5)
    &&& sc.server.cookie.len() == 16
    &&& msgs_fit(sc.pre_kexinit)
    &&& msgs_fit(sc.before_reply)
    &&& msgs_fit(sc.before_newkeys)
    &&& prots_fit(sc.protected)
    &&& sc.software.len() <= 64
    &&& sc.prelude.len() <= 2
    &&& forall|i: int| 0 <= i < sc.prelude.len() ==> (#[trigger] sc.prelude[i]).len() <= 64
    &&& sc.pre_kexinit.len() <= 2 && sc.before_reply.len() <= 2 && sc.before_newkeys.len() <= 2
    &&& sc.protected.len() <= 4
    &&& forall|i: int| 0 <= i < sc.before_newkeys.len() ==> !(#[trigger] sc.before_newkeys[i] is NewKeys)
    &&& forall|i: int| 0 <= i < sc.pre_kexinit.len() ==> !(#[trigger] sc.pre_kexinit[i] is KexInitAgain)
    &&& sc.tamper matches Some(t) ==> t.0 < sc.protected.len() && t.2 % 2 == 1
    &&& sc.guess matches Some(g) ==> 30 <= g <= 49 && sc.server.first
}

fn gen_prelude(cur: &mut Cursor<'_>, n: u8) -> (r: Vec<Vec<u8>>)
    ensures
        (vecs(r@), final(cur)@) == prelude_gen(old(cur)@, n as int),
        r@.len() == n,
        forall|i: int| 0 <= i < r@.len() ==> (#[trigger] vecs(r@)[i]).len() <= 64,
{
    let ghost start = cur@;
    let mut out: Vec<Vec<u8>> = Vec::new();
    let mut i: u8 = 0;
    proof {
        assert(vecs(out@) =~= Seq::empty());
    }
    while i < n
        invariant
            i <= n,
            out@.len() == i,
            (vecs(out@), cur@) == prelude_gen(start, i as int),
            forall|j: int| 0 <= j < out@.len() ==> (#[trigger] vecs(out@)[j]).len() <= 64,
        decreases n - i,
    {
        let ghost before = vecs(out@);
        let k: u8 = cur.u8() % 3;
        let line = copy_bytes(prelude_line(k).as_bytes());
        proof {
            lemma_tables_short();
            assert(bytes_of(prelude_text(k as int)).len() <= 64);
        }
        let ghost v = line@;
        out.push(line);
        i = i + 1;
        proof {
            assert(vecs(out@) =~= before.push(v));
        }
    }
    out
}

fn single(name: &'static str) -> (r: Vec<Vec<u8>>)
    ensures
        vecs(r@) == one_name(name),
{
    let mut v: Vec<Vec<u8>> = Vec::new();
    v.push(copy_bytes(name.as_bytes()));
    proof {
        assert(vecs(v@) =~= one_name(name));
    }
    v
}

proof fn lemma_one_moderate(name: &str, n: int)
    requires
        n >= 1,
        name@.len() > 0,
        name@.len() <= 64,
        crate::text::name_chars(name@, 0),
    ensures
        moderate(one_name(name), n),
{
    crate::text::lemma_name_literal(name);
    assert(one_name(name)[0] == bytes_of(name));
}

proof fn lemma_profile_moderate()
    ensures
        moderate(one_name("curve25519-sha256"), 1),
        moderate(one_name("ssh-ed25519"), 5),
        moderate(one_name("aes128-gcm@openssh.com"), 5),
        moderate(one_name("hmac-sha2-256"), 5),
        moderate(one_name("none"), 5),
{
    reveal_with_fuel(crate::text::name_chars, 30);
    reveal_strlit("curve25519-sha256");
    lemma_one_moderate("curve25519-sha256", 1);
    reveal_strlit("ssh-ed25519");
    lemma_one_moderate("ssh-ed25519", 5);
    reveal_strlit("aes128-gcm@openssh.com");
    lemma_one_moderate("aes128-gcm@openssh.com", 5);
    reveal_strlit("hmac-sha2-256");
    lemma_one_moderate("hmac-sha2-256", 5);
    reveal_strlit("none");
    lemma_one_moderate("none", 5);
}

/// Biases a proposal towards one that negotiates: the interesting paths are
/// behind a successful negotiation.
fn bias(server: &mut Lists, flags: u8)
    requires
        forall|i: int| 0 <= i < LIST_COUNT ==> moderate(#[trigger] old(server)@.slots[i], 4),
    ensures
        final(server)@ == biased(old(server)@, flags),
        final(server)@.fits(),
        forall|i: int| 0 <= i < LIST_COUNT ==> moderate(#[trigger] final(server)@.slots[i], 5),
{
    let ghost before = server@;
    if !has_bit(flags, 0x80) {
        if !has_bit(flags, 0x40) {
            let ghost kex = vecs(server.kex@);
            server.kex.insert(0, copy_bytes("curve25519-sha256".as_bytes()));
            proof {
                assert(vecs(server.kex@) =~= one_name("curve25519-sha256") + kex);
            }
        }
        server.host_key = single("ssh-ed25519");
        server.enc_c2s = single("aes128-gcm@openssh.com");
        server.enc_s2c = single("aes128-gcm@openssh.com");
        server.comp_c2s = single("none");
        server.comp_s2c = single("none");
        if server.mac_c2s.len() == 0 {
            server.mac_c2s = single("hmac-sha2-256");
        }
        if server.mac_s2c.len() == 0 {
            server.mac_s2c = single("hmac-sha2-256");
        }
    }
    proof {
        lemma_profile_moderate();
        assert(server@.slots =~= biased(before, flags).slots);
        assert forall|i: int| 0 <= i < LIST_COUNT implies moderate(#[trigger] server@.slots[i], 5) by {
            assert(moderate(before.slots[i], 4));
            if i == 0 {
                let a = one_name("curve25519-sha256");
                let k = a + before.kex();
                assert forall|j: int| 0 <= j < k.len() implies crate::wire_core::namelist_ref::valid_name(
                    #[trigger] k[j],
                ) && k[j].len() <= crate::tcp_support::stream_gen::MAX_NAME by {
                    if j < a.len() {
                        assert(k[j] == a[j]);
                    } else {
                        assert(k[j] == before.kex()[j - a.len()]);
                    }
                }
            }
        }
        assert forall|i: int| 0 <= i < server@.slots.len() implies fits_u32(joined(#[trigger] server@.slots[i])) by {
            assert(moderate(server@.slots[i], 5));
            lemma_joined_short(server@.slots[i]);
        }
    }
}

fn gen_reply(cur: &mut Cursor<'_>) -> (r: Reply)
    ensures
        (r, final(cur)@) == reply_gen(old(cur)@),
{
    let k: u8 = cur.u8() % 24;
    if k <= 11 {
        Reply::Valid
    } else if k == 12 {
        Reply::WrongSig(cur.u8())
    } else if k == 13 {
        Reply::SigOverWrongHash
    } else if k == 14 {
        Reply::SigAlgRsa
    } else if k == 15 {
        Reply::SigTrailing
    } else if k == 16 {
        Reply::SigShort
    } else if k == 17 {
        Reply::KsAlgRsa
    } else if k == 18 {
        Reply::KsKey31
    } else if k == 19 {
        Reply::KsMalformed
    } else if k == 20 {
        Reply::QsZero
    } else if k == 21 {
        Reply::QsShort
    } else if k == 22 {
        Reply::Trailing
    } else {
        Reply::Truncated
    }
}

fn gen_tamper(cur: &mut Cursor<'_>, packets: usize) -> (r: Option<(usize, usize, u8)>)
    ensures
        (r, final(cur)@) == tamper_gen(old(cur)@, packets as int),
        r matches Some(t) ==> t.0 < packets && t.2 % 2 == 1,
{
    let b: u8 = cur.u8();
    if has_bit(b, 1) && packets > 0 {
        let index: usize = cur.u8() as usize % packets;
        let offset: usize = cur.u8() as usize;
        let x: u8 = cur.u8();
        let xor: u8 = if x % 2 == 0 { x + 1 } else { x };
        Some((index, offset, xor))
    } else {
        None
    }
}

fn is_newkeys(m: &Msg) -> (r: bool)
    ensures
        r == (m@ is NewKeys),
{
    match m {
        Msg::NewKeys => true,
        _ => false,
    }
}

proof fn lemma_first_newkeys(v: Seq<MsgView>, from: int, end: int)
    requires
        0 <= from <= end <= v.len(),
        forall|j: int| from <= j < end ==> !(#[trigger] v[j] is NewKeys),
        end == v.len() || v[end] is NewKeys,
    ensures
        first_newkeys(v, from) == end,
    decreases end - from,
{
    if from < end {
        assert(!(v[from] is NewKeys));
        lemma_first_newkeys(v, from + 1, end);
    }
}

/// Cuts a list of messages at its first NEWKEYS; whether there was one.
fn cut_at_newkeys(v: &mut Vec<Msg>) -> (r: bool)
    ensures
        msg_views(final(v)@) == msg_views(old(v)@).take(first_newkeys(msg_views(old(v)@), 0)),
        r == (first_newkeys(msg_views(old(v)@), 0) < old(v)@.len()),
        forall|i: int| 0 <= i < final(v)@.len() ==> !(#[trigger] msg_views(final(v)@)[i] is NewKeys),
        final(v)@.len() <= old(v)@.len(),
        msgs_fit(msg_views(old(v)@)) ==> msgs_fit(msg_views(final(v)@)),
{
    let ghost all = msg_views(v@);
    let mut i: usize = 0;
    while i < v.len() && !is_newkeys(&v[i])
        invariant
            i <= v@.len(),
            all == msg_views(v@),
            v@ == old(v)@,
            forall|j: int| 0 <= j < i ==> !(#[trigger] all[j] is NewKeys),
        decreases v@.len() - i,
    {
        i = i + 1;
    }
    proof {
        lemma_first_newkeys(all, 0, i as int);
    }
    let found: bool = i < v.len();
    v.truncate(i);
    proof {
        assert(msg_views(v@) =~= all.take(i as int));
    }
    found
}

/// Replaces copies of the KEXINIT, which would be the KEXINIT.
fn make_provisional(v: Vec<Msg>) -> (r: Vec<Msg>)
    ensures
        msg_views(r@) == msg_views(v@).map_values(|m: MsgView| provisional(m)),
        r@.len() == v@.len(),
        msgs_fit(msg_views(v@)) ==> msgs_fit(msg_views(r@)),
        forall|i: int| 0 <= i < r@.len() ==> !(#[trigger] msg_views(r@)[i] is KexInitAgain),
{
    let ghost all = msg_views(v@);
    let mut v = v;
    let mut i: usize = 0;
    while i < v.len()
        invariant
            i <= v@.len(),
            v@.len() == all.len(),
            forall|j: int| 0 <= j < i ==> (#[trigger] v@[j])@ == provisional(all[j]),
            forall|j: int| i <= j < v@.len() ==> (#[trigger] v@[j])@ == all[j],
        decreases v@.len() - i,
    {
        let again: bool = match &v[i] {
            Msg::KexInitAgain => true,
            _ => false,
        };
        if again {
            v.set(i, Msg::NewKeys);
        }
        i = i + 1;
    }
    proof {
        assert(msg_views(v@) =~= all.map_values(|m: MsgView| provisional(m)));
        assert forall|j: int| 0 <= j < v@.len() implies !(#[trigger] msg_views(v@)[j] is KexInitAgain) by {
            assert(msg_views(v@)[j] == provisional(all[j]));
        }
        if msgs_fit(all) {
            assert forall|j: int| 0 <= j < v@.len() implies msg_fits(#[trigger] msg_views(v@)[j]) by {
                assert(msg_fits(all[j]));
                assert(msg_views(v@)[j] == provisional(all[j]));
            }
        }
    }
    v
}

/// The server and the client configuration that the input describes.
///
/// Layout: rng seed 8, server secret 32, host seed 32, flags (bit 0
/// `ext-info-c`, bit 1 clear = offer strict kex, bits 4-5 chunk schedule, bit
/// 6 no `curve25519-sha256` bias, bit 7 proposal as drawn; low nibble 8 =
/// budget of three packets, 12 = entropy failure only), identification kind
/// and software index, prelude count and indices, messages before KEXINIT,
/// the proposal, guess, messages before the reply, reply variant, messages
/// before NEWKEYS, protected messages, tampering, trust, chunk schedule.
#[verifier::rlimit(40)]
pub fn gen_scenario(data: &[u8]) -> (r: Scenario)
    ensures
        r@ == scenario_gen(data@).0,
        chunk_is(r.chunk, scenario_gen(data@).1, scenario_gen(data@).2),
        scenario_wf(r@),
{
    let mut cur = Cursor::new(data);
    let rng_seed: u64 = le_u64(&cur.take_filled(8, 1));
    let server_secret = array32(cur.take_filled(32, 2).as_slice());
    let host_seed = array32(cur.take_filled(32, 3).as_slice());
    let flags: u8 = cur.u8();
    let k: u8 = cur.u8() % 8;
    let ident = if k <= 4 {
        IdentKind::V20
    } else if k == 5 {
        IdentKind::V199
    } else if k == 6 {
        IdentKind::V20LfOnly
    } else {
        IdentKind::V15
    };
    let software_index: u8 = cur.u8() % 4;
    let software = software(software_index);
    let n: u8 = cur.u8() % 3;
    let prelude = gen_prelude(&mut cur, n);
    let n: u8 = cur.u8() % 3;
    let pre_kexinit = make_provisional(gen_msgs(&mut cur, n));
    let mut server = gen_lists(&mut cur);
    bias(&mut server, flags);
    let ghost (opening, gflags, s0) = opening_gen(data@);
    proof {
        assert(cur@ == s0);
        assert(gflags == flags);
        assert(server@ == opening.server);
        assert(msg_views(pre_kexinit@) == opening.pre_kexinit);
        assert(vecs(prelude@) == opening.prelude);
        lemma_tables_short();
        assert(bytes_of(software_text(software_index as int)).len() <= 64);
    }
    let b: u8 = cur.u8();
    let guess: Option<u8> = if server.first_kex_packet_follows && has_bit(b, 1) {
        Some(30 + b / 2 % 20)
    } else {
        None
    };
    let n: u8 = cur.u8() % 3;
    let before_reply = gen_msgs(&mut cur, n);
    let reply = gen_reply(&mut cur);
    let n: u8 = cur.u8() % 3;
    let mut before_newkeys = gen_msgs(&mut cur, n);
    let mut send_newkeys: bool = cur.u8() % 8 != 0;
    if cut_at_newkeys(&mut before_newkeys) {
        send_newkeys = true;
    }
    let n: u8 = cur.u8() % 5;
    let protected = gen_prots(&mut cur, n);
    let tamper = gen_tamper(&mut cur, protected.len());
    let k: u8 = cur.u8() % 6;
    let trust = if k == 0 {
        TrustDecision::Untrusted { reason: UntrustedReason::FingerprintMismatch }
    } else if k == 1 {
        TrustDecision::Untrusted { reason: UntrustedReason::NoPolicy }
    } else {
        TrustDecision::Trusted { source: TrustSource::PinnedFingerprint }
    };
    let n: usize = (cur.u8() % 8) as usize;
    let schedule = cur.take(n);
    let chunk = ChunkMode::from_selector(flags / 16, schedule);
    Scenario {
        rng_seed,
        server_secret,
        host_seed,
        advertise_ext_info: has_bit(flags, 1),
        offer_strict_kex: !has_bit(flags, 2),
        entropy_fail: flags % 16 == 12,
        tiny_budget: flags % 16 == 8,
        prelude,
        ident,
        software,
        pre_kexinit,
        server,
        guess,
        before_reply,
        reply,
        before_newkeys,
        send_newkeys,
        protected,
        tamper,
        trust,
        chunk,
    }
}

} // verus!
