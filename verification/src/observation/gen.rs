//! Observations read from input bytes, with every untrusted field open.

use vstd::prelude::*;
use crate::seqs::{bit, copy_bytes, has_bit, min_int, texts};
use crate::tcp_support::msg_ref::cookie_array;
use crate::tcp_support::types::{
    IdentError, InitialError, InputOverflow, InvalidIdentification, LineTerminator, ObservationOutcome, ObserverStage,
    OwnedIdentification, OwnedKexInit, PacketError, Proposal, ProposalAnomaly, ProposalView, SkippedMessage,
    VersionSupport,
};
use crate::tcp_support::{byte_at, dropped, filled, filler, taken, taken_filled, u16_at, u32_at, Cursor};
use crate::text::{bytes_of, copy_text, lossy_string, text_of};
use crate::wire_core::error::{DecodeError, Field, InvalidEncoding, MessageError};

verus! {

/// The longest raw field.
pub const MAX_RAW_FIELD: usize = 2000;

/// The longest short field.
pub const MAX_SHORT_FIELD: usize = 64;

/// Names that a generated list draws from.
pub const NAMES: [&'static str; 34] = [
    "curve25519-sha256",
    "curve25519-sha256@libssh.org",
    "ecdh-sha2-nistp256",
    "diffie-hellman-group14-sha256",
    "diffie-hellman-group-exchange-sha256",
    "sntrup761x25519-sha512@openssh.com",
    "mlkem768x25519-sha256",
    "ext-info-c",
    "ext-info-s",
    "kex-strict-c-v00@openssh.com",
    "kex-strict-s-v00@openssh.com",
    "ssh-ed25519",
    "rsa-sha2-512",
    "ecdsa-sha2-nistp256",
    "ssh-rsa",
    "aes128-ctr",
    "aes256-gcm@openssh.com",
    "chacha20-poly1305@openssh.com",
    "hmac-sha2-256",
    "hmac-sha2-256-etm@openssh.com",
    "none",
    "zlib",
    "zlib@openssh.com",
    "en-US",
    "x-unknown-method",
    "",
    "a",
    "name,with,commas",
    "quote\"in\"name",
    "back\\slash",
    "ctrl\u{1}char\u{1f}",
    "\u{fc}ber-\u{1F600}",
    "kex-strict-c",
    "kex-strict-s",
];

/// The lists whose emptiness is an anomaly.
pub const LIST_FIELDS: [Field; 8] = [
    Field::KexAlgorithms,
    Field::ServerHostKeyAlgorithms,
    Field::EncryptionClientToServer,
    Field::EncryptionServerToClient,
    Field::MacClientToServer,
    Field::MacServerToClient,
    Field::CompressionClientToServer,
    Field::CompressionServerToClient,
];

/// The fields that a generated fault names.
pub const FAULT_FIELDS: [Field; 6] = [
    Field::Cookie,
    Field::KexAlgorithms,
    Field::CompressionClientToServer,
    Field::ChannelType,
    Field::Description,
    Field::Other,
];

/// A time span.
#[derive(Clone, Copy, Debug, PartialEq, Eq, Structural)]
pub struct Span {
    /// Whole seconds.
    pub secs: u64,
    /// Nanoseconds beyond them, below one second.
    pub nanos: u32,
}

/// A socket address.
#[derive(Debug, PartialEq, Eq)]
pub struct Address<B = Vec<u8>> {
    /// 16 octets; 4 otherwise.
    pub v6: bool,
    /// The octets.
    pub octets: B,
    /// The port.
    pub port: u16,
    /// The scope id of an address of 16 octets.
    pub scope: u32,
}

impl View for Address<Vec<u8>> {
    type V = Address<Seq<u8>>;

    open spec fn view(&self) -> Address<Seq<u8>> {
        Address { v6: self.v6, octets: self.octets@, port: self.port, scope: self.scope }
    }
}

/// The kind of a socket error.
#[derive(Clone, Copy, Debug, PartialEq, Eq, Structural)]
pub enum IoKind {
    ConnectionReset,
    ConnectionAborted,
    BrokenPipe,
    TimedOut,
    Other,
    UnexpectedEof,
    WouldBlock,
    Interrupted,
}

/// How an observation ended.
#[derive(Debug, PartialEq, Eq)]
pub enum ObservationEnd<O = ObservationOutcome, T = String> {
    Observer(O),
    TimedOut,
    Shutdown,
    Io { kind: IoKind, message: T },
}

/// How an observation ended, over sequences.
pub type EndView = ObservationEnd<ObservationOutcome<Seq<u8>, ProposalView>, Seq<char>>;

impl View for ObservationEnd<ObservationOutcome, String> {
    type V = EndView;

    open spec fn view(&self) -> EndView {
        match self {
            ObservationEnd::Observer(o) => ObservationEnd::Observer(o@),
            ObservationEnd::TimedOut => ObservationEnd::TimedOut,
            ObservationEnd::Shutdown => ObservationEnd::Shutdown,
            ObservationEnd::Io { kind, message } => ObservationEnd::Io { kind: *kind, message: message@ },
        }
    }
}

/// A number: by its selector, or from the next eight bytes.
pub open spec fn num_gen(s: Seq<u8>) -> (u64, Seq<u8>) {
    let b = byte_at(s, 0);
    let rest = dropped(s, 1);
    if b == 2 {
        (u32::MAX as u64, rest)
    } else if b == 3 {
        (u64::MAX, rest)
    } else if b == 4 {
        (i64::MAX as u64, rest)
    } else if b == 5 {
        ((u32_at(rest) * 0x1_0000_0000 + u32_at(dropped(rest, 4))) as u64, dropped(dropped(rest, 4), 4))
    } else {
        (b as u64, rest)
    }
}

/// Reads a number.
pub fn num(cur: &mut Cursor<'_>) -> (r: u64)
    ensures
        (r, final(cur)@) == num_gen(old(cur)@),
{
    match cur.u8() {
        2 => u32::MAX as u64,
        3 => u64::MAX,
        4 => i64::MAX as u64,
        5 => {
            let hi: u64 = cur.u32() as u64;
            let lo: u64 = cur.u32() as u64;
            hi * 0x1_0000_0000 + lo
        },
        b => b as u64,
    }
}

/// A number cut off at the largest size.
pub open spec fn size_gen(s: Seq<u8>) -> (usize, Seq<u8>) {
    (min_int(num_gen(s).0 as int, usize::MAX as int) as usize, num_gen(s).1)
}

/// Reads a size.
pub fn usize_num(cur: &mut Cursor<'_>) -> (r: usize)
    ensures
        (r, final(cur)@) == size_gen(old(cur)@),
{
    let n: u64 = num(cur);
    if n <= usize::MAX as u64 {
        n as usize
    } else {
        usize::MAX
    }
}

/// A time span.
pub open spec fn span_gen(s: Seq<u8>) -> (Span, Seq<u8>) {
    let (secs, rest) = num_gen(s);
    (Span { secs, nanos: (u32_at(rest) % 1_000_000_000) as u32 }, dropped(rest, 4))
}

/// Reads a time span.
pub fn dur(cur: &mut Cursor<'_>) -> (r: Span)
    ensures
        (r, final(cur)@) == span_gen(old(cur)@),
        r.nanos < 1_000_000_000,
{
    let secs: u64 = num(cur);
    let nanos: u32 = cur.u32() % 1_000_000_000;
    Span { secs, nanos }
}

/// A socket address.
pub open spec fn addr_gen(s: Seq<u8>) -> (Address<Seq<u8>>, Seq<u8>) {
    let sel = byte_at(s, 0);
    let s1 = dropped(s, 1);
    let port = u16_at(s1);
    let s2 = dropped(s1, 2);
    if !bit(sel, 1) {
        (Address { v6: false, octets: taken_filled(s2, 4, 1), port, scope: 0 }, dropped(s2, 4))
    } else {
        let s3 = dropped(s2, 16);
        let octets = taken_filled(s2, 16, 2);
        if bit(sel, 2) {
            (Address { v6: true, octets, port, scope: u32_at(s3) }, dropped(s3, 4))
        } else {
            (Address { v6: true, octets, port, scope: 0 }, s3)
        }
    }
}

/// Reads a socket address.
pub fn addr(cur: &mut Cursor<'_>) -> (r: Address)
    ensures
        (r@, final(cur)@) == addr_gen(old(cur)@),
        r.octets@.len() == (if r.v6 { 16int } else { 4 }),
{
    let sel: u8 = cur.u8();
    let port: u16 = cur.u16();
    if !has_bit(sel, 1) {
        let octets = cur.take_filled(4, 1);
        Address { v6: false, octets, port, scope: 0 }
    } else {
        let octets = cur.take_filled(16, 2);
        let scope: u32 = if has_bit(sel, 2) { cur.u32() } else { 0 };
        Address { v6: true, octets, port, scope }
    }
}

/// A byte string of at most `max` bytes: filler, or the next bytes.
pub open spec fn bytes_gen(s: Seq<u8>, max: int) -> (Seq<u8>, Seq<u8>) {
    let len = u16_at(s);
    let rest = dropped(s, 2);
    let n = (len % 0x8000) as int % (max + 1);
    if len >= 0x8000 {
        (filled(n, len as u32), rest)
    } else {
        (taken(rest, n), dropped(rest, n))
    }
}

/// Reads a byte string of at most `max` bytes.
pub fn bytes(cur: &mut Cursor<'_>, max: usize) -> (r: Vec<u8>)
    requires
        max < usize::MAX,
    ensures
        (r@, final(cur)@) == bytes_gen(old(cur)@, max as int),
        r@.len() <= max,
{
    let len: u16 = cur.u16();
    let n: usize = (len % 0x8000) as usize % (max + 1);
    if len >= 0x8000 {
        filler(n, len as u32)
    } else {
        copy_bytes(cur.take(n))
    }
}

/// A text: a byte string decoded.
pub open spec fn text_gen(s: Seq<u8>, max: int) -> (Seq<char>, Seq<u8>) {
    (text_of(bytes_gen(s, max).0), bytes_gen(s, max).1)
}

/// Reads a text.
pub fn text(cur: &mut Cursor<'_>, max: usize) -> (r: String)
    requires
        max < usize::MAX,
    ensures
        (r@, final(cur)@) == text_gen(old(cur)@, max as int),
{
    let b = bytes(cur, max);
    lossy_string(b.as_slice())
}

/// The stage that a byte selects.
pub open spec fn stage_of(sel: u8) -> ObserverStage {
    if sel % 3 == 0 {
        ObserverStage::ClientIdentification
    } else if sel % 3 == 1 {
        ObserverStage::InitialPackets
    } else {
        ObserverStage::Finished
    }
}

/// The code of a stage.
pub open spec fn stage_code(st: ObserverStage) -> &'static str {
    match st {
        ObserverStage::ClientIdentification => "client_identification",
        ObserverStage::InitialPackets => "initial_packets",
        ObserverStage::Finished => "finished",
    }
}

/// A stage in words.
pub open spec fn stage_words(st: ObserverStage) -> &'static str {
    match st {
        ObserverStage::ClientIdentification => "awaiting client identification",
        ObserverStage::InitialPackets => "awaiting client KEXINIT",
        ObserverStage::Finished => "finished",
    }
}

/// The stage that a byte selects, its code, and the stage in words.
pub fn stage(sel: u8) -> (r: (ObserverStage, &'static str, &'static str))
    ensures
        r.0 == stage_of(sel),
        r.1 == stage_code(r.0),
        r.2 == stage_words(r.0),
{
    match sel % 3 {
        0 => (ObserverStage::ClientIdentification, "client_identification", "awaiting client identification"),
        1 => (ObserverStage::InitialPackets, "initial_packets", "awaiting client KEXINIT"),
        _ => (ObserverStage::Finished, "finished", "finished"),
    }
}

/// A client identification: none, a usual one, or one with open fields.
pub open spec fn ident_gen(s: Seq<u8>) -> (Option<OwnedIdentification<Seq<u8>, Seq<char>>>, Seq<u8>) {
    let sel = byte_at(s, 0);
    let s0 = dropped(s, 1);
    if sel % 4 == 0 {
        (None, s0)
    } else if sel % 4 == 1 {
        (
            Some(
                OwnedIdentification {
                    line: bytes_of("SSH-2.0-OpenSSH_9.9 Debian-1"),
                    terminator: LineTerminator::CrLf,
                    protocol_version: "2.0"@,
                    software_version: "OpenSSH_9.9"@,
                    comments: Some(bytes_of("Debian-1")),
                    support: VersionSupport::Ssh2,
                },
            ),
            s0,
        )
    } else {
        let (line, s1) = bytes_gen(s0, MAX_RAW_FIELD as int);
        let (protocol_version, s2) = text_gen(s1, MAX_SHORT_FIELD as int);
        let (software_version, s3) = text_gen(s2, MAX_SHORT_FIELD as int);
        let (comments, s4) = if bit(sel, 8) {
            let (c, s4) = bytes_gen(s3, MAX_RAW_FIELD as int);
            (Some(c), s4)
        } else {
            (None, s3)
        };
        (
            Some(
                OwnedIdentification {
                    line,
                    terminator: if bit(sel, 4) {
                        LineTerminator::Lf
                    } else {
                        LineTerminator::CrLf
                    },
                    protocol_version,
                    software_version,
                    comments,
                    support: if bit(sel, 16) {
                        VersionSupport::Ssh2Compatibility
                    } else {
                        VersionSupport::Ssh2
                    },
                },
            ),
            s4,
        )
    }
}

/// An optional identification over sequences.
pub open spec fn opt_ident(o: Option<OwnedIdentification>) -> Option<OwnedIdentification<Seq<u8>, Seq<char>>> {
    match o {
        Some(i) => Some(i@),
        None => None,
    }
}

/// Reads a client identification.
pub fn gen_ident(cur: &mut Cursor<'_>) -> (r: Option<OwnedIdentification>)
    ensures
        (opt_ident(r), final(cur)@) == ident_gen(old(cur)@),
{
    let sel: u8 = cur.u8();
    match sel % 4 {
        0 => None,
        1 => Some(
            OwnedIdentification {
                line: copy_bytes("SSH-2.0-OpenSSH_9.9 Debian-1".as_bytes()),
                terminator: LineTerminator::CrLf,
                protocol_version: copy_text("2.0"),
                software_version: copy_text("OpenSSH_9.9"),
                comments: Some(copy_bytes("Debian-1".as_bytes())),
                support: VersionSupport::Ssh2,
            },
        ),
        _ => {
            let line = bytes(cur, MAX_RAW_FIELD);
            let protocol_version = text(cur, MAX_SHORT_FIELD);
            let software_version = text(cur, MAX_SHORT_FIELD);
            let comments = if has_bit(sel, 8) {
                Some(bytes(cur, MAX_RAW_FIELD))
            } else {
                None
            };
            let terminator = if has_bit(sel, 4) {
                LineTerminator::Lf
            } else {
                LineTerminator::CrLf
            };
            let support = if has_bit(sel, 16) {
                VersionSupport::Ssh2Compatibility
            } else {
                VersionSupport::Ssh2
            };
            Some(OwnedIdentification { line, terminator, protocol_version, software_version, comments, support })
        },
    }
}

/// One skipped message.
pub open spec fn message_gen(s: Seq<u8>) -> (SkippedMessage<Seq<u8>>, Seq<u8>) {
    let k = byte_at(s, 0);
    let s0 = dropped(s, 1);
    if k % 3 == 0 {
        let (data_len, s1) = size_gen(s0);
        (SkippedMessage::Ignored { data_len }, s1)
    } else if k % 3 == 1 {
        let (message, s1) = bytes_gen(s0, MAX_RAW_FIELD as int);
        let (language_tag, s2) = bytes_gen(s1, MAX_RAW_FIELD as int);
        (SkippedMessage::Debug { always_display: bit(k, 4), message, language_tag }, s2)
    } else {
        (SkippedMessage::Unimplemented { sequence_number: u32_at(s0) }, dropped(s0, 4))
    }
}

/// The first `n` skipped messages.
pub open spec fn messages_gen(s: Seq<u8>, n: nat) -> (Seq<SkippedMessage<Seq<u8>>>, Seq<u8>)
    decreases n,
{
    if n == 0 {
        (Seq::empty(), s)
    } else {
        let (v, s1) = messages_gen(s, (n - 1) as nat);
        let (m, s2) = message_gen(s1);
        (v.push(m), s2)
    }
}

/// Skipped messages over sequences.
pub open spec fn message_views(v: Seq<SkippedMessage>) -> Seq<SkippedMessage<Seq<u8>>> {
    Seq::new(v.len(), |i: int| v[i]@)
}

fn gen_message(cur: &mut Cursor<'_>) -> (r: SkippedMessage)
    ensures
        (r@, final(cur)@) == message_gen(old(cur)@),
{
    let k: u8 = cur.u8();
    match k % 3 {
        0 => SkippedMessage::Ignored { data_len: usize_num(cur) },
        1 => {
            let message = bytes(cur, MAX_RAW_FIELD);
            let language_tag = bytes(cur, MAX_RAW_FIELD);
            SkippedMessage::Debug { always_display: has_bit(k, 4), message, language_tag }
        },
        _ => SkippedMessage::Unimplemented { sequence_number: cur.u32() },
    }
}

/// Reads up to 16 skipped messages.
pub fn gen_messages(cur: &mut Cursor<'_>) -> (r: Vec<SkippedMessage>)
    ensures
        (message_views(r@), final(cur)@) == messages_gen(dropped(old(cur)@, 1), (byte_at(old(cur)@, 0) % 17) as nat),
{
    let n: u8 = cur.u8() % 17;
    let mut out: Vec<SkippedMessage> = Vec::new();
    let ghost s = cur@;
    let mut i: u8 = 0;
    proof {
        assert(message_views(out@) =~= Seq::empty());
    }
    while i < n
        invariant
            i <= n,
            s == dropped(old(cur)@, 1),
            message_views(out@) == messages_gen(s, i as nat).0,
            cur@ == messages_gen(s, i as nat).1,
        decreases n - i,
    {
        let m = gen_message(cur);
        let ghost before = message_views(out@);
        out.push(m);
        proof {
            assert(message_views(out@) =~= before.push(m@));
        }
        i = i + 1;
    }
    out
}

/// One name: an open text, or one of the table.
pub open spec fn name_gen(s: Seq<u8>) -> (Seq<char>, Seq<u8>) {
    let sel = byte_at(s, 0);
    if sel >= 0xC0 {
        text_gen(dropped(s, 1), MAX_SHORT_FIELD as int)
    } else {
        (NAMES@[sel as int % 34]@, dropped(s, 1))
    }
}

/// The first `n` names.
pub open spec fn names_from(s: Seq<u8>, n: nat) -> (Seq<Seq<char>>, Seq<u8>)
    decreases n,
{
    if n == 0 {
        (Seq::empty(), s)
    } else {
        let (v, s1) = names_from(s, (n - 1) as nat);
        let (x, s2) = name_gen(s1);
        (v.push(x), s2)
    }
}

/// A list of at most 8 names.
#[verifier::opaque]
pub open spec fn names_gen(s: Seq<u8>) -> (Seq<Seq<char>>, Seq<u8>) {
    names_from(dropped(s, 1), (byte_at(s, 0) % 9) as nat)
}

/// Reads a list of names.
pub fn gen_names(cur: &mut Cursor<'_>) -> (r: Vec<String>)
    ensures
        (texts(r@), final(cur)@) == names_gen(old(cur)@),
{
    proof {
        reveal(names_gen);
    }
    let n: u8 = cur.u8() % 9;
    let mut out: Vec<String> = Vec::new();
    let ghost s = cur@;
    let mut i: u8 = 0;
    proof {
        assert(texts(out@) =~= Seq::empty());
    }
    while i < n
        invariant
            i <= n,
            s == dropped(old(cur)@, 1),
            texts(out@) == names_from(s, i as nat).0,
            cur@ == names_from(s, i as nat).1,
        decreases n - i,
    {
        let sel: u8 = cur.u8();
        let x = if sel >= 0xC0 {
            text(cur, MAX_SHORT_FIELD)
        } else {
            let names = NAMES;
            copy_text(names[sel as usize % 34])
        };
        let ghost before = texts(out@);
        let ghost t = x@;
        out.push(x);
        proof {
            assert(texts(out@) =~= before.push(t));
        }
        i = i + 1;
    }
    out
}

/// One anomaly.
pub open spec fn anomaly_gen(s: Seq<u8>) -> (ProposalAnomaly, Seq<u8>) {
    let s0 = dropped(s, 1);
    if byte_at(s, 0) % 2 == 1 {
        (ProposalAnomaly::NonzeroReserved(u32_at(s0)), dropped(s0, 4))
    } else {
        (ProposalAnomaly::EmptyAlgorithmList(LIST_FIELDS@[byte_at(s0, 0) as int % 8]), dropped(s0, 1))
    }
}

/// The first `n` anomalies.
pub open spec fn anomalies_gen(s: Seq<u8>, n: nat) -> (Seq<ProposalAnomaly>, Seq<u8>)
    decreases n,
{
    if n == 0 {
        (Seq::empty(), s)
    } else {
        let (v, s1) = anomalies_gen(s, (n - 1) as nat);
        let (x, s2) = anomaly_gen(s1);
        (v.push(x), s2)
    }
}

fn gen_anomalies(cur: &mut Cursor<'_>) -> (r: Vec<ProposalAnomaly>)
    ensures
        (r@, final(cur)@) == anomalies_gen(dropped(old(cur)@, 1), (byte_at(old(cur)@, 0) % 5) as nat),
{
    let n: u8 = cur.u8() % 5;
    let mut out: Vec<ProposalAnomaly> = Vec::new();
    let ghost s = cur@;
    let mut i: u8 = 0;
    while i < n
        invariant
            i <= n,
            s == dropped(old(cur)@, 1),
            out@ == anomalies_gen(s, i as nat).0,
            cur@ == anomalies_gen(s, i as nat).1,
        decreases n - i,
    {
        let x = if cur.u8() % 2 == 1 {
            ProposalAnomaly::NonzeroReserved(cur.u32())
        } else {
            let fields = LIST_FIELDS;
            ProposalAnomaly::EmptyAlgorithmList(fields[cur.u8() as usize % 8])
        };
        out.push(x);
        i = i + 1;
    }
    out
}

/// A KEXINIT with open lists.
#[verifier::opaque]
pub open spec fn kexinit_gen(s: Seq<u8>) -> (OwnedKexInit<Seq<u8>, Seq<Seq<char>>>, Seq<u8>) {
    let s0 = dropped(s, 16);
    let (kex_algorithms, s1) = names_gen(s0);
    let (server_host_key_algorithms, s2) = names_gen(s1);
    let (encryption_client_to_server, s3) = names_gen(s2);
    let (encryption_server_to_client, s4) = names_gen(s3);
    let (mac_client_to_server, s5) = names_gen(s4);
    let (mac_server_to_client, s6) = names_gen(s5);
    let (compression_client_to_server, s7) = names_gen(s6);
    let (compression_server_to_client, s8) = names_gen(s7);
    let (languages_client_to_server, s9) = names_gen(s8);
    let (languages_server_to_client, s10) = names_gen(s9);
    let s11 = dropped(s10, 1);
    (
        OwnedKexInit {
            cookie: taken_filled(s, 16, 5),
            kex_algorithms,
            server_host_key_algorithms,
            encryption_client_to_server,
            encryption_server_to_client,
            mac_client_to_server,
            mac_server_to_client,
            compression_client_to_server,
            compression_server_to_client,
            languages_client_to_server,
            languages_server_to_client,
            first_kex_packet_follows: byte_at(s10, 0) % 2 == 1,
            reserved: u32_at(s11),
        },
        dropped(s11, 4),
    )
}

fn gen_kexinit(cur: &mut Cursor<'_>) -> (r: OwnedKexInit)
    ensures
        (r@, final(cur)@) == kexinit_gen(old(cur)@),
{
    let cookie = cookie_array(cur.take_filled(16, 5).as_slice());
    let kex_algorithms = gen_names(cur);
    let server_host_key_algorithms = gen_names(cur);
    let encryption_client_to_server = gen_names(cur);
    let encryption_server_to_client = gen_names(cur);
    let mac_client_to_server = gen_names(cur);
    let mac_server_to_client = gen_names(cur);
    let compression_client_to_server = gen_names(cur);
    let compression_server_to_client = gen_names(cur);
    let languages_client_to_server = gen_names(cur);
    let languages_server_to_client = gen_names(cur);
    let first_kex_packet_follows: bool = cur.u8() % 2 == 1;
    let reserved: u32 = cur.u32();
    proof {
        reveal(kexinit_gen);
    }
    OwnedKexInit {
        cookie,
        kex_algorithms,
        server_host_key_algorithms,
        encryption_client_to_server,
        encryption_server_to_client,
        mac_client_to_server,
        mac_server_to_client,
        compression_client_to_server,
        compression_server_to_client,
        languages_client_to_server,
        languages_server_to_client,
        first_kex_packet_follows,
        reserved,
    }
}

/// A proposal with open lists.
pub open spec fn proposal_gen(s: Seq<u8>) -> (ProposalView, Seq<u8>) {
    let (kexinit, s1) = kexinit_gen(s);
    let (anomalies, s2) = anomalies_gen(dropped(s1, 1), (byte_at(s1, 0) % 5) as nat);
    let (unexamined_bytes, s3) = size_gen(dropped(s2, 2));
    (
        Proposal {
            kexinit,
            raw_payload: filled(u16_at(s2) as int % (MAX_RAW_FIELD + 1), 9),
            anomalies,
            unexamined_bytes,
        },
        s3,
    )
}

/// Reads a proposal.
pub fn gen_proposal(cur: &mut Cursor<'_>) -> (r: Proposal)
    ensures
        (r@, final(cur)@) == proposal_gen(old(cur)@),
{
    let kexinit = gen_kexinit(cur);
    let anomalies = gen_anomalies(cur);
    let payload_len: usize = cur.u16() as usize % (MAX_RAW_FIELD + 1);
    let raw_payload = filler(payload_len, 9);
    let unexamined_bytes: usize = usize_num(cur);
    Proposal { kexinit, raw_payload, anomalies, unexamined_bytes }
}

/// A fault of an identification.
pub open spec fn ident_fault(sel: u8, s: Seq<u8>) -> (IdentError, Seq<u8>) {
    if sel == 0 {
        (IdentError::PreludeLineTooLong, s)
    } else if sel == 1 {
        (IdentError::TooManyPreludeLines, s)
    } else if sel == 2 {
        (IdentError::PreludeBytesExceeded, s)
    } else if sel == 3 {
        (IdentError::IdentificationTooLong, s)
    } else if sel == 4 {
        let k = byte_at(s, 0) % 4;
        (
            IdentError::InvalidIdentification(
                if k == 0 {
                    InvalidIdentification::MissingSeparator
                } else if k == 1 {
                    InvalidIdentification::BadProtocolVersion
                } else if k == 2 {
                    InvalidIdentification::BadSoftwareVersion
                } else {
                    InvalidIdentification::ControlCharacter
                },
            ),
            dropped(s, 1),
        )
    } else {
        (IdentError::UnsupportedVersion, s)
    }
}

fn gen_ident_fault(cur: &mut Cursor<'_>, sel: u8) -> (r: IdentError)
    ensures
        (r, final(cur)@) == ident_fault(sel, old(cur)@),
{
    match sel {
        0 => IdentError::PreludeLineTooLong,
        1 => IdentError::TooManyPreludeLines,
        2 => IdentError::PreludeBytesExceeded,
        3 => IdentError::IdentificationTooLong,
        4 => IdentError::InvalidIdentification(
            match cur.u8() % 4 {
                0 => InvalidIdentification::MissingSeparator,
                1 => InvalidIdentification::BadProtocolVersion,
                2 => InvalidIdentification::BadSoftwareVersion,
                _ => InvalidIdentification::ControlCharacter,
            },
        ),
        _ => IdentError::UnsupportedVersion,
    }
}

/// A fault of a packet header.
pub open spec fn packet_fault(sel: u8, s: Seq<u8>) -> (PacketError, Seq<u8>) {
    let s1 = dropped(s, 4);
    if sel == 6 {
        (PacketError::TooLarge { packet_length: u32_at(s), limit: u32_at(s1) }, dropped(s1, 4))
    } else if sel == 7 {
        (PacketError::TooSmall { packet_length: u32_at(s) }, s1)
    } else if sel == 8 {
        (PacketError::Misaligned { packet_length: u32_at(s) }, s1)
    } else {
        (PacketError::BadPadding { packet_length: u32_at(s), padding_length: byte_at(s1, 0) }, dropped(s1, 1))
    }
}

fn gen_packet_fault(cur: &mut Cursor<'_>, sel: u8) -> (r: PacketError)
    ensures
        (r, final(cur)@) == packet_fault(sel, old(cur)@),
{
    let packet_length: u32 = cur.u32();
    match sel {
        6 => PacketError::TooLarge { packet_length, limit: cur.u32() },
        7 => PacketError::TooSmall { packet_length },
        8 => PacketError::Misaligned { packet_length },
        _ => PacketError::BadPadding { packet_length, padding_length: cur.u8() },
    }
}

/// A fault of one field.
pub open spec fn field_fault(s: Seq<u8>) -> (DecodeError, Seq<u8>) {
    let k = byte_at(s, 0) % 4;
    let s0 = dropped(s, 1);
    if k == 0 {
        let (needed, s1) = size_gen(s0);
        let (available, s2) = size_gen(s1);
        (DecodeError::Truncated { needed, available }, s2)
    } else if k == 1 {
        let (available, s2) = size_gen(dropped(s0, 4));
        (DecodeError::LengthOverflow { claimed: u32_at(s0), available }, s2)
    } else {
        let (offset, s1) = size_gen(s0);
        (
            DecodeError::InvalidEncoding(
                if k == 2 {
                    InvalidEncoding::NameListNonAscii { offset }
                } else {
                    InvalidEncoding::NameListEmptyName { offset }
                },
            ),
            s1,
        )
    }
}

fn gen_field_fault(cur: &mut Cursor<'_>) -> (r: DecodeError)
    ensures
        (r, final(cur)@) == field_fault(old(cur)@),
{
    match cur.u8() % 4 {
        0 => {
            let needed: usize = usize_num(cur);
            let available: usize = usize_num(cur);
            DecodeError::Truncated { needed, available }
        },
        1 => {
            let claimed: u32 = cur.u32();
            let available: usize = usize_num(cur);
            DecodeError::LengthOverflow { claimed, available }
        },
        2 => DecodeError::InvalidEncoding(InvalidEncoding::NameListNonAscii { offset: usize_num(cur) }),
        _ => DecodeError::InvalidEncoding(InvalidEncoding::NameListEmptyName { offset: usize_num(cur) }),
    }
}

/// A fault of a message.
pub open spec fn message_fault(s: Seq<u8>) -> (MessageError, Seq<u8>) {
    let k = byte_at(s, 0) % 4;
    let s0 = dropped(s, 1);
    if k == 0 {
        (MessageError::Empty, s0)
    } else if k == 1 {
        (
            MessageError::UnexpectedMessage { expected: byte_at(s0, 0), found: byte_at(dropped(s0, 1), 0) },
            dropped(dropped(s0, 1), 1),
        )
    } else if k == 2 {
        let (offset, s1) = size_gen(dropped(s0, 1));
        let (error, s2) = field_fault(s1);
        (MessageError::Field { field: FAULT_FIELDS@[byte_at(s0, 0) as int % 6], offset, error }, s2)
    } else {
        let (count, s1) = size_gen(s0);
        (MessageError::TrailingBytes { count }, s1)
    }
}

fn gen_message_fault(cur: &mut Cursor<'_>) -> (r: MessageError)
    ensures
        (r, final(cur)@) == message_fault(old(cur)@),
{
    match cur.u8() % 4 {
        0 => MessageError::Empty,
        1 => {
            let expected: u8 = cur.u8();
            let found: u8 = cur.u8();
            MessageError::UnexpectedMessage { expected, found }
        },
        2 => {
            let fields = FAULT_FIELDS;
            let field = fields[cur.u8() as usize % 6];
            let offset: usize = usize_num(cur);
            let error = gen_field_fault(cur);
            MessageError::Field { field, offset, error }
        },
        _ => MessageError::TrailingBytes { count: usize_num(cur) },
    }
}

/// A fault before key exchange.
pub open spec fn initial_error_gen(s: Seq<u8>) -> (InitialError, Seq<u8>) {
    let k = byte_at(s, 0) % 17;
    let s0 = dropped(s, 1);
    if k <= 5 {
        (InitialError::Ident(ident_fault(k, s0).0), ident_fault(k, s0).1)
    } else if k <= 9 {
        (InitialError::Packet(packet_fault(k, s0).0), packet_fault(k, s0).1)
    } else if k == 10 {
        (InitialError::EmptyPayload, s0)
    } else if k == 11 {
        let (error, s2) = message_fault(dropped(s0, 1));
        (InitialError::Message { number: byte_at(s0, 0), error }, s2)
    } else if k == 12 {
        (InitialError::UnexpectedMessage { number: byte_at(s0, 0) }, dropped(s0, 1))
    } else if k == 13 {
        (InitialError::UnsupportedTransition { number: byte_at(s0, 0) }, dropped(s0, 1))
    } else if k == 14 {
        (InitialError::PacketBudgetExceeded { limit: size_gen(s0).0 }, size_gen(s0).1)
    } else if k == 15 {
        (InitialError::ByteBudgetExceeded { limit: size_gen(s0).0 }, size_gen(s0).1)
    } else {
        let (capacity, s1) = size_gen(s0);
        let (pending, s2) = size_gen(s1);
        let (offered, s3) = size_gen(s2);
        (InitialError::InputOverflow(InputOverflow { capacity, pending, offered }), s3)
    }
}

/// The stable code of a fault.
pub open spec fn error_code(e: InitialError) -> &'static str {
    match e {
        InitialError::Ident(i) => match i {
            IdentError::PreludeLineTooLong => "ident_prelude_line_too_long",
            IdentError::TooManyPreludeLines => "ident_too_many_prelude_lines",
            IdentError::PreludeBytesExceeded => "ident_prelude_too_large",
            IdentError::IdentificationTooLong => "ident_too_long",
            IdentError::InvalidIdentification(_) => "ident_invalid",
            IdentError::UnsupportedVersion => "ident_unsupported_version",
        },
        InitialError::Packet(_) => "packet_framing",
        InitialError::EmptyPayload => "packet_empty_payload",
        InitialError::Message { .. } => "message_malformed",
        InitialError::UnexpectedMessage { .. } => "message_unexpected",
        InitialError::UnsupportedTransition { .. } => "unsupported_transition",
        InitialError::PacketBudgetExceeded { .. } => "packet_budget_exceeded",
        InitialError::ByteBudgetExceeded { .. } => "byte_budget_exceeded",
        InitialError::InputOverflow(_) => "input_overflow",
    }
}

/// The stable code of a fault.
pub fn code_of(e: InitialError) -> (r: &'static str)
    ensures
        r == error_code(e),
{
    match e {
        InitialError::Ident(i) => match i {
            IdentError::PreludeLineTooLong => "ident_prelude_line_too_long",
            IdentError::TooManyPreludeLines => "ident_too_many_prelude_lines",
            IdentError::PreludeBytesExceeded => "ident_prelude_too_large",
            IdentError::IdentificationTooLong => "ident_too_long",
            IdentError::InvalidIdentification(_) => "ident_invalid",
            IdentError::UnsupportedVersion => "ident_unsupported_version",
        },
        InitialError::Packet(_) => "packet_framing",
        InitialError::EmptyPayload => "packet_empty_payload",
        InitialError::Message { .. } => "message_malformed",
        InitialError::UnexpectedMessage { .. } => "message_unexpected",
        InitialError::UnsupportedTransition { .. } => "unsupported_transition",
        InitialError::PacketBudgetExceeded { .. } => "packet_budget_exceeded",
        InitialError::ByteBudgetExceeded { .. } => "byte_budget_exceeded",
        InitialError::InputOverflow(_) => "input_overflow",
    }
}

/// Reads a fault before key exchange, with its code.
pub fn gen_initial_error(cur: &mut Cursor<'_>) -> (r: (InitialError, &'static str))
    ensures
        (r.0, final(cur)@) == initial_error_gen(old(cur)@),
        r.1 == error_code(r.0),
{
    let k: u8 = cur.u8() % 17;
    let e = if k <= 5 {
        InitialError::Ident(gen_ident_fault(cur, k))
    } else if k <= 9 {
        InitialError::Packet(gen_packet_fault(cur, k))
    } else {
        match k {
            10 => InitialError::EmptyPayload,
            11 => {
                let number: u8 = cur.u8();
                let error = gen_message_fault(cur);
                InitialError::Message { number, error }
            },
            12 => InitialError::UnexpectedMessage { number: cur.u8() },
            13 => InitialError::UnsupportedTransition { number: cur.u8() },
            14 => InitialError::PacketBudgetExceeded { limit: usize_num(cur) },
            15 => InitialError::ByteBudgetExceeded { limit: usize_num(cur) },
            _ => {
                let capacity: usize = usize_num(cur);
                let pending: usize = usize_num(cur);
                let offered: usize = usize_num(cur);
                InitialError::InputOverflow(InputOverflow { capacity, pending, offered })
            },
        }
    };
    (e, code_of(e))
}

} // verus!
