//! The report of a handshake as JSON and as text: the reports that input bytes
//! ask for, and whether what is written of them is right.

use vstd::prelude::*;
use crate::handshake::report::HandshakeReport;
use crate::handshake::scenario::array32;
use crate::handshake::types::{HandshakeOutcome, LimitKind, OutcomeView, Phase, ProtocolViolation, UntrustedReason};
use crate::kex_support::negotiate_ref::{error_code, Direction, NegotiationError};
use crate::key_blobs::{fingerprint_of, fingerprint_text};
use crate::observation::check::{field_is, field_text, record_of};
use crate::observation::gen::{Address, IoKind};
use crate::observation::record::text_node;
use crate::seqs::{bit, contains_bytes, copy_bytes, has_bit, min_int, occurs, push_all};
use crate::state_support::json_parse::{
    entries_of, meant, parse, same_or_null, value_as_array, value_as_object, value_get,
};
use crate::state_support::json_ref::Node;
use crate::state_support::json_serde::{at, given, json, value_json, Json};
use crate::state_support::record_ref::{is_listed, listed};
use crate::tcp_support::types::InputOverflow;
use crate::tcp_support::{byte_at, dropped, taken, taken_filled, u16_at, Cursor};
use crate::text::{bytes_of, chars_of, copy_text, string_from_chars};
use crate::wire_core::error::Field;

verus! {

/// The codes of all completions.
pub const OUTCOME_CODES: [&'static str; 17] = [
    "completed",
    "host_not_trusted",
    "signature_invalid",
    "negotiation_failed",
    "strict_kex_violation",
    "protocol_error",
    "server_disconnected",
    "rekey_not_supported",
    "unexpected_message",
    "tag_mismatch",
    "eof",
    "input_overflow",
    "limit",
    "timed_out",
    "io_error",
    "connect_failed",
    "not_started",
];

/// The codes of all phases.
pub const PHASE_CODES: [&'static str; 7] = [
    "server_identification",
    "server_kexinit",
    "kex_ecdh_reply",
    "trust_decision",
    "server_newkeys",
    "service",
    "finished",
];

/// Every key that a report may hold, at any level.
pub const ALLOWED_KEYS: [&'static str; 87] = [
    "schema",
    "event",
    "target",
    "peer",
    "local",
    "pinned_fingerprint_sha256",
    "phase",
    "client_identification",
    "server_prelude_lines",
    "server_identification",
    "skipped_messages",
    "advertised",
    "selected",
    "strict_kex",
    "kexinit_was_first_packet",
    "server_guess_discarded",
    "host_key",
    "fingerprint_sha256",
    "host_key_signature_valid",
    "signature_error",
    "trust_policy",
    "host_trusted",
    "trust_source",
    "untrusted_reason",
    "key_exchange_completed",
    "newkeys_sent",
    "newkeys_received",
    "protected_packets_sent",
    "protected_packets_received",
    "ext_info",
    "service_accepted",
    "server_disconnect",
    "outcome",
    "outcome_code",
    "negotiation_error_code",
    "user_authenticated",
    "rekey_supported",
    "elapsed_ms",
    "host",
    "port",
    "text",
    "hex",
    "line",
    "protocol_version",
    "software_version",
    "comments",
    "comments_hex",
    "anomalies",
    "type",
    "data_len",
    "always_display",
    "message",
    "message_hex",
    "language_tag",
    "sequence_number",
    "client",
    "server",
    "cookie_hex",
    "kex_algorithms",
    "kex_markers",
    "server_host_key_algorithms",
    "encryption_client_to_server",
    "encryption_server_to_client",
    "mac_client_to_server",
    "mac_server_to_client",
    "compression_client_to_server",
    "compression_server_to_client",
    "languages_client_to_server",
    "languages_server_to_client",
    "first_kex_packet_follows",
    "reserved",
    "kex",
    "server_guess_wrong",
    "offered_pre_standard",
    "offered_standard",
    "server_pre_standard",
    "server_standard",
    "negotiated",
    "algorithm",
    "blob_len",
    "received",
    "server_sig_algs",
    "extension_names",
    "reason_code",
    "reason_name",
    "description",
    "description_hex",
];

/// The keys that are `null` where the datum is unknown, never absent.
pub const OPTIONAL_KEYS: [&'static str; 21] = [
    "peer",
    "local",
    "phase",
    "client_identification",
    "server_identification",
    "advertised",
    "selected",
    "strict_kex",
    "kexinit_was_first_packet",
    "host_key",
    "fingerprint_sha256",
    "host_key_signature_valid",
    "signature_error",
    "host_trusted",
    "trust_source",
    "untrusted_reason",
    "ext_info",
    "service_accepted",
    "server_disconnect",
    "negotiation_error_code",
    "elapsed_ms",
];

/// The keys that are `null` without a handshake.
pub const HANDSHAKE_KEYS: [&'static str; 17] = [
    "phase",
    "client_identification",
    "server_identification",
    "advertised",
    "selected",
    "strict_kex",
    "kexinit_was_first_packet",
    "host_key",
    "fingerprint_sha256",
    "host_key_signature_valid",
    "signature_error",
    "host_trusted",
    "trust_source",
    "untrusted_reason",
    "ext_info",
    "service_accepted",
    "server_disconnect",
];

/// The keys that are always given.
pub const ALWAYS_PRESENT: [&'static str; 17] = [
    "schema",
    "event",
    "target",
    "pinned_fingerprint_sha256",
    "server_prelude_lines",
    "skipped_messages",
    "server_guess_discarded",
    "trust_policy",
    "key_exchange_completed",
    "newkeys_sent",
    "newkeys_received",
    "protected_packets_sent",
    "protected_packets_received",
    "outcome",
    "outcome_code",
    "user_authenticated",
    "rekey_supported",
];

/// Why no connection came about.
#[derive(Debug, PartialEq, Eq)]
pub enum ConnectFault {
    NoAddresses,
    Resolve(IoKind),
    AllAttemptsFailed(IoKind),
    TimedOut(IoKind, IoKind),
}

/// How a run of the client ended.
#[derive(Debug, PartialEq, Eq)]
pub enum Completion<O = HandshakeOutcome> {
    /// As the handshake did.
    Ended(O),
    TimedOut { phase: Phase, pending_bytes: usize },
    Io { phase: Phase, kind: IoKind },
    ConnectFailed(ConnectFault),
    NotStarted(IoKind),
}

/// A completion over sequences.
pub type CompletionView = Completion<OutcomeView>;

impl View for Completion<HandshakeOutcome> {
    type V = CompletionView;

    open spec fn view(&self) -> CompletionView {
        match self {
            Completion::Ended(o) => Completion::Ended(o@),
            Completion::TimedOut { phase, pending_bytes } => Completion::TimedOut {
                phase: *phase,
                pending_bytes: *pending_bytes,
            },
            Completion::Io { phase, kind } => Completion::Io { phase: *phase, kind: *kind },
            Completion::ConnectFailed(f) => Completion::ConnectFailed(*f),
            Completion::NotStarted(k) => Completion::NotStarted(*k),
        }
    }
}

/// The kind of error that a selector picks.
pub open spec fn io_kind_of(sel: u8) -> IoKind {
    if sel % 4 == 0 {
        IoKind::ConnectionReset
    } else if sel % 4 == 1 {
        IoKind::TimedOut
    } else if sel % 4 == 2 {
        IoKind::BrokenPipe
    } else {
        IoKind::Other
    }
}

/// The kind of error that a selector picks.
pub fn io_error(sel: u8) -> (r: IoKind)
    ensures
        r == io_kind_of(sel),
{
    match sel % 4 {
        0 => IoKind::ConnectionReset,
        1 => IoKind::TimedOut,
        2 => IoKind::BrokenPipe,
        _ => IoKind::Other,
    }
}

/// The negotiation error that a selector picks.
pub open spec fn negotiation_gen(k: u8) -> NegotiationError<Seq<char>> {
    if k == 0 {
        NegotiationError::NoCommonKex
    } else if k == 1 {
        NegotiationError::NoCommonHostKey
    } else if k == 2 {
        NegotiationError::NoCommonCipher(Direction::ClientToServer)
    } else if k == 3 {
        NegotiationError::NoMacImplemented(Direction::ServerToClient)
    } else if k == 4 {
        NegotiationError::NoCommonCompression(Direction::ClientToServer)
    } else {
        NegotiationError::UnsupportedSelection { field: Field::KexAlgorithms, name: "x\"y"@ }
    }
}

/// The description of a drawn disconnect.
pub open spec fn goodbye() -> Seq<u8> {
    bytes_of("bye ") + seq![0xffu8, 0, 34]
}

/// The completion that a selector picks in a phase.
pub open spec fn completion_gen(sel: u8, phase: Phase) -> CompletionView {
    let k = sel % 17;
    if k == 0 {
        Completion::Ended(HandshakeOutcome::Completed)
    } else if k == 1 {
        Completion::Ended(
            HandshakeOutcome::HostNotTrusted {
                reason: if sel >= 0x80 {
                    UntrustedReason::FingerprintMismatch
                } else {
                    UntrustedReason::NoPolicy
                },
            },
        )
    } else if k == 2 {
        Completion::Ended(HandshakeOutcome::SignatureInvalid)
    } else if k == 3 {
        Completion::Ended(HandshakeOutcome::NegotiationFailed(negotiation_gen((sel / 32 % 6) as u8)))
    } else if k == 4 {
        Completion::Ended(HandshakeOutcome::StrictKexViolation { detail: "detail \"quoted\" \u{1}"@ })
    } else if k == 5 {
        Completion::Ended(HandshakeOutcome::ProtocolError(ProtocolViolation::EmptyPayload))
    } else if k == 6 {
        Completion::Ended(
            HandshakeOutcome::ServerDisconnected { reason_code: (sel % 20) as u32, description: goodbye() },
        )
    } else if k == 7 {
        Completion::Ended(HandshakeOutcome::RekeyNotSupported)
    } else if k == 8 {
        Completion::Ended(HandshakeOutcome::UnexpectedMessage { number: sel, phase })
    } else if k == 9 {
        Completion::Ended(HandshakeOutcome::TagMismatch)
    } else if k == 10 {
        Completion::Ended(HandshakeOutcome::Eof { phase })
    } else if k == 11 {
        Completion::Ended(
            HandshakeOutcome::InputOverflow(InputOverflow { capacity: 10, pending: 3, offered: 8 }),
        )
    } else if k == 12 {
        Completion::Ended(HandshakeOutcome::Limit(LimitKind::ProtectedPackets { limit: 64 }))
    } else if k == 13 {
        Completion::TimedOut { phase, pending_bytes: sel as usize }
    } else if k == 14 {
        Completion::Io { phase, kind: io_kind_of(sel) }
    } else if k == 15 {
        let j = sel / 32 % 4;
        Completion::ConnectFailed(
            if j == 0 {
                ConnectFault::NoAddresses
            } else if j == 1 {
                ConnectFault::Resolve(io_kind_of(sel))
            } else if j == 2 {
                ConnectFault::AllAttemptsFailed(io_kind_of(sel))
            } else {
                ConnectFault::TimedOut(io_kind_of(sel), io_kind_of(sel / 2))
            },
        )
    } else {
        Completion::NotStarted(io_kind_of(sel))
    }
}

fn pick_negotiation(k: u8) -> (r: NegotiationError)
    ensures
        r@ == negotiation_gen(k),
{
    match k {
        0 => NegotiationError::NoCommonKex,
        1 => NegotiationError::NoCommonHostKey,
        2 => NegotiationError::NoCommonCipher(Direction::ClientToServer),
        3 => NegotiationError::NoMacImplemented(Direction::ServerToClient),
        4 => NegotiationError::NoCommonCompression(Direction::ClientToServer),
        _ => NegotiationError::UnsupportedSelection { field: Field::KexAlgorithms, name: copy_text("x\"y") },
    }
}

/// The completion that a selector picks in a phase.
pub fn completion(sel: u8, phase: Phase) -> (r: Completion)
    ensures
        r@ == completion_gen(sel, phase),
{
    match sel % 17 {
        0 => Completion::Ended(HandshakeOutcome::Completed),
        1 => Completion::Ended(
            HandshakeOutcome::HostNotTrusted {
                reason: if sel >= 0x80 {
                    UntrustedReason::FingerprintMismatch
                } else {
                    UntrustedReason::NoPolicy
                },
            },
        ),
        2 => Completion::Ended(HandshakeOutcome::SignatureInvalid),
        3 => Completion::Ended(HandshakeOutcome::NegotiationFailed(pick_negotiation(sel / 32 % 6))),
        4 => Completion::Ended(
            HandshakeOutcome::StrictKexViolation { detail: copy_text("detail \"quoted\" \u{1}") },
        ),
        5 => Completion::Ended(HandshakeOutcome::ProtocolError(ProtocolViolation::EmptyPayload)),
        6 => {
            let mut description = copy_bytes("bye ".as_bytes());
            description.push(0xff);
            description.push(0);
            description.push(34);
            proof {
                assert(description@ =~= goodbye());
            }
            Completion::Ended(
                HandshakeOutcome::ServerDisconnected { reason_code: (sel % 20) as u32, description },
            )
        },
        7 => Completion::Ended(HandshakeOutcome::RekeyNotSupported),
        8 => Completion::Ended(HandshakeOutcome::UnexpectedMessage { number: sel, phase }),
        9 => Completion::Ended(HandshakeOutcome::TagMismatch),
        10 => Completion::Ended(HandshakeOutcome::Eof { phase }),
        11 => Completion::Ended(
            HandshakeOutcome::InputOverflow(InputOverflow { capacity: 10, pending: 3, offered: 8 }),
        ),
        12 => Completion::Ended(HandshakeOutcome::Limit(LimitKind::ProtectedPackets { limit: 64 })),
        13 => Completion::TimedOut { phase, pending_bytes: sel as usize },
        14 => Completion::Io { phase, kind: io_error(sel) },
        15 => Completion::ConnectFailed(
            match sel / 32 % 4 {
                0 => ConnectFault::NoAddresses,
                1 => ConnectFault::Resolve(io_error(sel)),
                2 => ConnectFault::AllAttemptsFailed(io_error(sel)),
                _ => ConnectFault::TimedOut(io_error(sel), io_error(sel / 2)),
            },
        ),
        _ => Completion::NotStarted(io_error(sel)),
    }
}

/// The code of a completion.
pub open spec fn completion_code(c: CompletionView) -> &'static str {
    match c {
        Completion::Ended(o) => match o {
            HandshakeOutcome::Completed => "completed",
            HandshakeOutcome::ProtocolError(_) => "protocol_error",
            HandshakeOutcome::NegotiationFailed(_) => "negotiation_failed",
            HandshakeOutcome::StrictKexViolation { .. } => "strict_kex_violation",
            HandshakeOutcome::UnexpectedMessage { .. } => "unexpected_message",
            HandshakeOutcome::SignatureInvalid => "signature_invalid",
            HandshakeOutcome::HostNotTrusted { .. } => "host_not_trusted",
            HandshakeOutcome::TagMismatch => "tag_mismatch",
            HandshakeOutcome::ServerDisconnected { .. } => "server_disconnected",
            HandshakeOutcome::RekeyNotSupported => "rekey_not_supported",
            HandshakeOutcome::Limit(_) => "limit",
            HandshakeOutcome::Eof { .. } => "eof",
            HandshakeOutcome::InputOverflow(_) => "input_overflow",
        },
        Completion::TimedOut { .. } => "timed_out",
        Completion::Io { .. } => "io_error",
        Completion::ConnectFailed(_) => "connect_failed",
        Completion::NotStarted(_) => "not_started",
    }
}

impl Completion<HandshakeOutcome> {
    /// The code of the completion.
    pub fn code(&self) -> (r: &'static str)
        ensures
            r == completion_code(self@),
    {
        match self {
            Completion::Ended(o) => match o {
                HandshakeOutcome::Completed => "completed",
                HandshakeOutcome::ProtocolError(_) => "protocol_error",
                HandshakeOutcome::NegotiationFailed(_) => "negotiation_failed",
                HandshakeOutcome::StrictKexViolation { .. } => "strict_kex_violation",
                HandshakeOutcome::UnexpectedMessage { .. } => "unexpected_message",
                HandshakeOutcome::SignatureInvalid => "signature_invalid",
                HandshakeOutcome::HostNotTrusted { .. } => "host_not_trusted",
                HandshakeOutcome::TagMismatch => "tag_mismatch",
                HandshakeOutcome::ServerDisconnected { .. } => "server_disconnected",
                HandshakeOutcome::RekeyNotSupported => "rekey_not_supported",
                HandshakeOutcome::Limit(_) => "limit",
                HandshakeOutcome::Eof { .. } => "eof",
                HandshakeOutcome::InputOverflow(_) => "input_overflow",
            },
            Completion::TimedOut { .. } => "timed_out",
            Completion::Io { .. } => "io_error",
            Completion::ConnectFailed(_) => "connect_failed",
            Completion::NotStarted(_) => "not_started",
        }
    }
}

/// The code of a phase.
pub open spec fn phase_code(p: Phase) -> &'static str {
    match p {
        Phase::ServerIdentification => "server_identification",
        Phase::ServerKexInit => "server_kexinit",
        Phase::EcdhReply => "kex_ecdh_reply",
        Phase::TrustDecision => "trust_decision",
        Phase::ServerNewKeys => "server_newkeys",
        Phase::Service => "service",
        Phase::Finished => "finished",
    }
}

/// The code of a phase.
pub fn code_of_phase(p: Phase) -> (r: &'static str)
    ensures
        r == phase_code(p),
{
    match p {
        Phase::ServerIdentification => "server_identification",
        Phase::ServerKexInit => "server_kexinit",
        Phase::EcdhReply => "kex_ecdh_reply",
        Phase::TrustDecision => "trust_decision",
        Phase::ServerNewKeys => "server_newkeys",
        Phase::Service => "service",
        Phase::Finished => "finished",
    }
}

/// Every completion and every phase has a code of its closed set.
pub proof fn lemma_codes_closed(c: CompletionView, p: Phase)
    ensures
        listed(completion_code(c)@, OUTCOME_CODES@),
        listed(phase_code(p)@, PHASE_CODES@),
{
    let o = OUTCOME_CODES@;
    assert(o[0]@ == "completed"@ && o[1]@ == "host_not_trusted"@ && o[2]@ == "signature_invalid"@ && o[3]@
        == "negotiation_failed"@ && o[4]@ == "strict_kex_violation"@ && o[5]@ == "protocol_error"@ && o[6]@
        == "server_disconnected"@ && o[7]@ == "rekey_not_supported"@ && o[8]@ == "unexpected_message"@);
    assert(o[9]@ == "tag_mismatch"@ && o[10]@ == "eof"@ && o[11]@ == "input_overflow"@ && o[12]@ == "limit"@ && o[13]@
        == "timed_out"@ && o[14]@ == "io_error"@ && o[15]@ == "connect_failed"@ && o[16]@ == "not_started"@);
    let q = PHASE_CODES@;
    assert(q[0]@ == "server_identification"@ && q[1]@ == "server_kexinit"@ && q[2]@ == "kex_ecdh_reply"@ && q[3]@
        == "trust_decision"@ && q[4]@ == "server_newkeys"@ && q[5]@ == "service"@ && q[6]@ == "finished"@);
}

/// Every key of what a text means, at every level, is allowed.
pub open spec fn keys_within(j: Json) -> bool
    decreases j,
{
    match j {
        Json::Array(s) => forall|i: int| 0 <= i < s.len() ==> keys_within(#[trigger] s[i]),
        Json::Object(m) => m.dom().finite() && forall|k: Seq<char>| #[trigger]
            m.contains_key(k) ==> listed(k, ALLOWED_KEYS@) && keys_within(m[k]),
        _ => true,
    }
}

proof fn lemma_item_within(s: Seq<Json>, i: int)
    requires
        keys_within(Json::Array(s)),
        0 <= i < s.len(),
    ensures
        keys_within(s[i]),
{
    assert(Json::Array(s)->Array_0[i] == s[i]);
}

/// Whether every key of a value is allowed.
pub fn walk_keys(value: &serde_json::Value) -> (r: bool)
    ensures
        r == keys_within(value_json(*value)),
    decreases value_json(*value), 1nat,
{
    if let Some(items) = value_as_array(value) {
        return walk_items(value, items);
    }
    if let Some(entries) = entries_of(value) {
        return walk_entries(value, &entries);
    }
    true
}

fn walk_items(value: &serde_json::Value, items: &Vec<serde_json::Value>) -> (r: bool)
    requires
        value_json(*value) == Json::Array(Seq::new(items@.len(), |i: int| value_json(items@[i]))),
    ensures
        r == keys_within(value_json(*value)),
    decreases value_json(*value), 0nat,
{
    let ghost s = Seq::new(items@.len(), |i: int| value_json(items@[i]));
    let mut i: usize = 0;
    while i < items.len()
        invariant
            i <= items@.len(),
            s == Seq::new(items@.len(), |i: int| value_json(items@[i])),
            value_json(*value) == Json::Array(s),
            forall|k: int| 0 <= k < i ==> keys_within(#[trigger] s[k]),
        decreases items@.len() - i,
    {
        proof {
            assert(s[i as int] == value_json(items@[i as int]));
            assert(decreases_to!(value_json(*value) => value_json(*value)->Array_0));
            assert(decreases_to!(s => s[i as int]));
        }
        if !walk_keys(&items[i]) {
            proof {
                if keys_within(value_json(*value)) {
                    lemma_item_within(s, i as int);
                }
            }
            return false;
        }
        i = i + 1;
    }
    true
}

fn walk_entries(value: &serde_json::Value, entries: &Vec<(&String, &serde_json::Value)>) -> (r: bool)
    requires
        value_json(*value) matches Json::Object(m) && m.dom().finite() && (forall|i: int|
            0 <= i < entries@.len() ==> m.contains_key((#[trigger] entries@[i]).0@) && m[entries@[i].0@] == value_json(
                *entries@[i].1,
            )) && (forall|k: Seq<char>| #[trigger]
            m.contains_key(k) ==> exists|i: int| 0 <= i < entries@.len() && (#[trigger] entries@[i]).0@ == k),
    ensures
        r == keys_within(value_json(*value)),
    decreases value_json(*value), 0nat,
{
    let ghost m = value_json(*value)->Object_0;
    let mut i: usize = 0;
    while i < entries.len()
        invariant
            i <= entries@.len(),
            value_json(*value) == Json::Object(m),
            m.dom().finite(),
            forall|k: int|
                0 <= k < entries@.len() ==> m.contains_key((#[trigger] entries@[k]).0@) && m[entries@[k].0@]
                    == value_json(*entries@[k].1),
            forall|k: int|
                0 <= k < i ==> listed((#[trigger] entries@[k]).0@, ALLOWED_KEYS@) && keys_within(
                    value_json(*entries@[k].1),
                ),
        decreases entries@.len() - i,
    {
        let e = &entries[i];
        proof {
            let k = entries@[i as int].0@;
            assert(decreases_to!(value_json(*value) => value_json(*value)->Object_0));
            assert(decreases_to!(m => m[k]));
        }
        if !is_listed(e.0.as_str(), ALLOWED_KEYS.as_slice()) || !walk_keys(e.1) {
            proof {
                assert(m.contains_key(entries@[i as int].0@));
            }
            return false;
        }
        i = i + 1;
    }
    proof {
        assert forall|k: Seq<char>| #[trigger] m.contains_key(k) implies listed(k, ALLOWED_KEYS@) && keys_within(
            m[k],
        ) by {
            let j = choose|j: int| 0 <= j < entries@.len() && (#[trigger] entries@[j]).0@ == k;
            assert(m[entries@[j].0@] == value_json(*entries@[j].1));
        }
    }
    true
}

/// The character of a host name that a byte selects.
pub open spec fn host_char(b: u8) -> char {
    let k = b % 40;
    if k <= 25 {
        (97 + b % 26) as char
    } else if k <= 35 {
        (48 + b % 10) as char
    } else if k == 36 {
        '.'
    } else if k == 37 {
        '-'
    } else if k == 38 {
        ':'
    } else {
        '\u{e9}'
    }
}

/// The host name that bytes select.
pub open spec fn host_of(b: Seq<u8>) -> Seq<char> {
    Seq::new(b.len(), |i: int| host_char(b[i]))
}

fn pick_host_char(b: u8) -> (r: char)
    ensures
        r == host_char(b),
{
    let k: u8 = b % 40;
    if k <= 25 {
        (97 + b % 26) as char
    } else if k <= 35 {
        (48 + b % 10) as char
    } else if k == 36 {
        '.'
    } else if k == 37 {
        '-'
    } else if k == 38 {
        ':'
    } else {
        '\u{e9}'
    }
}

fn host_name(b: &[u8]) -> (r: String)
    ensures
        r@ == host_of(b@),
{
    let mut out: Vec<char> = Vec::new();
    let mut i: usize = 0;
    while i < b.len()
        invariant
            i <= b@.len(),
            out@ =~= host_of(b@.take(i as int)),
        decreases b@.len() - i,
    {
        out.push(pick_host_char(b[i]));
        i = i + 1;
    }
    proof {
        assert(b@.take(i as int) =~= b@);
    }
    string_from_chars(out)
}

/// What a report is drawn from.
#[derive(Debug)]
pub struct ReportSource {
    /// Selects the completion.
    pub sel: u8,
    /// A handshake is reported.
    pub with_handshake: bool,
    /// The addresses are known.
    pub connected: bool,
    /// The address of the server.
    pub peer: Address,
    /// The address of the client.
    pub local: Address,
    /// The elapsed time, where it is known.
    pub elapsed_ms: Option<u64>,
    /// The input of the handshake is ended.
    pub input_ended: bool,
    /// The port.
    pub port: u16,
    /// The pinned fingerprint.
    pub pin: [u8; 32],
    /// The host.
    pub host: String,
    /// What the server sends.
    pub server_bytes: Vec<u8>,
}

/// The address of the server: one of four octets or of sixteen.
pub open spec fn peer_of(sel: u8, port: u16) -> Address<Seq<u8>> {
    if bit(sel, 1) {
        Address { v6: true, octets: seq![0u8, 0, 0, 0, 0, 0, 0, 0, 0, 0, 0, 0, 0, 0, 0, 1], port, scope: 0 }
    } else {
        Address { v6: false, octets: seq![192u8, 0, 2, sel], port, scope: 0 }
    }
}

/// The address of the client.
pub open spec fn local_of(sel: u8) -> Address<Seq<u8>> {
    Address { v6: false, octets: seq![127u8, 0, 0, 1], port: (40_000 + sel) as u16, scope: 0 }
}

fn pick_peer(sel: u8, port: u16) -> (r: Address)
    ensures
        r@ == peer_of(sel, port),
{
    if has_bit(sel, 1) {
        Address { v6: true, octets: vec![0, 0, 0, 0, 0, 0, 0, 0, 0, 0, 0, 0, 0, 0, 0, 1], port, scope: 0 }
    } else {
        Address { v6: false, octets: vec![192, 0, 2, sel], port, scope: 0 }
    }
}

fn pick_local(sel: u8) -> (r: Address)
    ensures
        r@ == local_of(sel),
{
    Address { v6: false, octets: vec![127, 0, 0, 1], port: 40_000 + sel as u16, scope: 0 }
}

/// How many of the server's bytes a handshake is fed next, within its room and
/// what is left.
pub fn feed_next(room: usize, left: usize) -> (r: usize)
    ensures
        r == min_int(min_int(room as int, left as int), 97),
{
    let n: usize = if room <= left { room } else { left };
    if n <= 97 {
        n
    } else {
        97
    }
}

/// A source is what the input says.
pub open spec fn source_holds(s: Seq<u8>, r: ReportSource) -> bool {
    let flags = byte_at(dropped(s, 1), 0);
    let s2 = dropped(dropped(s, 1), 1);
    let s3 = dropped(s2, 2);
    let s4 = dropped(s3, 32);
    let n = byte_at(s4, 0) as int % 40;
    let s5 = dropped(s4, 1);
    &&& r.sel == byte_at(s, 0)
    &&& r.with_handshake == bit(flags, 1)
    &&& r.connected == bit(flags, 2)
    &&& r.peer@ == peer_of(r.sel, r.port)
    &&& r.local@ == local_of(r.sel)
    &&& r.elapsed_ms == (if bit(flags, 4) {
        Some((r.port * 7) as u64)
    } else {
        None
    })
    &&& r.input_ended == bit(flags, 8)
    &&& r.port == u16_at(s2)
    &&& r.pin@ == taken_filled(s3, 32, 11)
    &&& r.host@ == host_of(taken(s5, n))
    &&& r.server_bytes@ == dropped(s5, n)
}

/// Reads what a report is drawn from.
pub fn gen_source(data: &[u8]) -> (r: ReportSource)
    ensures
        source_holds(data@, r),
{
    let mut cur = Cursor::new(data);
    let sel: u8 = cur.u8();
    let flags: u8 = cur.u8();
    let port: u16 = cur.u16();
    let pin = array32(cur.take_filled(32, 11).as_slice());
    let n: usize = cur.u8() as usize % 40;
    let host = host_name(cur.take(n));
    let server_bytes = copy_bytes(cur.rest());
    ReportSource {
        sel,
        with_handshake: has_bit(flags, 1),
        connected: has_bit(flags, 2),
        peer: pick_peer(sel, port),
        local: pick_local(sel),
        elapsed_ms: if has_bit(flags, 4) {
            Some(port as u64 * 7)
        } else {
            None
        },
        input_ended: has_bit(flags, 8),
        port,
        pin,
        host,
        server_bytes,
    }
}

/// A report.
#[derive(Debug)]
pub struct Report {
    pub host: String,
    pub port: u16,
    pub pin: [u8; 32],
    /// The peer's address as text, where it is known.
    pub peer: Option<String>,
    pub handshake: Option<HandshakeReport>,
    pub completion: Completion,
    pub elapsed_ms: Option<u64>,
}

/// Every key of a list is given.
pub open spec fn all_given(j: Json, keys: Seq<&'static str>) -> bool {
    forall|i: int| 0 <= i < keys.len() ==> given(j, (#[trigger] keys[i])@)
}

/// Every key of a list is `null`.
pub open spec fn all_null(j: Json, keys: Seq<&'static str>) -> bool {
    forall|i: int| 0 <= i < keys.len() ==> at(j, (#[trigger] keys[i])@) == Json::Null
}

fn check_given(rec: &serde_json::Value, keys: &[&'static str]) -> (r: bool)
    ensures
        r == all_given(value_json(*rec), keys@),
{
    let mut i: usize = 0;
    while i < keys.len()
        invariant
            i <= keys@.len(),
            forall|k: int| 0 <= k < i ==> given(value_json(*rec), (#[trigger] keys@[k])@),
        decreases keys@.len() - i,
    {
        if value_get(rec, keys[i]).is_none() {
            return false;
        }
        i = i + 1;
    }
    true
}

fn check_null(rec: &serde_json::Value, keys: &[&'static str]) -> (r: bool)
    ensures
        r == all_null(value_json(*rec), keys@),
{
    let mut i: usize = 0;
    while i < keys.len()
        invariant
            i <= keys@.len(),
            forall|k: int| 0 <= k < i ==> at(value_json(*rec), (#[trigger] keys@[k])@) == Json::Null,
        decreases keys@.len() - i,
    {
        if !field_is(rec, keys[i], Node::Null) {
            return false;
        }
        i = i + 1;
    }
    true
}

/// The value of a key is an array of so many items.
pub open spec fn array_of_len(j: Json, k: Seq<char>, n: int) -> bool {
    at(j, k) matches Json::Array(v) && v.len() == n
}

fn is_array_of(rec: &serde_json::Value, k: &str, n: usize) -> (r: bool)
    ensures
        r == array_of_len(value_json(*rec), k@, n as int),
{
    match value_get(rec, k) {
        Some(v) => match value_as_array(v) {
            Some(items) => items.len() == n,
            None => false,
        },
        None => false,
    }
}

fn is_object(rec: &serde_json::Value, k: &str) -> (r: bool)
    ensures
        r == (at(value_json(*rec), k@) is Object),
{
    match value_get(rec, k) {
        Some(v) => value_as_object(v).is_some(),
        None => false,
    }
}

/// Whether the value of a key inside the value of another means what a tree
/// means.
fn inner_is(rec: &serde_json::Value, outer: &str, k: &str, want: Node) -> (r: bool)
    ensures
        r == (at(at(value_json(*rec), outer@), k@) == json(want)),
{
    match value_get(rec, outer) {
        Some(v) => field_is(v, k, want),
        None => match want {
            Node::Null => true,
            _ => false,
        },
    }
}

/// The parts of a report that need no handshake.
pub open spec fn header_holds(j: Json, r: Report) -> bool {
    &&& all_given(j, ALWAYS_PRESENT@)
    &&& all_given(j, OPTIONAL_KEYS@)
    &&& at(j, "schema"@) == Json::Number(1)
    &&& at(j, "event"@) == Json::Str("tcp_handshake"@)
    &&& at(at(j, "target"@), "host"@) == Json::Str(r.host@)
    &&& at(at(j, "target"@), "port"@) == Json::Number(r.port as int)
    &&& at(j, "user_authenticated"@) == Json::Bool(false)
    &&& at(j, "rekey_supported"@) == Json::Bool(false)
    &&& at(j, "trust_policy"@) == Json::Str("pinned_fingerprint"@)
    &&& at(j, "outcome_code"@) == Json::Str(completion_code(r.completion@)@)
    &&& (at(j, "outcome"@) matches Json::Str(t) && t.len() > 0)
    &&& at(j, "pinned_fingerprint_sha256"@) == Json::Str(fingerprint_of(r.pin@))
    &&& match r.peer {
        Some(p) => at(j, "peer"@) == Json::Str(p@) && at(j, "local"@) != Json::Null,
        None => at(j, "peer"@) == Json::Null && at(j, "local"@) == Json::Null,
    }
    &&& at(j, "elapsed_ms"@) == (match r.elapsed_ms {
        Some(n) => Json::Number(n as int),
        None => Json::Null,
    })
    &&& at(j, "negotiation_error_code"@) == (match r.completion@ {
        Completion::Ended(HandshakeOutcome::NegotiationFailed(e)) => Json::Str(error_code(e)@),
        _ => Json::Null,
    })
}

fn long_text(rec: &serde_json::Value, k: &str) -> (r: bool)
    ensures
        r == (at(value_json(*rec), k@) matches Json::Str(t) && t.len() > 0),
{
    match field_text(rec, k) {
        Some(t) => chars_of(t).len() > 0,
        None => false,
    }
}

fn check_header(rec: &serde_json::Value, r: &Report) -> (ok: bool)
    ensures
        ok == header_holds(value_json(*rec), *r),
{
    let code = match &r.completion {
        Completion::Ended(HandshakeOutcome::NegotiationFailed(e)) => text_node(e.code()),
        _ => Node::Null,
    };
    let elapsed = match r.elapsed_ms {
        Some(n) => Node::UInt(n),
        None => Node::Null,
    };
    let addressed: bool = match &r.peer {
        Some(p) => field_is(rec, "peer", text_node(p.as_str())) && !field_is(rec, "local", Node::Null),
        None => field_is(rec, "peer", Node::Null) && field_is(rec, "local", Node::Null),
    };
    addressed && check_given(rec, ALWAYS_PRESENT.as_slice()) && check_given(rec, OPTIONAL_KEYS.as_slice()) && field_is(
        rec,
        "schema",
        Node::UInt(1),
    ) && field_is(rec, "event", text_node("tcp_handshake")) && inner_is(
        rec,
        "target",
        "host",
        text_node(r.host.as_str()),
    ) && inner_is(rec, "target", "port", Node::UInt(r.port as u64)) && field_is(
        rec,
        "user_authenticated",
        Node::Bool(false),
    ) && field_is(rec, "rekey_supported", Node::Bool(false)) && field_is(
        rec,
        "trust_policy",
        text_node("pinned_fingerprint"),
    ) && field_is(rec, "outcome_code", text_node(r.completion.code())) && long_text(rec, "outcome") && field_is(
        rec,
        "pinned_fingerprint_sha256",
        Node::Str(fingerprint_text(&r.pin)),
    ) && field_is(rec, "elapsed_ms", elapsed) && field_is(rec, "negotiation_error_code", code)
}

/// The report of a run without a handshake knows nothing of one.
pub open spec fn bare_holds(j: Json) -> bool {
    &&& all_null(j, HANDSHAKE_KEYS@)
    &&& array_of_len(j, "server_prelude_lines"@, 0)
    &&& array_of_len(j, "skipped_messages"@, 0)
    &&& at(j, "key_exchange_completed"@) == Json::Bool(false)
    &&& at(j, "protected_packets_sent"@) == Json::Number(0)
}

fn check_bare(rec: &serde_json::Value) -> (ok: bool)
    ensures
        ok == bare_holds(value_json(*rec)),
{
    check_null(rec, HANDSHAKE_KEYS.as_slice()) && is_array_of(rec, "server_prelude_lines", 0) && is_array_of(
        rec,
        "skipped_messages",
        0,
    ) && field_is(rec, "key_exchange_completed", Node::Bool(false)) && field_is(
        rec,
        "protected_packets_sent",
        Node::UInt(0),
    )
}

/// Random server bytes never get a handshake past its keys.
pub open spec fn unproven(h: HandshakeReport) -> bool {
    !h.user_authenticated && h.signature_valid != Some(true) && !h.newkeys_sent && h.outcome
        != Some::<HandshakeOutcome>(HandshakeOutcome::Completed)
}

/// The report of a run with a handshake: data that are unknown are `null`,
/// flags and counters are the handshake's.
pub open spec fn handshake_holds(j: Json, h: HandshakeReport) -> bool {
    &&& at(j, "phase"@) == Json::Str(phase_code(h.phase)@)
    &&& at(j, "advertised"@) is Object
    &&& at(at(j, "advertised"@), "client"@) is Object
    &&& (at(at(j, "advertised"@), "server"@) == Json::Null) == !h.server_advertised
    &&& at(j, "strict_kex"@) is Object
    &&& (at(j, "selected"@) == Json::Null) == (h.selected is None)
    &&& (at(j, "host_trusted"@) == Json::Null) == (h.trust is None)
    &&& (at(j, "host_key"@) == Json::Null) == (h.host_key is None)
    &&& (at(j, "fingerprint_sha256"@) == Json::Null) == (h.host_key is None)
    &&& (at(j, "server_identification"@) == Json::Null) == (h.server_identification is None)
    &&& (at(j, "ext_info"@) == Json::Null) == (h.ext_info is None)
    &&& (at(j, "kexinit_was_first_packet"@) == Json::Null) == (h.kexinit_was_first_packet is None)
    &&& at(j, "key_exchange_completed"@) == Json::Bool(h.newkeys_sent && h.newkeys_received)
    &&& at(j, "newkeys_sent"@) == Json::Bool(h.newkeys_sent)
    &&& at(j, "newkeys_received"@) == Json::Bool(h.newkeys_received)
    &&& at(j, "protected_packets_sent"@) == Json::Number(h.protected_packets_sent as int)
    &&& at(j, "protected_packets_received"@) == Json::Number(h.protected_packets_received as int)
    &&& array_of_len(j, "server_prelude_lines"@, h.server_prelude_lines@.len() as int)
    &&& array_of_len(j, "skipped_messages"@, h.skipped_messages@.len() as int)
    &&& at(j, "server_guess_discarded"@) == Json::Bool(h.server_guess_discarded)
    &&& h.host_key matches Some(k) ==> at(at(j, "host_key"@), "fingerprint_sha256"@) == at(j, "fingerprint_sha256"@)
        && at(at(j, "host_key"@), "blob_len"@) == Json::Number(k.blob_len as int)
    &&& unproven(h)
}

fn check_unproven(h: &HandshakeReport) -> (ok: bool)
    ensures
        ok == unproven(*h),
{
    let completed: bool = match &h.outcome {
        Some(HandshakeOutcome::Completed) => true,
        _ => false,
    };
    let signed: bool = match h.signature_valid {
        Some(v) => v,
        None => false,
    };
    !h.user_authenticated && !signed && !h.newkeys_sent && !completed
}

fn same_fingerprints(rec: &serde_json::Value) -> (r: bool)
    ensures
        r == (at(at(value_json(*rec), "host_key"@), "fingerprint_sha256"@) == at(value_json(*rec), "fingerprint_sha256"@)),
{
    let inner = match value_get(rec, "host_key") {
        Some(hk) => value_get(hk, "fingerprint_sha256"),
        None => None,
    };
    let outer = value_get(rec, "fingerprint_sha256");
    proof {
        let j = value_json(*rec);
        assert(meant(inner) == at(at(j, "host_key"@), "fingerprint_sha256"@));
        assert(meant(outer) == at(j, "fingerprint_sha256"@));
    }
    same_or_null(inner, outer)
}

fn check_handshake(rec: &serde_json::Value, h: &HandshakeReport) -> (ok: bool)
    ensures
        ok == handshake_holds(value_json(*rec), *h),
{
    let advertised: bool = match value_get(rec, "advertised") {
        Some(a) => is_object(a, "client") && field_is(a, "server", Node::Null) == !h.server_advertised,
        None => false,
    };
    let keyed: bool = match &h.host_key {
        Some(k) => same_fingerprints(rec) && inner_is(rec, "host_key", "blob_len", Node::UInt(k.blob_len as u64)),
        None => true,
    };
    let nulls: bool = field_is(rec, "selected", Node::Null) == h.selected.is_none() && field_is(
        rec,
        "host_trusted",
        Node::Null,
    ) == h.trust.is_none() && field_is(rec, "host_key", Node::Null) == h.host_key.is_none() && field_is(
        rec,
        "fingerprint_sha256",
        Node::Null,
    ) == h.host_key.is_none() && field_is(rec, "server_identification", Node::Null)
        == h.server_identification.is_none() && field_is(rec, "ext_info", Node::Null) == h.ext_info.is_none()
        && field_is(rec, "kexinit_was_first_packet", Node::Null) == h.kexinit_was_first_packet.is_none();
    let counted: bool = field_is(rec, "key_exchange_completed", Node::Bool(h.newkeys_sent && h.newkeys_received))
        && field_is(rec, "newkeys_sent", Node::Bool(h.newkeys_sent)) && field_is(
        rec,
        "newkeys_received",
        Node::Bool(h.newkeys_received),
    ) && field_is(rec, "protected_packets_sent", Node::UInt(h.protected_packets_sent as u64)) && field_is(
        rec,
        "protected_packets_received",
        Node::UInt(h.protected_packets_received as u64),
    ) && is_array_of(rec, "server_prelude_lines", h.server_prelude_lines.len()) && is_array_of(
        rec,
        "skipped_messages",
        h.skipped_messages.len(),
    ) && field_is(rec, "server_guess_discarded", Node::Bool(h.server_guess_discarded));
    field_is(rec, "phase", text_node(code_of_phase(h.phase))) && is_object(rec, "advertised") && advertised && is_object(
        rec,
        "strict_kex",
    ) && nulls && counted && keyed && check_unproven(h)
}

/// The JSON of a report: only allowed keys, a fixed shape, and what the report
/// says.
pub open spec fn report_holds(j: Json, r: Report) -> bool {
    &&& keys_within(j)
    &&& header_holds(j, r)
    &&& match r.handshake {
        Some(h) => handshake_holds(j, h),
        None => bare_holds(j),
    }
}

fn judge_report(rec: &serde_json::Value, r: &Report) -> (ok: bool)
    ensures
        ok == report_holds(value_json(*rec), *r),
{
    walk_keys(rec) && check_header(rec, r) && (match &r.handshake {
        Some(h) => check_handshake(rec, h),
        None => check_bare(rec),
    })
}

/// Whether a text is the JSON of a report.
pub fn check_report(text: &str, r: &Report) -> (ok: bool)
    ensures
        ok == (record_of(text) matches Some(j) && report_holds(j, *r)),
{
    match parse(text) {
        Some(rec) => judge_report(&rec, r),
        None => false,
    }
}

/// A control character.
pub open spec fn control(c: char) -> bool {
    c as int <= 31 || 127 <= c as int <= 159
}

/// The words of the outcome code in a text.
pub open spec fn code_words(code: &str) -> Seq<u8> {
    bytes_of("(code: ") + bytes_of(code) + bytes_of(")")
}

/// The text of a report: it says that no user was authenticated and that keys
/// are not renewed, it names the outcome code, it ends with a line break and
/// holds no other control character.
pub open spec fn text_holds(text: &str, code: &str) -> bool {
    &&& occurs(bytes_of("user_authenticated: false"), bytes_of(text))
    &&& occurs(bytes_of("Rekeying: not supported by this diagnostic"), bytes_of(text))
    &&& occurs(code_words(code), bytes_of(text))
    &&& forall|i: int| 0 <= i < text@.len() ==> !control(#[trigger] text@[i]) || text@[i] == '\n'
    &&& text@.len() > 0
    &&& text@.last() == '\n'
}

fn is_control(c: char) -> (r: bool)
    ensures
        r == control(c),
{
    c as u32 <= 31 || (127 <= c as u32 && c as u32 <= 159)
}

/// Whether the text of a report is right.
pub fn check_report_text(text: &str, code: &str) -> (ok: bool)
    ensures
        ok == text_holds(text, code),
{
    let t = text.as_bytes();
    let mut words = copy_bytes("(code: ".as_bytes());
    push_all(&mut words, code.as_bytes());
    push_all(&mut words, ")".as_bytes());
    if !contains_bytes(t, "user_authenticated: false".as_bytes()) || !contains_bytes(
        t,
        "Rekeying: not supported by this diagnostic".as_bytes(),
    ) || !contains_bytes(t, words.as_slice()) {
        return false;
    }
    let c = chars_of(text);
    let mut i: usize = 0;
    while i < c.len()
        invariant
            i <= c@.len(),
            c@ == text@,
            forall|k: int| 0 <= k < i ==> !control(#[trigger] c@[k]) || c@[k] == '\n',
        decreases c@.len() - i,
    {
        if is_control(c[i]) && c[i] != '\n' {
            return false;
        }
        i = i + 1;
    }
    c.len() > 0 && c[c.len() - 1] == '\n'
}

} // verus!
