//! What an accepted JSON report says, key by key.

use vstd::prelude::*;
use crate::handshake::report::HandshakeReport;
use crate::handshake::types::{HandshakeOutcome, Phase};
use crate::kex_support::negotiate_ref::{error_code, NegotiationError};
use crate::key_blobs::fingerprint_of;
use crate::report_json::{
    completion_code, completion_gen, keys_within, phase_code, report_holds, text_holds,
    Completion, CompletionView, Report, ALWAYS_PRESENT, HANDSHAKE_KEYS, OPTIONAL_KEYS,
};
use crate::seqs::occurs;
use crate::state_support::json_serde::{at, given, Json};
use crate::text::bytes_of;

verus! {

/// The code of each way a run can end.
pub proof fn lemma_completion_codes(c: CompletionView)
    ensures
        c is TimedOut ==> completion_code(c) == "timed_out",
        c is Io ==> completion_code(c) == "io_error",
        c is ConnectFailed ==> completion_code(c) == "connect_failed",
        c is NotStarted ==> completion_code(c) == "not_started",
        c matches Completion::Ended(o) ==> {
            &&& o is Completed ==> completion_code(c) == "completed"
            &&& o is ProtocolError ==> completion_code(c) == "protocol_error"
            &&& o is NegotiationFailed ==> completion_code(c) == "negotiation_failed"
            &&& o is StrictKexViolation ==> completion_code(c) == "strict_kex_violation"
            &&& o is UnexpectedMessage ==> completion_code(c) == "unexpected_message"
            &&& o is SignatureInvalid ==> completion_code(c) == "signature_invalid"
            &&& o is HostNotTrusted ==> completion_code(c) == "host_not_trusted"
            &&& o is TagMismatch ==> completion_code(c) == "tag_mismatch"
            &&& o is ServerDisconnected ==> completion_code(c) == "server_disconnected"
            &&& o is RekeyNotSupported ==> completion_code(c) == "rekey_not_supported"
            &&& o is Limit ==> completion_code(c) == "limit"
            &&& o is Eof ==> completion_code(c) == "eof"
            &&& o is InputOverflow ==> completion_code(c) == "input_overflow"
        },
{
}

/// The way a run ends is drawn by one byte.
pub proof fn lemma_completion_drawn(sel: u8, phase: Phase)
    ensures
        ({
            let c = completion_gen(sel, phase);
            let k = sel % 17;
            &&& k == 0 <==> c is Ended && c->Ended_0 is Completed
            &&& k == 1 <==> c is Ended && c->Ended_0 is HostNotTrusted
            &&& k == 2 <==> c is Ended && c->Ended_0 is SignatureInvalid
            &&& k == 3 <==> c is Ended && c->Ended_0 is NegotiationFailed
            &&& k == 4 <==> c is Ended && c->Ended_0 is StrictKexViolation
            &&& k == 5 <==> c is Ended && c->Ended_0 is ProtocolError
            &&& k == 6 <==> c is Ended && c->Ended_0 is ServerDisconnected
            &&& k == 7 <==> c is Ended && c->Ended_0 is RekeyNotSupported
            &&& k == 8 <==> c is Ended && c->Ended_0 is UnexpectedMessage
            &&& k == 9 <==> c is Ended && c->Ended_0 is TagMismatch
            &&& k == 10 <==> c is Ended && c->Ended_0 is Eof
            &&& k == 11 <==> c is Ended && c->Ended_0 is InputOverflow
            &&& k == 12 <==> c is Ended && c->Ended_0 is Limit
            &&& k == 13 <==> c is TimedOut
            &&& k == 14 <==> c is Io
            &&& k == 15 <==> c is ConnectFailed
            &&& k == 16 <==> c is NotStarted
            &&& c matches Completion::TimedOut { phase: p, pending_bytes } ==> p == phase && pending_bytes == sel
            &&& c matches Completion::Io { phase: p, kind } ==> p == phase
            &&& c matches Completion::Ended(HandshakeOutcome::Eof { phase: p }) ==> p == phase
            &&& c matches Completion::Ended(HandshakeOutcome::UnexpectedMessage { number, phase: p }) ==> number == sel && p
                == phase
            &&& c matches Completion::Ended(HandshakeOutcome::HostNotTrusted { reason }) ==> (reason is FingerprintMismatch
                <==> sel >= 128)
        }),
{
}

/// The code of each phase.
pub proof fn lemma_phase_codes(p: Phase)
    ensures
        p is ServerIdentification ==> phase_code(p) == "server_identification",
        p is ServerKexInit ==> phase_code(p) == "server_kexinit",
        p is EcdhReply ==> phase_code(p) == "kex_ecdh_reply",
        p is TrustDecision ==> phase_code(p) == "trust_decision",
        p is ServerNewKeys ==> phase_code(p) == "server_newkeys",
        p is Service ==> phase_code(p) == "service",
        p is Finished ==> phase_code(p) == "finished",
{
}

/// The code of each failure to negotiate.
pub proof fn lemma_negotiation_codes(e: NegotiationError<Seq<char>>)
    ensures
        e is NoCommonKex ==> error_code(e) == "no_common_kex",
        e is NoCommonHostKey ==> error_code(e) == "no_common_host_key",
        e is NoCommonCipher ==> error_code(e) == "no_common_cipher",
        e is NoMacImplemented ==> error_code(e) == "no_mac_implemented",
        e is NoCommonCompression ==> error_code(e) == "no_common_compression",
        e is UnsupportedSelection ==> error_code(e) == "unsupported_selection",
{
}

/// What every report says: that nobody is authenticated, that keys are not
/// renewed, whom it tried to reach, whom it trusted, and how it ended.
pub open spec fn run_told(j: Json, r: Report) -> bool {
    &&& at(j, "schema"@) == Json::Number(1)
    &&& at(j, "event"@) == Json::Str("tcp_handshake"@)
    &&& at(at(j, "target"@), "host"@) == Json::Str(r.host@)
    &&& at(at(j, "target"@), "port"@) == Json::Number(r.port as int)
    &&& at(j, "user_authenticated"@) == Json::Bool(false)
    &&& at(j, "rekey_supported"@) == Json::Bool(false)
    &&& at(j, "trust_policy"@) == Json::Str("pinned_fingerprint"@)
    &&& at(j, "pinned_fingerprint_sha256"@) == Json::Str(fingerprint_of(r.pin@))
    &&& at(j, "outcome_code"@) == Json::Str(completion_code(r.completion@)@)
    &&& (at(j, "outcome"@) matches Json::Str(t) && t != Seq::<char>::empty())
    &&& r.peer is None <==> at(j, "peer"@) == Json::Null
    &&& r.peer is None <==> at(j, "local"@) == Json::Null
    &&& r.peer matches Some(p) ==> at(j, "peer"@) == Json::Str(p@)
    &&& r.elapsed_ms is None <==> at(j, "elapsed_ms"@) == Json::Null
    &&& r.elapsed_ms matches Some(n) ==> at(j, "elapsed_ms"@) == Json::Number(n as int)
    &&& (r.completion@ matches Completion::Ended(HandshakeOutcome::NegotiationFailed(e)) && at(
        j,
        "negotiation_error_code"@,
    ) == Json::Str(error_code(e)@)) || (at(j, "negotiation_error_code"@) == Json::Null && !(
    r.completion@ matches Completion::Ended(o) && o is NegotiationFailed))
}

/// What a report of a handshake says of it. What it does not know is `null`.
pub open spec fn handshake_told(j: Json, h: HandshakeReport) -> bool {
    &&& at(j, "phase"@) == Json::Str(phase_code(h.phase)@)
    &&& at(j, "advertised"@) is Object
    &&& at(at(j, "advertised"@), "client"@) is Object
    &&& h.server_advertised <==> at(at(j, "advertised"@), "server"@) != Json::Null
    &&& at(j, "strict_kex"@) is Object
    &&& h.selected is Some <==> at(j, "selected"@) != Json::Null
    &&& h.trust is Some <==> at(j, "host_trusted"@) != Json::Null
    &&& h.host_key is Some <==> at(j, "host_key"@) != Json::Null
    &&& h.host_key is Some <==> at(j, "fingerprint_sha256"@) != Json::Null
    &&& h.server_identification is Some <==> at(j, "server_identification"@) != Json::Null
    &&& h.ext_info is Some <==> at(j, "ext_info"@) != Json::Null
    &&& h.kexinit_was_first_packet is Some <==> at(j, "kexinit_was_first_packet"@) != Json::Null
    &&& at(j, "newkeys_sent"@) == Json::Bool(h.newkeys_sent)
    &&& at(j, "newkeys_received"@) == Json::Bool(h.newkeys_received)
    &&& at(j, "key_exchange_completed"@) == Json::Bool(h.newkeys_sent && h.newkeys_received)
    &&& at(j, "protected_packets_sent"@) == Json::Number(h.protected_packets_sent as int)
    &&& at(j, "protected_packets_received"@) == Json::Number(h.protected_packets_received as int)
    &&& (at(j, "server_prelude_lines"@) matches Json::Array(v) && v.len() == h.server_prelude_lines@.len())
    &&& (at(j, "skipped_messages"@) matches Json::Array(v) && v.len() == h.skipped_messages@.len())
    &&& at(j, "server_guess_discarded"@) == Json::Bool(h.server_guess_discarded)
    &&& h.host_key matches Some(k) ==> at(at(j, "host_key"@), "fingerprint_sha256"@) == at(j, "fingerprint_sha256"@)
        && at(at(j, "host_key"@), "blob_len"@) == Json::Number(k.blob_len as int)
    &&& !h.user_authenticated
    &&& h.signature_valid != Some(true)
    &&& !h.newkeys_sent
    &&& !(h.outcome matches Some(o) && o is Completed)
}

/// What a report without a handshake says.
pub open spec fn nothing_told(j: Json) -> bool {
    &&& forall|i: int| 0 <= i < HANDSHAKE_KEYS@.len() ==> at(j, (#[trigger] HANDSHAKE_KEYS@[i])@) == Json::Null
    &&& at(j, "server_prelude_lines"@) matches Json::Array(v) && v.len() == 0
    &&& at(j, "skipped_messages"@) matches Json::Array(v) && v.len() == 0
    &&& at(j, "key_exchange_completed"@) == Json::Bool(false)
    &&& at(j, "protected_packets_sent"@) == Json::Number(0)
}

/// A report is accepted exactly where it says all of this and every key that
/// it must have is there, and no key stands in it that may not.
pub proof fn lemma_report_accepted(j: Json, r: Report)
    ensures
        report_holds(j, r) <==> {
            &&& keys_within(j)
            &&& forall|i: int| 0 <= i < ALWAYS_PRESENT@.len() ==> given(j, (#[trigger] ALWAYS_PRESENT@[i])@)
            &&& forall|i: int| 0 <= i < OPTIONAL_KEYS@.len() ==> given(j, (#[trigger] OPTIONAL_KEYS@[i])@)
            &&& run_told(j, r)
            &&& r.handshake matches Some(h) ==> handshake_told(j, h)
            &&& r.handshake is None ==> nothing_told(j)
        },
{
    if let Json::Str(t) = at(j, "outcome"@) {
        if t.len() == 0 {
            assert(t =~= Seq::<char>::empty());
        }
    }
}

/// The text of a report says that no user is authenticated and that keys are
/// not renewed, names the code of the outcome, and breaks its lines with line
/// feeds alone, the last of which ends it.
pub proof fn lemma_text_accepted(text: &str, code: &str)
    ensures
        text_holds(text, code) <==> {
            &&& occurs(bytes_of("user_authenticated: false"), bytes_of(text))
            &&& occurs(bytes_of("Rekeying: not supported by this diagnostic"), bytes_of(text))
            &&& occurs(bytes_of("(code: ") + bytes_of(code) + bytes_of(")"), bytes_of(text))
            &&& text@.len() > 0 && text@[text@.len() - 1] == '\n'
            &&& forall|i: int|
                0 <= i < text@.len() ==> (#[trigger] text@[i]) == '\n' || 32 <= text@[i] as int <= 126 || text@[i] as int
                    >= 160
        },
{
}

} // verus!
