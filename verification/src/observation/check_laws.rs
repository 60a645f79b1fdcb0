//! What an accepted record of a listener says, key by key.

use vstd::prelude::*;
use crate::observation::check::{
    event_gen, keys_in_order, messages_json, observation_holds, overload_holds, stamp_is, started_holds, stop_code,
    stopped_holds, truncation_holds, Encoder, ListenerEvent, ObservationView, StopReason, SummaryView, OBSERVATION_KEYS,
    OVERLOAD_KEYS, STARTED_KEYS, SUMMARY_KEYS,
};
use crate::observation::end::{detail_holds, end_expect, end_gen, number_text, Detail};
use crate::observation::gen::{num_gen, EndView, ObservationEnd, Span};
use crate::observation::record::{diagnostics_json, ident_json, proposal_json};
use crate::state_support::calendar::stamp_shape;
use crate::state_support::json_ref::quoted;
use crate::state_support::json_serde::{at, Json};
use crate::state_support::record_ref::{listed, truncated_bound, FieldBounds, EVENT_NAMES};
use crate::tcp_support::types::{IdentError, InitialError, ObservationOutcome, ObserverStage};
use crate::tcp_support::{byte_at, dropped, u32_at};
use crate::text::{bytes_of, text_of};
use vstd::utf8::encode_utf8;

verus! {

/// What every record starts with: the version of the records, the event, and
/// when it was.
pub open spec fn opens_with(j: Json, event: Seq<char>) -> bool {
    &&& at(j, "schema"@) == Json::Number(1)
    &&& at(j, "event"@) == Json::Str(event)
    &&& (at(j, "time"@) matches Json::Str(t) && stamp_shape(encode_utf8(t)))
}

proof fn lemma_events_listed()
    ensures
        listed("listener_started"@, EVENT_NAMES@),
        listed("overload"@, EVENT_NAMES@),
        listed("listener_stopped"@, EVENT_NAMES@),
        listed("connection_observation"@, EVENT_NAMES@),
{
    let e = EVENT_NAMES@;
    assert(e[0]@ == "listener_started"@ || e[0]@ == "connection_observation"@ || e[0]@ == "overload"@ || e[0]@
        == "listener_stopped"@);
    assert(e[1]@ == "listener_started"@ || e[1]@ == "connection_observation"@ || e[1]@ == "overload"@ || e[1]@
        == "listener_stopped"@);
    assert(e[2]@ == "listener_started"@ || e[2]@ == "connection_observation"@ || e[2]@ == "overload"@ || e[2]@
        == "listener_stopped"@);
    assert(e[3]@ == "listener_started"@ || e[3]@ == "connection_observation"@ || e[3]@ == "overload"@ || e[3]@
        == "listener_stopped"@);
}

/// The record of a start is accepted exactly where it has its four keys in
/// order and names the bound address.
pub proof fn lemma_started_record(j: Json, text: &str, bound: Seq<char>)
    ensures
        started_holds(j, text, bound) <==> {
            &&& opens_with(j, "listener_started"@)
            &&& at(j, "bound"@) == Json::Str(bound)
            &&& j matches Json::Object(m) && m.len() == 4
            &&& keys_in_order(bytes_of(text), 0, seq!["schema", "event", "time", "bound"], 0)
        },
{
    lemma_events_listed();
    assert(STARTED_KEYS@ =~= seq!["schema", "event", "time", "bound"]);
}

/// The record of an overload is accepted exactly where it has its five keys in
/// order and both counts.
pub proof fn lemma_overload_record(j: Json, text: &str, since_last: u64, total: u64)
    ensures
        overload_holds(j, text, since_last, total) <==> {
            &&& opens_with(j, "overload"@)
            &&& at(j, "dropped_since_last"@) == Json::Number(since_last as int)
            &&& at(j, "total_dropped"@) == Json::Number(total as int)
            &&& j matches Json::Object(m) && m.len() == 5
            &&& keys_in_order(
                bytes_of(text),
                0,
                seq!["schema", "event", "time", "dropped_since_last", "total_dropped"],
                0,
            )
        },
{
    lemma_events_listed();
    assert(OVERLOAD_KEYS@ =~= seq!["schema", "event", "time", "dropped_since_last", "total_dropped"]);
}

/// Whole milliseconds of a span, rounded down, the most that fit 64 bits.
pub open spec fn elapsed(d: Span) -> int {
    let ms = d.secs * 1000 + d.nanos / 1_000_000;
    if ms > u64::MAX {
        u64::MAX as int
    } else {
        ms
    }
}

/// The record of a stop is accepted exactly where it has its twelve keys in
/// order, the address, why it stopped, every count, and the error.
pub proof fn lemma_stopped_record(j: Json, text: &str, bound: Seq<char>, s: SummaryView)
    ensures
        stopped_holds(j, text, bound, s) <==> {
            &&& opens_with(j, "listener_stopped"@)
            &&& at(j, "bound"@) == Json::Str(bound)
            &&& at(j, "reason"@) == Json::Str(stop_code(s.reason)@)
            &&& at(j, "accepted"@) == Json::Number(s.accepted as int)
            &&& at(j, "observed"@) == Json::Number(s.observed as int)
            &&& at(j, "dropped_at_capacity"@) == Json::Number(s.dropped_at_capacity as int)
            &&& at(j, "records_dropped"@) == Json::Number(s.records_dropped as int)
            &&& at(j, "workers_abandoned"@) == Json::Number(s.workers_abandoned as int)
            &&& at(j, "elapsed_ms"@) == Json::Number(elapsed(s.elapsed))
            &&& s.error matches Some(t) ==> at(j, "error"@) == Json::Str(t)
            &&& s.error is None ==> at(j, "error"@) == Json::Null
            &&& j matches Json::Object(m) && m.len() == 12
            &&& keys_in_order(
                bytes_of(text),
                0,
                seq![
                    "schema",
                    "event",
                    "time",
                    "bound",
                    "reason",
                    "accepted",
                    "observed",
                    "dropped_at_capacity",
                    "records_dropped",
                    "workers_abandoned",
                    "elapsed_ms",
                    "error",
                ],
                0,
            )
        },
{
    lemma_events_listed();
    assert(SUMMARY_KEYS@ =~= seq![
        "schema",
        "event",
        "time",
        "bound",
        "reason",
        "accepted",
        "observed",
        "dropped_at_capacity",
        "records_dropped",
        "workers_abandoned",
        "elapsed_ms",
        "error",
    ]);
}

/// The code of each reason to stop.
pub proof fn lemma_stop_codes(r: StopReason)
    ensures
        r is RunDurationElapsed ==> stop_code(r) == "run_duration_elapsed",
        r is ConnectionLimitReached ==> stop_code(r) == "connection_limit_reached",
        r is StopRequested ==> stop_code(r) == "stop_requested",
        r is SinkFailed ==> stop_code(r) == "sink_failed",
        r is AcceptFailed ==> stop_code(r) == "accept_failed",
{
}

/// The connection that an observation record tells of.
pub open spec fn connection_told(j: Json, o: ObservationView, local: Seq<char>, peer: Seq<char>, f: int) -> bool {
    &&& at(j, "id"@) == Json::Number(o.id as int)
    &&& at(j, "transport"@) == Json::Str("tcp"@)
    &&& at(j, "local_addr"@) == Json::Str(local)
    &&& at(j, "peer_addr"@) == Json::Str(peer)
    &&& (at(j, "accepted_at"@) matches Json::Str(t) && stamp_is(t, o.accepted))
    &&& at(j, "elapsed_ms"@) == Json::Number(elapsed(o.elapsed))
    &&& at(j, "bytes_read"@) == Json::Number(o.bytes_read as int)
    &&& at(j, "bytes_written"@) == Json::Number(o.bytes_written as int)
    &&& at(j, "server_identification"@) == Json::Str(text_of(o.server_identification))
    &&& at(j, "key_exchange_completed"@) == Json::Bool(false)
    &&& at(j, "peer_authenticated"@) == Json::Bool(false)
    &&& o.client_identification is None ==> at(j, "client_identification"@) == Json::Null
    &&& o.client_identification matches Some(i) ==> at(j, "client_identification"@) == ident_json(i, f)
}

/// The end that an observation record tells of.
pub open spec fn end_told(j: Json, o: ObservationView, f: int) -> bool {
    &&& at(j, "stage"@) == Json::Str(
        match o.stage {
            ObserverStage::ClientIdentification => "client_identification"@,
            ObserverStage::InitialPackets => "initial_packets"@,
            ObserverStage::Finished => "finished"@,
        },
    )
    &&& at(j, "outcome"@) == Json::Str(end_expect(o.end).outcome@)
    &&& end_expect(o.end).reason is None ==> at(j, "reason"@) == Json::Null
    &&& end_expect(o.end).reason matches Some(t) ==> at(j, "reason"@) == Json::Str(t)
    &&& (at(j, "detail"@) matches Json::Str(t) && detail_holds(t, end_expect(o.end).detail) && encode_utf8(
        quoted(t),
    ).len() <= 512)
    &&& at(j, "diagnostics"@) == diagnostics_json(o.end, f)
}

/// An observation record is accepted exactly where it has its 23 keys in order
/// and tells of the connection, of its end, and of what was cut.
pub proof fn lemma_observation_record(
    j: Json,
    text: &str,
    o: ObservationView,
    local: Seq<char>,
    peer: Seq<char>,
    enc: Encoder,
    full_len: int,
)
    ensures
        observation_holds(j, text, o, local, peer, enc, full_len) <==> {
            &&& opens_with(j, "connection_observation"@)
            &&& connection_told(j, o, local, peer, enc.max_field_bytes as int)
            &&& end_told(j, o, enc.max_field_bytes as int)
            &&& truncation_holds(
                j,
                o,
                enc.max_field_bytes as int,
                enc.max_record_bytes as int,
                bytes_of(text).len() as int,
                full_len,
            )
            &&& j matches Json::Object(m) && m.len() == 23
            &&& keys_in_order(bytes_of(text), 0, OBSERVATION_KEYS@, 0)
        },
{
    lemma_events_listed();
}

/// A record over its budget is marked, and loses its messages and its
/// proposal; one within its budget is whole.
pub proof fn lemma_cut_record(j: Json, o: ObservationView, f: int, budget: int, len: int, full_len: int)
    requires
        truncation_holds(j, o, f, budget, len, full_len),
    ensures
        at(j, "record_truncated"@) == Json::Bool(full_len > budget),
        full_len > budget ==> at(j, "messages"@) == Json::Array(Seq::empty()) && at(j, "proposal"@) == Json::Null && len
            < full_len,
        full_len <= budget ==> at(j, "messages"@) == messages_json(o.messages, f) && len == full_len,
        full_len <= budget && o.proposal is Some ==> at(j, "proposal"@) == proposal_json(o.proposal->0),
        full_len <= budget && o.proposal is None ==> at(j, "proposal"@) == Json::Null,
{
}

/// The bound of a truncated record: a byte that is written as text costs six,
/// one that is written in hex two, and everything else 1100 and the detail.
pub proof fn lemma_truncated_bound(b: FieldBounds)
    ensures
        b.line <= b.max_field ==> truncated_bound(b) == 1100 + 6 * (b.server_identification + b.line + b.protocol_version
            + b.software_version + b.comments + b.diagnostic_text) + 2 * (b.line + b.diagnostic_hex) + b.detail_json,
        b.line > b.max_field ==> truncated_bound(b) == 1100 + 6 * (b.server_identification + b.line + b.protocol_version
            + b.software_version + b.comments + b.diagnostic_text) + 2 * (b.max_field + b.diagnostic_hex)
            + b.detail_json,
{
}

/// What the record of an end says of each end that is no fault.
pub proof fn lemma_end_record(end: EndView)
    ensures
        ({
            let e = end_expect(end);
            &&& end is TimedOut ==> e.outcome == "timeout" && e.reason == Some("connection_deadline"@) && e.detail
                == Detail::<Seq<char>>::Prefix("connection deadline passed")
            &&& end is Shutdown ==> e.outcome == "shutdown" && e.reason == Some("listener_stopping"@) && e.detail
                == Detail::Exact("listener stopped while the connection was active"@)
            &&& end matches ObservationEnd::Io { kind, message } ==> e.outcome == "io_error" && e.detail
                == Detail::Exact("socket error: "@ + message) && e.reason == Some(
                if kind is ConnectionReset {
                    "connection_reset"@
                } else if kind is ConnectionAborted {
                    "connection_aborted"@
                } else if kind is BrokenPipe {
                    "broken_pipe"@
                } else if kind is TimedOut {
                    "timed_out"@
                } else {
                    "io_other"@
                },
            )
            &&& end matches ObservationEnd::Observer(o) ==> {
                &&& o is BannerOnly ==> e.outcome == "banner_only" && e.reason is None && e.detail == Detail::Exact(
                    "client identification received; banner-only mode"@,
                )
                &&& o matches ObservationOutcome::Proposal(p) ==> e.reason is None && if p.anomalies.len() == 0 {
                    e.outcome == "proposal" && e.detail == Detail::Exact(
                        "client identification and initial KEXINIT received"@,
                    )
                } else {
                    e.outcome == "proposal_with_anomalies" && e.detail == Detail::Exact(
                        "KEXINIT decoded with anomalies; see proposal.anomalies"@,
                    )
                }
                &&& o matches ObservationOutcome::Disconnected { reason_code, .. } ==> e.outcome == "disconnected"
                    && e.reason == Some("disconnect_"@ + number_text(reason_code as int))
                &&& o is UnexpectedInput ==> e.outcome == "unexpected_input" && e.reason == Some(
                    "not_ssh_identification"@,
                ) && e.detail == Detail::Exact("first bytes did not begin an SSH identification"@)
                &&& o matches ObservationOutcome::Eof { stage, pending_bytes } ==> e.outcome == "eof" && e.reason
                    == Some(
                    if pending_bytes > 0 {
                        "eof_truncated"@
                    } else {
                        "eof_at_boundary"@
                    },
                ) && e.detail == Detail::Exact(
                    "peer closed while "@ + if stage is ClientIdentification {
                        "awaiting client identification"@
                    } else if stage is InitialPackets {
                        "awaiting client KEXINIT"@
                    } else {
                        "finished"@
                    },
                )
                &&& o is Error ==> e.outcome == "protocol_error" && e.reason is Some
            }
        }),
{
}

/// The end of an observation is drawn by one byte.
pub proof fn lemma_end_drawn(s: Seq<u8>)
    ensures
        ({
            let e = end_gen(s).0;
            let k = byte_at(s, 0) % 10;
            let t = dropped(s, 1);
            &&& k == 0 <==> e is Observer && e->Observer_0 is BannerOnly
            &&& k == 1 <==> e is Observer && e->Observer_0 is Proposal
            &&& k == 2 || k == 9 <==> e is Observer && e->Observer_0 is Disconnected
            &&& k == 3 <==> e is Observer && e->Observer_0 is UnexpectedInput
            &&& k == 4 <==> e is Observer && e->Observer_0 is Eof
            &&& k == 5 <==> e is Observer && e->Observer_0 is Error
            &&& k == 6 <==> e is TimedOut
            &&& k == 7 <==> e is Shutdown
            &&& k == 8 <==> e is Io
            &&& e matches ObservationEnd::Observer(ObservationOutcome::Disconnected { reason_code, .. }) ==> reason_code
                == if k == 9 {
                (byte_at(t, 0) % 16) as u32
            } else {
                u32_at(t)
            }
        }),
{
}

/// The kind of an event is drawn by its first byte.
pub proof fn lemma_event_drawn(kind: u8, s: Seq<u8>)
    ensures
        event_gen(kind, s) is Started <==> kind == 0,
        event_gen(kind, s) is Overload <==> kind == 1,
        event_gen(kind, s) is Stopped <==> kind == 2,
        event_gen(kind, s) is Observation <==> kind > 2,
        event_gen(kind, s) matches ListenerEvent::Overload { dropped_since_last, total_dropped } ==> dropped_since_last
            == num_gen(s).0 && total_dropped == num_gen(num_gen(s).1).0,
{
}

/// What the record of a fault before key exchange says.
pub proof fn lemma_fault_record(f: InitialError)
    ensures
        ({
            let e = end_expect(ObservationEnd::Observer(ObservationOutcome::Error(f)));
            let told = |code: &'static str, d: Detail<Seq<char>>| e.reason == Some(code@) && e.detail == d;
            &&& f matches InitialError::Ident(i) ==> told(
                match i {
                    IdentError::PreludeLineTooLong => "ident_prelude_line_too_long",
                    IdentError::TooManyPreludeLines => "ident_too_many_prelude_lines",
                    IdentError::PreludeBytesExceeded => "ident_prelude_too_large",
                    IdentError::IdentificationTooLong => "ident_too_long",
                    IdentError::InvalidIdentification(_) => "ident_invalid",
                    IdentError::UnsupportedVersion => "ident_unsupported_version",
                },
                Detail::Prefix("identification: "),
            )
            &&& f is Packet ==> told("packet_framing", Detail::Prefix("packet framing: "))
            &&& f is EmptyPayload ==> told("packet_empty_payload", Detail::Exact("packet with empty payload"@))
            &&& f is Message ==> told("message_malformed", Detail::Prefix("malformed "))
            &&& f is UnexpectedMessage ==> told("message_unexpected", Detail::Suffix(" before KEXINIT"))
            &&& f is UnsupportedTransition ==> told(
                "unsupported_transition",
                Detail::Suffix(" before KEXINIT; initial packet decoding cannot continue"),
            )
            &&& f matches InitialError::PacketBudgetExceeded { limit } ==> told(
                "packet_budget_exceeded",
                Detail::Exact("more than "@ + number_text(limit as int) + " packets before KEXINIT"@),
            )
            &&& f matches InitialError::ByteBudgetExceeded { limit } ==> told(
                "byte_budget_exceeded",
                Detail::Exact("more than "@ + number_text(limit as int) + " bytes before KEXINIT"@),
            )
            &&& f matches InitialError::InputOverflow(o) ==> told(
                "input_overflow",
                Detail::Exact(
                    "input of "@ + number_text(o.offered as int) + " bytes exceeds buffer capacity "@ + number_text(
                        o.capacity as int,
                    ) + " ("@ + number_text(o.pending as int) + " pending)"@,
                ),
            )
        }),
{
}

} // verus!
