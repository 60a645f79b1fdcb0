//! Events of a listener, and whether their records are right.

use vstd::prelude::*;
use crate::observation::end::{
    detail_holds, detail_matches, end_expect, end_gen, expect_end, gen_end,
};
use crate::observation::gen::{
    addr, addr_gen, bytes, bytes_gen, dur, gen_ident, gen_messages, gen_proposal, ident_gen, message_views,
    messages_gen, num, num_gen, opt_ident, proposal_gen, size_gen, span_gen, stage, stage_code, stage_of, text, text_gen,
    usize_num, Address, EndView, ObservationEnd, Span,
};
use crate::observation::record::{
    diagnostics_json, expected_diagnostics, expected_identification, expected_message, expected_millis,
    expected_proposal, ident_json, message_json, millis_of, opt_string, proposal_json, text_node,
};
use crate::seqs::{copy_bytes, min_int, occurs_at, push_all, same_bytes};
use crate::state_support::calendar::{is_stamp, lemma_stamp_unique, looks_like_rfc3339, rfc3339, stamp_shape};
use crate::state_support::json_ref::{quoted, serialize, Node};
use crate::state_support::json_parse::{entries_of, parse, parsed_json, value_as_str, value_get, value_is};
use crate::state_support::json_serde::{at, items_json, json, lemma_items, value_json, Json};
use crate::state_support::record_ref::{
    is_listed, listed, truncated_bound, within_truncated_bound, FieldBounds, EVENT_NAMES, STAGE_CODES,
    STOP_REASON_CODES,
};
use crate::tcp_support::types::{
    ObservationOutcome, ObserverStage, OwnedIdentification, Proposal, ProposalView, SkippedMessage,
};
use crate::tcp_support::{byte_at, dropped, u16_at, u32_at, Cursor};
use crate::text::{ascii_bytes, ascii_text, bytes_of, lossy_string, same_text, text_of};
use vstd::slice::slice_subrange;
use vstd::utf8::encode_utf8;

verus! {

/// The longest detail in a record, as JSON.
pub const DETAIL_JSON_MAX: usize = 512;

/// The version of the records.
pub const SCHEMA_VERSION: u64 = 1;

/// The keys of an observation record, in order.
pub const OBSERVATION_KEYS: [&'static str; 23] = [
    "schema",
    "event",
    "time",
    "id",
    "transport",
    "local_addr",
    "peer_addr",
    "accepted_at",
    "elapsed_ms",
    "bytes_read",
    "bytes_written",
    "server_identification",
    "client_identification",
    "messages",
    "proposal",
    "stage",
    "outcome",
    "reason",
    "detail",
    "diagnostics",
    "key_exchange_completed",
    "peer_authenticated",
    "record_truncated",
];

/// The keys of a summary record, in order.
pub const SUMMARY_KEYS: [&'static str; 12] = [
    "schema",
    "event",
    "time",
    "bound",
    "reason",
    "accepted",
    "observed",
    "dropped_at_capacity",
    "records_dropped",
    "workers_abandoned",
    "elapsed_ms",
    "error",
];

/// The keys of a start record, in order.
pub const STARTED_KEYS: [&'static str; 4] = ["schema", "event", "time", "bound"];

/// The keys of an overload record, in order.
pub const OVERLOAD_KEYS: [&'static str; 5] = ["schema", "event", "time", "dropped_since_last", "total_dropped"];

/// Why a listener stopped.
#[derive(Clone, Copy, Debug, PartialEq, Eq, Structural)]
pub enum StopReason {
    RunDurationElapsed,
    ConnectionLimitReached,
    StopRequested,
    SinkFailed,
    AcceptFailed,
}

/// What a listener did over its life.
#[derive(Debug, PartialEq, Eq)]
pub struct Summary<A = Address, T = String> {
    pub bound: A,
    pub accepted: u64,
    pub observed: u64,
    pub dropped_at_capacity: u64,
    pub records_dropped: u64,
    pub workers_abandoned: usize,
    pub reason: StopReason,
    pub error: Option<T>,
    pub elapsed: Span,
}

/// One observed connection.
#[derive(Debug, PartialEq, Eq)]
pub struct Observation<A = Address, B = Vec<u8>, I = OwnedIdentification, M = Vec<SkippedMessage>, P = Proposal, E = ObservationEnd> {
    pub id: u64,
    pub local: A,
    pub peer: A,
    pub accepted: Span,
    pub elapsed: Span,
    pub bytes_read: u64,
    pub bytes_written: u64,
    pub server_identification: B,
    pub client_identification: Option<I>,
    pub messages: M,
    pub proposal: Option<P>,
    pub stage: ObserverStage,
    pub end: E,
}

/// An observation over sequences.
pub type ObservationView = Observation<
    Address<Seq<u8>>,
    Seq<u8>,
    OwnedIdentification<Seq<u8>, Seq<char>>,
    Seq<SkippedMessage<Seq<u8>>>,
    ProposalView,
    EndView,
>;

/// A summary over sequences.
pub type SummaryView = Summary<Address<Seq<u8>>, Seq<char>>;

/// An event of a listener.
#[derive(Debug, PartialEq, Eq)]
pub enum ListenerEvent<A = Address, S = Summary, O = Observation> {
    Started { bound: A },
    Overload { dropped_since_last: u64, total_dropped: u64 },
    Stopped(S),
    Observation(O),
}

/// An event over sequences.
pub type EventView = ListenerEvent<Address<Seq<u8>>, SummaryView, ObservationView>;

/// An optional proposal over sequences.
pub open spec fn opt_proposal(o: Option<Proposal>) -> Option<ProposalView> {
    match o {
        Some(p) => Some(p@),
        None => None,
    }
}

/// An optional text over sequences.
pub open spec fn opt_text(o: Option<String>) -> Option<Seq<char>> {
    match o {
        Some(t) => Some(t@),
        None => None,
    }
}

impl View for Observation<Address, Vec<u8>, OwnedIdentification, Vec<SkippedMessage>, Proposal, ObservationEnd> {
    type V = ObservationView;

    open spec fn view(&self) -> ObservationView {
        Observation {
            id: self.id,
            local: self.local@,
            peer: self.peer@,
            accepted: self.accepted,
            elapsed: self.elapsed,
            bytes_read: self.bytes_read,
            bytes_written: self.bytes_written,
            server_identification: self.server_identification@,
            client_identification: opt_ident(self.client_identification),
            messages: message_views(self.messages@),
            proposal: opt_proposal(self.proposal),
            stage: self.stage,
            end: self.end@,
        }
    }
}

impl View for Summary<Address, String> {
    type V = SummaryView;

    open spec fn view(&self) -> SummaryView {
        Summary {
            bound: self.bound@,
            accepted: self.accepted,
            observed: self.observed,
            dropped_at_capacity: self.dropped_at_capacity,
            records_dropped: self.records_dropped,
            workers_abandoned: self.workers_abandoned,
            reason: self.reason,
            error: opt_text(self.error),
            elapsed: self.elapsed,
        }
    }
}

impl View for ListenerEvent<Address, Summary, Observation> {
    type V = EventView;

    open spec fn view(&self) -> EventView {
        match self {
            ListenerEvent::Started { bound } => ListenerEvent::Started { bound: bound@ },
            ListenerEvent::Overload { dropped_since_last, total_dropped } => ListenerEvent::Overload {
                dropped_since_last: *dropped_since_last,
                total_dropped: *total_dropped,
            },
            ListenerEvent::Stopped(s) => ListenerEvent::Stopped(s@),
            ListenerEvent::Observation(o) => ListenerEvent::Observation(o@),
        }
    }
}

/// The limits of an encoder.
#[derive(Clone, Copy, Debug, PartialEq, Eq, Structural)]
pub struct Encoder {
    pub max_record_bytes: usize,
    pub max_field_bytes: usize,
}

/// The record budget that a selector picks.
pub open spec fn record_limit(sel: u8, s: Seq<u8>) -> (int, Seq<u8>) {
    if sel == 9 {
        (u32_at(s) as int % 300_001, dropped(s, 4))
    } else {
        (
            if sel == 0 {
                0
            } else if sel == 1 {
                1
            } else if sel == 2 {
                64
            } else if sel == 3 {
                256
            } else if sel == 4 {
                1024
            } else if sel == 5 {
                2048
            } else if sel == 6 {
                4096
            } else if sel == 7 {
                65_536
            } else {
                262_144
            },
            s,
        )
    }
}

/// The field limit that a selector picks.
pub open spec fn field_limit(sel: u8, s: Seq<u8>) -> (int, Seq<u8>) {
    if sel == 4 {
        (u16_at(s) as int % 4097, dropped(s, 2))
    } else {
        (
            if sel == 0 {
                0
            } else if sel == 1 {
                1
            } else if sel == 2 {
                8
            } else {
                512
            },
            s,
        )
    }
}

/// Reads the limits of an encoder, selected by a byte.
pub fn gen_encoder(cur: &mut Cursor<'_>, sel: u8) -> (r: Encoder)
    ensures
        ({
            let (m, s1) = record_limit(sel % 16, old(cur)@);
            let (f, s2) = field_limit(sel / 16, s1);
            r.max_record_bytes == m && r.max_field_bytes == f && final(cur)@ == s2
        }),
        r.max_record_bytes <= 300_000,
        r.max_field_bytes <= 4096,
{
    let max_record_bytes: usize = match sel % 16 {
        0 => 0,
        1 => 1,
        2 => 64,
        3 => 256,
        4 => 1024,
        5 => 2048,
        6 => 4096,
        7 => 65_536,
        9 => (cur.u32() % 300_001) as usize,
        _ => 262_144,
    };
    let max_field_bytes: usize = match sel / 16 {
        0 => 0,
        1 => 1,
        2 => 8,
        4 => cur.u16() as usize % 4097,
        _ => 512,
    };
    Encoder { max_record_bytes, max_field_bytes }
}

/// The reason that a byte selects.
pub open spec fn stop_reason(b: u8) -> StopReason {
    let k = b % 5;
    if k == 0 {
        StopReason::RunDurationElapsed
    } else if k == 1 {
        StopReason::ConnectionLimitReached
    } else if k == 2 {
        StopReason::StopRequested
    } else if k == 3 {
        StopReason::SinkFailed
    } else {
        StopReason::AcceptFailed
    }
}

/// The code of a reason.
pub open spec fn stop_code(r: StopReason) -> &'static str {
    match r {
        StopReason::RunDurationElapsed => "run_duration_elapsed",
        StopReason::ConnectionLimitReached => "connection_limit_reached",
        StopReason::StopRequested => "stop_requested",
        StopReason::SinkFailed => "sink_failed",
        StopReason::AcceptFailed => "accept_failed",
    }
}

fn stop_code_of(r: StopReason) -> (c: &'static str)
    ensures
        c == stop_code(r),
{
    match r {
        StopReason::RunDurationElapsed => "run_duration_elapsed",
        StopReason::ConnectionLimitReached => "connection_limit_reached",
        StopReason::StopRequested => "stop_requested",
        StopReason::SinkFailed => "sink_failed",
        StopReason::AcceptFailed => "accept_failed",
    }
}

/// A summary with open fields.
#[verifier::opaque]
pub open spec fn summary_gen(s: Seq<u8>) -> (SummaryView, Seq<u8>) {
    let (bound, s1) = addr_gen(s);
    let (accepted, s2) = num_gen(s1);
    let (observed, s3) = num_gen(s2);
    let (dropped_at_capacity, s4) = num_gen(s3);
    let (records_dropped, s5) = num_gen(s4);
    let (workers_abandoned, s6) = size_gen(s5);
    let reason = stop_reason(byte_at(s6, 0));
    let s7 = dropped(s6, 1);
    let s8 = dropped(s7, 1);
    let (error, s9) = if byte_at(s7, 0) % 2 == 1 {
        let (t, s9) = text_gen(s8, 256);
        (Some(t), s9)
    } else {
        (None, s8)
    };
    let (elapsed, s10) = span_gen(s9);
    (
        Summary {
            bound,
            accepted,
            observed,
            dropped_at_capacity,
            records_dropped,
            workers_abandoned,
            reason,
            error,
            elapsed,
        },
        s10,
    )
}

fn gen_summary(cur: &mut Cursor<'_>) -> (r: Summary)
    ensures
        (r@, final(cur)@) == summary_gen(old(cur)@),
{
    let bound = addr(cur);
    let accepted: u64 = num(cur);
    let observed: u64 = num(cur);
    let dropped_at_capacity: u64 = num(cur);
    let records_dropped: u64 = num(cur);
    let workers_abandoned: usize = usize_num(cur);
    let reason = match cur.u8() % 5 {
        0 => StopReason::RunDurationElapsed,
        1 => StopReason::ConnectionLimitReached,
        2 => StopReason::StopRequested,
        3 => StopReason::SinkFailed,
        _ => StopReason::AcceptFailed,
    };
    let error = if cur.u8() % 2 == 1 {
        Some(text(cur, 256))
    } else {
        None
    };
    let elapsed = dur(cur);
    proof {
        reveal(summary_gen);
    }
    Summary {
        bound,
        accepted,
        observed,
        dropped_at_capacity,
        records_dropped,
        workers_abandoned,
        reason,
        error,
        elapsed,
    }
}

/// The server's own identification: the usual one, or one with open bytes.
pub open spec fn server_gen(s: Seq<u8>) -> (Seq<u8>, Seq<u8>) {
    if byte_at(s, 0) == 0 {
        (bytes_of("SSH-2.0-tatami_observer_0.1.0"), dropped(s, 1))
    } else {
        bytes_gen(dropped(s, 1), 255)
    }
}

/// An observation with open fields.
#[verifier::opaque]
pub open spec fn observation_gen(s: Seq<u8>) -> (ObservationView, Seq<u8>) {
    let (id, s1) = num_gen(s);
    let (local, s2) = addr_gen(s1);
    let (peer, s3) = addr_gen(s2);
    let (accepted, s4) = span_gen(s3);
    let (elapsed, s5) = span_gen(s4);
    let (bytes_read, s6) = num_gen(s5);
    let (bytes_written, s7) = num_gen(s6);
    let (server_identification, s8) = server_gen(s7);
    let (client_identification, s9) = ident_gen(s8);
    let (messages, s10) = messages_gen(dropped(s9, 1), (byte_at(s9, 0) % 17) as nat);
    let s11 = dropped(s10, 1);
    let (proposal, s12) = if byte_at(s10, 0) == 0 {
        (None, s11)
    } else {
        let (p, s12) = proposal_gen(s11);
        (Some(p), s12)
    };
    let stage = stage_of(byte_at(s12, 0));
    let (end, s13) = end_gen(dropped(s12, 1));
    (
        Observation {
            id,
            local,
            peer,
            accepted,
            elapsed,
            bytes_read,
            bytes_written,
            server_identification,
            client_identification,
            messages,
            proposal,
            stage,
            end,
        },
        s13,
    )
}

/// Reads an observation.
pub fn gen_observation(cur: &mut Cursor<'_>) -> (r: Observation)
    ensures
        (r@, final(cur)@) == observation_gen(old(cur)@),
        r.accepted.nanos < 1_000_000_000,
        r.elapsed.nanos < 1_000_000_000,
{
    let id: u64 = num(cur);
    let local = addr(cur);
    let peer = addr(cur);
    let accepted = dur(cur);
    let elapsed = dur(cur);
    let bytes_read: u64 = num(cur);
    let bytes_written: u64 = num(cur);
    let server_identification = if cur.u8() == 0 {
        copy_bytes("SSH-2.0-tatami_observer_0.1.0".as_bytes())
    } else {
        bytes(cur, 255)
    };
    let client_identification = gen_ident(cur);
    let messages = gen_messages(cur);
    let proposal = if cur.u8() == 0 {
        None
    } else {
        Some(gen_proposal(cur))
    };
    let (st, _code, _words) = stage(cur.u8());
    let (end, _expect) = gen_end(cur);
    proof {
        reveal(observation_gen);
    }
    Observation {
        id,
        local,
        peer,
        accepted,
        elapsed,
        bytes_read,
        bytes_written,
        server_identification,
        client_identification,
        messages,
        proposal,
        stage: st,
        end,
    }
}

/// An event with open fields.
pub open spec fn event_gen(kind: u8, s: Seq<u8>) -> EventView {
    if kind == 0 {
        ListenerEvent::Started { bound: addr_gen(s).0 }
    } else if kind == 1 {
        ListenerEvent::Overload {
            dropped_since_last: num_gen(s).0,
            total_dropped: num_gen(num_gen(s).1).0,
        }
    } else if kind == 2 {
        ListenerEvent::Stopped(summary_gen(s).0)
    } else {
        ListenerEvent::Observation(observation_gen(s).0)
    }
}

/// Reads an event and the limits of the encoder that writes its record.
pub fn gen_event(data: &[u8]) -> (r: (ListenerEvent, Encoder))
    ensures
        ({
            let s = dropped(dropped(data@, 1), 1);
            let sel = byte_at(dropped(data@, 1), 0);
            let (m, s1) = record_limit(sel % 16, s);
            let (f, s2) = field_limit(sel / 16, s1);
            &&& r.0@ == event_gen(byte_at(data@, 0), s2)
            &&& r.1.max_record_bytes == m
            &&& r.1.max_field_bytes == f
        }),
{
    let mut cur = Cursor::new(data);
    let kind: u8 = cur.u8();
    let sel: u8 = cur.u8();
    let enc = gen_encoder(&mut cur, sel);
    let event = match kind {
        0 => ListenerEvent::Started { bound: addr(&mut cur) },
        1 => {
            let dropped_since_last: u64 = num(&mut cur);
            let total_dropped: u64 = num(&mut cur);
            ListenerEvent::Overload { dropped_since_last, total_dropped }
        },
        2 => ListenerEvent::Stopped(gen_summary(&mut cur)),
        _ => ListenerEvent::Observation(gen_observation(&mut cur)),
    };
    (event, enc)
}

/// The first place of `needle` in `hay` at or behind `from`.
pub open spec fn found_at(hay: Seq<u8>, needle: Seq<u8>, from: int) -> Option<int>
    decreases hay.len() - from,
{
    if from < 0 || from + needle.len() > hay.len() {
        None
    } else if occurs_at(needle, hay, from) {
        Some(from)
    } else if from >= hay.len() {
        None
    } else {
        found_at(hay, needle, from + 1)
    }
}

fn find_from(hay: &[u8], needle: &[u8], from: usize) -> (r: Option<usize>)
    requires
        from <= hay@.len(),
    ensures
        match found_at(hay@, needle@, from as int) {
            Some(p) => r matches Some(q) && q == p && p + needle@.len() <= hay@.len(),
            None => r is None,
        },
{
    let mut i: usize = from;
    while i <= hay.len() && needle.len() <= hay.len() - i
        invariant
            i <= hay@.len(),
            found_at(hay@, needle@, from as int) == found_at(hay@, needle@, i as int),
        decreases hay@.len() - i,
    {
        if same_bytes(slice_subrange(hay, i, i + needle.len()), needle) {
            proof {
                assert(occurs_at(needle@, hay@, i as int));
            }
            return Some(i);
        }
        proof {
            assert(!occurs_at(needle@, hay@, i as int));
        }
        if i == hay.len() {
            return None;
        }
        i = i + 1;
    }
    None
}

/// The text of a key in a record.
pub open spec fn key_pattern(k: &str) -> Seq<u8> {
    seq![34u8] + bytes_of(k) + seq![34u8, 58u8]
}

/// From the `i`-th on, the keys stand in a text in this order behind `pos`.
pub open spec fn keys_in_order(t: Seq<u8>, pos: int, keys: Seq<&'static str>, i: int) -> bool
    decreases keys.len() - i,
{
    if i < 0 || i >= keys.len() {
        true
    } else {
        match found_at(t, key_pattern(keys[i]), pos) {
            Some(p) => keys_in_order(t, p + key_pattern(keys[i]).len(), keys, i + 1),
            None => false,
        }
    }
}

/// Whether keys stand in a record in this order. A quoted key and a colon
/// cannot stand inside a string value, whose quotes are escaped.
pub fn check_key_order(text: &str, keys: &[&'static str]) -> (r: bool)
    ensures
        r == keys_in_order(bytes_of(text), 0, keys@, 0),
{
    let t = text.as_bytes();
    let n: usize = t.len();
    let mut pos: usize = 0;
    let mut i: usize = 0;
    while i < keys.len()
        invariant
            i <= keys@.len(),
            t@ == bytes_of(text),
            t@.len() == n,
            pos <= t@.len(),
            keys_in_order(t@, 0, keys@, 0) == keys_in_order(t@, pos as int, keys@, i as int),
        decreases keys@.len() - i,
    {
        let mut pat: Vec<u8> = Vec::new();
        pat.push(34);
        push_all(&mut pat, keys[i].as_bytes());
        pat.push(34);
        pat.push(58);
        proof {
            assert(pat@ =~= key_pattern(keys@[i as int]));
        }
        match find_from(t, pat.as_slice(), pos) {
            Some(p) => {
                pos = p + pat.len();
            },
            None => {
                return false;
            },
        }
        i = i + 1;
    }
    true
}

/// Whether the value of a key means what a tree means.
pub fn field_is(rec: &serde_json::Value, k: &str, want: Node) -> (r: bool)
    ensures
        r == (at(value_json(*rec), k@) == json(want)),
{
    match value_get(rec, k) {
        Some(v) => value_is(v, &want),
        None => match want {
            Node::Null => true,
            _ => false,
        },
    }
}

/// The text of a key, where it has one.
pub fn field_text<'a>(rec: &'a serde_json::Value, k: &str) -> (r: Option<&'a str>)
    ensures
        match r {
            Some(t) => at(value_json(*rec), k@) == Json::Str(t@),
            None => !(at(value_json(*rec), k@) is Str),
        },
{
    match value_get(rec, k) {
        Some(v) => value_as_str(v),
        None => None,
    }
}

/// The number of keys of an object.
pub open spec fn key_count(j: Json) -> Option<int> {
    match j {
        Json::Object(m) => Some(m.len() as int),
        _ => None,
    }
}

fn has_fields(rec: &serde_json::Value, n: usize) -> (r: bool)
    ensures
        r == (key_count(value_json(*rec)) == Some(n as int)),
{
    match entries_of(rec) {
        Some(v) => v.len() == n,
        None => false,
    }
}

/// What a text is read as, where that is an object.
pub open spec fn record_of(text: &str) -> Option<Json> {
    match parsed_json(text@) {
        Some(j) => if j is Object {
            Some(j)
        } else {
            None
        },
        None => None,
    }
}

/// A record has its envelope: the schema, the name of its event, and a time.
pub open spec fn envelope_holds(j: Json, event: Seq<char>) -> bool {
    &&& at(j, "schema"@) == Json::Number(SCHEMA_VERSION as int)
    &&& at(j, "event"@) == Json::Str(event)
    &&& listed(event, EVENT_NAMES@)
    &&& (at(j, "time"@) matches Json::Str(t) && stamp_shape(encode_utf8(t)))
}

/// Whether a record has its envelope.
pub fn check_envelope(rec: &serde_json::Value, event: &str) -> (r: bool)
    ensures
        r == envelope_holds(value_json(*rec), event@),
{
    if !field_is(rec, "schema", Node::UInt(SCHEMA_VERSION)) || !field_is(rec, "event", text_node(event)) || !is_listed(
        event,
        EVENT_NAMES.as_slice(),
    ) {
        return false;
    }
    match field_text(rec, "time") {
        Some(t) => looks_like_rfc3339(t),
        None => false,
    }
}

/// A text is the time stamp of a point in time.
pub open spec fn stamp_is(t: Seq<char>, span: Span) -> bool {
    exists|b: Seq<u8>| #[trigger]
        is_stamp(b, span.secs as int, (span.nanos / 1_000_000) as int) && ascii_bytes(b) && t == ascii_text(b)
}

/// Whether a text is the time stamp of a point in time.
pub fn check_stamp(t: &str, span: Span) -> (r: bool)
    requires
        span.nanos < 1_000_000_000,
    ensures
        r == stamp_is(t@, span),
{
    let millis: u32 = span.nanos / 1_000_000;
    let want = rfc3339(span.secs, millis);
    let r = same_text(t, want.as_str());
    proof {
        let w = choose|b: Seq<u8>| #[trigger]
            is_stamp(b, span.secs as int, millis as int) && ascii_bytes(b) && want@ == ascii_text(b);
        if stamp_is(t@, span) {
            let b = choose|b: Seq<u8>| #[trigger]
                is_stamp(b, span.secs as int, millis as int) && ascii_bytes(b) && t@ == ascii_text(b);
            lemma_stamp_unique(w, b, span.secs as int, millis as int);
        }
    }
    r
}

/// The record of a start.
pub open spec fn started_holds(j: Json, text: &str, bound: Seq<char>) -> bool {
    &&& envelope_holds(j, "listener_started"@)
    &&& keys_in_order(bytes_of(text), 0, STARTED_KEYS@, 0)
    &&& key_count(j) == Some(4int)
    &&& at(j, "bound"@) == Json::Str(bound)
}

/// Whether the record of a start is right.
fn judge_started(rec: &serde_json::Value, text: &str, bound: &str) -> (r: bool)
    ensures
        r == started_holds(value_json(*rec), text, bound@),
{
    check_envelope(rec, "listener_started") && check_key_order(text, STARTED_KEYS.as_slice()) && has_fields(rec, 4)
        && field_is(rec, "bound", text_node(bound))
}

/// Whether a text is the record of a start.
pub fn check_started(text: &str, bound: &str) -> (r: bool)
    ensures
        r == (record_of(text) matches Some(j) && started_holds(j, text, bound@)),
{
    match parse(text) {
        Some(rec) => judge_started(&rec, text, bound),
        None => false,
    }
}

/// The record of an overload.
pub open spec fn overload_holds(j: Json, text: &str, since_last: u64, total: u64) -> bool {
    &&& envelope_holds(j, "overload"@)
    &&& keys_in_order(bytes_of(text), 0, OVERLOAD_KEYS@, 0)
    &&& key_count(j) == Some(5int)
    &&& at(j, "dropped_since_last"@) == Json::Number(since_last as int)
    &&& at(j, "total_dropped"@) == Json::Number(total as int)
}

/// Whether the record of an overload is right.
fn judge_overload(rec: &serde_json::Value, text: &str, since_last: u64, total: u64) -> (r: bool)
    ensures
        r == overload_holds(value_json(*rec), text, since_last, total),
{
    check_envelope(rec, "overload") && check_key_order(text, OVERLOAD_KEYS.as_slice()) && has_fields(rec, 5)
        && field_is(rec, "dropped_since_last", Node::UInt(since_last)) && field_is(rec, "total_dropped", Node::UInt(total))
}

/// Whether a text is the record of an overload.
pub fn check_overload(text: &str, since_last: u64, total: u64) -> (r: bool)
    ensures
        r == (record_of(text) matches Some(j) && overload_holds(j, text, since_last, total)),
{
    match parse(text) {
        Some(rec) => judge_overload(&rec, text, since_last, total),
        None => false,
    }
}

/// The record of a stop; `bound` is the text of the address.
pub open spec fn stopped_holds(j: Json, text: &str, bound: Seq<char>, s: SummaryView) -> bool {
    &&& envelope_holds(j, "listener_stopped"@)
    &&& keys_in_order(bytes_of(text), 0, SUMMARY_KEYS@, 0)
    &&& key_count(j) == Some(12int)
    &&& at(j, "bound"@) == Json::Str(bound)
    &&& at(j, "reason"@) == Json::Str(stop_code(s.reason)@)
    &&& at(j, "accepted"@) == Json::Number(s.accepted as int)
    &&& at(j, "observed"@) == Json::Number(s.observed as int)
    &&& at(j, "dropped_at_capacity"@) == Json::Number(s.dropped_at_capacity as int)
    &&& at(j, "records_dropped"@) == Json::Number(s.records_dropped as int)
    &&& at(j, "workers_abandoned"@) == Json::Number(s.workers_abandoned as int)
    &&& at(j, "elapsed_ms"@) == Json::Number(millis_of(s.elapsed))
    &&& at(j, "error"@) == opt_string(s.error)
}

fn opt_node(o: &Option<String>) -> (r: Node)
    ensures
        json(r) == opt_string(opt_text(*o)),
{
    match o {
        Some(t) => text_node(t.as_str()),
        None => Node::Null,
    }
}

/// Whether the record of a stop is right.
fn judge_stopped(rec: &serde_json::Value, text: &str, bound: &str, s: &Summary) -> (r: bool)
    ensures
        r == stopped_holds(value_json(*rec), text, bound@, s@),
{
    check_envelope(rec, "listener_stopped") && check_key_order(text, SUMMARY_KEYS.as_slice()) && has_fields(rec, 12)
        && field_is(rec, "bound", text_node(bound)) && field_is(rec, "reason", text_node(stop_code_of(s.reason)))
        && field_is(rec, "accepted", Node::UInt(s.accepted)) && field_is(rec, "observed", Node::UInt(s.observed))
        && field_is(rec, "dropped_at_capacity", Node::UInt(s.dropped_at_capacity)) && field_is(
        rec,
        "records_dropped",
        Node::UInt(s.records_dropped),
    ) && field_is(rec, "workers_abandoned", Node::UInt(s.workers_abandoned as u64)) && field_is(
        rec,
        "elapsed_ms",
        Node::UInt(expected_millis(s.elapsed)),
    ) && field_is(rec, "error", opt_node(&s.error))
}

/// Whether a text is the record of a stop.
pub fn check_stopped(text: &str, bound: &str, s: &Summary) -> (r: bool)
    ensures
        r == (record_of(text) matches Some(j) && stopped_holds(j, text, bound@, s@)),
        r ==> {
            let j = record_of(text)->0;
            &&& at(j, "bound"@) == Json::Str(bound@)
            &&& at(j, "accepted"@) == Json::Number(s.accepted as int)
            &&& at(j, "observed"@) == Json::Number(s.observed as int)
            &&& at(j, "dropped_at_capacity"@) == Json::Number(s.dropped_at_capacity as int)
            &&& at(j, "records_dropped"@) == Json::Number(s.records_dropped as int)
            &&& at(j, "workers_abandoned"@) == Json::Number(s.workers_abandoned as int)
        },
{
    match parse(text) {
        Some(rec) => judge_stopped(&rec, text, bound, s),
        None => false,
    }
}

/// The fixed fields of an observation record.
pub open spec fn fixed_holds(j: Json, o: ObservationView, local: Seq<char>, peer: Seq<char>, f: int) -> bool {
    &&& at(j, "id"@) == Json::Number(o.id as int)
    &&& at(j, "transport"@) == Json::Str("tcp"@)
    &&& at(j, "local_addr"@) == Json::Str(local)
    &&& at(j, "peer_addr"@) == Json::Str(peer)
    &&& (at(j, "accepted_at"@) matches Json::Str(t) && stamp_is(t, o.accepted))
    &&& at(j, "elapsed_ms"@) == Json::Number(millis_of(o.elapsed))
    &&& at(j, "bytes_read"@) == Json::Number(o.bytes_read as int)
    &&& at(j, "bytes_written"@) == Json::Number(o.bytes_written as int)
    &&& at(j, "server_identification"@) == Json::Str(text_of(o.server_identification))
    &&& at(j, "key_exchange_completed"@) == Json::Bool(false)
    &&& at(j, "peer_authenticated"@) == Json::Bool(false)
    &&& at(j, "client_identification"@) == (match o.client_identification {
        Some(i) => ident_json(i, f),
        None => Json::Null,
    })
}

fn check_fixed(rec: &serde_json::Value, o: &Observation, local: &str, peer: &str, f: usize) -> (r: bool)
    requires
        o.accepted.nanos < 1_000_000_000,
    ensures
        r == fixed_holds(value_json(*rec), o@, local@, peer@, f as int),
{
    let ident = match &o.client_identification {
        Some(i) => expected_identification(i, f),
        None => Node::Null,
    };
    let stamped = match field_text(rec, "accepted_at") {
        Some(t) => check_stamp(t, o.accepted),
        None => false,
    };
    stamped && field_is(rec, "id", Node::UInt(o.id)) && field_is(rec, "transport", text_node("tcp")) && field_is(
        rec,
        "local_addr",
        text_node(local),
    ) && field_is(rec, "peer_addr", text_node(peer)) && field_is(
        rec,
        "elapsed_ms",
        Node::UInt(expected_millis(o.elapsed)),
    ) && field_is(rec, "bytes_read", Node::UInt(o.bytes_read)) && field_is(
        rec,
        "bytes_written",
        Node::UInt(o.bytes_written),
    ) && field_is(rec, "server_identification", Node::Str(lossy_string(o.server_identification.as_slice())))
        && field_is(rec, "key_exchange_completed", Node::Bool(false)) && field_is(
        rec,
        "peer_authenticated",
        Node::Bool(false),
    ) && field_is(rec, "client_identification", ident)
}

/// The fields of an observation record that speak of its end.
pub open spec fn end_holds(j: Json, o: ObservationView, f: int) -> bool {
    let exp = end_expect(o.end);
    &&& at(j, "stage"@) == Json::Str(stage_code(o.stage)@)
    &&& at(j, "outcome"@) == Json::Str(exp.outcome@)
    &&& at(j, "reason"@) == opt_string(exp.reason)
    &&& (at(j, "detail"@) matches Json::Str(t) && detail_holds(t, exp.detail) && encode_utf8(quoted(t)).len()
        <= DETAIL_JSON_MAX)
    &&& at(j, "diagnostics"@) == diagnostics_json(o.end, f)
}

fn code_of_stage(st: ObserverStage) -> (r: &'static str)
    ensures
        r == stage_code(st),
{
    match st {
        ObserverStage::ClientIdentification => stage(0).1,
        ObserverStage::InitialPackets => stage(1).1,
        ObserverStage::Finished => stage(2).1,
    }
}

fn check_end(rec: &serde_json::Value, o: &Observation, f: usize) -> (r: bool)
    ensures
        r == end_holds(value_json(*rec), o@, f as int),
{
    let exp = expect_end(&o.end);
    let detailed = match field_text(rec, "detail") {
        Some(t) => {
            let text = serialize(&text_node(t));
            detail_matches(t, &exp.detail) && text.as_str().as_bytes().len() <= DETAIL_JSON_MAX
        },
        None => false,
    };
    detailed && field_is(rec, "stage", text_node(code_of_stage(o.stage))) && field_is(
        rec,
        "outcome",
        text_node(exp.outcome),
    ) && field_is(rec, "reason", opt_node(&exp.reason)) && field_is(
        rec,
        "diagnostics",
        expected_diagnostics(&o.end, f),
    )
}

/// What the size of a truncated record depends on.
pub open spec fn bounds_of(o: ObservationView, f: int) -> FieldBounds {
    let (line, protocol_version, software_version, comments) = match o.client_identification {
        None => (0, 0, 0, 0),
        Some(i) => (
            i.line.len() as usize,
            encode_utf8(i.protocol_version).len() as usize,
            encode_utf8(i.software_version).len() as usize,
            match i.comments {
                Some(c) => c.len() as usize,
                None => 0,
            },
        ),
    };
    let (diagnostic_text, diagnostic_hex) = match o.end {
        ObservationEnd::Observer(ObservationOutcome::Disconnected { description, language_tag, .. }) => (
            (min_int(description.len() as int, f) + min_int(language_tag.len() as int, f)) as usize,
            0,
        ),
        ObservationEnd::Observer(ObservationOutcome::UnexpectedInput { sample, .. }) => (
            min_int(sample.len() as int, f) as usize,
            min_int(sample.len() as int, f) as usize,
        ),
        _ => (0, 0),
    };
    FieldBounds {
        max_field: f as usize,
        server_identification: o.server_identification.len() as usize,
        line,
        protocol_version,
        software_version,
        comments,
        detail_json: DETAIL_JSON_MAX,
        diagnostic_text,
        diagnostic_hex,
    }
}

fn clipped(n: usize, f: usize) -> (r: usize)
    ensures
        r == min_int(n as int, f as int),
{
    if n <= f {
        n
    } else {
        f
    }
}

fn observation_bounds(o: &Observation, f: usize) -> (r: FieldBounds)
    requires
        2 * f <= usize::MAX,
    ensures
        r == bounds_of(o@, f as int),
{
    let mut b = FieldBounds {
        max_field: f,
        server_identification: o.server_identification.len(),
        line: 0,
        protocol_version: 0,
        software_version: 0,
        comments: 0,
        detail_json: DETAIL_JSON_MAX,
        diagnostic_text: 0,
        diagnostic_hex: 0,
    };
    if let Some(i) = &o.client_identification {
        b.line = i.line.len();
        b.protocol_version = i.protocol_version.as_str().as_bytes().len();
        b.software_version = i.software_version.as_str().as_bytes().len();
        if let Some(c) = &i.comments {
            b.comments = c.len();
        }
    }
    match &o.end {
        ObservationEnd::Observer(ObservationOutcome::Disconnected { description, language_tag, .. }) => {
            b.diagnostic_text = clipped(description.len(), f) + clipped(language_tag.len(), f);
        },
        ObservationEnd::Observer(ObservationOutcome::UnexpectedInput { sample, .. }) => {
            b.diagnostic_text = clipped(sample.len(), f);
            b.diagnostic_hex = clipped(sample.len(), f);
        },
        _ => {},
    }
    b
}

/// The records of skipped messages.
pub open spec fn messages_json(v: Seq<SkippedMessage<Seq<u8>>>, f: int) -> Json {
    Json::Array(Seq::new(v.len(), |i: int| message_json(v[i], f)))
}

fn expected_messages(v: &Vec<SkippedMessage>, f: usize) -> (r: Node)
    ensures
        json(r) == messages_json(message_views(v@), f as int),
{
    let mut out: Vec<Node> = Vec::new();
    let mut i: usize = 0;
    while i < v.len()
        invariant
            i <= v@.len(),
            out@.len() == i,
            forall|k: int| 0 <= k < i ==> json(#[trigger] out@[k]) == message_json(v@[k]@, f as int),
        decreases v@.len() - i,
    {
        out.push(expected_message(&v[i], f));
        i = i + 1;
    }
    proof {
        lemma_items(out@, out@.len());
        let m = message_views(v@);
        assert(items_json(out@, out@.len()) =~= Seq::new(m.len(), |k: int| message_json(m[k], f as int)));
    }
    Node::Array(out)
}

/// The truncation policy: a record whose full text exceeds the budget drops
/// its messages and its proposal, shrinks (by one byte where there was nothing
/// to drop) and keeps to the derived bound; any other record is whole.
pub open spec fn truncation_holds(j: Json, o: ObservationView, f: int, budget: int, len: int, full_len: int) -> bool {
    &&& at(j, "record_truncated"@) == Json::Bool(full_len > budget)
    &&& if full_len > budget {
        &&& at(j, "messages"@) == Json::Array(Seq::empty())
        &&& at(j, "proposal"@) == Json::Null
        &&& if o.messages.len() == 0 && o.proposal is None {
            len + 1 == full_len
        } else {
            len < full_len
        }
        &&& len <= truncated_bound(bounds_of(o, f))
    } else {
        &&& len == full_len
        &&& at(j, "messages"@) == messages_json(o.messages, f)
        &&& at(j, "proposal"@) == (match o.proposal {
            Some(p) => proposal_json(p),
            None => Json::Null,
        })
    }
}

fn check_truncation(rec: &serde_json::Value, o: &Observation, enc: Encoder, len: usize, full_len: usize) -> (r: bool)
    requires
        2 * enc.max_field_bytes <= usize::MAX,
    ensures
        r == truncation_holds(
            value_json(*rec),
            o@,
            enc.max_field_bytes as int,
            enc.max_record_bytes as int,
            len as int,
            full_len as int,
        ),
{
    let f: usize = enc.max_field_bytes;
    let expect_truncated: bool = full_len > enc.max_record_bytes;
    if !field_is(rec, "record_truncated", Node::Bool(expect_truncated)) {
        return false;
    }
    if expect_truncated {
        let none: Vec<Node> = Vec::new();
        if !field_is(rec, "messages", Node::Array(none)) || !field_is(rec, "proposal", Node::Null) {
            return false;
        }
        if len >= full_len {
            return false;
        }
        if o.messages.len() == 0 && o.proposal.is_none() && len + 1 != full_len {
            return false;
        }
        let b = observation_bounds(o, f);
        within_truncated_bound(len, &b)
    } else {
        let proposal = match &o.proposal {
            Some(p) => expected_proposal(p),
            None => Node::Null,
        };
        len == full_len && field_is(rec, "messages", expected_messages(&o.messages, f)) && field_is(
            rec,
            "proposal",
            proposal,
        )
    }
}

/// The record of an observation, with its text, the texts of its two
/// addresses, and the length of the record in full.
pub open spec fn observation_holds(
    j: Json,
    text: &str,
    o: ObservationView,
    local: Seq<char>,
    peer: Seq<char>,
    enc: Encoder,
    full_len: int,
) -> bool {
    let f = enc.max_field_bytes as int;
    &&& envelope_holds(j, "connection_observation"@)
    &&& keys_in_order(bytes_of(text), 0, OBSERVATION_KEYS@, 0)
    &&& key_count(j) == Some(23int)
    &&& fixed_holds(j, o, local, peer, f)
    &&& end_holds(j, o, f)
    &&& truncation_holds(j, o, f, enc.max_record_bytes as int, bytes_of(text).len() as int, full_len)
}

/// Whether the record of an observation is right.
fn judge_observation(
    rec: &serde_json::Value,
    text: &str,
    o: &Observation,
    local: &str,
    peer: &str,
    enc: Encoder,
    full_len: usize,
) -> (r: bool)
    requires
        o.accepted.nanos < 1_000_000_000,
        2 * enc.max_field_bytes <= usize::MAX,
    ensures
        r == observation_holds(value_json(*rec), text, o@, local@, peer@, enc, full_len as int),
{
    let f: usize = enc.max_field_bytes;
    check_envelope(rec, "connection_observation") && check_key_order(text, OBSERVATION_KEYS.as_slice()) && has_fields(
        rec,
        23,
    ) && check_fixed(rec, o, local, peer, f) && check_end(rec, o, f) && check_truncation(
        rec,
        o,
        enc,
        text.as_bytes().len(),
        full_len,
    )
}

/// Whether a text is the record of an observation.
pub fn check_observation(
    text: &str,
    o: &Observation,
    local: &str,
    peer: &str,
    enc: Encoder,
    full_len: usize,
) -> (r: bool)
    requires
        o.accepted.nanos < 1_000_000_000,
        2 * enc.max_field_bytes <= usize::MAX,
    ensures
        r == (record_of(text) matches Some(j) && observation_holds(
            j,
            text,
            o@,
            local@,
            peer@,
            enc,
            full_len as int,
        )),
        r ==> {
            let j = record_of(text)->0;
            &&& at(j, "id"@) == Json::Number(o.id as int)
            &&& at(j, "local_addr"@) == Json::Str(local@)
            &&& at(j, "peer_addr"@) == Json::Str(peer@)
            &&& at(j, "bytes_read"@) == Json::Number(o.bytes_read as int)
            &&& at(j, "bytes_written"@) == Json::Number(o.bytes_written as int)
            &&& at(j, "server_identification"@) == Json::Str(text_of(o.server_identification@))
            &&& o.elapsed.secs <= 1_000_000_000_000 ==> at(j, "elapsed_ms"@) == Json::Number(
                o.elapsed.secs * 1000 + o.elapsed.nanos / 1_000_000,
            )
            &&& (at(j, "accepted_at"@) matches Json::Str(t) && stamp_is(t, o.accepted))
        },
{
    match parse(text) {
        Some(rec) => judge_observation(&rec, text, o, local, peer, enc, full_len),
        None => false,
    }
}

/// A record that is right exceeds its budget only where it is truncated and
/// the budget is below the derived bound.
pub proof fn lemma_budget_honoured(
    j: Json,
    text: &str,
    o: ObservationView,
    local: Seq<char>,
    peer: Seq<char>,
    enc: Encoder,
    full_len: int,
)
    requires
        observation_holds(j, text, o, local, peer, enc, full_len),
        bytes_of(text).len() > enc.max_record_bytes,
    ensures
        at(j, "record_truncated"@) == Json::Bool(true),
        enc.max_record_bytes < truncated_bound(bounds_of(o, enc.max_field_bytes as int)),
{
}

/// Every stage and every stop has a code of the closed set.
pub proof fn lemma_codes_closed(st: ObserverStage, r: StopReason)
    ensures
        listed(stage_code(st)@, STAGE_CODES@),
        listed(stop_code(r)@, STOP_REASON_CODES@),
{
    let c = STAGE_CODES@;
    assert(c[0]@ == "client_identification"@ && c[1]@ == "initial_packets"@ && c[2]@ == "finished"@);
    let d = STOP_REASON_CODES@;
    assert(d[0]@ == "run_duration_elapsed"@ && d[1]@ == "connection_limit_reached"@ && d[2]@ == "stop_requested"@
        && d[3]@ == "sink_failed"@ && d[4]@ == "accept_failed"@);
}

} // verus!
