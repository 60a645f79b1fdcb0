//! How observations end, and what a record says of each end.

use vstd::prelude::*;
use crate::digits::{decimal, lemma_decimal, push_decimal};
use crate::observation::gen::{
    bytes, bytes_gen, code_of, error_code, gen_initial_error, gen_proposal, initial_error_gen, proposal_gen, size_gen,
    stage, stage_of, stage_words, text, text_gen, usize_num, EndView, IoKind, ObservationEnd, MAX_RAW_FIELD,
    MAX_SHORT_FIELD,
};
use crate::state_support::record_ref::{
    disconnect_name, known_reason, listed, FIXED_REASON_CODES, OUTCOME_CODES,
};
use crate::tcp_support::types::{InitialError, ObservationOutcome, ObserverStage, ProposalView};
use crate::tcp_support::{byte_at, dropped, u32_at, Cursor};
use crate::text::{
    ascii_text, bytes_of, chars_of, copy_text, lemma_ascii_len, lemma_ascii_text, push_ascii, push_text, same_text, string_from_chars,
};
use crate::wire_core::messages_ref::disconnect_reason_text;

verus! {

/// What a detail has to look like.
#[derive(Debug, PartialEq, Eq)]
pub enum Detail<T = String> {
    /// This text.
    Exact(T),
    /// A text that starts so.
    Prefix(&'static str),
    /// A text that ends so.
    Suffix(&'static str),
}

/// A detail over sequences.
pub open spec fn detail_view(d: Detail) -> Detail<Seq<char>> {
    match d {
        Detail::Exact(t) => Detail::Exact(t@),
        Detail::Prefix(p) => Detail::Prefix(p),
        Detail::Suffix(s) => Detail::Suffix(s),
    }
}

/// A text is what a detail has to look like.
pub open spec fn detail_holds(t: Seq<char>, d: Detail<Seq<char>>) -> bool {
    match d {
        Detail::Exact(e) => t == e,
        Detail::Prefix(p) => p@.is_prefix_of(t),
        Detail::Suffix(s) => s@.is_suffix_of(t),
    }
}

fn chars_start(t: &Vec<char>, p: &Vec<char>, at: usize) -> (r: bool)
    requires
        at + p@.len() <= t@.len(),
    ensures
        r == (t@.subrange(at as int, at + p@.len()) == p@),
{
    let n: usize = t.len();
    let mut i: usize = 0;
    while i < p.len()
        invariant
            i <= p@.len(),
            at + p@.len() <= t@.len(),
            t@.len() == n,
            forall|k: int| 0 <= k < i ==> t@[at + k] == p@[k],
        decreases p@.len() - i,
    {
        if t[at + i] != p[i] {
            proof {
                assert(t@.subrange(at as int, at + p@.len())[i as int] != p@[i as int]);
            }
            return false;
        }
        i = i + 1;
    }
    proof {
        assert(t@.subrange(at as int, at + p@.len()) =~= p@);
    }
    true
}

/// Whether a text is what a detail has to look like.
pub fn detail_matches(detail: &str, expect: &Detail) -> (r: bool)
    ensures
        r == detail_holds(detail@, detail_view(*expect)),
{
    match expect {
        Detail::Exact(t) => same_text(detail, t.as_str()),
        Detail::Prefix(p) => {
            let t = chars_of(detail);
            let p = chars_of(p);
            if t.len() < p.len() {
                return false;
            }
            chars_start(&t, &p, 0)
        },
        Detail::Suffix(s) => {
            let t = chars_of(detail);
            let p = chars_of(s);
            if t.len() < p.len() {
                return false;
            }
            chars_start(&t, &p, t.len() - p.len())
        },
    }
}

/// What the record of an end says: outcome, reason and detail.
#[derive(Debug, PartialEq, Eq)]
pub struct EndExpect<T = String> {
    pub outcome: &'static str,
    pub reason: Option<T>,
    pub detail: Detail<T>,
}

/// An expectation over sequences.
pub open spec fn expect_view(e: EndExpect) -> EndExpect<Seq<char>> {
    EndExpect {
        outcome: e.outcome,
        reason: match e.reason {
            Some(t) => Some(t@),
            None => None,
        },
        detail: detail_view(e.detail),
    }
}

/// A number in decimal.
pub open spec fn number_text(n: int) -> Seq<char> {
    ascii_text(decimal(n))
}

/// The detail of a fault before key exchange.
pub open spec fn error_detail(e: InitialError) -> Detail<Seq<char>> {
    match e {
        InitialError::Ident(_) => Detail::Prefix("identification: "),
        InitialError::Packet(_) => Detail::Prefix("packet framing: "),
        InitialError::EmptyPayload => Detail::Exact("packet with empty payload"@),
        InitialError::Message { .. } => Detail::Prefix("malformed "),
        InitialError::UnexpectedMessage { .. } => Detail::Suffix(" before KEXINIT"),
        InitialError::UnsupportedTransition { .. } => Detail::Suffix(
            " before KEXINIT; initial packet decoding cannot continue",
        ),
        InitialError::PacketBudgetExceeded { limit } => Detail::Exact(
            "more than "@ + number_text(limit as int) + " packets before KEXINIT"@,
        ),
        InitialError::ByteBudgetExceeded { limit } => Detail::Exact(
            "more than "@ + number_text(limit as int) + " bytes before KEXINIT"@,
        ),
        InitialError::InputOverflow(o) => Detail::Exact(
            "input of "@ + number_text(o.offered as int) + " bytes exceeds buffer capacity "@ + number_text(
                o.capacity as int,
            ) + " ("@ + number_text(o.pending as int) + " pending)"@,
        ),
    }
}

/// The code of a socket error.
pub open spec fn io_code(kind: IoKind) -> &'static str {
    match kind {
        IoKind::ConnectionReset => "connection_reset",
        IoKind::ConnectionAborted => "connection_aborted",
        IoKind::BrokenPipe => "broken_pipe",
        IoKind::TimedOut => "timed_out",
        _ => "io_other",
    }
}

/// What the record of an observer's outcome says.
pub open spec fn outcome_expect(o: ObservationOutcome<Seq<u8>, ProposalView>) -> EndExpect<Seq<char>> {
    match o {
        ObservationOutcome::BannerOnly => EndExpect {
            outcome: "banner_only",
            reason: None,
            detail: Detail::Exact("client identification received; banner-only mode"@),
        },
        ObservationOutcome::Proposal(p) => if p.anomalies.len() == 0 {
            EndExpect {
                outcome: "proposal",
                reason: None,
                detail: Detail::Exact("client identification and initial KEXINIT received"@),
            }
        } else {
            EndExpect {
                outcome: "proposal_with_anomalies",
                reason: None,
                detail: Detail::Exact("KEXINIT decoded with anomalies; see proposal.anomalies"@),
            }
        },
        ObservationOutcome::Disconnected { reason_code, .. } => EndExpect {
            outcome: "disconnected",
            reason: Some("disconnect_"@ + number_text(reason_code as int)),
            detail: Detail::Exact(
                match disconnect_reason_text(reason_code) {
                    Some(n) => "client sent SSH_MSG_DISCONNECT ("@ + n@ + ")"@,
                    None => "client sent SSH_MSG_DISCONNECT"@,
                },
            ),
        },
        ObservationOutcome::UnexpectedInput { .. } => EndExpect {
            outcome: "unexpected_input",
            reason: Some("not_ssh_identification"@),
            detail: Detail::Exact("first bytes did not begin an SSH identification"@),
        },
        ObservationOutcome::Eof { stage, pending_bytes } => EndExpect {
            outcome: "eof",
            reason: Some(
                if pending_bytes == 0 {
                    "eof_at_boundary"@
                } else {
                    "eof_truncated"@
                },
            ),
            detail: Detail::Exact("peer closed while "@ + stage_words(stage)@),
        },
        ObservationOutcome::Error(e) => EndExpect {
            outcome: "protocol_error",
            reason: Some(error_code(e)@),
            detail: error_detail(e),
        },
    }
}

/// What the record of an end says.
pub open spec fn end_expect(end: EndView) -> EndExpect<Seq<char>> {
    match end {
        ObservationEnd::Observer(o) => outcome_expect(o),
        ObservationEnd::TimedOut => EndExpect {
            outcome: "timeout",
            reason: Some("connection_deadline"@),
            detail: Detail::Prefix("connection deadline passed"),
        },
        ObservationEnd::Shutdown => EndExpect {
            outcome: "shutdown",
            reason: Some("listener_stopping"@),
            detail: Detail::Exact("listener stopped while the connection was active"@),
        },
        ObservationEnd::Io { kind, message } => EndExpect {
            outcome: "io_error",
            reason: Some(io_code(kind)@),
            detail: Detail::Exact("socket error: "@ + message),
        },
    }
}

fn push_number(out: &mut Vec<char>, n: u64)
    ensures
        final(out)@ == old(out)@ + number_text(n as int),
{
    let mut d: Vec<u8> = Vec::new();
    push_decimal(&mut d, n);
    proof {
        lemma_decimal(n as int);
        assert(d@ =~= decimal(n as int));
        assert forall|i: int| 0 <= i < d@.len() implies #[trigger] d@[i] < 128 by {
            assert(crate::digits::is_digit(d@[i]));
        }
    }
    push_ascii(out, d.as_slice());
}

/// Two texts, a number between.
fn numbered(before: &str, n: u64, behind: &str) -> (r: String)
    ensures
        r@ == before@ + number_text(n as int) + behind@,
{
    let mut out = chars_of(before);
    push_number(&mut out, n);
    push_text(&mut out, behind);
    string_from_chars(out)
}

/// One text behind another.
fn joined(a: &str, b: &str) -> (r: String)
    ensures
        r@ == a@ + b@,
{
    let mut out = chars_of(a);
    push_text(&mut out, b);
    string_from_chars(out)
}

fn detail_of(e: InitialError) -> (r: Detail)
    ensures
        detail_view(r) == error_detail(e),
{
    match e {
        InitialError::Ident(_) => Detail::Prefix("identification: "),
        InitialError::Packet(_) => Detail::Prefix("packet framing: "),
        InitialError::EmptyPayload => Detail::Exact(copy_text("packet with empty payload")),
        InitialError::Message { .. } => Detail::Prefix("malformed "),
        InitialError::UnexpectedMessage { .. } => Detail::Suffix(" before KEXINIT"),
        InitialError::UnsupportedTransition { .. } => Detail::Suffix(
            " before KEXINIT; initial packet decoding cannot continue",
        ),
        InitialError::PacketBudgetExceeded { limit } => Detail::Exact(
            numbered("more than ", limit as u64, " packets before KEXINIT"),
        ),
        InitialError::ByteBudgetExceeded { limit } => Detail::Exact(
            numbered("more than ", limit as u64, " bytes before KEXINIT"),
        ),
        InitialError::InputOverflow(o) => {
            let mut out = chars_of("input of ");
            push_number(&mut out, o.offered as u64);
            push_text(&mut out, " bytes exceeds buffer capacity ");
            push_number(&mut out, o.capacity as u64);
            push_text(&mut out, " (");
            push_number(&mut out, o.pending as u64);
            push_text(&mut out, " pending)");
            Detail::Exact(string_from_chars(out))
        },
    }
}

/// The code of a socket error.
pub fn io_code_of(kind: IoKind) -> (r: &'static str)
    ensures
        r == io_code(kind),
{
    match kind {
        IoKind::ConnectionReset => "connection_reset",
        IoKind::ConnectionAborted => "connection_aborted",
        IoKind::BrokenPipe => "broken_pipe",
        IoKind::TimedOut => "timed_out",
        _ => "io_other",
    }
}

fn expect_outcome(o: &ObservationOutcome) -> (r: EndExpect)
    ensures
        expect_view(r) == outcome_expect(o@),
{
    match o {
        ObservationOutcome::BannerOnly => EndExpect {
            outcome: "banner_only",
            reason: None,
            detail: Detail::Exact(copy_text("client identification received; banner-only mode")),
        },
        ObservationOutcome::Proposal(p) => if p.anomalies.len() == 0 {
            EndExpect {
                outcome: "proposal",
                reason: None,
                detail: Detail::Exact(copy_text("client identification and initial KEXINIT received")),
            }
        } else {
            EndExpect {
                outcome: "proposal_with_anomalies",
                reason: None,
                detail: Detail::Exact(copy_text("KEXINIT decoded with anomalies; see proposal.anomalies")),
            }
        },
        ObservationOutcome::Disconnected { reason_code, .. } => {
            let detail = match disconnect_name(*reason_code) {
                Some(n) => {
                    let mut out = chars_of("client sent SSH_MSG_DISCONNECT (");
                    push_text(&mut out, n);
                    push_text(&mut out, ")");
                    string_from_chars(out)
                },
                None => copy_text("client sent SSH_MSG_DISCONNECT"),
            };
            let mut reason = chars_of("disconnect_");
            push_number(&mut reason, *reason_code as u64);
            EndExpect {
                outcome: "disconnected",
                reason: Some(string_from_chars(reason)),
                detail: Detail::Exact(detail),
            }
        },
        ObservationOutcome::UnexpectedInput { .. } => EndExpect {
            outcome: "unexpected_input",
            reason: Some(copy_text("not_ssh_identification")),
            detail: Detail::Exact(copy_text("first bytes did not begin an SSH identification")),
        },
        ObservationOutcome::Eof { stage, pending_bytes } => {
            let words = words_of(*stage);
            EndExpect {
                outcome: "eof",
                reason: Some(
                    if *pending_bytes == 0 {
                        copy_text("eof_at_boundary")
                    } else {
                        copy_text("eof_truncated")
                    },
                ),
                detail: Detail::Exact(joined("peer closed while ", words)),
            }
        },
        ObservationOutcome::Error(e) => EndExpect {
            outcome: "protocol_error",
            reason: Some(copy_text(code_of(*e))),
            detail: detail_of(*e),
        },
    }
}

fn words_of(st: ObserverStage) -> (r: &'static str)
    ensures
        r == stage_words(st),
{
    match st {
        ObserverStage::ClientIdentification => stage(0).2,
        ObserverStage::InitialPackets => stage(1).2,
        ObserverStage::Finished => stage(2).2,
    }
}

/// What the record of an end says.
pub fn expect_end(end: &ObservationEnd) -> (r: EndExpect)
    ensures
        expect_view(r) == end_expect(end@),
{
    match end {
        ObservationEnd::Observer(o) => expect_outcome(o),
        ObservationEnd::TimedOut => EndExpect {
            outcome: "timeout",
            reason: Some(copy_text("connection_deadline")),
            detail: Detail::Prefix("connection deadline passed"),
        },
        ObservationEnd::Shutdown => EndExpect {
            outcome: "shutdown",
            reason: Some(copy_text("listener_stopping")),
            detail: Detail::Exact(copy_text("listener stopped while the connection was active")),
        },
        ObservationEnd::Io { kind, message } => EndExpect {
            outcome: "io_error",
            reason: Some(copy_text(io_code_of(*kind))),
            detail: Detail::Exact(joined("socket error: ", message.as_str())),
        },
    }
}

/// The kind of socket error that a byte selects.
pub open spec fn io_kind(b: u8) -> IoKind {
    let k = b % 8;
    if k == 0 {
        IoKind::ConnectionReset
    } else if k == 1 {
        IoKind::ConnectionAborted
    } else if k == 2 {
        IoKind::BrokenPipe
    } else if k == 3 {
        IoKind::TimedOut
    } else if k == 4 {
        IoKind::Other
    } else if k == 5 {
        IoKind::UnexpectedEof
    } else if k == 6 {
        IoKind::WouldBlock
    } else {
        IoKind::Interrupted
    }
}

/// An end with open fields.
pub open spec fn end_gen(s: Seq<u8>) -> (EndView, Seq<u8>) {
    let sel = byte_at(s, 0) % 10;
    let s0 = dropped(s, 1);
    if sel == 0 {
        (ObservationEnd::Observer(ObservationOutcome::BannerOnly), s0)
    } else if sel == 1 {
        let (p, s1) = proposal_gen(s0);
        (ObservationEnd::Observer(ObservationOutcome::Proposal(Box::new(p))), s1)
    } else if sel == 2 || sel == 9 {
        let (reason_code, s1) = if sel == 9 {
            ((byte_at(s0, 0) % 16) as u32, dropped(s0, 1))
        } else {
            (u32_at(s0), dropped(s0, 4))
        };
        let (description, s2) = bytes_gen(s1, MAX_RAW_FIELD as int);
        let (language_tag, s3) = bytes_gen(s2, MAX_RAW_FIELD as int);
        (ObservationEnd::Observer(ObservationOutcome::Disconnected { reason_code, description, language_tag }), s3)
    } else if sel == 3 {
        let (sample, s1) = bytes_gen(s0, MAX_RAW_FIELD as int);
        (
            ObservationEnd::Observer(
                ObservationOutcome::UnexpectedInput { sample, truncated: byte_at(s1, 0) % 2 == 1 },
            ),
            dropped(s1, 1),
        )
    } else if sel == 4 {
        let (pending_bytes, s1) = size_gen(dropped(s0, 1));
        (ObservationEnd::Observer(ObservationOutcome::Eof { stage: stage_of(byte_at(s0, 0)), pending_bytes }), s1)
    } else if sel == 5 {
        let (e, s1) = initial_error_gen(s0);
        (ObservationEnd::Observer(ObservationOutcome::Error(e)), s1)
    } else if sel == 6 {
        (ObservationEnd::TimedOut, s0)
    } else if sel == 7 {
        (ObservationEnd::Shutdown, s0)
    } else {
        let (message, s1) = text_gen(dropped(s0, 1), MAX_SHORT_FIELD as int);
        (ObservationEnd::Io { kind: io_kind(byte_at(s0, 0)), message }, s1)
    }
}

fn pick_io_kind(b: u8) -> (r: IoKind)
    ensures
        r == io_kind(b),
{
    match b % 8 {
        0 => IoKind::ConnectionReset,
        1 => IoKind::ConnectionAborted,
        2 => IoKind::BrokenPipe,
        3 => IoKind::TimedOut,
        4 => IoKind::Other,
        5 => IoKind::UnexpectedEof,
        6 => IoKind::WouldBlock,
        _ => IoKind::Interrupted,
    }
}

/// Reads an end, with what its record says.
pub fn gen_end(cur: &mut Cursor<'_>) -> (r: (ObservationEnd, EndExpect))
    ensures
        (r.0@, final(cur)@) == end_gen(old(cur)@),
        expect_view(r.1) == end_expect(r.0@),
{
    let sel: u8 = cur.u8() % 10;
    let end = match sel {
        0 => ObservationEnd::Observer(ObservationOutcome::BannerOnly),
        1 => ObservationEnd::Observer(ObservationOutcome::Proposal(Box::new(gen_proposal(cur)))),
        2 | 9 => {
            let reason_code: u32 = if sel == 9 { (cur.u8() % 16) as u32 } else { cur.u32() };
            let description = bytes(cur, MAX_RAW_FIELD);
            let language_tag = bytes(cur, MAX_RAW_FIELD);
            ObservationEnd::Observer(ObservationOutcome::Disconnected { reason_code, description, language_tag })
        },
        3 => {
            let sample = bytes(cur, MAX_RAW_FIELD);
            let truncated: bool = cur.u8() % 2 == 1;
            ObservationEnd::Observer(ObservationOutcome::UnexpectedInput { sample, truncated })
        },
        4 => {
            let (st, _code, _words) = stage(cur.u8());
            let pending_bytes: usize = usize_num(cur);
            ObservationEnd::Observer(ObservationOutcome::Eof { stage: st, pending_bytes })
        },
        5 => {
            let (e, _code) = gen_initial_error(cur);
            ObservationEnd::Observer(ObservationOutcome::Error(e))
        },
        6 => ObservationEnd::TimedOut,
        7 => ObservationEnd::Shutdown,
        _ => {
            let kind = pick_io_kind(cur.u8());
            let message = text(cur, MAX_SHORT_FIELD);
            ObservationEnd::Io { kind, message }
        },
    };
    let exp = expect_end(&end);
    (end, exp)
}

/// A reason text is a fixed code, or `disconnect_` and a 32-bit number.
pub open spec fn reason_in_set(t: Seq<char>) -> bool {
    listed(t, FIXED_REASON_CODES@) || exists|n: int|
        0 <= n <= u32::MAX && t == "disconnect_"@ + #[trigger] number_text(n)
}

/// Every end has an outcome of the closed set, and its reason, where it has
/// one, is of the closed set too.
pub proof fn lemma_end_codes_closed(end: EndView)
    ensures
        listed(end_expect(end).outcome@, OUTCOME_CODES@),
        end_expect(end).reason matches Some(t) ==> reason_in_set(t),
{
    let o = OUTCOME_CODES@;
    assert(o[0]@ == "banner_only"@ && o[1]@ == "proposal"@ && o[2]@ == "proposal_with_anomalies"@ && o[3]@
        == "disconnected"@ && o[4]@ == "unexpected_input"@ && o[5]@ == "eof"@ && o[6]@ == "protocol_error"@ && o[7]@
        == "timeout"@ && o[8]@ == "shutdown"@ && o[9]@ == "io_error"@);
    lemma_fixed_reasons();
    if let ObservationEnd::Observer(ObservationOutcome::Disconnected { reason_code, .. }) = end {
        assert(end_expect(end).reason == Some("disconnect_"@ + number_text(reason_code as int)));
    }
}

proof fn lemma_fixed_reasons()
    ensures
        forall|e: InitialError| listed(#[trigger] error_code(e)@, FIXED_REASON_CODES@),
        forall|k: IoKind| listed(#[trigger] io_code(k)@, FIXED_REASON_CODES@),
        listed("not_ssh_identification"@, FIXED_REASON_CODES@),
        listed("eof_at_boundary"@, FIXED_REASON_CODES@),
        listed("eof_truncated"@, FIXED_REASON_CODES@),
        listed("connection_deadline"@, FIXED_REASON_CODES@),
        listed("listener_stopping"@, FIXED_REASON_CODES@),
{
    let c = FIXED_REASON_CODES@;
    assert(c[0]@ == "not_ssh_identification"@ && c[1]@ == "eof_at_boundary"@ && c[2]@ == "eof_truncated"@ && c[3]@
        == "connection_deadline"@ && c[4]@ == "listener_stopping"@);
    assert(c[5]@ == "connection_reset"@ && c[6]@ == "connection_aborted"@ && c[7]@ == "broken_pipe"@ && c[8]@
        == "timed_out"@ && c[9]@ == "io_other"@);
    assert(c[10]@ == "ident_prelude_line_too_long"@ && c[11]@ == "ident_too_many_prelude_lines"@ && c[12]@
        == "ident_prelude_too_large"@ && c[13]@ == "ident_too_long"@ && c[14]@ == "ident_invalid"@ && c[15]@
        == "ident_unsupported_version"@);
    assert(c[16]@ == "packet_framing"@ && c[17]@ == "packet_empty_payload"@ && c[18]@ == "message_malformed"@
        && c[19]@ == "message_unexpected"@ && c[20]@ == "unsupported_transition"@ && c[21]@
        == "packet_budget_exceeded"@ && c[22]@ == "byte_budget_exceeded"@ && c[23]@ == "input_overflow"@);
}

/// A reason of the closed set is known as such.
pub proof fn lemma_reason_known(s: &str)
    requires
        reason_in_set(s@),
    ensures
        known_reason(s),
{
    if !listed(s@, FIXED_REASON_CODES@) {
        let n = choose|n: int| 0 <= n <= u32::MAX && s@ == "disconnect_"@ + #[trigger] number_text(n);
        lemma_decimal(n);
        let d = decimal(n);
        let p = bytes_of("disconnect_");
        reveal_strlit("disconnect_");
        lemma_ascii_len("disconnect_");
        let b = p + d;
        assert forall|i: int| 0 <= i < b.len() implies #[trigger] b[i] < 128 by {
            if i >= p.len() {
                assert(crate::digits::is_digit(d[i - p.len()]));
            }
        }
        lemma_ascii_text(b);
        assert(ascii_text(b) =~= "disconnect_"@ + number_text(n));
        assert(bytes_of(s) == b);
    }
}

} // verus!
