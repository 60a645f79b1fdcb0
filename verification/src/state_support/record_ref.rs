//! References for the observer's JSON records: the closed sets of stable
//! codes, and the size bound of a truncated observation record.

use vstd::prelude::*;
use crate::digits::{
    all_digits, canonical_digits, decimal, decimal_value, is_digit, lemma_canonical, lemma_decimal,
};
use crate::seqs::{starts_with, tail};
use crate::text::{bytes_of, same_text};
use crate::wire_core::messages_ref::{disconnect_reason_name, disconnect_reason_text};

pub use crate::state_support::calendar::{civil_from_days, looks_like_rfc3339, rfc3339};

verus! {

/// `event` values.
pub const EVENT_NAMES: [&'static str; 4] = [
    "listener_started",
    "connection_observation",
    "overload",
    "listener_stopped",
];

/// `stage` values.
pub const STAGE_CODES: [&'static str; 3] = ["client_identification", "initial_packets", "finished"];

/// `outcome` values.
pub const OUTCOME_CODES: [&'static str; 10] = [
    "banner_only",
    "proposal",
    "proposal_with_anomalies",
    "disconnected",
    "unexpected_input",
    "eof",
    "protocol_error",
    "timeout",
    "shutdown",
    "io_error",
];

/// Fixed `reason` values. The only non-fixed form is `disconnect_` and a
/// number.
pub const FIXED_REASON_CODES: [&'static str; 24] = [
    "not_ssh_identification",
    "eof_at_boundary",
    "eof_truncated",
    "connection_deadline",
    "listener_stopping",
    "connection_reset",
    "connection_aborted",
    "broken_pipe",
    "timed_out",
    "io_other",
    "ident_prelude_line_too_long",
    "ident_too_many_prelude_lines",
    "ident_prelude_too_large",
    "ident_too_long",
    "ident_invalid",
    "ident_unsupported_version",
    "packet_framing",
    "packet_empty_payload",
    "message_malformed",
    "message_unexpected",
    "unsupported_transition",
    "packet_budget_exceeded",
    "byte_budget_exceeded",
    "input_overflow",
];

/// `listener_stopped.reason` values.
pub const STOP_REASON_CODES: [&'static str; 5] = [
    "run_duration_elapsed",
    "connection_limit_reached",
    "stop_requested",
    "sink_failed",
    "accept_failed",
];

/// `client_identification.anomalies` values.
pub const IDENT_ANOMALY_CODES: [&'static str; 2] = ["lf_only_terminator", "compatibility_version_1_99"];

/// `proposal.anomalies` values.
pub const PROPOSAL_ANOMALY_CODES: [&'static str; 2] = ["kexinit_nonzero_reserved", "kexinit_empty_algorithm_list"];

/// `kex_markers[].kind` values with the names that produce them.
pub const KEX_MARKERS: [(&'static str, &'static str); 4] = [
    ("ext-info-c", "ext_info_client"),
    ("ext-info-s", "ext_info_server"),
    ("kex-strict-c-v00@openssh.com", "strict_kex_client"),
    ("kex-strict-s-v00@openssh.com", "strict_kex_server"),
];

/// A text is one of a closed set.
pub open spec fn listed(text: Seq<char>, codes: Seq<&'static str>) -> bool {
    exists|i: int| 0 <= i < codes.len() && (#[trigger] codes[i])@ == text
}

/// Whether a text is one of a closed set.
pub fn is_listed(text: &str, codes: &[&'static str]) -> (r: bool)
    ensures
        r == listed(text@, codes@),
{
    let mut i: usize = 0;
    while i < codes.len()
        invariant
            i <= codes@.len(),
            forall|j: int| 0 <= j < i ==> (#[trigger] codes@[j])@ != text@,
        decreases codes@.len() - i,
    {
        if same_text(codes[i], text) {
            return true;
        }
        i = i + 1;
    }
    false
}

/// Name for a disconnect reason code, if registered (RFC 4253 section 11.1).
pub fn disconnect_name(code: u32) -> (r: Option<&'static str>)
    ensures
        r == disconnect_reason_text(code),
{
    disconnect_reason_name(code)
}

/// The bytes are `disconnect_` and the decimal digits of a 32-bit number.
pub open spec fn disconnect_reason(b: Seq<u8>) -> bool {
    exists|n: int| 0 <= n <= u32::MAX && b == bytes_of("disconnect_") + #[trigger] decimal(n)
}

/// A fixed code or a canonical `disconnect_` and a number.
pub open spec fn known_reason(reason: &str) -> bool {
    listed(reason@, FIXED_REASON_CODES@) || disconnect_reason(bytes_of(reason))
}

proof fn lemma_value_step(s: Seq<u8>, i: int)
    requires
        0 <= i < s.len(),
    ensures
        decimal_value(s.take(i + 1)) == 10 * decimal_value(s.take(i)) + (s[i] - 48),
{
    assert(s.take(i + 1).drop_last() =~= s.take(i));
    assert(s.take(i + 1).last() == s[i]);
}

proof fn lemma_value_grows(s: Seq<u8>, i: int)
    requires
        all_digits(s),
        0 <= i <= s.len(),
    ensures
        0 <= decimal_value(s.take(i)) <= decimal_value(s),
    decreases s.len() - i,
{
    if i == s.len() {
        assert(s.take(i) =~= s);
        lemma_value_nonneg(s);
    } else {
        lemma_value_grows(s, i + 1);
        lemma_value_step(s, i);
        assert(is_digit(s[i]));
        assert(all_digits(s.take(i))) by {
            assert forall|j: int| 0 <= j < s.take(i).len() implies is_digit(#[trigger] s.take(i)[j]) by {
                assert(is_digit(s[j]));
            }
        }
        lemma_value_nonneg(s.take(i));
    }
}

proof fn lemma_value_nonneg(s: Seq<u8>)
    requires
        all_digits(s),
    ensures
        decimal_value(s) >= 0,
    decreases s.len(),
{
    if s.len() > 0 {
        let h = s.drop_last();
        assert(is_digit(s[s.len() - 1]));
        assert forall|j: int| 0 <= j < h.len() implies is_digit(#[trigger] h[j]) by {
            assert(is_digit(s[j]));
        }
        lemma_value_nonneg(h);
    }
}

/// Whether bytes are the decimal digits of a 32-bit number.
fn is_u32(s: &[u8]) -> (r: bool)
    ensures
        r == (exists|n: int| 0 <= n <= u32::MAX && s@ == #[trigger] decimal(n)),
{
    if s.len() == 0 || (s.len() > 1 && s[0] == 48) {
        proof {
            assert forall|n: int| 0 <= n <= u32::MAX implies s@ != #[trigger] decimal(n) by {
                lemma_decimal(n);
            }
        }
        return false;
    }
    let mut value: u64 = 0;
    let mut i: usize = 0;
    proof {
        assert(s@.take(0) =~= Seq::empty());
    }
    while i < s.len()
        invariant
            i <= s@.len(),
            s@.len() > 0,
            s@.len() > 1 ==> s@[0] != 48,
            forall|j: int| 0 <= j < i ==> is_digit(#[trigger] s@[j]),
            value == decimal_value(s@.take(i as int)),
            value <= u32::MAX,
        decreases s@.len() - i,
    {
        if s[i] < 48 || s[i] > 57 {
            proof {
                assert forall|n: int| 0 <= n <= u32::MAX implies s@ != #[trigger] decimal(n) by {
                    lemma_decimal(n);
                    if s@ == decimal(n) {
                        assert(is_digit(s@[i as int]));
                    }
                }
            }
            return false;
        }
        proof {
            lemma_value_step(s@, i as int);
        }
        value = 10 * value + (s[i] - 48) as u64;
        i = i + 1;
        if value > 0xffff_ffff {
            proof {
                assert forall|n: int| 0 <= n <= u32::MAX implies s@ != #[trigger] decimal(n) by {
                    lemma_decimal(n);
                    if s@ == decimal(n) {
                        lemma_value_grows(s@, i as int);
                    }
                }
            }
            return false;
        }
    }
    proof {
        assert(s@.take(i as int) =~= s@);
        assert(canonical_digits(s@));
        lemma_canonical(s@);
        assert(s@ == decimal(value as int));
    }
    true
}

/// Whether `reason` is a fixed code or a canonical `disconnect_` and a number.
pub fn reason_is_known(reason: &str) -> (r: bool)
    ensures
        r == known_reason(reason),
{
    if is_listed(reason, FIXED_REASON_CODES.as_slice()) {
        return true;
    }
    let b = reason.as_bytes();
    let prefix = "disconnect_".as_bytes();
    let ghost p = bytes_of("disconnect_");
    if !starts_with(b, prefix) {
        proof {
            assert forall|n: int| 0 <= n <= u32::MAX implies b@ != p + #[trigger] decimal(n) by {
                if b@ == p + decimal(n) {
                    assert(b@.subrange(0, p.len() as int) =~= p);
                }
            }
        }
        return false;
    }
    let rest = tail(b, prefix.len());
    proof {
        assert(b@ =~= p + rest@);
        assert forall|n: int| 0 <= n <= u32::MAX && b@ == p + #[trigger] decimal(n) implies rest@ == decimal(n) by {
            assert(rest@ =~= (p + decimal(n)).skip(p.len() as int));
            assert((p + decimal(n)).skip(p.len() as int) =~= decimal(n));
        }
    }
    let r = is_u32(rest);
    proof {
        if r {
            let n = choose|n: int| 0 <= n <= u32::MAX && rest@ == #[trigger] decimal(n);
            assert(b@ == p + decimal(n));
        }
    }
    r
}

/// Worst-case JSON length of a string built from `raw_len` untrusted bytes as
/// lossy text (the replacement character is 3 bytes; a control byte becomes a
/// 6-byte escape), or of a text of `raw_len` bytes.
pub fn json_text_bound(raw_len: usize) -> (r: usize)
    requires
        6 * raw_len <= usize::MAX,
    ensures
        r == 6 * raw_len,
{
    6 * raw_len
}

/// Raw-field bounds that a truncated observation record depends on. Only
/// `line_hex` and the `diagnostics` text fields are bounded by `max_field`;
/// `line`, `comments`, the version tokens and the server identification are
/// emitted in full.
#[derive(Clone, Copy, Debug, PartialEq, Eq, Structural)]
pub struct FieldBounds {
    /// The largest field of the encoder.
    pub max_field: usize,
    /// Raw bytes of `server_identification`.
    pub server_identification: usize,
    /// Raw bytes of the client identification line.
    pub line: usize,
    /// Bytes of `protocol_version`.
    pub protocol_version: usize,
    /// Bytes of `software_version`.
    pub software_version: usize,
    /// Raw bytes of the comments.
    pub comments: usize,
    /// JSON-escaped length of `detail`.
    pub detail_json: usize,
    /// Raw bytes, after clipping to `max_field`, of the `diagnostics` fields
    /// rendered as lossy text. At most `2 * max_field`.
    pub diagnostic_text: usize,
    /// Raw bytes, after clipping, of the `diagnostics` fields rendered as hex.
    /// At most `max_field`.
    pub diagnostic_hex: usize,
}

impl FieldBounds {
    /// The bounds for a deployment: `max_field`, the largest raw client
    /// identification line, and our own identification line. The version
    /// tokens and comments partition the line; the diagnostics take the
    /// disconnect worst case.
    pub fn deployment(max_field: usize, identification_line: usize, server_identification: usize) -> (r: Self)
        requires
            2 * max_field <= usize::MAX,
        ensures
            r == (FieldBounds {
                max_field,
                server_identification,
                line: identification_line,
                protocol_version: 0,
                software_version: 0,
                comments: identification_line,
                detail_json: 128,
                diagnostic_text: (2 * max_field) as usize,
                diagnostic_hex: 0,
            }),
    {
        FieldBounds {
            max_field,
            server_identification,
            line: identification_line,
            protocol_version: 0,
            software_version: 0,
            comments: identification_line,
            detail_json: 128,
            diagnostic_text: 2 * max_field,
            diagnostic_hex: 0,
        }
    }
}

/// Everything in a truncated record that does not depend on [`FieldBounds`],
/// at its worst case: all keys, the envelope with a 4-digit year, two IPv6
/// addresses with scope ids and 5-digit ports, a 12-digit year in
/// `accepted_at`, 20-digit counters, the longest codes, both identification
/// anomalies, and the `disconnected` diagnostics object minus its bounded
/// text; rounded up.
pub const TRUNCATED_FIXED_BOUND: usize = 1100;

/// The bound of a truncated record.
pub open spec fn truncated_bound(b: FieldBounds) -> int {
    TRUNCATED_FIXED_BOUND + 6 * b.server_identification + 6 * b.line + 2 * crate::seqs::min_int(
        b.line as int,
        b.max_field as int,
    ) + 6 * b.protocol_version + 6 * b.software_version + 6 * b.comments + b.detail_json + 6 * b.diagnostic_text
        + 2 * b.diagnostic_hex
}

/// Upper bound on the length of a truncated observation record (`messages:
/// []`, `proposal: null`): the encoder's output never exceeds its record
/// budget when the budget is at least this.
pub fn truncated_record_bound(b: &FieldBounds) -> (r: usize)
    requires
        truncated_bound(*b) <= usize::MAX,
    ensures
        r == truncated_bound(*b),
{
    let clipped: usize = if b.line < b.max_field { b.line } else { b.max_field };
    TRUNCATED_FIXED_BOUND + json_text_bound(b.server_identification) + json_text_bound(b.line) + 2 * clipped
        + json_text_bound(b.protocol_version) + json_text_bound(b.software_version) + json_text_bound(b.comments)
        + b.detail_json + json_text_bound(b.diagnostic_text) + 2 * b.diagnostic_hex
}

/// Whether a length keeps to the bound of a truncated record, however large
/// the bound is.
pub fn within_truncated_bound(len: usize, b: &FieldBounds) -> (r: bool)
    ensures
        r == (len <= truncated_bound(*b)),
{
    let clipped: usize = if b.line < b.max_field { b.line } else { b.max_field };
    let bound: u128 = TRUNCATED_FIXED_BOUND as u128 + 6 * b.server_identification as u128 + 6 * b.line as u128 + 2
        * clipped as u128 + 6 * b.protocol_version as u128 + 6 * b.software_version as u128 + 6 * b.comments as u128
        + b.detail_json as u128 + 6 * b.diagnostic_text as u128 + 2 * b.diagnostic_hex as u128;
    len as u128 <= bound
}

} // verus!
