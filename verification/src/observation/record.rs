//! What the record of an observation holds.

use vstd::prelude::*;
use crate::digits::{hex_lower, hex_of};
use crate::observation::gen::{EndView, ObservationEnd, Span};
use crate::observation::record_laws::{holds_texts, lemma_ident_record, lemma_proposal_record};
use crate::seqs::{head, min_int, texts};
use crate::state_support::json_ref::Node;
use crate::state_support::json_serde::{at, fields_json, items_json, json, lemma_items, no_entries, Json};
use crate::state_support::record_ref::{disconnect_name, KEX_MARKERS};
use crate::tcp_support::types::{
    LineTerminator, ObservationOutcome, OwnedIdentification, Proposal, ProposalAnomaly, ProposalView, SkippedMessage,
    VersionSupport,
};
use crate::text::{ascii_text, copy_text, lossy_string, same_text, text_of};
use crate::wire_core::messages_ref::disconnect_reason_text;

verus! {

/// The entries of the first `n` pairs: of pairs with one key the last counts.
pub open spec fn pairs_map(p: Seq<(Seq<char>, Json)>, n: nat) -> Map<Seq<char>, Json>
    decreases n,
{
    if n == 0 || n > p.len() {
        no_entries()
    } else {
        pairs_map(p, (n - 1) as nat).insert(p[n - 1].0, p[n - 1].1)
    }
}

/// The object of some pairs.
pub open spec fn object(p: Seq<(Seq<char>, Json)>) -> Json {
    Json::Object(pairs_map(p, p.len()))
}

/// An array of strings.
pub open spec fn strings(v: Seq<Seq<char>>) -> Json {
    Json::Array(Seq::new(v.len(), |i: int| Json::Str(v[i])))
}

/// A string, or `null`.
pub open spec fn opt_string(o: Option<Seq<char>>) -> Json {
    match o {
        Some(t) => Json::Str(t),
        None => Json::Null,
    }
}

/// Fields as pairs.
pub open spec fn field_views(v: Seq<(String, Node)>) -> Seq<(Seq<char>, Json)> {
    Seq::new(v.len(), |i: int| (v[i].0@, json(v[i].1)))
}

/// Fields mean what their pairs mean.
pub proof fn lemma_fields_object(v: Seq<(String, Node)>, n: nat)
    requires
        n <= v.len(),
    ensures
        fields_json(v, n) == pairs_map(field_views(v), n),
    decreases n,
{
    if n > 0 {
        lemma_fields_object(v, (n - 1) as nat);
    }
}

/// Appends a field.
pub fn put(out: &mut Vec<(String, Node)>, k: &str, v: Node)
    ensures
        field_views(final(out)@) == field_views(old(out)@).push((k@, json(v))),
{
    out.push((copy_text(k), v));
    proof {
        assert(field_views(out@) =~= field_views(old(out)@).push((k@, json(v))));
    }
}

/// The object of some fields.
pub fn object_node(v: Vec<(String, Node)>) -> (r: Node)
    ensures
        json(r) == object(field_views(v@)),
{
    proof {
        lemma_fields_object(v@, v@.len());
    }
    Node::Object(v)
}

/// An array of strings.
pub fn strings_node(v: &Vec<String>) -> (r: Node)
    ensures
        json(r) == strings(texts(v@)),
{
    let mut out: Vec<Node> = Vec::new();
    let mut i: usize = 0;
    while i < v.len()
        invariant
            i <= v@.len(),
            out@.len() == i,
            forall|k: int| 0 <= k < i ==> json(#[trigger] out@[k]) == Json::Str(v@[k]@),
        decreases v@.len() - i,
    {
        out.push(Node::Str(copy_text(v[i].as_str())));
        i = i + 1;
    }
    proof {
        lemma_items(out@, out@.len());
        assert(items_json(out@, out@.len()) =~= Seq::new(texts(v@).len(), |k: int| Json::Str(texts(v@)[k])));
    }
    Node::Array(out)
}

/// A string node.
pub fn text_node(s: &str) -> (r: Node)
    ensures
        json(r) == Json::Str(s@),
{
    Node::Str(copy_text(s))
}

/// The text of the first `max` bytes.
pub open spec fn prefix_text(b: Seq<u8>, max: int) -> Seq<char> {
    text_of(b.take(min_int(b.len() as int, max)))
}

/// The text of the first `max` bytes.
pub fn lossy_prefix(b: &[u8], max: usize) -> (r: String)
    ensures
        r@ == prefix_text(b@, max as int),
{
    let n: usize = if b.len() <= max { b.len() } else { max };
    lossy_string(head(b, n))
}

/// The hexadecimal text of the first `max` bytes.
pub open spec fn prefix_hex(b: Seq<u8>, max: int) -> Seq<char> {
    ascii_text(hex_of(b.take(min_int(b.len() as int, max))))
}

/// The hexadecimal text of the first `max` bytes.
pub fn hex_prefix(b: &[u8], max: usize) -> (r: String)
    ensures
        r@ == prefix_hex(b@, max as int),
{
    let n: usize = if b.len() <= max { b.len() } else { max };
    hex_lower(head(b, n))
}

/// A time span in whole milliseconds, cut off at the largest 64-bit number.
pub open spec fn millis_of(d: Span) -> int {
    min_int(d.secs * 1000 + d.nanos / 1_000_000, u64::MAX as int)
}

/// A time span in whole milliseconds.
pub fn expected_millis(d: Span) -> (r: u64)
    ensures
        r == millis_of(d),
{
    let ms: u128 = d.secs as u128 * 1000 + (d.nanos / 1_000_000) as u128;
    if ms <= u64::MAX as u128 {
        ms as u64
    } else {
        u64::MAX
    }
}

/// The anomalies of an identification.
pub open spec fn ident_anomalies(i: OwnedIdentification<Seq<u8>, Seq<char>>) -> Seq<Seq<char>> {
    (if i.terminator == LineTerminator::Lf {
        seq!["lf_only_terminator"@]
    } else {
        Seq::empty()
    }) + (if i.support == VersionSupport::Ssh2Compatibility {
        seq!["compatibility_version_1_99"@]
    } else {
        Seq::empty()
    })
}

/// The pairs of the record of a client identification.
pub open spec fn ident_pairs(i: OwnedIdentification<Seq<u8>, Seq<char>>, f: int) -> Seq<(Seq<char>, Json)> {
    let fixed = seq![
        ("line"@, Json::Str(text_of(i.line))),
        ("line_hex"@, Json::Str(prefix_hex(i.line, f))),
        ("protocol_version"@, Json::Str(i.protocol_version)),
        ("software_version"@, Json::Str(i.software_version)),
        (
            "comments"@,
            opt_string(
                match i.comments {
                    Some(c) => Some(text_of(c)),
                    None => None,
                },
            ),
        ),
        (
            "terminator"@,
            Json::Str(
                if i.terminator == LineTerminator::CrLf {
                    "crlf"@
                } else {
                    "lf"@
                },
            ),
        ),
        ("anomalies"@, strings(ident_anomalies(i))),
    ];
    if i.line.len() > f {
        fixed.push(("line_hex_truncated"@, Json::Bool(true)))
    } else {
        fixed
    }
}

/// The record of a client identification: the line in full as text, its first
/// `f` bytes in hexadecimal, and a flag where that cuts it.
pub open spec fn ident_json(i: OwnedIdentification<Seq<u8>, Seq<char>>, f: int) -> Json {
    object(ident_pairs(i, f))
}

/// The record of a client identification.
pub fn expected_identification(i: &OwnedIdentification, f: usize) -> (r: Node)
    ensures
        json(r) == ident_json(i@, f as int),
        at(json(r), "line"@) == Json::Str(text_of(i.line@)),
        at(json(r), "protocol_version"@) == Json::Str(i.protocol_version@),
        at(json(r), "software_version"@) == Json::Str(i.software_version@),
{
    let mut anomalies: Vec<String> = Vec::new();
    if i.terminator == LineTerminator::Lf {
        anomalies.push(copy_text("lf_only_terminator"));
    }
    if i.support == VersionSupport::Ssh2Compatibility {
        anomalies.push(copy_text("compatibility_version_1_99"));
    }
    proof {
        assert(texts(anomalies@) =~= ident_anomalies(i@));
    }
    let comments = match &i.comments {
        Some(c) => Node::Str(lossy_string(c.as_slice())),
        None => Node::Null,
    };
    let terminator = match i.terminator {
        LineTerminator::CrLf => "crlf",
        LineTerminator::Lf => "lf",
    };
    let mut out: Vec<(String, Node)> = Vec::new();
    put(&mut out, "line", Node::Str(lossy_string(i.line.as_slice())));
    put(&mut out, "line_hex", Node::Str(hex_prefix(i.line.as_slice(), f)));
    put(&mut out, "protocol_version", text_node(i.protocol_version.as_str()));
    put(&mut out, "software_version", text_node(i.software_version.as_str()));
    put(&mut out, "comments", comments);
    put(&mut out, "terminator", text_node(terminator));
    put(&mut out, "anomalies", strings_node(&anomalies));
    if i.line.len() > f {
        put(&mut out, "line_hex_truncated", Node::Bool(true));
    }
    proof {
        assert(field_views(out@) =~= ident_pairs(i@, f as int));
        lemma_ident_record(i@, f as int);
    }
    object_node(out)
}

/// The record of a skipped message: texts of the first `f` bytes, and a flag
/// where that cuts the message.
pub open spec fn message_json(m: SkippedMessage<Seq<u8>>, f: int) -> Json {
    match m {
        SkippedMessage::Ignored { data_len } => object(
            seq![("type"@, Json::Str("ignore"@)), ("data_len"@, Json::Number(data_len as int))],
        ),
        SkippedMessage::Debug { always_display, message, language_tag } => object(
            seq![
                ("type"@, Json::Str("debug"@)),
                ("always_display"@, Json::Bool(always_display)),
                ("message"@, Json::Str(prefix_text(message, f))),
                ("message_truncated"@, Json::Bool(message.len() > f)),
                ("language_tag"@, Json::Str(prefix_text(language_tag, f))),
            ],
        ),
        SkippedMessage::Unimplemented { sequence_number } => object(
            seq![
                ("type"@, Json::Str("unimplemented"@)),
                ("sequence_number"@, Json::Number(sequence_number as int)),
            ],
        ),
    }
}

/// The record of a skipped message.
pub fn expected_message(m: &SkippedMessage, f: usize) -> (r: Node)
    ensures
        json(r) == message_json(m@, f as int),
{
    let mut out: Vec<(String, Node)> = Vec::new();
    match m {
        SkippedMessage::Ignored { data_len } => {
            put(&mut out, "type", text_node("ignore"));
            put(&mut out, "data_len", Node::UInt(*data_len as u64));
            proof {
                assert(field_views(out@) =~= seq![
                    ("type"@, Json::Str("ignore"@)),
                    ("data_len"@, Json::Number(*data_len as int)),
                ]);
            }
        },
        SkippedMessage::Debug { always_display, message, language_tag } => {
            put(&mut out, "type", text_node("debug"));
            put(&mut out, "always_display", Node::Bool(*always_display));
            put(&mut out, "message", Node::Str(lossy_prefix(message.as_slice(), f)));
            put(&mut out, "message_truncated", Node::Bool(message.len() > f));
            put(&mut out, "language_tag", Node::Str(lossy_prefix(language_tag.as_slice(), f)));
            proof {
                assert(field_views(out@) =~= seq![
                    ("type"@, Json::Str("debug"@)),
                    ("always_display"@, Json::Bool(*always_display)),
                    ("message"@, Json::Str(prefix_text(message@, f as int))),
                    ("message_truncated"@, Json::Bool(message@.len() > f)),
                    ("language_tag"@, Json::Str(prefix_text(language_tag@, f as int))),
                ]);
            }
        },
        SkippedMessage::Unimplemented { sequence_number } => {
            put(&mut out, "type", text_node("unimplemented"));
            put(&mut out, "sequence_number", Node::UInt(*sequence_number as u64));
            proof {
                assert(field_views(out@) =~= seq![
                    ("type"@, Json::Str("unimplemented"@)),
                    ("sequence_number"@, Json::Number(*sequence_number as int)),
                ]);
            }
        },
    }
    object_node(out)
}

/// The kind of a marker, by its place among the known markers from `i` on.
pub open spec fn marker_kind(name: Seq<char>, i: int) -> Option<Seq<char>>
    decreases 4 - i,
{
    if i < 0 || i >= 4 {
        None
    } else if KEX_MARKERS@[i].0@ == name {
        Some(KEX_MARKERS@[i].1@)
    } else {
        marker_kind(name, i + 1)
    }
}

/// The record of one marker.
pub open spec fn marker_json(name: Seq<char>, kind: Seq<char>) -> Json {
    object(seq![("name"@, Json::Str(name)), ("kind"@, Json::Str(kind))])
}

/// The markers among the first `n` names.
pub open spec fn markers_of(names: Seq<Seq<char>>, n: nat) -> Seq<Json>
    decreases n,
{
    if n == 0 || n > names.len() {
        Seq::empty()
    } else {
        match marker_kind(names[n - 1], 0) {
            Some(k) => markers_of(names, (n - 1) as nat).push(marker_json(names[n - 1], k)),
            None => markers_of(names, (n - 1) as nat),
        }
    }
}

fn kind_of(name: &str) -> (r: Option<&'static str>)
    ensures
        match marker_kind(name@, 0) {
            Some(k) => r matches Some(t) && t@ == k,
            None => r is None,
        },
{
    let markers = KEX_MARKERS;
    let mut i: usize = 0;
    while i < 4
        invariant
            i <= 4,
            markers@ == KEX_MARKERS@,
            marker_kind(name@, 0) == marker_kind(name@, i as int),
        decreases 4 - i,
    {
        if same_text(markers[i].0, name) {
            return Some(markers[i].1);
        }
        i = i + 1;
    }
    None
}

fn markers_node(names: &Vec<String>) -> (r: Node)
    ensures
        json(r) == Json::Array(markers_of(texts(names@), names@.len())),
{
    let mut out: Vec<Node> = Vec::new();
    let mut i: usize = 0;
    let ghost t = texts(names@);
    while i < names.len()
        invariant
            i <= names@.len(),
            t == texts(names@),
            out@.len() == markers_of(t, i as nat).len(),
            forall|k: int| 0 <= k < out@.len() ==> json(#[trigger] out@[k]) == markers_of(t, i as nat)[k],
        decreases names@.len() - i,
    {
        if let Some(kind) = kind_of(names[i].as_str()) {
            let mut fields: Vec<(String, Node)> = Vec::new();
            put(&mut fields, "name", text_node(names[i].as_str()));
            put(&mut fields, "kind", text_node(kind));
            proof {
                assert(field_views(fields@) =~= seq![
                    ("name"@, Json::Str(t[i as int])),
                    ("kind"@, Json::Str(kind@)),
                ]);
            }
            out.push(object_node(fields));
        }
        i = i + 1;
    }
    proof {
        lemma_items(out@, out@.len());
        assert(items_json(out@, out@.len()) =~= markers_of(t, names@.len()));
    }
    Node::Array(out)
}

/// The code of an anomaly.
pub open spec fn anomaly_code(a: ProposalAnomaly) -> Seq<char> {
    match a {
        ProposalAnomaly::NonzeroReserved(_) => "kexinit_nonzero_reserved"@,
        ProposalAnomaly::EmptyAlgorithmList(_) => "kexinit_empty_algorithm_list"@,
    }
}

/// The codes of anomalies.
pub open spec fn anomaly_codes(v: Seq<ProposalAnomaly>) -> Seq<Seq<char>> {
    Seq::new(v.len(), |i: int| anomaly_code(v[i]))
}

fn anomalies_node(v: &Vec<ProposalAnomaly>) -> (r: Node)
    ensures
        json(r) == strings(anomaly_codes(v@)),
{
    let mut out: Vec<String> = Vec::new();
    let mut i: usize = 0;
    while i < v.len()
        invariant
            i <= v@.len(),
            out@.len() == i,
            forall|k: int| 0 <= k < i ==> #[trigger] out@[k]@ == anomaly_code(v@[k]),
        decreases v@.len() - i,
    {
        let code = match v[i] {
            ProposalAnomaly::NonzeroReserved(_) => "kexinit_nonzero_reserved",
            ProposalAnomaly::EmptyAlgorithmList(_) => "kexinit_empty_algorithm_list",
        };
        out.push(copy_text(code));
        i = i + 1;
    }
    proof {
        assert(texts(out@) =~= anomaly_codes(v@));
    }
    strings_node(&out)
}

/// The pairs of the record of a proposal.
pub open spec fn proposal_pairs(p: ProposalView) -> Seq<(Seq<char>, Json)> {
    let k = p.kexinit;
    seq![
        ("role"@, Json::Str("client"@)),
        ("cookie_hex"@, Json::Str(ascii_text(hex_of(k.cookie)))),
        ("kex_algorithms"@, strings(k.kex_algorithms)),
        ("kex_markers"@, Json::Array(markers_of(k.kex_algorithms, k.kex_algorithms.len()))),
        ("server_host_key_algorithms"@, strings(k.server_host_key_algorithms)),
        ("encryption_client_to_server"@, strings(k.encryption_client_to_server)),
        ("encryption_server_to_client"@, strings(k.encryption_server_to_client)),
        ("mac_client_to_server"@, strings(k.mac_client_to_server)),
        ("mac_server_to_client"@, strings(k.mac_server_to_client)),
        ("compression_client_to_server"@, strings(k.compression_client_to_server)),
        ("compression_server_to_client"@, strings(k.compression_server_to_client)),
        ("languages_client_to_server"@, strings(k.languages_client_to_server)),
        ("languages_server_to_client"@, strings(k.languages_server_to_client)),
        ("first_kex_packet_follows"@, Json::Bool(k.first_kex_packet_follows)),
        ("reserved"@, Json::Number(k.reserved as int)),
        ("anomalies"@, strings(anomaly_codes(p.anomalies))),
        ("payload_len"@, Json::Number(p.raw_payload.len() as int)),
        ("unexamined_bytes"@, Json::Number(p.unexamined_bytes as int)),
    ]
}

/// The record of a proposal: every list under its own key.
pub open spec fn proposal_json(p: ProposalView) -> Json {
    object(proposal_pairs(p))
}

/// The record of a proposal.
pub fn expected_proposal(p: &Proposal) -> (r: Node)
    ensures
        json(r) == proposal_json(p@),
        holds_texts(at(json(r), "kex_algorithms"@), texts(p.kexinit.kex_algorithms@)),
        holds_texts(at(json(r), "server_host_key_algorithms"@), texts(p.kexinit.server_host_key_algorithms@)),
        holds_texts(at(json(r), "encryption_client_to_server"@), texts(p.kexinit.encryption_client_to_server@)),
        holds_texts(at(json(r), "encryption_server_to_client"@), texts(p.kexinit.encryption_server_to_client@)),
        holds_texts(at(json(r), "mac_client_to_server"@), texts(p.kexinit.mac_client_to_server@)),
        holds_texts(at(json(r), "mac_server_to_client"@), texts(p.kexinit.mac_server_to_client@)),
        holds_texts(at(json(r), "compression_client_to_server"@), texts(p.kexinit.compression_client_to_server@)),
        holds_texts(at(json(r), "compression_server_to_client"@), texts(p.kexinit.compression_server_to_client@)),
        holds_texts(at(json(r), "languages_client_to_server"@), texts(p.kexinit.languages_client_to_server@)),
        holds_texts(at(json(r), "languages_server_to_client"@), texts(p.kexinit.languages_server_to_client@)),
        at(json(r), "first_kex_packet_follows"@) == Json::Bool(p.kexinit.first_kex_packet_follows),
        at(json(r), "reserved"@) == Json::Number(p.kexinit.reserved as int),
        at(json(r), "payload_len"@) == Json::Number(p.raw_payload@.len() as int),
        at(json(r), "unexamined_bytes"@) == Json::Number(p.unexamined_bytes as int),
{
    let k = &p.kexinit;
    let mut out: Vec<(String, Node)> = Vec::new();
    put(&mut out, "role", text_node("client"));
    put(&mut out, "cookie_hex", Node::Str(hex_lower(k.cookie.as_slice())));
    put(&mut out, "kex_algorithms", strings_node(&k.kex_algorithms));
    put(&mut out, "kex_markers", markers_node(&k.kex_algorithms));
    put(&mut out, "server_host_key_algorithms", strings_node(&k.server_host_key_algorithms));
    put(&mut out, "encryption_client_to_server", strings_node(&k.encryption_client_to_server));
    put(&mut out, "encryption_server_to_client", strings_node(&k.encryption_server_to_client));
    put(&mut out, "mac_client_to_server", strings_node(&k.mac_client_to_server));
    put(&mut out, "mac_server_to_client", strings_node(&k.mac_server_to_client));
    put(&mut out, "compression_client_to_server", strings_node(&k.compression_client_to_server));
    put(&mut out, "compression_server_to_client", strings_node(&k.compression_server_to_client));
    put(&mut out, "languages_client_to_server", strings_node(&k.languages_client_to_server));
    put(&mut out, "languages_server_to_client", strings_node(&k.languages_server_to_client));
    put(&mut out, "first_kex_packet_follows", Node::Bool(k.first_kex_packet_follows));
    put(&mut out, "reserved", Node::UInt(k.reserved as u64));
    put(&mut out, "anomalies", anomalies_node(&p.anomalies));
    put(&mut out, "payload_len", Node::UInt(p.raw_payload.len() as u64));
    put(&mut out, "unexamined_bytes", Node::UInt(p.unexamined_bytes as u64));
    proof {
        assert(field_views(out@) =~= proposal_pairs(p@));
        lemma_proposal_record(p@);
    }
    object_node(out)
}

/// The pairs of the diagnostics of a disconnect.
pub open spec fn disconnect_pairs(reason_code: u32, description: Seq<u8>, language_tag: Seq<u8>, f: int) -> Seq<
    (Seq<char>, Json),
> {
    seq![
        ("reason_code"@, Json::Number(reason_code as int)),
        (
            "reason_name"@,
            opt_string(
                match disconnect_reason_text(reason_code) {
                    Some(n) => Some(n@),
                    None => None,
                },
            ),
        ),
        ("description"@, Json::Str(prefix_text(description, f))),
        ("description_truncated"@, Json::Bool(description.len() > f)),
        ("language_tag"@, Json::Str(prefix_text(language_tag, f))),
    ]
}

/// The diagnostics of an end: what the peer sent with it, its texts cut to
/// `f` bytes.
pub open spec fn diagnostics_json(end: EndView, f: int) -> Json {
    match end {
        ObservationEnd::Observer(o) => match o {
            ObservationOutcome::Disconnected { reason_code, description, language_tag } => object(
                disconnect_pairs(reason_code, description, language_tag, f),
            ),
            ObservationOutcome::UnexpectedInput { sample, truncated } => object(
                seq![
                    ("sample"@, Json::Str(prefix_text(sample, f))),
                    ("sample_hex"@, Json::Str(prefix_hex(sample, f))),
                    ("sample_len"@, Json::Number(sample.len() as int)),
                    ("sample_truncated"@, Json::Bool(truncated || sample.len() > f)),
                ],
            ),
            ObservationOutcome::Eof { pending_bytes, .. } => object(
                seq![("pending_bytes"@, Json::Number(pending_bytes as int))],
            ),
            _ => Json::Null,
        },
        _ => Json::Null,
    }
}

/// The diagnostics of an end.
pub fn expected_diagnostics(end: &ObservationEnd, f: usize) -> (r: Node)
    ensures
        json(r) == diagnostics_json(end@, f as int),
{
    let mut out: Vec<(String, Node)> = Vec::new();
    match end {
        ObservationEnd::Observer(o) => match o {
            ObservationOutcome::Disconnected { reason_code, description, language_tag } => {
                let name = match disconnect_name(*reason_code) {
                    Some(n) => text_node(n),
                    None => Node::Null,
                };
                put(&mut out, "reason_code", Node::UInt(*reason_code as u64));
                put(&mut out, "reason_name", name);
                put(&mut out, "description", Node::Str(lossy_prefix(description.as_slice(), f)));
                put(&mut out, "description_truncated", Node::Bool(description.len() > f));
                put(&mut out, "language_tag", Node::Str(lossy_prefix(language_tag.as_slice(), f)));
                proof {
                    assert(field_views(out@) =~= disconnect_pairs(*reason_code, description@, language_tag@, f as int));
                }
                object_node(out)
            },
            ObservationOutcome::UnexpectedInput { sample, truncated } => {
                put(&mut out, "sample", Node::Str(lossy_prefix(sample.as_slice(), f)));
                put(&mut out, "sample_hex", Node::Str(hex_prefix(sample.as_slice(), f)));
                put(&mut out, "sample_len", Node::UInt(sample.len() as u64));
                put(&mut out, "sample_truncated", Node::Bool(*truncated || sample.len() > f));
                proof {
                    assert(field_views(out@) =~= seq![
                        ("sample"@, Json::Str(prefix_text(sample@, f as int))),
                        ("sample_hex"@, Json::Str(prefix_hex(sample@, f as int))),
                        ("sample_len"@, Json::Number(sample@.len() as int)),
                        ("sample_truncated"@, Json::Bool(*truncated || sample@.len() > f)),
                    ]);
                }
                object_node(out)
            },
            ObservationOutcome::Eof { pending_bytes, .. } => {
                put(&mut out, "pending_bytes", Node::UInt(*pending_bytes as u64));
                proof {
                    assert(field_views(out@) =~= seq![("pending_bytes"@, Json::Number(*pending_bytes as int))]);
                }
                object_node(out)
            },
            _ => Node::Null,
        },
        _ => Node::Null,
    }
}

} // verus!
