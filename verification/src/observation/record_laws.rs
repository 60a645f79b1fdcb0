//! What stands under each key of the records of an observation.

use vstd::prelude::*;
use crate::digits::hex_of;
use crate::observation::gen::{EndView, ObservationEnd};
use crate::observation::record::{
    diagnostics_json, disconnect_pairs, ident_json, ident_pairs, marker_kind, markers_of, message_json, object,
    pairs_map, prefix_hex, prefix_text, proposal_json, proposal_pairs,
};
use crate::state_support::json_serde::{at, given, Json};
use crate::state_support::record_ref::KEX_MARKERS;
use crate::tcp_support::types::{
    LineTerminator, ObservationOutcome, OwnedIdentification, ProposalAnomaly, ProposalView, SkippedMessage,
    VersionSupport,
};
use crate::text::{ascii_text, text_of};
use crate::wire_core::messages_ref::disconnect_reason_text;

verus! {

/// An array that holds these texts, in order.
pub open spec fn holds_texts(j: Json, names: Seq<Seq<char>>) -> bool {
    j matches Json::Array(v) && v.len() == names.len() && forall|i: int|
        0 <= i < names.len() ==> #[trigger] v[i] == Json::Str(names[i])
}

/// The text of the bytes, or of their first `f` where there are more.
pub open spec fn clipped_text(b: Seq<u8>, f: int) -> Json {
    if b.len() <= f {
        Json::Str(text_of(b))
    } else {
        Json::Str(text_of(b.take(f)))
    }
}

/// The hexadecimal text of the bytes, or of their first `f` where there are
/// more.
pub open spec fn clipped_hex(b: Seq<u8>, f: int) -> Json {
    if b.len() <= f {
        Json::Str(ascii_text(hex_of(b)))
    } else {
        Json::Str(ascii_text(hex_of(b.take(f))))
    }
}

/// No pair from the `i`-th on has the key.
pub open spec fn key_unused(p: Seq<(Seq<char>, Json)>, k: Seq<char>, i: int) -> bool
    decreases p.len() - i,
{
    i >= p.len() || (p[i].0 != k && key_unused(p, k, i + 1))
}

proof fn lemma_map_at(p: Seq<(Seq<char>, Json)>, i: int, n: nat)
    requires
        0 <= i < n <= p.len(),
        forall|j: int| i < j < n ==> (#[trigger] p[j]).0 != p[i].0,
    ensures
        pairs_map(p, n).contains_key(p[i].0),
        pairs_map(p, n)[p[i].0] == p[i].1,
    decreases n,
{
    if i < n - 1 {
        lemma_map_at(p, i, (n - 1) as nat);
        assert(p[n - 1].0 != p[i].0);
    }
}

proof fn lemma_unused(p: Seq<(Seq<char>, Json)>, k: Seq<char>, i: int, j: int)
    requires
        0 <= i <= j < p.len(),
        key_unused(p, k, i),
    ensures
        p[j].0 != k,
    decreases j - i,
{
    if i < j {
        lemma_unused(p, k, i + 1, j);
    }
}

/// The object of pairs has under a key the value of its last pair.
proof fn lemma_object_at(p: Seq<(Seq<char>, Json)>, i: int)
    requires
        0 <= i < p.len(),
        key_unused(p, p[i].0, i + 1),
    ensures
        at(object(p), p[i].0) == p[i].1,
        given(object(p), p[i].0),
{
    assert forall|j: int| i < j < p.len() implies (#[trigger] p[j]).0 != p[i].0 by {
        lemma_unused(p, p[i].0, i + 1, j);
    }
    lemma_map_at(p, i, p.len());
}

proof fn lemma_map_absent(p: Seq<(Seq<char>, Json)>, k: Seq<char>, n: nat)
    requires
        n <= p.len(),
        key_unused(p, k, 0),
    ensures
        !pairs_map(p, n).contains_key(k),
    decreases n,
{
    if n > 0 {
        lemma_map_absent(p, k, (n - 1) as nat);
        lemma_unused(p, k, 0, n - 1);
    }
}

proof fn lemma_proposal_keys()
    ensures
        "role"@.len() == 4,
        "cookie_hex"@.len() == 10,
        "kex_algorithms"@.len() == 14,
        "kex_markers"@.len() == 11,
        "server_host_key_algorithms"@.len() == 26,
        "encryption_client_to_server"@.len() == 27,
        "encryption_server_to_client"@.len() == 27,
        "mac_client_to_server"@.len() == 20,
        "mac_server_to_client"@.len() == 20,
        "compression_client_to_server"@.len() == 28,
        "compression_server_to_client"@.len() == 28,
        "languages_client_to_server"@.len() == 26,
        "languages_server_to_client"@.len() == 26,
        "first_kex_packet_follows"@.len() == 24,
        "reserved"@.len() == 8,
        "anomalies"@.len() == 9,
        "payload_len"@.len() == 11,
        "unexamined_bytes"@.len() == 16,
        "kex_markers"@ != "payload_len"@,
        "server_host_key_algorithms"@ != "languages_client_to_server"@,
        "server_host_key_algorithms"@ != "languages_server_to_client"@,
        "encryption_client_to_server"@ != "encryption_server_to_client"@,
        "mac_client_to_server"@ != "mac_server_to_client"@,
        "compression_client_to_server"@ != "compression_server_to_client"@,
        "languages_client_to_server"@ != "languages_server_to_client"@,
{
    reveal_strlit("role");
    reveal_strlit("cookie_hex");
    reveal_strlit("kex_algorithms");
    reveal_strlit("kex_markers");
    reveal_strlit("server_host_key_algorithms");
    reveal_strlit("encryption_client_to_server");
    reveal_strlit("encryption_server_to_client");
    reveal_strlit("mac_client_to_server");
    reveal_strlit("mac_server_to_client");
    reveal_strlit("compression_client_to_server");
    reveal_strlit("compression_server_to_client");
    reveal_strlit("languages_client_to_server");
    reveal_strlit("languages_server_to_client");
    reveal_strlit("first_kex_packet_follows");
    reveal_strlit("reserved");
    reveal_strlit("anomalies");
    reveal_strlit("payload_len");
    reveal_strlit("unexamined_bytes");
    assert("kex_markers"@[0] != "payload_len"@[0]);
    assert("server_host_key_algorithms"@[0] != "languages_client_to_server"@[0]);
    assert("server_host_key_algorithms"@[0] != "languages_server_to_client"@[0]);
    assert("encryption_client_to_server"@[11] != "encryption_server_to_client"@[11]);
    assert("mac_client_to_server"@[4] != "mac_server_to_client"@[4]);
    assert("compression_client_to_server"@[12] != "compression_server_to_client"@[12]);
    assert("languages_client_to_server"@[10] != "languages_server_to_client"@[10]);
}

/// The ten name lists of a proposal stand in its record, each under the key of
/// its own name and in its own order, and so do the cookie, the flag, the
/// reserved number, the length of the payload and what was left unexamined.
pub proof fn lemma_proposal_record(p: ProposalView)
    ensures
        ({
            let j = proposal_json(p);
            let k = p.kexinit;
            &&& at(j, "role"@) == Json::Str("client"@)
            &&& at(j, "cookie_hex"@) == Json::Str(ascii_text(hex_of(k.cookie)))
            &&& holds_texts(at(j, "kex_algorithms"@), k.kex_algorithms)
            &&& holds_texts(at(j, "server_host_key_algorithms"@), k.server_host_key_algorithms)
            &&& holds_texts(at(j, "encryption_client_to_server"@), k.encryption_client_to_server)
            &&& holds_texts(at(j, "encryption_server_to_client"@), k.encryption_server_to_client)
            &&& holds_texts(at(j, "mac_client_to_server"@), k.mac_client_to_server)
            &&& holds_texts(at(j, "mac_server_to_client"@), k.mac_server_to_client)
            &&& holds_texts(at(j, "compression_client_to_server"@), k.compression_client_to_server)
            &&& holds_texts(at(j, "compression_server_to_client"@), k.compression_server_to_client)
            &&& holds_texts(at(j, "languages_client_to_server"@), k.languages_client_to_server)
            &&& holds_texts(at(j, "languages_server_to_client"@), k.languages_server_to_client)
            &&& at(j, "first_kex_packet_follows"@) == Json::Bool(k.first_kex_packet_follows)
            &&& at(j, "reserved"@) == Json::Number(k.reserved as int)
            &&& at(j, "payload_len"@) == Json::Number(p.raw_payload.len() as int)
            &&& at(j, "unexamined_bytes"@) == Json::Number(p.unexamined_bytes as int)
            &&& at(j, "anomalies"@) matches Json::Array(v) && v.len() == p.anomalies.len() && forall|i: int|
                0 <= i < v.len() ==> #[trigger] v[i] == Json::Str(
                    match p.anomalies[i] {
                        ProposalAnomaly::NonzeroReserved(_) => "kexinit_nonzero_reserved"@,
                        ProposalAnomaly::EmptyAlgorithmList(_) => "kexinit_empty_algorithm_list"@,
                    },
                )
            &&& ({
                let kept = k.kex_algorithms.filter(|t: Seq<char>| kind_text(t) is Some);
                at(j, "kex_markers"@) matches Json::Array(m) && m.len() == kept.len() && forall|i: int|
                    0 <= i < kept.len() ==> {
                        &&& at(#[trigger] m[i], "name"@) == Json::Str(kept[i])
                        &&& at(m[i], "kind"@) == Json::Str(kind_text(kept[i])->0)
                    }
            })
        }),
{
    lemma_proposal_keys();
    lemma_markers_record(p.kexinit.kex_algorithms, p.kexinit.kex_algorithms.len());
    assert(p.kexinit.kex_algorithms.take(p.kexinit.kex_algorithms.len() as int) =~= p.kexinit.kex_algorithms);
    reveal_with_fuel(key_unused, 30);
    let q = proposal_pairs(p);
    lemma_object_at(q, 0);
    lemma_object_at(q, 1);
    lemma_object_at(q, 2);
    lemma_object_at(q, 3);
    lemma_object_at(q, 4);
    lemma_object_at(q, 5);
    lemma_object_at(q, 6);
    lemma_object_at(q, 7);
    lemma_object_at(q, 8);
    lemma_object_at(q, 9);
    lemma_object_at(q, 10);
    lemma_object_at(q, 11);
    lemma_object_at(q, 12);
    lemma_object_at(q, 13);
    lemma_object_at(q, 14);
    lemma_object_at(q, 15);
    lemma_object_at(q, 16);
    lemma_object_at(q, 17);
}

/// The kind of a marker among the names of methods.
pub open spec fn kind_text(name: Seq<char>) -> Option<Seq<char>> {
    if name == "ext-info-c"@ {
        Some("ext_info_client"@)
    } else if name == "ext-info-s"@ {
        Some("ext_info_server"@)
    } else if name == "kex-strict-c-v00@openssh.com"@ {
        Some("strict_kex_client"@)
    } else if name == "kex-strict-s-v00@openssh.com"@ {
        Some("strict_kex_server"@)
    } else {
        None
    }
}

proof fn lemma_kind(name: Seq<char>)
    ensures
        marker_kind(name, 0) == kind_text(name),
{
    let t = KEX_MARKERS@;
    assert(t[0].0@ == "ext-info-c"@ && t[0].1@ == "ext_info_client"@);
    assert(t[1].0@ == "ext-info-s"@ && t[1].1@ == "ext_info_server"@);
    assert(t[2].0@ == "kex-strict-c-v00@openssh.com"@ && t[2].1@ == "strict_kex_client"@);
    assert(t[3].0@ == "kex-strict-s-v00@openssh.com"@ && t[3].1@ == "strict_kex_server"@);
    reveal_with_fuel(marker_kind, 5);
}

/// The markers of a proposal's record are those among its first `n` methods,
/// in order, each with its name and its kind.
pub proof fn lemma_markers_record(names: Seq<Seq<char>>, n: nat)
    requires
        n <= names.len(),
    ensures
        ({
            let m = markers_of(names, n);
            let kept = names.take(n as int).filter(|t: Seq<char>| kind_text(t) is Some);
            &&& m.len() == kept.len()
            &&& forall|i: int|
                0 <= i < kept.len() ==> {
                    &&& at(#[trigger] m[i], "name"@) == Json::Str(kept[i])
                    &&& at(m[i], "kind"@) == Json::Str(kind_text(kept[i])->0)
                }
        }),
    decreases n,
{
    reveal(Seq::filter);
    let keep = |t: Seq<char>| kind_text(t) is Some;
    if n > 0 {
        lemma_markers_record(names, (n - 1) as nat);
        let last = names[n - 1];
        lemma_kind(last);
        assert(names.take(n as int).drop_last() =~= names.take(n - 1));
        assert(names.take(n as int).last() == last);
        if let Some(k) = kind_text(last) {
            reveal_strlit("name");
            reveal_strlit("kind");
            assert("name"@[0] != "kind"@[0]);
            let q = seq![("name"@, Json::Str(last)), ("kind"@, Json::Str(k))];
            reveal_with_fuel(key_unused, 3);
            lemma_object_at(q, 0);
            lemma_object_at(q, 1);
        }
    }
}

proof fn lemma_ident_keys()
    ensures
        "line"@.len() == 4,
        "line_hex"@.len() == 8,
        "protocol_version"@.len() == 16,
        "software_version"@.len() == 16,
        "comments"@.len() == 8,
        "terminator"@.len() == 10,
        "anomalies"@.len() == 9,
        "line_hex_truncated"@.len() == 18,
        "line_hex"@ != "comments"@,
        "protocol_version"@ != "software_version"@,
{
    reveal_strlit("line");
    reveal_strlit("line_hex");
    reveal_strlit("protocol_version");
    reveal_strlit("software_version");
    reveal_strlit("comments");
    reveal_strlit("terminator");
    reveal_strlit("anomalies");
    reveal_strlit("line_hex_truncated");
    assert("line_hex"@[0] != "comments"@[0]);
    assert("protocol_version"@[0] != "software_version"@[0]);
}

/// The record of an identification: its line as text and, cut to `f` bytes, in
/// hexadecimal, with a flag exactly where that cuts it; its versions, its
/// comments where it has some, how it ends, and what is irregular of it.
pub proof fn lemma_ident_record(i: OwnedIdentification<Seq<u8>, Seq<char>>, f: int)
    requires
        f >= 0,
    ensures
        ({
            let j = ident_json(i, f);
            &&& at(j, "line"@) == Json::Str(text_of(i.line))
            &&& at(j, "line_hex"@) == clipped_hex(i.line, f)
            &&& at(j, "protocol_version"@) == Json::Str(i.protocol_version)
            &&& at(j, "software_version"@) == Json::Str(i.software_version)
            &&& at(j, "comments"@) == (match i.comments {
                Some(c) => Json::Str(text_of(c)),
                None => Json::Null,
            })
            &&& given(j, "comments"@)
            &&& at(j, "terminator"@) == Json::Str(
                match i.terminator {
                    LineTerminator::CrLf => "crlf"@,
                    LineTerminator::Lf => "lf"@,
                },
            )
            &&& given(j, "line_hex_truncated"@) <==> i.line.len() > f
            &&& i.line.len() > f ==> at(j, "line_hex_truncated"@) == Json::Bool(true)
            &&& ({
                let lf = i.terminator == LineTerminator::Lf;
                let old = i.support == VersionSupport::Ssh2Compatibility;
                holds_texts(
                    at(j, "anomalies"@),
                    if lf && old {
                        seq!["lf_only_terminator"@, "compatibility_version_1_99"@]
                    } else if lf {
                        seq!["lf_only_terminator"@]
                    } else if old {
                        seq!["compatibility_version_1_99"@]
                    } else {
                        Seq::empty()
                    },
                )
            })
        }),
{
    lemma_ident_keys();
    reveal_with_fuel(key_unused, 12);
    let q = ident_pairs(i, f);
    lemma_object_at(q, 0);
    lemma_object_at(q, 1);
    lemma_object_at(q, 2);
    lemma_object_at(q, 3);
    lemma_object_at(q, 4);
    lemma_object_at(q, 5);
    lemma_object_at(q, 6);
    if i.line.len() > f {
        lemma_object_at(q, 7);
    } else {
        lemma_map_absent(q, "line_hex_truncated"@, q.len());
        assert(i.line.take(i.line.len() as int) =~= i.line);
    }
}

proof fn lemma_message_keys()
    ensures
        "type"@.len() == 4,
        "data_len"@.len() == 8,
        "always_display"@.len() == 14,
        "message"@.len() == 7,
        "message_truncated"@.len() == 17,
        "language_tag"@.len() == 12,
        "sequence_number"@.len() == 15,
{
    reveal_strlit("type");
    reveal_strlit("data_len");
    reveal_strlit("always_display");
    reveal_strlit("message");
    reveal_strlit("message_truncated");
    reveal_strlit("language_tag");
    reveal_strlit("sequence_number");
}

/// The record of a skipped message: its kind and, of an IGNORE, the length of
/// its data; of a DEBUG, the flag and its texts cut to `f` bytes, with a flag
/// exactly where that cuts the message; of an UNIMPLEMENTED, its number.
pub proof fn lemma_message_record(m: SkippedMessage<Seq<u8>>, f: int)
    requires
        f >= 0,
    ensures
        ({
            let j = message_json(m, f);
            match m {
                SkippedMessage::Ignored { data_len } => {
                    &&& at(j, "type"@) == Json::Str("ignore"@)
                    &&& at(j, "data_len"@) == Json::Number(data_len as int)
                },
                SkippedMessage::Debug { always_display, message, language_tag } => {
                    &&& at(j, "type"@) == Json::Str("debug"@)
                    &&& at(j, "always_display"@) == Json::Bool(always_display)
                    &&& at(j, "message"@) == clipped_text(message, f)
                    &&& at(j, "message_truncated"@) == Json::Bool(message.len() > f)
                    &&& at(j, "language_tag"@) == clipped_text(language_tag, f)
                },
                SkippedMessage::Unimplemented { sequence_number } => {
                    &&& at(j, "type"@) == Json::Str("unimplemented"@)
                    &&& at(j, "sequence_number"@) == Json::Number(sequence_number as int)
                },
            }
        }),
{
    lemma_message_keys();
    reveal_with_fuel(key_unused, 8);
    match m {
        SkippedMessage::Ignored { data_len } => {
            let q = seq![("type"@, Json::Str("ignore"@)), ("data_len"@, Json::Number(data_len as int))];
            lemma_object_at(q, 0);
            lemma_object_at(q, 1);
        },
        SkippedMessage::Debug { always_display, message, language_tag } => {
            let q = seq![
                ("type"@, Json::Str("debug"@)),
                ("always_display"@, Json::Bool(always_display)),
                ("message"@, Json::Str(prefix_text(message, f))),
                ("message_truncated"@, Json::Bool(message.len() > f)),
                ("language_tag"@, Json::Str(prefix_text(language_tag, f))),
            ];
            assert(message.take(message.len() as int) =~= message);
            assert(language_tag.take(language_tag.len() as int) =~= language_tag);
            lemma_object_at(q, 0);
            lemma_object_at(q, 1);
            lemma_object_at(q, 2);
            lemma_object_at(q, 3);
            lemma_object_at(q, 4);
        },
        SkippedMessage::Unimplemented { sequence_number } => {
            let q = seq![
                ("type"@, Json::Str("unimplemented"@)),
                ("sequence_number"@, Json::Number(sequence_number as int)),
            ];
            lemma_object_at(q, 0);
            lemma_object_at(q, 1);
        },
    }
}

proof fn lemma_diagnostic_keys()
    ensures
        "reason_code"@.len() == 11,
        "reason_name"@.len() == 11,
        "description"@.len() == 11,
        "description_truncated"@.len() == 21,
        "language_tag"@.len() == 12,
        "sample"@.len() == 6,
        "sample_hex"@.len() == 10,
        "sample_len"@.len() == 10,
        "sample_truncated"@.len() == 16,
        "reason_code"@ != "reason_name"@,
        "reason_code"@ != "description"@,
        "reason_name"@ != "description"@,
        "sample_hex"@ != "sample_len"@,
{
    reveal_strlit("reason_code");
    reveal_strlit("reason_name");
    reveal_strlit("description");
    reveal_strlit("description_truncated");
    reveal_strlit("language_tag");
    reveal_strlit("sample");
    reveal_strlit("sample_hex");
    reveal_strlit("sample_len");
    reveal_strlit("sample_truncated");
    assert("reason_code"@[7] != "reason_name"@[7]);
    assert("reason_code"@[0] != "description"@[0]);
    assert("reason_name"@[0] != "description"@[0]);
    assert("sample_hex"@[7] != "sample_len"@[7]);
}

/// The diagnostics of an end: of a disconnect, its code, the name of the code
/// where it has one, and its texts; of unexpected input, a sample as text and
/// in hexadecimal; of an end of input, what was pending. Texts are cut to `f`
/// bytes, with a flag exactly where that cuts them. Any other end has none.
pub proof fn lemma_diagnostics_record(end: EndView, f: int)
    requires
        f >= 0,
    ensures
        ({
            let j = diagnostics_json(end, f);
            match end {
                ObservationEnd::Observer(
                    ObservationOutcome::Disconnected { reason_code, description, language_tag },
                ) => {
                    &&& at(j, "reason_code"@) == Json::Number(reason_code as int)
                    &&& at(j, "reason_name"@) == (match disconnect_reason_text(reason_code) {
                        Some(n) => Json::Str(n@),
                        None => Json::Null,
                    })
                    &&& at(j, "description"@) == clipped_text(description, f)
                    &&& at(j, "description_truncated"@) == Json::Bool(description.len() > f)
                    &&& at(j, "language_tag"@) == clipped_text(language_tag, f)
                },
                ObservationEnd::Observer(ObservationOutcome::UnexpectedInput { sample, truncated }) => {
                    &&& at(j, "sample"@) == clipped_text(sample, f)
                    &&& at(j, "sample_hex"@) == clipped_hex(sample, f)
                    &&& at(j, "sample_len"@) == Json::Number(sample.len() as int)
                    &&& at(j, "sample_truncated"@) == Json::Bool(truncated || sample.len() > f)
                },
                ObservationEnd::Observer(ObservationOutcome::Eof { pending_bytes, .. }) => at(j, "pending_bytes"@)
                    == Json::Number(pending_bytes as int),
                _ => j == Json::Null,
            }
        }),
{
    lemma_diagnostic_keys();
    reveal_with_fuel(key_unused, 8);
    match end {
        ObservationEnd::Observer(ObservationOutcome::Disconnected { reason_code, description, language_tag }) => {
            let q = disconnect_pairs(reason_code, description, language_tag, f);
            assert(description.take(description.len() as int) =~= description);
            assert(language_tag.take(language_tag.len() as int) =~= language_tag);
            lemma_object_at(q, 0);
            lemma_object_at(q, 1);
            lemma_object_at(q, 2);
            lemma_object_at(q, 3);
            lemma_object_at(q, 4);
        },
        ObservationEnd::Observer(ObservationOutcome::UnexpectedInput { sample, truncated }) => {
            let q = seq![
                ("sample"@, Json::Str(prefix_text(sample, f))),
                ("sample_hex"@, Json::Str(prefix_hex(sample, f))),
                ("sample_len"@, Json::Number(sample.len() as int)),
                ("sample_truncated"@, Json::Bool(truncated || sample.len() > f)),
            ];
            assert(sample.take(sample.len() as int) =~= sample);
            lemma_object_at(q, 0);
            lemma_object_at(q, 1);
            lemma_object_at(q, 2);
            lemma_object_at(q, 3);
        },
        ObservationEnd::Observer(ObservationOutcome::Eof { pending_bytes, .. }) => {
            let q = seq![("pending_bytes"@, Json::Number(pending_bytes as int))];
            lemma_object_at(q, 0);
        },
        _ => {},
    }
}

} // verus!
