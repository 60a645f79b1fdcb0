//! What is said of whole records, reports and outputs.

use tatami_fuzz::handshake::model::{model, Expect};
use tatami_fuzz::handshake::report::{check_outcome, read_numbers, HandshakeReport, HostKeySummary};
use tatami_fuzz::handshake::scenario::gen_scenario;
use tatami_fuzz::handshake::types::{HandshakeOutcome, Phase};
use tatami_fuzz::handshake::wire::frame;
use tatami_fuzz::kex_support::crypto::{padding_len, DirKeys, Gcm};
use tatami_fuzz::kex_support::lists::Lists;
use tatami_fuzz::kex_support::negotiate_ref::{negotiate, strict, StrictKex};
use tatami_fuzz::key_blobs::fingerprint_text;
use tatami_fuzz::observation::check::{
    check_observation, check_stopped, Encoder, Observation, StopReason, Summary, OBSERVATION_KEYS,
};
use tatami_fuzz::observation::gen::{gen_proposal, Address, ObservationEnd, Span};
use tatami_fuzz::observation::record::{
    expected_diagnostics, expected_identification, expected_message, expected_proposal,
};
use tatami_fuzz::report_json::{check_report, completion, Report, ALWAYS_PRESENT, OPTIONAL_KEYS};
use tatami_fuzz::state_support::calendar::rfc3339;
use tatami_fuzz::state_support::json_ref::{serialize, Node};
use tatami_fuzz::state_support::opening_model::Model as OpeningModel;
use tatami_fuzz::state_support::opening_types::{ChannelHandle, Credit, OpenParams, OpeningLimits};
use tatami_fuzz::tcp_support::msg_ref::{check_step, model_step, Model as PacketModel, ModelStep, Observed};
use tatami_fuzz::tcp_support::types::{
    InitialError, InitialLimits, LineTerminator, ObservationOutcome, ObserverStage, OwnedIdentification,
    SkippedMessage, VersionSupport,
};
use tatami_fuzz::tcp_support::{filler, Cursor};

fn text(s: &str) -> Node {
    Node::Str(s.to_string())
}

fn object(fields: Vec<(&str, Node)>) -> Node {
    Node::Object(fields.into_iter().map(|(k, v)| (k.to_string(), v)).collect())
}

fn with(rec: &Node, key: &str, value: Node) -> Node {
    match rec {
        Node::Object(fields) => {
            let mut out: Vec<(String, Node)> = Vec::new();
            let mut value = Some(value);
            for (k, v) in fields {
                if k == key {
                    out.push((k.clone(), value.take().unwrap()));
                } else {
                    out.push((k.clone(), copy(v)));
                }
            }
            Node::Object(out)
        }
        _ => unreachable!(),
    }
}

fn copy(n: &Node) -> Node {
    match n {
        Node::Null => Node::Null,
        Node::Bool(b) => Node::Bool(*b),
        Node::UInt(u) => Node::UInt(*u),
        Node::Int(i) => Node::Int(*i),
        Node::Str(s) => Node::Str(s.clone()),
        Node::Array(v) => Node::Array(v.iter().map(copy).collect()),
        Node::Object(v) => Node::Object(v.iter().map(|(k, x)| (k.clone(), copy(x))).collect()),
    }
}

fn address(last: u8) -> Address {
    Address { v6: false, octets: vec![127, 0, 0, last], port: 22, scope: 0 }
}

#[test]
fn identifications_are_recorded() {
    let i = OwnedIdentification {
        line: b"SSH-1.99-abc d".to_vec(),
        terminator: LineTerminator::Lf,
        protocol_version: "1.99".to_string(),
        software_version: "abc".to_string(),
        comments: Some(b"d".to_vec()),
        support: VersionSupport::Ssh2Compatibility,
    };
    assert_eq!(
        serialize(&expected_identification(&i, 3)),
        "{\"line\":\"SSH-1.99-abc d\",\"line_hex\":\"535348\",\"protocol_version\":\"1.99\",\
         \"software_version\":\"abc\",\"comments\":\"d\",\"terminator\":\"lf\",\
         \"anomalies\":[\"lf_only_terminator\",\"compatibility_version_1_99\"],\"line_hex_truncated\":true}"
    );
    assert!(!serialize(&expected_identification(&i, 14)).contains("truncated"));
}

#[test]
fn messages_are_recorded() {
    let m = SkippedMessage::Debug { always_display: true, message: b"hello".to_vec(), language_tag: b"en".to_vec() };
    assert_eq!(
        serialize(&expected_message(&m, 2)),
        "{\"type\":\"debug\",\"always_display\":true,\"message\":\"he\",\"message_truncated\":true,\"language_tag\":\"en\"}"
    );
    assert_eq!(
        serialize(&expected_message(&SkippedMessage::Ignored { data_len: 9 }, 2)),
        "{\"type\":\"ignore\",\"data_len\":9}"
    );
    assert_eq!(
        serialize(&expected_message(&SkippedMessage::Unimplemented { sequence_number: 4 }, 2)),
        "{\"type\":\"unimplemented\",\"sequence_number\":4}"
    );
}

#[test]
fn diagnostics_are_recorded() {
    let gone = ObservationEnd::Observer(ObservationOutcome::Disconnected {
        reason_code: 2,
        description: b"bye".to_vec(),
        language_tag: Vec::new(),
    });
    assert_eq!(
        serialize(&expected_diagnostics(&gone, 8)),
        "{\"reason_code\":2,\"reason_name\":\"SSH_DISCONNECT_PROTOCOL_ERROR\",\"description\":\"bye\",\
         \"description_truncated\":false,\"language_tag\":\"\"}"
    );
    let odd = ObservationEnd::Observer(ObservationOutcome::UnexpectedInput { sample: vec![71, 255], truncated: false });
    assert_eq!(
        serialize(&expected_diagnostics(&odd, 1)),
        "{\"sample\":\"G\",\"sample_hex\":\"47\",\"sample_len\":2,\"sample_truncated\":true}"
    );
    assert_eq!(serialize(&expected_diagnostics(&ObservationEnd::TimedOut, 1)), "null");
}

fn observation() -> Observation {
    Observation {
        id: 5,
        local: address(1),
        peer: address(2),
        accepted: Span { secs: 1, nanos: 5_000_000 },
        elapsed: Span { secs: 2, nanos: 0 },
        bytes_read: 10,
        bytes_written: 20,
        server_identification: b"SSH-2.0-s".to_vec(),
        client_identification: None,
        messages: vec![SkippedMessage::Ignored { data_len: 1 }],
        proposal: Some(gen_proposal(&mut Cursor::new(&filler(400, 6)))),
        stage: ObserverStage::InitialPackets,
        end: ObservationEnd::TimedOut,
    }
}

fn record(o: &Observation, truncated: bool) -> Node {
    object(vec![
        ("schema", Node::UInt(1)),
        ("event", text("connection_observation")),
        ("time", text("2024-02-29T00:00:00.000Z")),
        ("id", Node::UInt(5)),
        ("transport", text("tcp")),
        ("local_addr", text("127.0.0.1:22")),
        ("peer_addr", text("127.0.0.2:22")),
        ("accepted_at", Node::Str(rfc3339(1, 5))),
        ("elapsed_ms", Node::UInt(2000)),
        ("bytes_read", Node::UInt(10)),
        ("bytes_written", Node::UInt(20)),
        ("server_identification", text("SSH-2.0-s")),
        ("client_identification", Node::Null),
        (
            "messages",
            Node::Array(if truncated { vec![] } else { o.messages.iter().map(|m| expected_message(m, 16)).collect() }),
        ),
        (
            "proposal",
            match &o.proposal {
                Some(p) if !truncated => expected_proposal(p),
                _ => Node::Null,
            },
        ),
        ("stage", text("initial_packets")),
        ("outcome", text("timeout")),
        ("reason", text("connection_deadline")),
        ("detail", text("connection deadline passed: 2 s")),
        ("diagnostics", Node::Null),
        ("key_exchange_completed", Node::Bool(false)),
        ("peer_authenticated", Node::Bool(false)),
        ("record_truncated", Node::Bool(truncated)),
    ])
}

#[test]
fn observation_records_are_judged() {
    let o = observation();
    let enc = Encoder { max_record_bytes: 65_536, max_field_bytes: 16 };
    let check = |rec: &Node, enc: Encoder, full: usize| {
        check_observation(&serialize(rec), &o, "127.0.0.1:22", "127.0.0.2:22", enc, full)
    };
    let whole = record(&o, false);
    let full = serialize(&whole).len();
    assert!(check(&whole, enc, full));
    for (key, wrong) in [
        ("schema", Node::UInt(2)),
        ("event", text("overload")),
        ("time", text("yesterday")),
        ("id", Node::UInt(6)),
        ("transport", text("udp")),
        ("peer_addr", text("127.0.0.3:22")),
        ("accepted_at", Node::Str(rfc3339(1, 6))),
        ("elapsed_ms", Node::UInt(2001)),
        ("stage", text("finished")),
        ("outcome", text("shutdown")),
        ("reason", Node::Null),
        ("detail", text("late")),
        ("diagnostics", text("")),
        ("key_exchange_completed", Node::Bool(true)),
        ("peer_authenticated", Node::Bool(true)),
        ("messages", Node::Array(vec![])),
        ("proposal", Node::Null),
        ("record_truncated", Node::Bool(true)),
    ] {
        let rec = with(&whole, key, wrong);
        assert!(!check(&rec, enc, serialize(&rec).len()), "{key}");
    }
    let small = Encoder { max_record_bytes: full - 1, max_field_bytes: 16 };
    assert!(!check(&whole, small, full));
    let cut = record(&o, true);
    assert!(check(&cut, small, full));
    assert!(!check(&cut, enc, full));
    assert_eq!(OBSERVATION_KEYS.len(), 23);
}

#[test]
fn stop_records_are_judged() {
    let s = Summary {
        bound: address(1),
        accepted: 1,
        observed: 2,
        dropped_at_capacity: 3,
        records_dropped: 4,
        workers_abandoned: 5,
        reason: StopReason::SinkFailed,
        error: Some("full".to_string()),
        elapsed: Span { secs: 0, nanos: 7_000_000 },
    };
    let rec = object(vec![
        ("schema", Node::UInt(1)),
        ("event", text("listener_stopped")),
        ("time", text("2024-02-29T00:00:00.000Z")),
        ("bound", text("127.0.0.1:22")),
        ("reason", text("sink_failed")),
        ("accepted", Node::UInt(1)),
        ("observed", Node::UInt(2)),
        ("dropped_at_capacity", Node::UInt(3)),
        ("records_dropped", Node::UInt(4)),
        ("workers_abandoned", Node::UInt(5)),
        ("elapsed_ms", Node::UInt(7)),
        ("error", text("full")),
    ]);
    let check = |rec: &Node| check_stopped(&serialize(rec), "127.0.0.1:22", &s);
    assert!(check(&rec));
    assert!(!check(&with(&rec, "error", Node::Null)));
    assert!(!check(&with(&rec, "reason", text("accept_failed"))));
    assert!(!check(&with(&rec, "workers_abandoned", Node::UInt(4))));
    assert!(!check_stopped("{}", "127.0.0.1:22", &s));
}

#[test]
fn bare_reports_are_judged() {
    let r = Report {
        host: "h".to_string(),
        port: 22,
        pin: [3; 32],
        peer: None,
        handshake: None,
        completion: completion(2, Phase::Service),
        elapsed_ms: Some(4),
    };
    let mut fields: Vec<(&str, Node)> = Vec::new();
    for k in ALWAYS_PRESENT.iter().chain(OPTIONAL_KEYS.iter()) {
        let v = match *k {
            "schema" => Node::UInt(1),
            "event" => text("tcp_handshake"),
            "target" => object(vec![("host", text("h")), ("port", Node::UInt(22))]),
            "pinned_fingerprint_sha256" => Node::Str(fingerprint_text(&[3; 32])),
            "server_prelude_lines" | "skipped_messages" => Node::Array(vec![]),
            "trust_policy" => text("pinned_fingerprint"),
            "outcome" => text("the signature is invalid"),
            "outcome_code" => text("signature_invalid"),
            "elapsed_ms" => Node::UInt(4),
            "protected_packets_sent" | "protected_packets_received" => Node::UInt(0),
            k if ALWAYS_PRESENT.contains(&k) => Node::Bool(false),
            _ => Node::Null,
        };
        fields.push((k, v));
    }
    let rec = object(fields);
    assert!(check_report(&serialize(&rec), &r));
    for (key, wrong) in [
        ("outcome_code", text("completed")),
        ("outcome", text("")),
        ("target", object(vec![("host", text("i")), ("port", Node::UInt(22))])),
        ("user_authenticated", Node::Bool(true)),
        ("rekey_supported", Node::Bool(true)),
        ("peer", text("127.0.0.1:22")),
        ("elapsed_ms", Node::Null),
        ("phase", text("service")),
        ("skipped_messages", Node::Array(vec![Node::Null])),
        ("negotiation_error_code", text("no_common_kex")),
        ("target", object(vec![("host", text("h")), ("port", Node::UInt(22)), ("secret", Node::Null)])),
    ] {
        assert!(!check_report(&serialize(&with(&rec, key, wrong)), &r), "{key}");
    }
    let written = serialize(&rec);
    let real = written.replace("\"protected_packets_received\":0", "\"protected_packets_received\":1.5");
    assert_ne!(real, written);
    assert!(check_report(&real, &r));
    let real = written.replace("\"protected_packets_sent\":0", "\"protected_packets_sent\":0.0");
    assert_ne!(real, written);
    assert!(!check_report(&real, &r));
    assert!(!check_report("[]", &r));
    assert!(!check_report("", &r));
}

#[test]
fn handshake_reports_are_judged() {
    let off = StrictKex {
        offered_pre_standard: false,
        offered_standard: false,
        server_pre_standard: false,
        server_standard: false,
        negotiated: false,
    };
    let h = HandshakeReport {
        user_authenticated: false,
        client_identification: b"SSH-2.0-x".to_vec(),
        phase: Phase::EcdhReply,
        outcome: None,
        server_prelude_lines: vec![b"hello".to_vec()],
        server_identification: None,
        kexinit_was_first_packet: Some(true),
        strict_kex: off,
        selected: None,
        server_advertised: false,
        server_guess_discarded: false,
        skipped_messages: vec![],
        signature_valid: Some(false),
        signature_error: None,
        trust: None,
        newkeys_sent: false,
        newkeys_received: true,
        protected_packets_sent: 2,
        protected_packets_received: 3,
        send_sequence: 0,
        receive_sequence: 0,
        host_key: Some(HostKeySummary { algorithm: "ssh-ed25519".to_string(), blob_len: 51, fingerprint: [1; 32] }),
        ext_info: None,
        service_accepted: None,
        server_disconnect: None,
    };
    let mut r = Report {
        host: "h".to_string(),
        port: 22,
        pin: [3; 32],
        peer: Some("127.0.0.1:22".to_string()),
        handshake: Some(h),
        completion: completion(2, Phase::Service),
        elapsed_ms: None,
    };
    let mut fields: Vec<(&str, Node)> = Vec::new();
    for k in ALWAYS_PRESENT.iter().chain(OPTIONAL_KEYS.iter()) {
        let v = match *k {
            "schema" => Node::UInt(1),
            "event" => text("tcp_handshake"),
            "target" => object(vec![("host", text("h")), ("port", Node::UInt(22))]),
            "pinned_fingerprint_sha256" => Node::Str(fingerprint_text(&[3; 32])),
            "server_prelude_lines" => Node::Array(vec![text("hello")]),
            "skipped_messages" => Node::Array(vec![]),
            "trust_policy" => text("pinned_fingerprint"),
            "outcome" => text("the signature is invalid"),
            "outcome_code" => text("signature_invalid"),
            "protected_packets_sent" => Node::UInt(2),
            "protected_packets_received" => Node::UInt(3),
            "newkeys_received" | "kexinit_was_first_packet" => Node::Bool(true),
            "peer" => text("127.0.0.1:22"),
            "local" => text("127.0.0.1:40000"),
            "phase" => text("kex_ecdh_reply"),
            "advertised" => object(vec![("client", object(vec![])), ("server", Node::Null)]),
            "strict_kex" => object(vec![("negotiated", Node::Bool(false))]),
            "host_key" => object(vec![("fingerprint_sha256", text("SHA256:f")), ("blob_len", Node::UInt(51))]),
            "fingerprint_sha256" => text("SHA256:f"),
            k if ALWAYS_PRESENT.contains(&k) => Node::Bool(false),
            _ => Node::Null,
        };
        fields.push((k, v));
    }
    let rec = object(fields);
    let written = serialize(&rec);
    assert!(check_report(&written, &r));
    for (key, wrong) in [
        ("fingerprint_sha256", text("SHA256:g")),
        ("fingerprint_sha256", Node::Null),
        ("host_key", object(vec![("fingerprint_sha256", text("SHA256:f")), ("blob_len", Node::UInt(50))])),
        ("advertised", object(vec![("client", Node::Null)])),
        ("strict_kex", Node::Null),
        ("server_prelude_lines", Node::Array(vec![])),
        ("key_exchange_completed", Node::Bool(true)),
        ("phase", text("service")),
    ] {
        assert!(!check_report(&serialize(&with(&rec, key, wrong)), &r), "{key}");
    }
    let real = written.replace("\"negotiated\":false", "\"negotiated\":[0.25,1e300]");
    assert_ne!(real, written);
    assert!(check_report(&real, &r));
    assert!(!check_report(&real.replace("0.25", "{\"secret\":0.25}"), &r));
    let reals = written.replace("\"SHA256:f\"", "1.5");
    assert!(check_report(&reals, &r));
    assert!(!check_report(&reals.replacen("1.5", "2.5", 1), &r));
    if let Some(h) = r.handshake.as_mut() {
        h.signature_valid = Some(true);
    }
    assert!(!check_report(&written, &r));
}

#[test]
fn outcomes_are_judged() {
    let ours = Lists::tatami_client([0; 16], true, true);
    for seed in 0..30 {
        let sc = gen_scenario(&filler(1500, seed));
        let n = negotiate(&ours, &sc.server);
        let m = model(&sc, n, strict(&ours, &sc.server));
        assert_eq!(check_outcome(&None, &m), m.outcome.is_none());
        match &m.outcome {
            Some(Expect::Exact(HandshakeOutcome::SignatureInvalid)) => {
                assert!(check_outcome(&Some(HandshakeOutcome::SignatureInvalid), &m));
            }
            Some(Expect::Strict(k)) => {
                let detail = format!("the {} came", String::from_utf8_lossy(&k.text()));
                assert!(check_outcome(&Some(HandshakeOutcome::StrictKexViolation { detail }), &m));
                let detail = String::new();
                assert!(!check_outcome(&Some(HandshakeOutcome::StrictKexViolation { detail }), &m));
            }
            _ => assert!(!check_outcome(&Some(HandshakeOutcome::SignatureInvalid), &m)),
        }
    }
}

#[test]
fn outputs_are_numbered() {
    let mut out = b"SSH-2.0-tatami_0.1.0\r\n".to_vec();
    assert_eq!(read_numbers(&out, &None), Some(vec![]));
    assert_eq!(read_numbers(b"SSH-2.0-x\r\n", &None), None);
    assert_eq!(read_numbers(b"SSH", &None), None);
    out.extend_from_slice(&frame(&[20; 18]));
    assert_eq!(read_numbers(&out, &None), Some(vec![20]));
    out.extend_from_slice(&frame(&[30; 37]));
    out.extend_from_slice(&frame(&[21]));
    assert_eq!(read_numbers(&out, &None), Some(vec![20, 30, 21]));
    let keys = Some(DirKeys { key: [1; 16], iv: [2; 12] });
    let mut gcm = Gcm::new(&[1; 16], &[2; 12]);
    let mut request = vec![5, 0, 0, 0, 12];
    request.extend_from_slice(b"ssh-userauth");
    out.extend_from_slice(&gcm.seal(&request));
    out.extend_from_slice(&gcm.seal(&[1, 0, 0, 0, 11]));
    assert_eq!(read_numbers(&out, &keys), Some(vec![20, 30, 21, 5, 1]));
    assert_eq!(read_numbers(&out, &None), None);
    let last = out.len() - 1;
    out[last] ^= 1;
    assert_eq!(read_numbers(&out, &keys), None);
    let mut short = b"SSH-2.0-tatami_0.1.0\r\n".to_vec();
    short.extend_from_slice(&frame(&[20; 17]));
    assert_eq!(read_numbers(&short, &None), None);
}

#[test]
fn openings_report_their_state() {
    let limits = OpeningLimits { max_pending_outgoing: 2, max_pending_incoming: 1, max_channels: 3, max_tombstones: 1 };
    let mut m = OpeningModel::new(limits);
    assert!(m.check_state(0, 0, 0, &vec![]));
    assert!(!m.check_state(1, 0, 0, &vec![]));
    assert!(m.handles().is_empty());
    assert_eq!(m.next_local(), 0);
    let local = Credit { initial_window_size: 10, maximum_packet_size: 20 };
    let params = OpenParams { channel_type: b"session".to_vec(), local, type_specific: vec![] };
    let h = ChannelHandle(0);
    assert!(m.open(&params, &Ok(h)));
    assert_eq!(m.live_handles().len(), 1);
    assert_eq!(m.pending_out_numbers(), [0]);
    assert_eq!(m.next_local(), 1);
    let phases = vec![m.phase(h)];
    assert!(phases[0].is_some());
    assert!(m.check_state(1, 1, 0, &phases));
    assert!(!m.check_state(1, 0, 0, &phases));
    assert!(!m.check_state(1, 1, 0, &vec![None]));
}

#[test]
fn steps_are_compared() {
    let limits = InitialLimits { max_packet_length: 35_000, max_packets: 2, max_bytes: 1000 };
    let mut m = PacketModel { packets: 0, bytes: 0 };
    let stream = frame(&[2, 0, 0, 0, 1, 9]);
    let step = model_step(&mut m, &stream, &limits);
    let seen = Observed::Skipped { message: SkippedMessage::Ignored { data_len: 1 }, consumed: stream.len() };
    assert!(check_step(Some(&seen), &step));
    assert!(!check_step(None, &step));
    let off = Observed::Skipped { message: SkippedMessage::Ignored { data_len: 1 }, consumed: stream.len() - 1 };
    assert!(!check_step(Some(&off), &step));
    assert!(check_step(None, &ModelStep::NeedMore));
    let over = Observed::Error(InitialError::PacketBudgetExceeded { limit: 2 });
    assert!(!check_step(Some(&over), &ModelStep::NeedMore));
}

#[test]
fn sealed_padding_is_kept() {
    let mut a = Gcm::new(&[1; 16], &[2; 12]);
    let mut b = Gcm::new(&[1; 16], &[2; 12]);
    let n = padding_len(3);
    let sealed = a.seal_with_padding(&[7, 8, 9], &vec![0; n]);
    assert_eq!(sealed, b.seal(&[7, 8, 9]));
    let mut c = Gcm::new(&[1; 16], &[2; 12]);
    let other = c.seal_with_padding(&[7, 8, 9], &vec![1; n]);
    assert_ne!(other, sealed);
    let mut open = Gcm::new(&[1; 16], &[2; 12]);
    assert_eq!(open.open(&other), Some((vec![7, 8, 9], other.len())));
}
