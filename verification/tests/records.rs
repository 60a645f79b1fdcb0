//! JSON, records, buffers, channel opening and reports on known values.

use tatami_fuzz::channel_opening::{credit, gen_action, gen_limits, pick_handle, pick_number, reason};
use tatami_fuzz::digits::{decode_hex, hex_lower};
use tatami_fuzz::handshake::types::{HandshakeOutcome, Phase as HandshakePhase};
use tatami_fuzz::input_buffer::{gen_capacity, gen_op, Model as BufferModel, Reported};
use tatami_fuzz::json_values::{check_text, class_char, class_string, gen_node, MAX_DEPTH, MAX_NODES};
use tatami_fuzz::observation::check::{
    check_key_order, check_overload, check_stamp, check_started, field_is, field_text, gen_event, OVERLOAD_KEYS,
};
use tatami_fuzz::observation::end::{detail_matches, expect_end, gen_end, io_code_of, Detail};
use tatami_fuzz::observation::gen::{Address, IoKind, ObservationEnd, Span};
use tatami_fuzz::observation::record::{expected_millis, hex_prefix, lossy_prefix};
use tatami_fuzz::report_json::{
    check_report_text, code_of_phase, completion, feed_next, gen_source, io_error, walk_keys, OUTCOME_CODES, PHASE_CODES,
};
use tatami_fuzz::state_support::calendar::rfc3339;
use tatami_fuzz::state_support::json_parse::{check_parsed, entries_of, parse, same_or_null, value_is};
use tatami_fuzz::state_support::json_ref::{
    collect_strings, decode_hex_lower, read_strings, scan_strings, serialize, unescape_bytes, unescape_terminal, Node,
};
use tatami_fuzz::state_support::json_serde::to_serde;
use tatami_fuzz::state_support::opening_model::{check_wire_roundtrip, Model};
use tatami_fuzz::state_support::opening_types::{
    AcceptParams, ChannelHandle, Credit, Event, HandleError, LateReply, LocalNumber, OpenError, OpenParams,
    OpeningLimits, Outgoing, PeerNumber, Phase, Violation,
};
use tatami_fuzz::state_support::record_ref::{
    disconnect_name, is_listed, json_text_bound, reason_is_known, truncated_record_bound, within_truncated_bound,
    FieldBounds, EVENT_NAMES, TRUNCATED_FIXED_BOUND,
};
use tatami_fuzz::tcp_support::types::InputOverflow;
use tatami_fuzz::tcp_support::{filler, Cursor};
use tatami_fuzz::text::lossy_string;
use tatami_fuzz::wire_core::messages_ref::{RefChannelOpen, RefChannelOpenConfirmation, RefChannelOpenFailure};

fn text(s: &str) -> Node {
    Node::Str(s.to_string())
}

fn object(fields: Vec<(&str, Node)>) -> Node {
    Node::Object(fields.into_iter().map(|(k, v)| (k.to_string(), v)).collect())
}

#[test]
fn json_is_written_as_serde_writes_it() {
    let node = object(vec![
        ("a", Node::UInt(u64::MAX)),
        ("b", Node::Int(-7)),
        ("c", Node::Array(vec![Node::Null, Node::Bool(true), text("x\n\"\\\u{1}\u{7f}é")])),
        ("d", object(vec![])),
    ]);
    let written = serialize(&node);
    assert_eq!(
        written,
        "{\"a\":18446744073709551615,\"b\":-7,\"c\":[null,true,\"x\\n\\\"\\\\\\u0001\u{7f}é\"],\"d\":{}}"
    );
    let value = to_serde(&node);
    assert_eq!(serde_json::from_str::<serde_json::Value>(&written).unwrap(), value);
    assert_eq!(serde_json::to_string(&value).unwrap(), written);
    assert_eq!(node.count(), 8);
    let mut strings = Vec::new();
    collect_strings(&node, &mut strings);
    assert_eq!(scan_strings(&written), strings);
    assert_eq!(read_strings("\"open"), None);
}

#[test]
fn generated_trees_stay_small_and_round_trip() {
    for seed in 0..40 {
        let data = filler(600, seed);
        let mut cur = Cursor::new(&data);
        let mut budget = MAX_NODES;
        let mut raws = Vec::new();
        let node = gen_node(&mut cur, 0, &mut budget, &mut raws);
        assert!(node.count() <= MAX_NODES + 1);
        assert!(node.depth() <= MAX_DEPTH + 1);
        let written = serialize(&node);
        let parsed: serde_json::Value = serde_json::from_str(&written).unwrap();
        assert_eq!(parsed, to_serde(&node));
        let mut strings = Vec::new();
        collect_strings(&node, &mut strings);
        assert_eq!(scan_strings(&written), strings);
        assert!(check_parsed(&node, &written));
    }
}

#[test]
fn terminal_text_is_unescaped() {
    assert_eq!(unescape_terminal("a\\x1b\\\\b", false), b"a\x1b\\b");
    assert_eq!(unescape_terminal("\\\"", true), b"\"");
    assert_eq!(unescape_terminal(r#"a"\\\x0a\xFf"#, false), [0x61, 0x22, 0x5c, 0x0a, 0xff]);
    assert_eq!(unescape_terminal(r#"\"b"#, true), [0x22, 0x62]);
    assert_eq!(unescape_bytes(br#"\"b"#, false), None);
    assert_eq!(unescape_bytes(br#"a"b"#, true), None);
    assert_eq!(unescape_bytes(b"\\q", true), None);
    assert_eq!(unescape_bytes(b"\\x0", true), None);
    let (quoted, json) = ("\"a\\x1b\"", "\"\\\"a\\\\x1b\\\"\"");
    assert!(check_text(b"a\x1b", "a\\x1b", quoted, json));
    assert!(!check_text(b"a\x1b", "a\x1b", quoted, json));
    assert!(!check_text(b"a\x1b", "a\\x1b", quoted, quoted));
    assert_eq!(class_string(&mut Cursor::new(&[65, 65]), 2).chars().count(), 2);
    assert!(class_char(0).len_utf8() <= 4);
}

#[test]
fn hex_round_trips() {
    assert_eq!(hex_lower(&[0, 0x5a, 0xff]), "005aff");
    assert_eq!(decode_hex(b"005aff"), Some(vec![0, 0x5a, 0xff]));
    assert_eq!(decode_hex_lower("005aff"), [0, 0x5a, 0xff]);
    assert_eq!(decode_hex(b"005AFF"), None);
    assert_eq!(decode_hex(b"0"), None);
    assert_eq!(hex_prefix(&[1, 2, 3], 2), "0102");
    assert_eq!(lossy_prefix(b"abc", 2), "ab");
    assert_eq!(lossy_string(b"a\xffb"), "a\u{fffd}b");
}

#[test]
fn texts_are_parsed() {
    let tree = object(vec![("b", Node::Array(vec![Node::Null, Node::Int(-2)])), ("a", Node::UInt(u64::MAX))]);
    let read = parse("{\"b\": [null, -2], \"a\": 18446744073709551615}").unwrap();
    assert!(value_is(&read, &tree));
    assert!(value_is(&to_serde(&tree), &tree));
    assert_eq!(entries_of(&read).unwrap().len(), 2);
    assert!(entries_of(&to_serde(&Node::Null)).is_none());
    assert!(parse("[1]").is_none());
    assert!(parse("{\"a\":}").is_none());
    assert!(parse("{\"a\": [{\"b\": 1e400}]}").is_none());
    for number in ["1.5", "1.0", "-0", "-9223372036854775809"] {
        let read = parse(&format!("{{\"a\": {number}}}")).unwrap();
        for n in [Node::UInt(0), Node::UInt(1), Node::Int(i64::MIN), Node::Null] {
            assert!(!value_is(&read["a"], &n), "{number}");
        }
        assert!(same_or_null(Some(&read["a"]), Some(&read["a"])));
        assert!(!same_or_null(Some(&read["a"]), None));
    }
    assert!(value_is(&parse("{\"a\":1,\"a\":2}").unwrap(), &object(vec![("a", Node::UInt(2))])));
    assert!(check_parsed(&Node::Array(vec![Node::Bool(true), text("x")]), " [true, \"\\u0078\"] "));
    assert!(!check_parsed(&Node::Array(vec![]), "[null]"));
    assert!(!check_parsed(&Node::Null, "1.5"));
    assert!(!check_parsed(&Node::Null, ""));
}

#[test]
fn values_are_compared_by_meaning() {
    let a = to_serde(&object(vec![("x", Node::UInt(1)), ("y", Node::Null)]));
    assert!(value_is(&a, &object(vec![("y", Node::Null), ("x", Node::Int(1))])));
    assert!(!value_is(&a, &object(vec![("x", Node::UInt(1))])));
    assert!(field_is(&a, "x", Node::UInt(1)));
    assert!(!field_is(&a, "x", Node::Null));
    assert!(field_is(&a, "z", Node::Null));
    assert!(!field_is(&a, "z", Node::UInt(0)));
    assert!(same_or_null(a.get("y"), a.get("z")));
    assert!(!same_or_null(a.get("x"), a.get("y")));
    assert!(same_or_null(None, None));
    assert_eq!(field_text(&a, "x"), None);
    assert_eq!(field_text(&to_serde(&object(vec![("t", text("v"))])), "t"), Some("v"));
}

#[test]
fn record_vocabulary() {
    assert_eq!(disconnect_name(11), Some("SSH_DISCONNECT_BY_APPLICATION"));
    assert_eq!(disconnect_name(0), None);
    assert!(is_listed("connection_observation", &EVENT_NAMES));
    assert!(!is_listed("observation", &EVENT_NAMES));
    assert!(!reason_is_known("nonsense"));
    assert_eq!(json_text_bound(10), 60);
    let b = FieldBounds::deployment(0, 0, 0);
    let bound = truncated_record_bound(&b);
    assert!(bound >= TRUNCATED_FIXED_BOUND);
    assert!(within_truncated_bound(bound, &b));
    assert!(!within_truncated_bound(bound + 1, &b));
}

#[test]
fn records_of_a_listener() {
    let rec = |extra: Vec<(&'static str, Node)>, event: &str| {
        let mut fields = vec![
            ("schema", Node::UInt(1)),
            ("event", text(event)),
            ("time", text("2024-02-29T00:00:00.000Z")),
        ];
        fields.extend(extra);
        object(fields)
    };
    let over = rec(
        vec![("dropped_since_last", Node::UInt(3)), ("total_dropped", Node::UInt(9))],
        "overload",
    );
    let written = serialize(&over);
    assert!(check_overload(&written, 3, 9));
    assert!(!check_overload(&written, 3, 8));
    assert!(check_key_order(&written, &OVERLOAD_KEYS));
    let started = rec(vec![("bound", text("127.0.0.1:22"))], "listener_started");
    let written = serialize(&started);
    assert!(check_started(&written, "127.0.0.1:22"));
    assert!(!check_started(&written, "127.0.0.1:23"));
    assert!(check_stamp("1970-01-01T00:00:01.005Z", Span { secs: 1, nanos: 5_999_999 }));
    assert!(!check_stamp("1970-01-01T00:00:01.006Z", Span { secs: 1, nanos: 5_999_999 }));
    assert_eq!(rfc3339(1, 5), "1970-01-01T00:00:01.005Z");
    assert_eq!(expected_millis(Span { secs: 2, nanos: 1_999_999 }), 2001);
    assert_eq!(expected_millis(Span { secs: u64::MAX, nanos: 0 }), u64::MAX);
}

#[test]
fn ends_are_named() {
    let e = expect_end(&ObservationEnd::TimedOut);
    assert_eq!(e.outcome, "timeout");
    assert!(detail_matches("abc", &Detail::Prefix("ab")));
    assert!(detail_matches("abc", &Detail::Suffix("bc")));
    assert!(detail_matches("abc", &Detail::Exact("abc".to_string())));
    assert!(!detail_matches("abc", &Detail::Suffix("ab")));
    assert_ne!(io_code_of(IoKind::BrokenPipe), io_code_of(IoKind::TimedOut));
    for seed in 0..40 {
        let data = filler(200, seed);
        let (end, want) = gen_end(&mut Cursor::new(&data));
        assert_eq!(expect_end(&end).outcome, want.outcome);
        assert_eq!(expect_end(&end).reason, want.reason);
        if let Some(r) = &want.reason {
            assert!(reason_is_known(r), "{r}");
        }
        let (_, enc) = gen_event(&data);
        assert!(enc.max_field_bytes <= enc.max_record_bytes || enc.max_record_bytes < 65536);
    }
}

#[test]
fn reports_are_coded() {
    for sel in 0..=255u8 {
        let c = completion(sel, HandshakePhase::EcdhReply);
        assert!(OUTCOME_CODES.contains(&c.code()));
        io_error(sel);
    }
    assert!(PHASE_CODES.contains(&code_of_phase(HandshakePhase::Service)));
    assert!(matches!(
        completion(2, HandshakePhase::Service),
        tatami_fuzz::report_json::Completion::Ended(HandshakeOutcome::SignatureInvalid)
    ));
    assert!(walk_keys(&to_serde(&Node::Null)));
    assert!(!walk_keys(&to_serde(&object(vec![("no_such_key", Node::Null)]))));
    assert!(walk_keys(&parse("{\"host\": [1.5, {\"port\": 2.5}]}").unwrap()));
    assert!(!walk_keys(&parse("{\"host\": [1.5, {\"portal\": 2.5}]}").unwrap()));
    let data = filler(900, 8);
    assert!(!gen_source(&data).host.is_empty());
    let s = gen_source(&[4, 7, 1, 2]);
    assert_eq!(s.peer, Address { v6: false, octets: vec![192, 0, 2, 4], port: 0x0102, scope: 0 });
    assert_eq!(s.local, Address { v6: false, octets: vec![127, 0, 0, 1], port: 40_004, scope: 0 });
    assert_eq!(s.elapsed_ms, Some(0x0102 * 7));
    let s = gen_source(&[5, 0, 1, 2]);
    assert!(s.peer.v6 && s.peer.octets[15] == 1 && s.elapsed_ms.is_none());
    assert_eq!((feed_next(200, 300), feed_next(50, 300), feed_next(200, 3)), (97, 50, 3));
    assert!(!check_report_text("", "completed"));
}

#[test]
fn buffers_refuse_what_does_not_fit() {
    let mut m = BufferModel::new(4);
    assert_eq!(m.push(b"abc"), Ok(()));
    assert_eq!(m.room(), 1);
    assert_eq!(m.push(b"de"), Err(InputOverflow { capacity: 4, pending: 3, offered: 2 }));
    m.consume(2);
    let seen = |contents: &[u8]| Reported {
        contents: contents.to_vec(),
        len: contents.len(),
        is_empty: contents.is_empty(),
        capacity: 4,
        room: 4 - contents.len(),
    };
    assert!(m.check(&seen(b"c")));
    assert!(!m.check(&seen(b"d")));
    m.clear();
    assert_eq!(m.len(), 0);
    let data = filler(50, 1);
    let mut cur = Cursor::new(&data);
    assert!(gen_capacity(&mut cur) <= 8192);
    gen_op(&mut cur, &m, 0);
}

fn limits() -> OpeningLimits {
    OpeningLimits { max_pending_outgoing: 2, max_pending_incoming: 1, max_channels: 3, max_tombstones: 1 }
}

const C: Credit = Credit { initial_window_size: 10, maximum_packet_size: 20 };

fn params() -> OpenParams {
    OpenParams { channel_type: b"session".to_vec(), local: C, type_specific: vec![] }
}

#[test]
fn opening_is_confirmed_refused_and_cancelled() {
    let mut m = Model::new(limits());
    let (a, b) = (ChannelHandle(0), ChannelHandle(1));
    assert!(m.open(&params(), &Ok(a)));
    assert!(m.open(&params(), &Ok(b)));
    assert!(m.open(&params(), &Err(OpenError::TooManyPendingOutgoing)));
    assert_eq!(m.phase(a), Some(Phase::PendingOutgoing));
    assert!(m.check_outgoing(&Some(Outgoing::Open {
        channel_type: b"session".to_vec(),
        sender_channel: LocalNumber(0),
        local: C,
        type_specific: vec![],
    })));
    let yes = RefChannelOpenConfirmation {
        recipient_channel: 0,
        sender_channel: 7,
        initial_window_size: 1,
        maximum_packet_size: 2,
        type_specific: b"t",
    };
    let peer = Credit { initial_window_size: 1, maximum_packet_size: 2 };
    assert!(m.peer_confirm(
        &yes,
        &Ok(Event::Established {
            handle: a,
            channel_type: b"session".to_vec(),
            local_number: LocalNumber(0),
            peer_number: PeerNumber(7),
            local: C,
            peer,
            peer_type_specific: b"t".to_vec(),
        })
    ));
    assert!(m.peer_confirm(&yes, &Err(Violation::DuplicateReply { local_number: LocalNumber(0) })));
    assert!(m.cancel(a, &Err(HandleError::WrongPhase { actual: Phase::Established })));
    assert!(m.cancel(b, &Ok(())));
    assert!(m.cancel(b, &Err(HandleError::Stale)));
    let no = RefChannelOpenFailure { recipient_channel: 1, reason_code: 2, description: b"d", language_tag: b"" };
    assert!(m.peer_fail(
        &no,
        &Ok(Event::LateReply { local_number: LocalNumber(1), reply: LateReply::Refused { reason_code: 2 } })
    ));
    let unknown = RefChannelOpenFailure { recipient_channel: 9, ..no };
    assert!(m.peer_fail(&unknown, &Err(Violation::UnknownRecipient { recipient: 9 })));
    assert_eq!(m.established_numbers(), [0]);
    assert!(m.transport_lost(&vec![Event::TransportLost { handle: a, phase: Phase::Established }]));
    assert_eq!(m.live_count(), 0);
}

#[test]
fn incoming_opens_are_limited() {
    let mut m = Model::new(limits());
    let open = |n: u32| RefChannelOpen {
        channel_type: b"x11",
        sender_channel: n,
        initial_window_size: 3,
        maximum_packet_size: 4,
        type_specific: b"",
    };
    let peer = Credit { initial_window_size: 3, maximum_packet_size: 4 };
    let h = ChannelHandle(0);
    assert!(m.peer_open(
        &open(5),
        &Ok(Event::IncomingOpen {
            handle: h,
            channel_type: b"x11".to_vec(),
            peer_number: PeerNumber(5),
            peer,
            type_specific: vec![],
        })
    ));
    assert!(m.peer_open(&open(5), &Err(Violation::DuplicatePeerNumber { peer_number: PeerNumber(5) })));
    assert!(m.peer_open(
        &open(6),
        &Ok(Event::IncomingRefusedByLimit { peer_number: PeerNumber(6), channel_type: b"x11".to_vec() })
    ));
    assert!(m.refuse(h, 1, b"no", &Ok(())));
    assert!(m.accept(h, &AcceptParams { local: C, type_specific: vec![] }, &Err(HandleError::Stale)));
}

#[test]
fn messages_are_written_for_the_wire() {
    let out = Outgoing::OpenFailure {
        recipient_channel: PeerNumber(1),
        reason_code: 4,
        description: b"d".to_vec(),
        language_tag: vec![],
    };
    let bytes = [92, 0, 0, 0, 1, 0, 0, 0, 4, 0, 0, 0, 1, b'd', 0, 0, 0, 0];
    assert!(check_wire_roundtrip(&out, &bytes));
    assert!(!check_wire_roundtrip(&out, &bytes[..17]));
}

#[test]
fn actions_are_drawn() {
    let mut m = Model::new(gen_limits(3, 7, limits()));
    m.open(&params(), &Ok(ChannelHandle(0)));
    let data = filler(80, 6);
    let mut cur = Cursor::new(&data);
    gen_action(&m, &mut cur);
    pick_number(&m, 1, &mut cur);
    assert!(pick_handle(&m, 0).is_some());
    credit(0, &mut cur);
    reason(0, &mut cur);
}
