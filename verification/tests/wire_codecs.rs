//! Verdicts on codecs, and samples with their changed forms.

use tatami_fuzz::ext_codecs::{
    check_ext_info_raw, check_mpint_body, check_mpint_raw, gen_ext_case, gen_ext_pair, gen_magnitude, ExtSeen, MpintSeen,
    PairSeen,
};
use tatami_fuzz::kex_codecs::{assemble_kex, check_kex_raw, decode_kex, gen_kex, kex_variants, KexKind, KexMessage};
use tatami_fuzz::wire_core::error::{DecodeError, Field, MessageError};
use tatami_fuzz::wire_core::generate::Source;
use tatami_fuzz::wire_core::kex_ref::{
    assemble_ext_info, ext_info_header, ext_info_pairs, ext_info_validate, ExtInfoError, KnownExtension,
};
use tatami_fuzz::wire_ident::{
    check, check_error_implication, check_parse, expected_class, expected_encode, expected_len, gen_input, patterned,
    Encoded, IdentEncodeError, IdentSyntaxError, Parsed, ProtocolVersionClass,
};
use tatami_fuzz::wire_messages::{
    assemble, check_raw, check_reencode, decode_as, empty_algorithm_lists, MessageKind, Rewritten, WireMessage,
};
use tatami_fuzz::wire_primitives::{
    among, check_name_list, gen_script, probes, EncodeError, ListSeen, Op, ReadModel, ReadValue, ReaderState, WriteModel,
    WriterState,
};
use tatami_fuzz::wire_samples::{apply, gen_channel_type, gen_code, gen_message, gen_mutation, Mutation};

const KINDS: [MessageKind; 8] = [
    MessageKind::KexInit,
    MessageKind::Disconnect,
    MessageKind::Ignore,
    MessageKind::Unimplemented,
    MessageKind::Debug,
    MessageKind::ChannelOpen,
    MessageKind::ChannelOpenConfirmation,
    MessageKind::ChannelOpenFailure,
];

fn seed(n: u8) -> Vec<u8> {
    (0..200u16).map(|i| (i as u8).wrapping_mul(37).wrapping_add(n)).collect()
}

#[test]
fn samples_are_read_back() {
    for sel in 0..8u8 {
        for n in 0..20 {
            let data = seed(n);
            let mut u = Source::new(&data);
            let m = gen_message(sel, &mut u);
            let kind = KINDS[sel as usize];
            let payload = assemble(&m);
            assert_eq!(payload[0], kind.number());
            assert_eq!(decode_as(kind, &payload), Ok(m.clone()));
            assert!(check_raw(kind, &payload, &Ok(m)));
            for other in KINDS {
                if other != kind {
                    let e = MessageError::UnexpectedMessage { expected: other.number(), found: kind.number() };
                    assert_eq!(decode_as(other, &payload), Err(e));
                    assert!(check_raw(other, &payload, &Err(e)));
                    assert!(!check_raw(other, &payload, &Err(MessageError::Empty)));
                }
            }
        }
    }
}

#[test]
fn changed_samples_become_what_they_must() {
    for sel in 0..8u8 {
        for n in 0..40 {
            let data = seed(n);
            let mut u = Source::new(&data);
            let m = gen_message(sel, &mut u);
            let kind = KINDS[sel as usize];
            let tail = matches!(kind, MessageKind::ChannelOpen | MessageKind::ChannelOpenConfirmation);
            let payload = assemble(&m);
            let change = gen_mutation(&mut u, payload.len());
            let changed = apply(&payload, &change);
            let got = decode_as(kind, &changed);
            match change {
                Mutation::Keep => assert_eq!(got, Ok(m)),
                Mutation::Cut(k) if k < payload.len() && !tail => assert!(got.is_err()),
                Mutation::Flip { index: 0, xor } => assert_eq!(
                    got,
                    Err(MessageError::UnexpectedMessage { expected: kind.number(), found: kind.number() ^ xor })
                ),
                Mutation::Append(extra) if !tail => {
                    assert_eq!(got, Err(MessageError::TrailingBytes { count: extra.len() }))
                }
                Mutation::Append(_) => assert!(got.is_ok()),
                _ => {}
            }
        }
    }
    assert_eq!(apply(b"abc", &Mutation::Cut(1)), b"a");
    assert_eq!(apply(b"abc", &Mutation::Flip { index: 2, xor: 1 }), b"abb");
}

#[test]
fn cut_tails_are_shorter_tails() {
    let m = WireMessage::ChannelOpenConfirmation {
        recipient_channel: 1,
        sender_channel: 2,
        initial_window_size: 3,
        maximum_packet_size: 4,
        type_specific: b"tail".to_vec(),
    };
    let p = assemble(&m);
    assert_eq!(p.len(), 21);
    assert!(decode_as(MessageKind::ChannelOpenConfirmation, &p[..16]).is_err());
    match decode_as(MessageKind::ChannelOpenConfirmation, &p[..19]) {
        Ok(WireMessage::ChannelOpenConfirmation { type_specific, .. }) => assert_eq!(type_specific, b"ta"),
        other => panic!("{other:?}"),
    }
}

#[test]
fn booleans_are_rewritten_canonically() {
    let payload = [4, 7, 0, 0, 0, 1, b'm', 0, 0, 0, 0];
    let mut want = payload.to_vec();
    want[1] = 1;
    let good = Rewritten { out: want.clone(), size: Some(11), short_refused: true };
    assert!(check_reencode(&good, MessageKind::Debug, &payload));
    let raw = Rewritten { out: payload.to_vec(), size: Some(11), short_refused: true };
    assert!(!check_reencode(&raw, MessageKind::Debug, &payload));
    let silent = Rewritten { out: want, size: Some(11), short_refused: false };
    assert!(!check_reencode(&silent, MessageKind::Debug, &payload));
}

#[test]
fn empty_required_lists_are_named() {
    let mut lists = vec![vec![b"a".to_vec()]; 10];
    assert_eq!(empty_algorithm_lists(&lists), vec![]);
    lists[0].clear();
    lists[7].clear();
    lists[9].clear();
    let got: Vec<&str> = empty_algorithm_lists(&lists).iter().map(|f| f.name()).collect();
    assert_eq!(got, ["kex_algorithms", "compression_algorithms_server_to_client"]);
}

#[test]
fn codes_and_types_are_drawn() {
    assert_eq!(gen_code(&mut Source::new(&[1, 25]), 20), 25 % 21);
    assert_eq!(gen_code(&mut Source::new(&[0, 1, 2, 3, 4]), 20), 0x0403_0201);
    assert_eq!(gen_channel_type(&mut Source::new(&[0, 3])), b"direct-tcpip");
    assert_eq!(gen_channel_type(&mut Source::new(&[2, 2, 9, 9])), [9, 9]);
}

#[test]
fn key_exchange_samples_are_read_back() {
    let kinds =
        [KexKind::EcdhInit, KexKind::EcdhReply, KexKind::NewKeys, KexKind::ServiceRequest, KexKind::ServiceAccept];
    for kind in kinds {
        for n in 0..20 {
            let data = seed(n);
            let m = gen_kex(kind, &mut Source::new(&data));
            let payload = assemble_kex(&m);
            assert_eq!(decode_kex(kind, &payload), Ok(m.clone()));
            assert!(check_kex_raw(kind, &payload, &Ok(m)));
            assert!(decode_kex(kind, &payload[..payload.len() - 1]).is_err());
            let mut longer = payload.clone();
            longer.push(1);
            assert_eq!(decode_kex(kind, &longer), Err(MessageError::TrailingBytes { count: 1 }));
        }
    }
    let init = gen_kex(KexKind::EcdhInit, &mut Source::new(&[0, 1, 7]));
    assert_eq!(init, KexMessage::EcdhInit { client_ephemeral: [&[7u8][..], &[0x42; 31]].concat() });
}

#[test]
fn a_cut_reply_names_its_field() {
    let m = KexMessage::EcdhReply {
        host_key_blob: b"abc".to_vec(),
        server_ephemeral: b"de".to_vec(),
        signature_blob: b"f".to_vec(),
    };
    let p = assemble_kex(&m);
    assert_eq!(kex_variants(&m), vec![p[..3].to_vec(), p[..10].to_vec(), p[..17].to_vec()]);
    for (cut, field, offset) in [(3, Field::HostKey, 1), (10, Field::ServerEphemeral, 8), (17, Field::Signature, 14)] {
        match decode_kex(KexKind::EcdhReply, &p[..cut]) {
            Err(MessageError::Field { field: f, offset: o, .. }) => assert_eq!((f, o), (field, offset)),
            other => panic!("{other:?}"),
        }
    }
}

#[test]
fn service_messages_differ_in_their_number() {
    let request = KexMessage::ServiceRequest { service_name: b"x".to_vec() };
    let accept = KexMessage::ServiceAccept { service_name: b"x".to_vec() };
    assert_eq!(kex_variants(&request), vec![assemble_kex(&accept)]);
    assert_eq!(kex_variants(&accept), vec![assemble_kex(&request)]);
    assert_eq!(
        decode_kex(KexKind::ServiceRequest, &assemble_kex(&accept)),
        Err(MessageError::UnexpectedMessage { expected: 5, found: 6 })
    );
    assert!(kex_variants(&KexMessage::NewKeys).is_empty());
}

#[test]
fn a_count_of_one_too_many_gives_the_pairs_and_one_error() {
    let pairs = vec![(b"nnnnnnnn".to_vec(), b"v".to_vec())];
    let mut over = assemble_ext_info(&pairs);
    assert_eq!(over.len(), 22);
    over[4] = 2;
    let h = ext_info_header(&over).unwrap();
    assert_eq!((h.claimed, h.count), (2, 2));
    let past_end = MessageError::Field {
        field: Field::ExtensionName,
        offset: 22,
        error: DecodeError::Truncated { needed: 4, available: 0 },
    };
    assert_eq!(ext_info_pairs(&over, &h), vec![Ok((&b"nnnnnnnn"[..], &b"v"[..])), Err(past_end)]);
    assert_eq!(
        ext_info_validate(&over, &h, 2),
        Err(ExtInfoError::CountMismatch { claimed: 2, found: 1 })
    );
    assert_eq!(
        ext_info_validate(&over, &h, 1),
        Err(ExtInfoError::TooManyExtensions { claimed: 2, max: 1 })
    );
    over[4] = 3;
    assert_eq!(
        ext_info_header(&over),
        Err(MessageError::Field {
            field: Field::ExtensionCount,
            offset: 1,
            error: DecodeError::LengthOverflow { claimed: 3, available: 17 },
        })
    );
}

#[test]
fn ext_cases_hold_together() {
    for n in 0..40 {
        let data = seed(n);
        let c = gen_ext_case(&data);
        let items = c
            .pairs
            .iter()
            .map(|(n, v)| {
                let class = match n.as_slice() {
                    b"server-sig-algs" => Some(KnownExtension::ServerSigAlgs),
                    b"delay-compression" => Some(KnownExtension::DelayCompression),
                    b"no-flow-control" => Some(KnownExtension::NoFlowControl),
                    b"elevation" => Some(KnownExtension::Elevation),
                    _ => None,
                };
                Ok(PairSeen { name: n.clone(), value: v.clone(), class })
            })
            .collect();
        let count = c.pairs.len();
        let mut seen = ExtSeen {
            claimed: count as u32,
            upper: count,
            items,
            validated: vec![(64, Ok(count))],
            sig_algs: None,
        };
        if c.pairs.iter().any(|(n, _)| n == b"server-sig-algs") {
            continue;
        }
        assert!(check_ext_info_raw(&c.payload, &Ok(seen)));
        seen = ExtSeen { claimed: 0, upper: 0, items: vec![], validated: vec![], sig_algs: None };
        if count > 0 {
            assert!(!check_ext_info_raw(&c.payload, &Ok(seen)));
        }
        assert_eq!(c.huge.len(), 12);
        assert!(check_ext_info_raw(
            &c.huge,
            &Err(MessageError::Field {
                field: Field::ExtensionCount,
                offset: 1,
                error: DecodeError::LengthOverflow {
                    claimed: u32::from_be_bytes([c.huge[1], c.huge[2], c.huge[3], c.huge[4]]),
                    available: 7
                },
            })
        ));
        assert_eq!(c.trailing.len(), c.payload.len() + 1);
        assert_eq!(c.cut.is_some(), count > 0);
    }
    let bad = ExtInfoError::TooManyExtensions { claimed: 1, max: 0 };
    let p = assemble_ext_info(&vec![(b"n".to_vec(), b"v".to_vec())]);
    let seen = ExtSeen {
        claimed: 1,
        upper: 1,
        items: vec![Ok(PairSeen { name: b"n".to_vec(), value: b"v".to_vec(), class: None })],
        validated: vec![(0, Err(bad)), (1, Ok(1))],
        sig_algs: None,
    };
    assert!(check_ext_info_raw(&p, &Ok(seen)));
}

#[test]
fn ext_pairs_are_drawn() {
    assert_eq!(gen_ext_pair(&mut Source::new(&[3, 1, b'v'])), (b"elevation".to_vec(), b"v".to_vec()));
    assert_eq!(gen_ext_pair(&mut Source::new(&[0, 1, 3])), (b"server-sig-algs".to_vec(), b"a,,b".to_vec()));
    assert_eq!(gen_ext_pair(&mut Source::new(&[0xff, 1, b'q', 0])), (b"q".to_vec(), vec![]));
}

#[test]
fn mpints_are_judged() {
    let zero = MpintSeen {
        bytes: vec![],
        is_zero: true,
        is_negative: false,
        is_canonical: true,
        magnitude: Some(vec![]),
        rewritten: Some(vec![0, 0, 0, 0]),
    };
    assert!(check_mpint_body(&zero, &[]));
    assert!(!check_mpint_body(&zero, &[0]));
    let padded = MpintSeen {
        bytes: vec![0, 5],
        is_zero: false,
        is_negative: false,
        is_canonical: false,
        magnitude: Some(vec![5]),
        rewritten: Some(vec![0, 0, 0, 1, 5]),
    };
    assert!(check_mpint_body(&padded, &[0, 5]));
    assert!(check_mpint_raw(&[0, 0, 0, 2, 0, 5, 9], &Ok(padded), 6));
    let e = DecodeError::LengthOverflow { claimed: 3, available: 1 };
    assert!(check_mpint_raw(&[0, 0, 0, 3, 1], &Err(e), 0));
    assert!(!check_mpint_raw(&[0, 0, 0, 3, 1], &Err(e), 4));
    assert_eq!(gen_magnitude(&mut Source::new(&[1, 1, 3, 1])), [0, 0x83]);
    assert_eq!(gen_magnitude(&mut Source::new(&[2, 1, 3, 0])), [0, 0, 3]);
}

#[test]
fn reads_follow_the_model() {
    let input = [5, 0, 0, 0, 1, b'a', 0, 0, 0, 3, b'x', b',', b'y', 1];
    let mut m = ReadModel { input: &input, pos: 0 };
    let at = |pos: usize| ReaderState {
        position: pos,
        remaining: input[pos..].to_vec(),
        remaining_len: input.len() - pos,
        is_empty: pos == input.len(),
    };
    assert_eq!(m.remaining(), 14);
    assert!(m.expect_read(&Op::ReadU8, &Ok(ReadValue::Byte(5)), &at(1)));
    assert!(m.expect_read(&Op::ReadString, &Ok(ReadValue::Bytes(b"a".to_vec())), &at(6)));
    let e = DecodeError::Truncated { needed: 9, available: 8 };
    assert!(m.expect_read(&Op::ReadBytes(9), &Err(e), &at(6)));
    let list = ReadValue::Names { body: b"x,y".to_vec(), names: vec![b"x".to_vec(), b"y".to_vec()] };
    assert!(m.expect_read(&Op::ReadNameList, &Ok(list), &at(13)));
    assert!(m.expect_read(&Op::Finish, &Ok(ReadValue::Left(1)), &at(13)));
    assert!(!m.expect_read(&Op::ReadBool, &Ok(ReadValue::Bool(false)), &at(14)));
    assert!(m.expect_read(&Op::Finish, &Ok(ReadValue::End), &at(14)));
    assert_eq!(ReadModel { input: &input, pos: 1 }.string(), Ok((&b"a"[..], 5)));
    assert_eq!(ReadModel { input: &input, pos: 0 }.fixed(2), Ok(&input[..2]));
}

#[test]
fn writes_follow_the_model() {
    let mut m = WriteModel { held: vec![], capacity: 10 };
    let state = |held: &[u8]| WriterState {
        written: held.to_vec(),
        position: held.len(),
        capacity_remaining: 10 - held.len(),
    };
    assert!(m.expect_write(&Op::WriteBool(true), None, &state(&[1])));
    assert!(m.expect_write(&Op::WriteString(b"ab".to_vec()), None, &state(&[1, 0, 0, 0, 2, b'a', b'b'])));
    let full = EncodeError::InsufficientCapacity { needed: 4, available: 3 };
    assert!(m.expect_write(&Op::WriteU32(9), Some(full), &state(&[1, 0, 0, 0, 2, b'a', b'b'])));
    let bad = EncodeError::InvalidName { index: 1 };
    let names = Op::WriteNameList(vec![b"ok".to_vec(), b"".to_vec()]);
    assert!(m.expect_write(&names, Some(bad), &state(&[1, 0, 0, 0, 2, b'a', b'b'])));
    assert!(m.expect_write(&Op::WriteBytes(vec![7]), None, &state(&[1, 0, 0, 0, 2, b'a', b'b', 7])));
    assert!(!m.expect_write(&Op::WriteU8(1), None, &state(&[])));
}

#[test]
fn scripts_are_drawn() {
    let data = [0, 2, b'i', b'n', 1, 0, 6, 0, 9, 13, 1, 1, 2, 0, 0, 4];
    let s = gen_script(&data);
    assert_eq!(s.input, b"in");
    assert_eq!(s.capacity, 256);
    assert_eq!(
        s.ops,
        vec![Op::ReadBytes(9), Op::WriteNameList(vec![vec![0x21, 0x21]]), Op::ReadString]
    );
}

#[test]
fn name_lists_answer_for_their_names() {
    let names = vec![b"aes".to_vec(), b"none".to_vec()];
    let asked: Vec<(Vec<u8>, bool)> = probes(&names).into_iter().map(|p| (p.clone(), among(&names, &p))).collect();
    assert_eq!(asked.len(), 8);
    assert_eq!(asked[0], (vec![], false));
    assert_eq!(asked[1], (b"none".to_vec(), true));
    assert_eq!(asked[3], (b"aes!".to_vec(), false));
    let seen = ListSeen { body: b"aes,none".to_vec(), names, len: 2, is_empty: false, asked };
    assert!(check_name_list(&seen, b"aes,none"));
    assert!(!check_name_list(&seen, b"aes"));
}

#[test]
fn identification_sizes_and_refusals() {
    assert_eq!(expected_len(b"2.0", b"tatami_0.1.0", None), Some(20));
    assert_eq!(expected_len(b"2.0", b"x", Some(b"")), Some(10));
    assert_eq!(expected_len(b"2-0", b"x", None), None);
    assert_eq!(expected_encode(b"", b"", None, 9), Err(IdentEncodeError::BadProtocolVersion));
    assert_eq!(expected_encode(b"2.0", b" ", None, 9), Err(IdentEncodeError::BadSoftwareVersion));
    assert_eq!(expected_encode(b"2.0", b"x", Some(b"\n"), 9), Err(IdentEncodeError::BadComments));
    assert_eq!(
        expected_encode(b"2.0", b"tatami_0.1.0", None, 19),
        Err(IdentEncodeError::InsufficientCapacity { needed: 20, available: 19 })
    );
    assert_eq!(expected_encode(b"2.0", b"OpenSSH_9.6", Some(b"Debian-4"), 40), Ok(28));
}

#[test]
fn identification_encoders_are_judged() {
    let mut buf = b"SSH-2.0-x".to_vec();
    buf.extend_from_slice(&patterned(12, 250)[9..]);
    assert_eq!(&buf[9..], [3, 4, 5]);
    let good = Encoded { len: Some(9), outcome: Ok(9), buf: buf.clone() };
    assert!(check(&good, b"2.0", b"x", None, 12, 250));
    buf[11] = 0;
    let stray = Encoded { len: Some(9), outcome: Ok(9), buf };
    assert!(!check(&stray, b"2.0", b"x", None, 12, 250));
    let refused = Encoded {
        len: Some(9),
        outcome: Err(IdentEncodeError::InsufficientCapacity { needed: 9, available: 2 }),
        buf: patterned(2, 0),
    };
    assert!(check(&refused, b"2.0", b"x", None, 2, 0));
}

#[test]
fn identification_inputs_are_drawn() {
    let data = [0b0001_0111, 0, 1, 0, 0, 1, 1, 0, 1, b'c', 0, 5, 9];
    let i = gen_input(&data);
    assert_eq!(i.proto, [0x21]);
    assert_eq!(i.software, [0x22]);
    assert_eq!(i.comments, Some(b"c".to_vec()));
    assert_eq!(i.capacity, 9, "exactly the size of the line");
    assert_eq!(i.fill, 9);
}

#[test]
fn identification_parsers_are_judged() {
    let p = Parsed {
        protocol_version: b"1.99".to_vec(),
        software_version: b"x".to_vec(),
        comments: None,
        class: ProtocolVersionClass::Ssh2Compatibility,
    };
    assert!(check_parse(b"SSH-1.99-x", &Ok(p.clone())));
    assert!(!check_parse(b"SSH-1.99-x ", &Ok(p)));
    assert!(check_parse(b"SSH-2.0", &Err(IdentSyntaxError::MissingSeparator)));
    assert!(check_error_implication(b"a\nb", IdentSyntaxError::ControlCharacter));
    assert!(check_error_implication(b"ssh-", IdentSyntaxError::MissingPrefix));
    assert!(check_error_implication(b"SSH--x", IdentSyntaxError::BadProtocolVersion));
    assert!(check_error_implication(b"SSH-2.0- c", IdentSyntaxError::BadSoftwareVersion));
    assert!(!check_error_implication(b"SSH-2.0-x", IdentSyntaxError::BadSoftwareVersion));
    assert_eq!(expected_class(b"2.0"), ProtocolVersionClass::Ssh2);
    assert_eq!(expected_class(b"1.5"), ProtocolVersionClass::Other);
}
