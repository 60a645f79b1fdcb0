//! Wire primitives, names, identification lines and message layouts on known
//! values.

use tatami_fuzz::wire_core::bytes::{be_u32, be_u64, put_bool, put_name_list, put_string, put_u32, put_u64, put_u8};
use tatami_fuzz::wire_core::cursor::RefCursor;
use tatami_fuzz::wire_core::error::{DecodeError, Field, InvalidEncoding, MessageError};
use tatami_fuzz::wire_core::generate::{self, Source};
use tatami_fuzz::wire_core::ident_ref;
use tatami_fuzz::wire_core::kex_ref::{self, ExtInfoError, KnownExtension};
use tatami_fuzz::wire_core::messages_ref;
use tatami_fuzz::wire_core::mpint_ref;
use tatami_fuzz::wire_core::namelist_ref;

fn names(v: &[&str]) -> Vec<Vec<u8>> {
    v.iter().map(|s| s.as_bytes().to_vec()).collect()
}

#[test]
fn primitives_are_big_endian() {
    let mut out = Vec::new();
    put_u8(&mut out, 7);
    put_bool(&mut out, true);
    put_bool(&mut out, false);
    put_u32(&mut out, 0x0102_0304);
    put_u64(&mut out, 0x0102_0304_0506_0708);
    put_string(&mut out, b"ab");
    put_name_list(&mut out, &names(&["a", "bc"]));
    assert_eq!(
        out,
        [
            7, 1, 0, 1, 2, 3, 4, 1, 2, 3, 4, 5, 6, 7, 8, 0, 0, 0, 2, b'a', b'b', 0, 0, 0, 4, b'a', b',', b'b', b'c'
        ]
    );
    assert_eq!(be_u32(&[0, 0, 1, 2]), 258);
    assert_eq!(be_u64(&[0, 0, 0, 1, 0, 0, 0, 2]), 0x1_0000_0002);
}

#[test]
fn cursor_reads_and_refuses() {
    let data = [9, 0, 0, 0, 2, b'h', b'i', 0, 0, 0, 9];
    let mut c = RefCursor::new(&data);
    assert_eq!(c.u8(), Ok(9));
    assert_eq!(c.string(), Ok(&b"hi"[..]));
    assert_eq!(c.pos, 7);
    assert_eq!(c.string(), Err(DecodeError::LengthOverflow { claimed: 9, available: 0 }));
    assert_eq!(c.pos, 7, "a failed read moves nothing");
    assert_eq!(c.u64(), Err(DecodeError::Truncated { needed: 8, available: 4 }));
    assert_eq!(c.finish(), Err(4));
    assert_eq!(c.u32(), Ok(9));
    assert_eq!(c.finish(), Ok(()));
    assert_eq!(c.remaining(), 0);
}

#[test]
fn name_lists_parse_and_join() {
    assert_eq!(namelist_ref::parse(b""), Ok(vec![]));
    assert_eq!(namelist_ref::parse(b"a,bc"), Ok(vec![&b"a"[..], &b"bc"[..]]));
    assert_eq!(namelist_ref::parse(b"a,,b"), Err(InvalidEncoding::NameListEmptyName { offset: 2 }));
    assert_eq!(namelist_ref::parse(b"a,b\n"), Err(InvalidEncoding::NameListNonAscii { offset: 3 }));
    assert_eq!(namelist_ref::join(&names(&["x", "y", "z"])), b"x,y,z");
    let mut raw = vec![0, 11, 255];
    namelist_ref::sanitize_name(&mut raw);
    assert!(namelist_ref::is_valid_name(&raw));
    assert_eq!(raw, [0x21, b'-', 0x21 + 255 % 94]);
    assert!(!namelist_ref::is_valid_name(b""));
    assert!(!namelist_ref::is_valid_name(b"a,b"));
}

#[test]
fn identification_lines_parse() {
    let r = ident_ref::parse(b"SSH-2.0-OpenSSH_9.6 Debian-4").unwrap();
    assert_eq!(r.protocol_version, b"2.0");
    assert_eq!(r.software_version, b"OpenSSH_9.6");
    assert_eq!(r.comments, Some(&b"Debian-4"[..]));
    assert_eq!(ident_ref::parse(b"SSH-2.0-x").unwrap().comments, None);
    assert_eq!(ident_ref::parse(b"SSH-2.0-x ").unwrap().comments, Some(&b""[..]));
    assert!(ident_ref::parse(b"SSH-2.0-").is_none());
    assert!(ident_ref::parse(b"ssh-2.0-x").is_none());
    assert!(ident_ref::parse(b"SSH-2.0-x\r").is_none());
    assert_eq!(ident_ref::assemble(b"2.0", b"x", Some(b"c")), b"SSH-2.0-x c");
}

#[test]
fn messages_decode_to_their_fields() {
    let p = [1, 0, 0, 0, 11, 0, 0, 0, 3, b'b', b'y', b'e', 0, 0, 0, 0];
    let d = messages_ref::disconnect(&p).unwrap();
    assert_eq!((d.reason_code, d.description, d.language_tag), (11, &b"bye"[..], &b""[..]));
    assert_eq!(
        messages_ref::disconnect(&p[..8]).map(|_| ()),
        Err(MessageError::Field {
            field: Field::Description,
            offset: 5,
            error: DecodeError::Truncated { needed: 4, available: 3 },
        })
    );
    assert_eq!(messages_ref::ignore(&[]), Err(MessageError::Empty));
    assert_eq!(
        messages_ref::ignore(&[3]),
        Err(MessageError::UnexpectedMessage { expected: 2, found: 3 })
    );
    assert_eq!(
        messages_ref::unimplemented(&[3, 0, 0, 0, 1, 5]),
        Err(MessageError::TrailingBytes { count: 1 })
    );
    assert_eq!(messages_ref::disconnect_reason_name(2), Some("SSH_DISCONNECT_PROTOCOL_ERROR"));
    assert_eq!(messages_ref::disconnect_reason_name(99), None);
}

#[test]
fn key_exchange_messages_decode() {
    let mut p = vec![30];
    put_string(&mut p, b"key");
    assert_eq!(kex_ref::ecdh_init(&p), Ok(&b"key"[..]));
    assert_eq!(kex_ref::newkeys(&[21]), Ok(()));
    assert_eq!(kex_ref::newkeys(&[21, 0]), Err(MessageError::TrailingBytes { count: 1 }));
    let mut s = vec![5];
    put_string(&mut s, b"ssh-userauth");
    assert_eq!(kex_ref::service_request(&s), Ok(&b"ssh-userauth"[..]));
    assert_eq!(
        kex_ref::service_accept(&s),
        Err(MessageError::UnexpectedMessage { expected: 6, found: 5 })
    );
}

#[test]
fn ext_info_is_walked_and_validated() {
    let pairs = vec![
        (b"ping@openssh.com".to_vec(), b"0".to_vec()),
        (b"server-sig-algs".to_vec(), b"ssh-ed25519,rsa-sha2-512".to_vec()),
    ];
    let p = kex_ref::assemble_ext_info(&pairs);
    let h = kex_ref::ext_info_header(&p).unwrap();
    assert_eq!((h.claimed, h.count), (2, 2));
    assert_eq!(kex_ref::ext_info_validate(&p, &h, 64), Ok(2));
    assert_eq!(
        kex_ref::ext_info_validate(&p, &h, 1),
        Err(ExtInfoError::TooManyExtensions { claimed: 2, max: 1 })
    );
    assert_eq!(
        kex_ref::server_sig_algs(&p, &h),
        Some(Ok(vec![&b"ssh-ed25519"[..], &b"rsa-sha2-512"[..]]))
    );
    let mut longer = p.clone();
    longer.push(0);
    assert_eq!(
        kex_ref::ext_info_validate(&longer, &h, 64),
        Err(ExtInfoError::Message(MessageError::TrailingBytes { count: 1 }))
    );
    let mut over = p.clone();
    over[4] = 3;
    let h3 = kex_ref::ext_info_header(&over).unwrap();
    assert_eq!(
        kex_ref::ext_info_validate(&over, &h3, 64),
        Err(ExtInfoError::CountMismatch { claimed: 3, found: 2 })
    );
    assert_eq!(kex_ref::classify_extension(b"elevation"), Some(KnownExtension::Elevation));
    assert_eq!(kex_ref::classify_extension(b"elevation "), None);
    let bad = kex_ref::assemble_ext_info(&vec![(b"server-sig-algs".to_vec(), b"a,,b".to_vec())]);
    let hb = kex_ref::ext_info_header(&bad).unwrap();
    assert_eq!(
        kex_ref::server_sig_algs(&bad, &hb),
        Some(Err(ExtInfoError::InvalidServerSigAlgs(InvalidEncoding::NameListEmptyName { offset: 2 })))
    );
}

#[test]
fn mpint_examples_of_the_standard() {
    let positive: [(&[u8], &[u8]); 3] = [
        (&[], &[0, 0, 0, 0]),
        (
            &[0x09, 0xa3, 0x78, 0xf9, 0xb2, 0xe3, 0x32, 0xa7],
            &[0, 0, 0, 8, 0x09, 0xa3, 0x78, 0xf9, 0xb2, 0xe3, 0x32, 0xa7],
        ),
        (&[0x80], &[0, 0, 0, 2, 0, 0x80]),
    ];
    for (magnitude, encoding) in positive {
        assert_eq!(mpint_ref::positive_encoding(magnitude), encoding);
        assert!(mpint_ref::is_canonical(&encoding[4..]));
        assert!(!mpint_ref::is_negative(&encoding[4..]));
        assert_eq!(mpint_ref::positive_magnitude(&encoding[4..]), Some(magnitude));
    }
    for body in [&[0xed, 0xcc][..], &[0xff, 0x21, 0x52, 0x41, 0x11]] {
        assert!(mpint_ref::is_negative(body));
        assert!(mpint_ref::is_canonical(body));
        assert_eq!(mpint_ref::positive_magnitude(body), None);
    }
    assert!(!mpint_ref::is_canonical(&[0]));
    assert!(!mpint_ref::is_canonical(&[0, 0x7f]));
    assert!(!mpint_ref::is_canonical(&[0xff, 0x80]));
    assert_eq!(mpint_ref::positive_encoding(&[0, 0, 5]), [0, 0, 0, 1, 5]);
}

#[test]
fn numbers_are_drawn_from_the_front() {
    let mut u = Source::new(&[0x01, 0x02, 0xff]);
    assert_eq!(generate::small(&mut u, 600), 0x0102);
    assert_eq!(generate::small(&mut u, 4), 255 % 5);
    assert_eq!(generate::small(&mut u, 4), 0);
    let mut u = Source::new(&[9, 8]);
    assert_eq!(generate::small(&mut u, 0), 0, "no choice takes no byte");
    assert_eq!(generate::word(&mut u), 0x0809, "little-endian, padded with zeros");
    assert!(u.is_empty());
    let mut u = Source::new(&[1, 2, 3, 4, 5, 6, 7, 8, 42]);
    assert_eq!(generate::qword(&mut u), 0x0807_0605_0403_0201);
    assert_eq!(generate::byte(&mut u), 42);
    assert_eq!(generate::byte(&mut u), 0);
    let mut u = Source::new(&[3, b'x', b'y']);
    assert_eq!(generate::bounded_bytes(&mut u, 8), b"xy", "clamped to what is left");
    let mut u = Source::new(&[2, 0, 93, 1]);
    assert_eq!(generate::valid_name(&mut u, 20), [0x21, 0x7e]);
    assert_eq!(generate::valid_name(&mut Source::new(&[]), 20), [0x21 + 97 % 94]);
}
