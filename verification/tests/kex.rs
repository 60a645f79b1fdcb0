//! Key exchange: base64, name lists, negotiation, hashing, sealing, host keys
//! and whole handshakes on known values.

use tatami_fuzz::gcm_packets::{
    boundary_iv, expect_from_length, forge_padding, gen_gcm_case, length_claims, limits_from, open_checked,
    packet_length_of, round_trip, seal_all, snapshot, Expect as PacketExpect, OpenStep, CAP_PAYLOAD_LEN,
};
use tatami_fuzz::handshake::model::{bad_frame_outcome, model, msg_name, Expect, Keyword};
use tatami_fuzz::handshake::scenario::{gen_scenario, IdentKind, Mal, Reply, Scenario};
use tatami_fuzz::handshake::session::{feed_len, presented_blob, Answer, Driver, Event, Session, StepFault};
use tatami_fuzz::handshake::types::{
    BlobError, BlobField, HandshakeOutcome, KeyError, OpenError, Phase, TrustDecision, TrustSource, UntrustedReason,
};
use tatami_fuzz::handshake::wire::{client_opening, first_flight, frame, parse_unprotected, server_reply, ClientFault};
use tatami_fuzz::kex_support::crypto;
use tatami_fuzz::kex_support::base64::{decode_43_strict, encode_unpadded};
use tatami_fuzz::kex_support::crypto::{
    derive_gcm, ed25519_key_blob, exchange_hash, mpint, padding_len, Gcm, HarnessRng, HashInputs,
};
use tatami_fuzz::kex_support::lists::{gen_list, gen_lists, gen_name, Lists, Pool};
use tatami_fuzz::kex_support::negotiate_ref::{
    check_profile, is_marker, negotiate, strict, strict_offered, Direction, Mac, NegotiationError,
};
use tatami_fuzz::key_blobs::{
    checked_key, expected_verify, fingerprint_text, host_key, no_policy_decision, pinned_decision, ref_host_key,
    ref_parse_fingerprint, ref_public_key_blob, ref_signature_blob, run_raw, signature_error, structured,
    FingerprintParseError, VerifyError,
};
use tatami_fuzz::negotiation::{check_pair, direction_name, gen_drawn, lists_from_payload};
use tatami_fuzz::tcp_support::{filler, ChunkMode, Cursor};
use tatami_fuzz::wire_core::error::{DecodeError, Field};

fn hex(s: &str) -> Vec<u8> {
    (0..s.len() / 2).map(|i| u8::from_str_radix(&s[2 * i..2 * i + 2], 16).unwrap()).collect()
}

fn hex32(s: &str) -> [u8; 32] {
    hex(s).try_into().unwrap()
}

fn list(v: &[&str]) -> Vec<Vec<u8>> {
    v.iter().map(|s| s.as_bytes().to_vec()).collect()
}

fn server() -> Lists {
    let mut l = Lists::tatami_client([9; 16], false, false);
    l.kex = list(&["curve25519-sha256", "ext-info-s", "kex-strict-s-v00@openssh.com", "kex-strict-s"]);
    l
}

#[test]
fn base64_of_digests() {
    assert_eq!(encode_unpadded(b""), "");
    assert_eq!(encode_unpadded(b"f"), "Zg");
    assert_eq!(encode_unpadded(b"fo"), "Zm8");
    assert_eq!(encode_unpadded(b"foo"), "Zm9v");
    let digest: [u8; 32] = filler(32, 5).try_into().unwrap();
    let text = encode_unpadded(&digest);
    assert_eq!(text.len(), 43);
    assert_eq!(decode_43_strict(text.as_bytes()), Some(digest));
    assert_eq!(decode_43_strict(&text.as_bytes()[1..]), None);
    let mut loose = text.into_bytes();
    loose[42] = b'B';
    assert_eq!(decode_43_strict(&loose), None, "the two spare bits are zero");
}

#[test]
fn our_proposal_selects_the_profile() {
    let ours = Lists::tatami_client([1; 16], true, true);
    assert_eq!(
        ours.kex,
        list(&["curve25519-sha256", "ext-info-c", "kex-strict-c-v00@openssh.com", "kex-strict-c"])
    );
    let n = negotiate(&ours, &server()).unwrap();
    assert_eq!(n.kex, "curve25519-sha256");
    assert_eq!(n.host_key, "ssh-ed25519");
    assert_eq!(n.encryption_client_to_server, "aes128-gcm@openssh.com");
    assert_eq!(n.mac_client_to_server, Mac::ImplicitAead);
    assert!(n.ext_info);
    assert!(n.strict_kex.negotiated);
    assert_eq!(check_profile(&n), Ok(()));
    let s = strict_offered(&ours);
    assert!(s.offered_standard && s.offered_pre_standard && !s.negotiated);
    assert!(check_pair(&ours, &server(), &Ok(n), strict(&ours, &server()), s));
    assert!(is_marker(b"ext-info-c"));
    assert!(!is_marker(b"curve25519-sha256"));
}

#[test]
fn every_negotiation_error_comes_from_some_pair() {
    let ours = Lists::tatami_client([1; 16], false, false);
    let with = |f: &dyn Fn(&mut Lists)| {
        let mut s = server();
        f(&mut s);
        negotiate(&ours, &s).unwrap_err()
    };
    assert_eq!(with(&|s| s.kex = list(&["x"])), NegotiationError::NoCommonKex);
    assert_eq!(with(&|s| s.host_key = list(&["ssh-rsa"])), NegotiationError::NoCommonHostKey);
    assert_eq!(
        with(&|s| s.enc_s2c = list(&["aes128-ctr"])),
        NegotiationError::NoCommonCipher(Direction::ServerToClient)
    );
    assert_eq!(
        with(&|s| s.comp_c2s = list(&["zlib"])),
        NegotiationError::NoCommonCompression(Direction::ClientToServer)
    );
    let mut a = Lists::tatami_client([1; 16], false, false);
    a.enc_c2s = list(&["aes128-ctr"]);
    let mut b = server();
    b.enc_c2s = list(&["aes128-ctr"]);
    b.mac_c2s = list(&["hmac-md5"]);
    assert_eq!(
        negotiate(&a, &b),
        Err(NegotiationError::NoMacImplemented(Direction::ClientToServer))
    );
    let mut n = negotiate(&ours, &server()).unwrap();
    n.host_key = "ssh-rsa".to_string();
    match check_profile(&n) {
        Err(NegotiationError::UnsupportedSelection { field, name }) => {
            assert_eq!((field, name.as_str()), (Field::ServerHostKeyAlgorithms, "ssh-rsa"));
        }
        other => panic!("{other:?}"),
    }
    assert_eq!(with(&|s| s.kex = list(&[])).code(), "no_common_kex");
    assert_eq!(direction_name(Direction::ClientToServer), "client-to-server");
}

#[test]
fn proposals_are_written_and_read() {
    let data = filler(400, 77);
    let mut cur = Cursor::new(&data);
    let l = gen_lists(&mut cur);
    let back = lists_from_payload(&l.payload()).unwrap();
    assert_eq!(back.payload(), l.payload());
    assert_eq!(back.kex, l.kex);
    assert_eq!(l.slots().len(), 10);
    assert_eq!(lists_from_payload(b"\x14short").map(|l| l.payload()), None);
    assert_eq!(Pool::Languages.len(), 3);
    assert_eq!(Pool::HostKeys.name(0), "ssh-ed25519");
    let d = gen_drawn(&data);
    assert_eq!(d.server.payload()[0], 20);
}

#[test]
fn hashing_follows_the_layout() {
    let i = HashInputs {
        v_c: b"SSH-2.0-c",
        v_s: b"SSH-2.0-s",
        i_c: &[20],
        i_s: &[20, 1],
        k_s: b"ks",
        q_c: &[1; 32],
        q_s: &[2; 32],
        k: &[0x80; 32],
    };
    let mut bytes = Vec::new();
    for part in [i.v_c, i.v_s, i.i_c, i.i_s, i.k_s, i.q_c, i.q_s] {
        bytes.extend_from_slice(&(part.len() as u32).to_be_bytes());
        bytes.extend_from_slice(part);
    }
    bytes.extend_from_slice(&mpint(&[0x80; 32]));
    use_digest(&bytes, &exchange_hash(&i));
    assert_eq!(mpint(&[0, 0x80]), [0, 0, 0, 2, 0, 0x80]);
}

fn use_digest(bytes: &[u8], want: &[u8; 32]) {
    let d: [u8; 32] = <sha2::Sha256 as sha2::Digest>::digest(bytes).into();
    assert_eq!(&d, want);
}

#[test]
fn sha256_of_abc_through_a_fingerprint() {
    let raw = run_raw(b"abc");
    assert_eq!(
        raw.digest,
        hex32("ba7816bf8f01cfea414140de5dae2223b00361a396177a9cb410ff61f20015ad")
    );
    assert_eq!(fingerprint_text(&raw.digest), "SHA256:ungWv48Bz+pBQUDeXa4iI7ADYaOWF3qctBD/YfIAFa0");
}

#[test]
fn keys_are_derived() {
    let k = [1u8; 32];
    let h = [2u8; 32];
    let a = crypto::derive(&k, &h, b'A', &h, 12);
    assert_eq!(a.len(), 12);
    let (c2s, s2c) = derive_gcm(&k, &h, &h);
    assert_eq!(c2s.iv[..], a[..]);
    assert_eq!(s2c.iv[..], crypto::derive(&k, &h, b'B', &h, 12)[..]);
    assert_eq!(c2s.key[..], crypto::derive(&k, &h, b'C', &h, 16)[..]);
    assert_ne!(c2s.key, s2c.key);
    assert_eq!(crypto::derive(&k, &h, b'A', &h, 80)[..32], crypto::derive(&k, &h, b'A', &h, 32)[..]);
}

#[test]
fn sealed_packets_open() {
    let key = [7u8; 16];
    let iv = [3u8; 12];
    let mut a = Gcm::new(&key, &iv);
    let mut b = Gcm::new(&key, &iv);
    let one = a.seal(b"first");
    let two = a.seal(b"second");
    assert_ne!(one, two);
    assert_eq!(a.counter(), b.counter() + 2);
    assert_eq!(b.open(&one[..one.len() - 1]), None);
    assert_eq!(b.open(&one), Some((b"first".to_vec(), one.len())));
    assert_eq!(b.open(&two), Some((b"second".to_vec(), two.len())));
    let mut bad = Gcm::new(&key, &iv);
    let mut changed = one.clone();
    changed[6] ^= 1;
    assert_eq!(bad.open(&changed), None);
    assert_eq!(padding_len(5), 10);
    assert_eq!(packet_length_of(5), 16);
}

#[test]
fn random_streams_are_fixed_and_fail_on_time() {
    let mut a = HarnessRng::new(4);
    let mut b = HarnessRng::new(5);
    assert_eq!(a.next_u64(), b.next_u64(), "the lowest bit is set");
    let mut c = HarnessRng::new(4);
    assert_eq!(c.fill_bytes(8), HarnessRng::new(5).next_u64().to_le_bytes());
    let mut f = HarnessRng::failing_after(1, 16);
    assert!(f.try_fill_bytes(16).is_some());
    assert!(f.try_fill_bytes(1).is_none());
}

#[test]
fn packet_lengths_are_judged() {
    let p = |n: u32| n.to_be_bytes().to_vec();
    assert_eq!(expect_from_length(&p(16), 64, 0, true), PacketExpect::NeedMore(Some(36)));
    assert_eq!(
        expect_from_length(&p(80), 64, 0, true),
        PacketExpect::Refused(OpenError::TooLarge { packet_length: 80, limit: 64 })
    );
    assert_eq!(
        expect_from_length(&p(15), 64, 0, true),
        PacketExpect::Refused(OpenError::TooSmall { packet_length: 15 })
    );
    assert_eq!(
        expect_from_length(&p(17), 64, 0, true),
        PacketExpect::Refused(OpenError::Misaligned { packet_length: 17 })
    );
    let mut whole = p(16);
    whole.extend_from_slice(&[0; 32]);
    assert_eq!(expect_from_length(&whole, 64, 0, true), PacketExpect::Packet { total_len: 36 });
    assert_eq!(expect_from_length(&whole, 64, 0, false), PacketExpect::Refused(OpenError::TagMismatch));
    assert_eq!(length_claims(64, &[1, 2, 3, 4])[0], [0, 0, 0, 65]);
    assert_eq!(boundary_iv(&[1; 12], 1), [&[1u8; 4][..], &[255; 7], &[254]].concat());
}

#[test]
fn packets_are_counted_from_the_initial_nonce() {
    let iv = [0, 0, 0, 0, 0, 0, 0, 0, 0, 0, 0, 5];
    let mut tx = Gcm::new(&[0; 16], &iv);
    let mut rx = Gcm::new(&[0; 16], &iv);
    assert_eq!(tx.counter(), 0);
    let mut buf = tx.seal(b"x");
    assert_eq!(tx.counter(), 1);
    let whole = buf.len();
    buf.extend_from_slice(&[7; 9]);
    assert_eq!(rx.open(&buf[..whole - 1]), None);
    assert_eq!(rx.counter(), 0);
    assert_eq!(rx.open(&buf), Some((b"x".to_vec(), whole)));
    assert_eq!(rx.counter(), 1);
    assert_eq!(rx.nonce(), tx.nonce());
}

#[test]
fn names_are_drawn_from_any_table() {
    let pool: [&[u8]; 2] = [b"one", b"two"];
    assert_eq!(gen_name(&mut Cursor::new(&[1]), &pool, true), b"two");
    assert_eq!(gen_name(&mut Cursor::new(&[2]), &pool, true), b"ext-info-c");
    assert_eq!(gen_name(&mut Cursor::new(&[2, b'q']), &pool, false), b"q");
    assert_eq!(gen_list(&mut Cursor::new(&[7, 0, 1]), &pool, false), [b"one", b"two"]);
}

#[test]
fn counters_run_out() {
    let near: [u8; 12] = boundary_iv(&[1; 12], 2).try_into().unwrap();
    let mut gcm = Gcm::new(&[4; 16], &near);
    for i in 0..3 {
        assert_eq!(gcm.counter(), i);
        let counter = u64::from_be_bytes(gcm.nonce()[4..].try_into().unwrap());
        let packet = gcm.seal(b"p");
        let want = if i < 2 {
            PacketExpect::Packet { total_len: packet.len() }
        } else {
            PacketExpect::Refused(OpenError::CounterExhausted)
        };
        assert_eq!(expect_from_length(&packet, 64, counter, true), want);
        let short = &packet[..packet.len() - 1];
        assert_eq!(expect_from_length(short, 64, counter, true), PacketExpect::NeedMore(Some(packet.len())));
    }
}

#[test]
fn sealed_streams_round_trip() {
    let payloads = vec![b"a".to_vec(), vec![5; 100]];
    let sealed = seal_all(&[1; 16], &[2; 12], 9, &payloads);
    assert_eq!(sealed.starts, vec![0, 36]);
    assert_eq!(round_trip(&payloads, 65536), (2, None));
    assert_eq!(
        round_trip(&payloads, 64),
        (1, Some(OpenError::TooLarge { packet_length: 112, limit: 64 }))
    );
    let mut g = Gcm::new(&[1; 16], &[2; 12]);
    let (first, n) = g.open(&sealed.stream).unwrap();
    assert_eq!((first.as_slice(), n), (&b"a"[..], 36));
    let (_, bad) = forge_padding(&[1; 16], &[2; 12], b"abc", 3);
    assert_eq!(bad, Err(OpenError::BadPadding { packet_length: 16, padding_length: 3 }));
    let (packet, good) = forge_padding(&[1; 16], &[2; 12], b"abc", 12);
    assert_eq!(good, Ok(3));
    assert_eq!(packet.len(), 36);
    let before = snapshot(&packet, 65536, 0, &[2; 12]);
    let need = OpenStep::NeedMore { total_len: Some(99) };
    assert!(open_checked(&before, &need, &packet, 0, &[2; 12]));
    assert!(!open_checked(&before, &need, &packet, 1, &[2; 12]));
    let mut changed = packet.clone();
    changed[7] ^= 1;
    assert!(!open_checked(&before, &need, &changed, 0, &[2; 12]));
    let data = filler(300, 3);
    let c = gen_gcm_case(&data, 65536);
    assert!(c.payloads.len() <= 8);
    assert_eq!(limits_from(0, 65536, &mut Cursor::new(&[])), 65536);
}

#[test]
fn a_copy_is_kept_of_small_and_of_complete_buffers() {
    let big = filler(CAP_PAYLOAD_LEN, 7);
    let sealed = seal_all(&[1; 16], &[2; 12], 9, &vec![big.clone()]);
    let whole = sealed.stream;
    assert_eq!(whole.len(), 65_556);
    let cut = &whole[..600];
    assert_eq!(snapshot(&cut[..512], 65536, 0, &[2; 12]).buffer, Some(cut[..512].to_vec()));
    let large = snapshot(cut, 65536, 0, &[2; 12]);
    assert_eq!(large.buffer, None);
    assert_eq!(snapshot(&whole, 65535, 0, &[2; 12]).buffer, None);
    let full = snapshot(&whole, 65536, 0, &[2; 12]);
    assert_eq!(full.buffer, Some(whole.clone()));
    let need = OpenStep::NeedMore { total_len: Some(whole.len()) };
    let mut other = cut.to_vec();
    other[300] ^= 1;
    assert!(open_checked(&large, &need, &other, 0, &[2; 12]));
    assert!(!open_checked(&large, &need, &other, 1, &[2; 12]));
    let mut opened = whole[..4].to_vec();
    opened.push(4);
    opened.extend_from_slice(&big);
    opened.extend_from_slice(&whole[4 + 1 + big.len()..]);
    let step = OpenStep::Packet { payload: big, total_len: whole.len() };
    assert!(open_checked(&full, &step, &opened, 1, &[3; 12]));
    assert!(!open_checked(&large, &step, &opened, 1, &[3; 12]));
    assert!(!open_checked(&full, &step, &opened, 1, &[2; 12]));
}

#[test]
fn key_blobs_are_read() {
    let blob = ed25519_key_blob(&[4; 32]);
    assert_eq!(blob.len(), 51);
    let (algorithm, body) = ref_public_key_blob(&blob).unwrap();
    assert_eq!(algorithm, b"ssh-ed25519");
    assert_eq!(body.len(), 36);
    assert_eq!(ref_host_key(&blob), Ok([4; 32]));
    assert_eq!(
        ref_public_key_blob(&[0, 0]),
        Err(BlobError::Field {
            field: BlobField::Algorithm,
            offset: 0,
            error: DecodeError::Truncated { needed: 4, available: 2 }
        })
    );
    let mut other = vec![0, 0, 0, 7];
    other.extend_from_slice(b"ssh-rsa");
    assert_eq!(ref_host_key(&other), Err(KeyError::UnsupportedAlgorithm(b"ssh-rsa".to_vec())));
    let mut short = vec![0, 0, 0, 11];
    short.extend_from_slice(b"ssh-ed25519\0\0\0\x01k");
    assert_eq!(
        ref_host_key(&short),
        Err(KeyError::WrongLength { field: BlobField::Key, expected: 32, found: 1 })
    );
    let mut long = blob.clone();
    long.push(0);
    assert_eq!(ref_host_key(&long), Err(KeyError::Blob(BlobError::TrailingBytes { count: 1 })));
    assert_eq!(checked_key([1; 32], false), Err(KeyError::InvalidKey));
    assert!(ref_signature_blob(&blob).is_ok());
    assert_eq!(signature_error(b"ssh-ed25519", &[0; 64]), None);
    assert!(signature_error(b"ssh-ed25519", &[0; 63]).is_some());
}

#[test]
fn points_off_the_curve_are_refused() {
    let base = hex32("5866666666666666666666666666666666666666666666666666666666666666");
    assert_eq!(host_key(&ed25519_key_blob(&base)), Ok(base));
    let mut off = [0u8; 32];
    off[0] = 2;
    assert_eq!(host_key(&ed25519_key_blob(&off)), Err(KeyError::InvalidKey));
}

#[test]
fn fingerprints_parse() {
    let text = fingerprint_text(&[0; 32]);
    assert_eq!(text, "SHA256:AAAAAAAAAAAAAAAAAAAAAAAAAAAAAAAAAAAAAAAAAAA");
    assert_eq!(ref_parse_fingerprint(&text), Ok([0; 32]));
    assert_eq!(ref_parse_fingerprint("MD5:x"), Err(FingerprintParseError::MissingPrefix));
    assert_eq!(ref_parse_fingerprint("SHA256:AA=="), Err(FingerprintParseError::Padding));
    assert_eq!(ref_parse_fingerprint("SHA256:AA"), Err(FingerprintParseError::WrongLength { found: 2 }));
    let bad = text.replace('A', "!");
    assert_eq!(
        ref_parse_fingerprint(&bad.replacen("SH!256", "SHA256", 1)),
        Err(FingerprintParseError::InvalidBase64)
    );
    let pin = [3; 32];
    assert_eq!(
        pinned_decision(&pin, &pin),
        TrustDecision::Trusted { source: TrustSource::PinnedFingerprint }
    );
    assert_eq!(
        pinned_decision(&pin, &[4; 32]),
        TrustDecision::Untrusted { reason: UntrustedReason::FingerprintMismatch }
    );
    assert_eq!(no_policy_decision(), TrustDecision::Untrusted { reason: UntrustedReason::NoPolicy });
}

#[test]
fn key_cases_verify_as_expected() {
    let data = filler(200, 12);
    let c = structured(&data);
    assert_eq!(ref_host_key(&c.key_blob), Ok(c.public_key));
    assert_eq!(fingerprint_text(&c.digest), c.text);
    for t in &c.trials {
        let Ok((algorithm, signature)) = ref_signature_blob(&t.signature_blob) else {
            panic!("a trial without a signature blob");
        };
        let genuine = match (ref_host_key(&t.key_blob), <[u8; 64]>::try_from(signature)) {
            (Ok(k), Ok(s)) => {
                let key = ed25519_dalek::VerifyingKey::from_bytes(&k).unwrap();
                key.verify_strict(&t.message, &ed25519_dalek::Signature::from_bytes(&s)).is_ok()
            }
            _ => false,
        };
        assert_eq!(expected_verify(algorithm, signature, genuine), t.error);
    }
    assert!(c.trials.iter().any(|t| t.error.is_none()));
    assert!(c.trials.iter().any(|t| t.error == Some(VerifyError::Invalid)));
    for b in &c.bad_keys {
        assert!(ref_host_key(b).is_err());
    }
}

fn scenario(n: u32) -> Scenario {
    gen_scenario(&filler(700, n))
}

#[test]
fn a_valid_reply_is_signed_and_shared() {
    let mut sc = scenario(1);
    sc.reply = Reply::Valid;
    let secret = x25519_dalek::StaticSecret::from([5u8; 32]);
    let q_c = *x25519_dalek::PublicKey::from(&secret).as_bytes();
    let e = server_reply(&sc, &[20; 40], &q_c);
    let mut p = e.payload.as_slice();
    assert_eq!(p[0], 31);
    p = &p[1..];
    let mut parts = Vec::new();
    for _ in 0..3 {
        let n = u32::from_be_bytes([p[0], p[1], p[2], p[3]]) as usize;
        parts.push(p[4..4 + n].to_vec());
        p = &p[4 + n..];
    }
    assert!(p.is_empty());
    assert_eq!(parts[0], presented_blob(&sc));
    let q_s: [u8; 32] = parts[1].clone().try_into().unwrap();
    let k = secret.diffie_hellman(&x25519_dalek::PublicKey::from(q_s));
    assert_eq!(k.as_bytes(), &e.k);
    let key: [u8; 32] = parts[0][19..].try_into().unwrap();
    let sig: [u8; 64] = parts[2][19..].try_into().unwrap();
    let key = ed25519_dalek::VerifyingKey::from_bytes(&key).unwrap();
    assert!(key.verify_strict(&e.h, &ed25519_dalek::Signature::from_bytes(&sig)).is_ok());
}

#[test]
fn client_output_is_read() {
    let mut out = b"SSH-2.0-c\r\n".to_vec();
    out.extend_from_slice(&frame(&[20; 30]));
    let mut init = vec![30, 0, 0, 0, 32];
    init.extend_from_slice(&[6; 32]);
    out.extend_from_slice(&frame(&init));
    assert_eq!(client_opening(&out), Ok((vec![20; 30], [6; 32])));
    assert_eq!(client_opening(b"SSH"), Err(ClientFault::NoLine));
    let (payloads, end) = parse_unprotected(&out[11..]).unwrap();
    assert_eq!(payloads.len(), 2);
    assert_eq!(end, out.len() - 11);
}

#[test]
fn models_end_as_their_scenarios_do() {
    let ours = Lists::tatami_client([0; 16], true, true);
    let mut sc = scenario(3);
    sc.prelude.clear();
    sc.ident = IdentKind::V20;
    sc.pre_kexinit.clear();
    sc.before_reply.clear();
    sc.before_newkeys.clear();
    sc.protected.clear();
    sc.tamper = None;
    sc.guess = None;
    sc.server = server();
    sc.reply = Reply::SigOverWrongHash;
    let n = negotiate(&ours, &sc.server);
    let m = model(&sc, n.clone(), strict(&ours, &sc.server));
    assert_eq!(m.outcome, Some(Expect::Exact(HandshakeOutcome::SignatureInvalid)));
    assert_eq!(m.facts.signature_valid, Some(false));
    assert_eq!(first_flight(&sc).is_empty(), false);
    assert_eq!(Mal::NewKeys.payload(), [21, 0]);
    assert_eq!(Mal::NewKeys.number(), 21);
    assert_eq!(msg_name(21), b"message number 21");
    assert!(matches!(bad_frame_outcome(), HandshakeOutcome::ProtocolError(_)));
    assert!(!Keyword::SecondKexInit.text().is_empty());
}

#[test]
fn drivers_answer_events() {
    let mut d = Driver::new(vec![1, 2]);
    let trust = TrustDecision::Untrusted { reason: UntrustedReason::NoPolicy };
    assert_eq!(d.answer(Event::NeedMore, trust), Ok(Answer::Feed));
    assert_eq!(d.answer(Event::Send(vec![]), trust), Err(StepFault::EmptySend));
    assert_eq!(d.answer(Event::Send(vec![7]), trust), Ok(Answer::Step));
    assert_eq!(d.output, [7]);
    let ask = |sha256: [u8; 32], phase: Phase| Event::TrustRequired {
        phase,
        blob: vec![1, 2],
        algorithm: "ssh-ed25519".to_string(),
        sha256,
    };
    let digest: [u8; 32] = <sha2::Sha256 as sha2::Digest>::digest([1u8, 2]).into();
    assert_eq!(d.answer(ask(digest, Phase::Finished), trust), Err(StepFault::WrongPhase));
    assert_eq!(d.answer(ask([0; 32], Phase::TrustDecision), trust), Err(StepFault::WrongIdentity));
    assert_eq!(d.answer(ask(digest, Phase::TrustDecision), trust), Ok(Answer::Decide(trust)));
    assert_eq!(d.answer(ask(digest, Phase::TrustDecision), trust), Err(StepFault::TrustAskedTwice));
    let end = Event::Finished { phase: Phase::Finished, outcome: HandshakeOutcome::TagMismatch };
    assert_eq!(d.answer(end, trust), Ok(Answer::Stop));
    assert_eq!(d.outcome, Some(HandshakeOutcome::TagMismatch));
    assert_eq!(feed_len(&ChunkMode::Fixed(3), 0, 9, 2), Some(2));
    let mut s = Session::new();
    let first = s.next_flight(&scenario(2), false, Phase::ServerIdentification, &[]).unwrap();
    assert_eq!(first, Some(first_flight(&scenario(2))));
}
