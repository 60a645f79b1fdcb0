//! The TCP side: cursors, lines, packets, whole streams, and a machine made of
//! the reference models that the drivers and the expectations agree on.

use tatami_fuzz::identification::{
    check_configuration, check_ident, gen_case as gen_ident_case, transform_terminators, IdentRec, Outcome,
};
use tatami_fuzz::initial_packets::{
    check_decode, check_encode, corrupt, delivered_buffers, gen_case as gen_initial_case, gen_packets, Decoded, Encoded,
};
use tatami_fuzz::observer::{self, check_role_policy, check_sample, observer_config, ObserverConfig};
use tatami_fuzz::probe::{
    self, check_deliveries, check_examined, check_fresh, check_overflow, check_proposal_names, gen_session, local_line,
    overflow_feed, probe_config, Fresh, Overflowed, ProbeConfig,
};
use tatami_fuzz::tcp_support::drive::{
    assert_ident_phase, assert_same_run, drive, expected_outcome_code, judge_step, End, EndProposal, Ev, Fault, MStep,
    Machine, Run, STAGE_FINISHED, STAGE_IDENT, STAGE_PACKETS,
};
use tatami_fuzz::tcp_support::ident_ref::{
    self, local_software_version_ok, parse_content, starts_ident, RefOutcome, RefReader, RefStep as LineStep,
};
use tatami_fuzz::tcp_support::msg_ref::{
    check_initial_packets, classify, kex_name, model_step, Model, ModelStep, Observed, RefMessage, Reported,
};
use tatami_fuzz::tcp_support::packet_ref::{
    decode, encode_initial_packet, framed_len, max_packet_length, minimal_padding, RefStep,
};
use tatami_fuzz::tcp_support::stream_gen::{
    check_expectation, expect, frame, gen_ident, generate, ExpEnd, GenMsg, ModelLimits, Role,
};
use tatami_fuzz::tcp_support::types::{
    IdentError, IdentLimits, InitialError, InitialLimits, InputOverflow, InvalidIdentification, KexName, LineTerminator,
    OwnedIdentification, PacketError, SkippedMessage, VersionSupport,
};
use tatami_fuzz::tcp_support::{filler, put_string, ChunkMode, Cursor};
use tatami_fuzz::wire_core::messages_ref;

const IDENT: IdentLimits = IdentLimits {
    max_prelude_lines: 64,
    max_prelude_bytes: 8192,
    max_prelude_line: 1024,
    max_identification_line: 255,
};

const INITIAL: InitialLimits = InitialLimits { max_packet_length: 65536, max_packets: 16, max_bytes: 262_144 };

fn noise(seed: u8, n: usize) -> Vec<u8> {
    filler(n, u32::from(seed) * 7919 + 1)
}

#[test]
fn filler_is_fixed() {
    assert_eq!(filler(4, 1), [198, 126, 129, 107]);
    assert_eq!(filler(0, 9), Vec::<u8>::new());
}

#[test]
fn cursor_pads_with_zeros() {
    let mut c = Cursor::new(&[1, 2, 3]);
    assert_eq!(c.u16(), 0x0102);
    assert_eq!(c.u32(), 0x0300_0000);
    assert!(c.is_empty());
    assert_eq!(c.u8(), 0);
    let mut c = Cursor::new(&[7]);
    let got = c.take_filled(3, 1);
    assert_eq!(got, [7, 198, 126]);
}

#[test]
fn schedules_follow_their_selectors() {
    let list = ChunkMode::from_selector(0, &[0, 5]);
    assert_eq!((list.desired(0), list.desired(1), list.desired(2)), (1, 5, 1));
    assert_eq!(ChunkMode::from_selector(4, &[]), ChunkMode::Fixed(3));
    assert_eq!(ChunkMode::from_selector(2, &[9]), ChunkMode::Fixed(64));
    assert_eq!(ChunkMode::All.desired(3), usize::MAX);
    let mut out = vec![];
    put_string(&mut out, b"x");
    assert_eq!(out, [0, 0, 0, 1, b'x']);
}

#[test]
fn lines_are_read_with_their_limits() {
    let (lines, end) = ident_ref::run(b"hello\r\nSSH-2.0-x c\nrest", IDENT);
    assert_eq!(lines, vec![(&b"hello"[..], LineTerminator::CrLf)]);
    match end {
        RefOutcome::Identification { ident, consumed_total } => {
            assert_eq!(ident.software_version, b"x");
            assert_eq!(ident.comments, Some(&b"c"[..]));
            assert_eq!(consumed_total, 19);
        }
        other => panic!("{other:?}"),
    }
    let short = IdentLimits { max_prelude_lines: 0, ..IDENT };
    assert_eq!(ident_ref::run(b"a\n", short).1, RefOutcome::Error(IdentError::TooManyPreludeLines));
    let few = IdentLimits { max_prelude_bytes: 1, ..IDENT };
    assert_eq!(ident_ref::run(b"a\n", few).1, RefOutcome::Error(IdentError::PreludeBytesExceeded));
    let narrow = IdentLimits { max_prelude_line: 4, max_identification_line: 8, ..IDENT };
    assert_eq!(ident_ref::run(b"abcd", narrow).1, RefOutcome::Error(IdentError::PreludeLineTooLong));
    assert_eq!(ident_ref::run(b"SSH-2.0-x\n", narrow).1, RefOutcome::Error(IdentError::IdentificationTooLong));
    assert_eq!(ident_ref::run(b"SSH-", IDENT).1, RefOutcome::Incomplete);
    assert_eq!(ident_ref::run(b"SSH-1.5-x\n", IDENT).1, RefOutcome::Error(IdentError::UnsupportedVersion));
    let bad = |e| IdentError::InvalidIdentification(e);
    for (line, e) in [
        (&b"SSH-2.0"[..], InvalidIdentification::MissingSeparator),
        (b"SSH- -x", InvalidIdentification::BadProtocolVersion),
        (b"SSH-2.0-", InvalidIdentification::BadSoftwareVersion),
        (b"SSH-2.0-x\r", InvalidIdentification::ControlCharacter),
    ] {
        assert_eq!(parse_content(line, LineTerminator::Lf).map(|_| ()), Err(bad(e)), "{line:?}");
    }
    assert_eq!(starts_ident(b"SSH"), None);
    assert_eq!(starts_ident(b"SSX"), Some(false));
    assert!(local_software_version_ok(&[b'x'; 245]));
    assert!(!local_software_version_ok(&[b'x'; 246]));
}

#[test]
fn delivery_does_not_change_lines() {
    let stream = b"one\ntwo\r\nSSH-1.99-y\r\n";
    for cut in 0..stream.len() {
        let (a, o) = ident_ref::run(&stream[..cut], IDENT);
        let (b, _) = ident_ref::run(stream, IDENT);
        assert_eq!(b[..a.len()], a[..]);
        if o != RefOutcome::Incomplete {
            panic!("decided early at {cut}");
        }
    }
    let (l, o) = ident_ref::run(stream, IDENT);
    assert_eq!(ident_ref::run(b"one\ntwo\r\nSSH-1.99-y\r\nmore", IDENT), (l, o));
}

#[test]
fn terminators_are_changed() {
    assert_eq!(transform_terminators(b"a\nb\r\n", 1), b"a\r\nb\r\n");
    assert_eq!(transform_terminators(b"a\r\n\r\r\n\r", 2), b"a\n\r\n\r");
    assert_eq!(transform_terminators(b"a", 3), b"a\r\n");
    assert_eq!(transform_terminators(b"a\n", 3), b"a\n");
    assert_eq!(transform_terminators(b"a\n", 0), b"a\n");
    let raw = b"x\ny\r\nz\r";
    assert_eq!(
        transform_terminators(&transform_terminators(raw, 1), 2),
        transform_terminators(raw, 2)
    );
}

#[test]
fn line_readers_are_judged() {
    let c = gen_ident_case(&[2, 1, 9, b'S', b'S', b'H', b'-', b'2', b'.', b'0', b'-', b'x', b'\n']);
    assert_eq!(c.limits.max_identification_line, 32);
    assert_eq!(c.mode, ChunkMode::List(vec![9]));
    let ident = IdentRec {
        line: b"SSH-2.0-x".to_vec(),
        terminator: LineTerminator::Lf,
        protocol_version: b"2.0".to_vec(),
        software_version: b"x".to_vec(),
        comments: None,
        support: VersionSupport::Ssh2,
    };
    let good = Outcome::Identification { ident: ident.clone(), consumed_total: 10 };
    assert!(check_configuration(&c.stream, c.limits, &vec![], &good));
    let off = Outcome::Identification { ident: ident.clone(), consumed_total: 9 };
    assert!(!check_configuration(&c.stream, c.limits, &vec![], &off));
    assert!(!check_configuration(&c.stream, c.limits, &vec![], &Outcome::Incomplete));
    let owned = OwnedIdentification {
        line: b"SSH-2.0-x".to_vec(),
        terminator: LineTerminator::Lf,
        protocol_version: "2.0".to_string(),
        software_version: "x".to_string(),
        comments: None,
        support: VersionSupport::Ssh2,
    };
    assert!(check_ident(b"SSH-2.0-x\n", &ident, &owned, 1, 10));
    assert!(!check_ident(b"SSH-2.0-x\n", &ident, &owned, 0, 10));
}

#[test]
fn packets_are_framed() {
    assert_eq!(minimal_padding(0), 11);
    assert_eq!(minimal_padding(7), 4);
    assert_eq!(framed_len(1), 16);
    let f = encode_initial_packet(&[21], 0xAA);
    assert_eq!(f, [0, 0, 0, 12, 10, 21, 0xAA, 0xAA, 0xAA, 0xAA, 0xAA, 0xAA, 0xAA, 0xAA, 0xAA, 0xAA]);
    assert_eq!(decode(&f, 64), Ok(RefStep::Complete { payload: 5..6, padding: 6..16, total_len: 16 }));
    assert_eq!(decode(&f[..15], 64), Ok(RefStep::NeedMore { total_len: Some(16) }));
    assert_eq!(decode(&f[..3], 64), Ok(RefStep::NeedMore { total_len: None }));
    assert_eq!(max_packet_length(65536), Some(65532));
    assert_eq!(max_packet_length(11), None);
}

#[test]
fn each_header_rule_fires() {
    for (variant, error) in [
        (1, Some(PacketError::BadPadding { packet_length: 20, padding_length: 3 })),
        (2, Some(PacketError::BadPadding { packet_length: 20, padding_length: 20 })),
        (3, Some(PacketError::Misaligned { packet_length: 21 })),
        (4, Some(PacketError::TooSmall { packet_length: 4 })),
        (5, Some(PacketError::TooLarge { packet_length: 65, limit: 64 })),
        (6, None),
    ] {
        let (header, e) = corrupt(variant, 20, 4, 64);
        assert_eq!(e, error);
        let cap = if variant == 5 { 64 } else { u32::MAX };
        if let Some(e) = e {
            assert_eq!(decode(&header, cap), Err(e));
            assert!(check_decode(&header, cap, &Err(e)));
        }
    }
    let answer = Ok(Decoded::NeedMore { total_len: Some(24) });
    assert!(check_decode(&[0, 0, 0, 20, 4], 64, &answer));
    assert!(!check_decode(&[0, 0, 0, 20], 16, &answer));
}

#[test]
fn encoders_are_judged() {
    let f = encode_initial_packet(b"pay", 9);
    let mut out = f.clone();
    out.extend_from_slice(&[0; 8]);
    let e = Encoded { size: f.len(), out, refused: Some((f.len(), f.len() - 1)), short: vec![0xAA; f.len() - 1] };
    assert!(check_encode(&e, b"pay", 9));
    assert!(!check_encode(&e, b"pay", 8));
    let dirty = Encoded { short: vec![0; f.len() - 1], ..e };
    assert!(!check_encode(&dirty, b"pay", 9));
}

#[test]
fn buffers_of_a_delivery() {
    let f = encode_initial_packet(&[21], 0);
    let seen = delivered_buffers(&f, &ChunkMode::Fixed(10), 64);
    assert_eq!(seen, vec![f[..10].to_vec(), f.clone(), vec![]]);
    let bad = delivered_buffers(&[0xff; 8], &ChunkMode::Fixed(4), 64);
    assert_eq!(bad, vec![vec![0xff; 4]]);
}

#[test]
fn packet_cases_are_drawn() {
    let c = gen_initial_case(&[0b0101_1001, 3, 0, 7, 8]);
    assert_eq!((c.limits.max_packet_length, c.limits.max_packets, c.limits.max_bytes), (64, 1, 1024));
    assert!(c.structured);
    assert_eq!(c.mode, ChunkMode::Fixed(3));
    assert_eq!(c.rest, [7, 8]);
    // One valid NEWKEYS, one empty-payload frame, one of the largest size.
    let (cases, stream) = gen_packets(&[3, 5 << 3, 1, (5 << 3) | 6, 2, 7, 3], 64);
    assert_eq!(cases[0].payload, [21]);
    assert_eq!(cases[0].frame, encode_initial_packet(&[21], 1));
    assert!(cases[2].max_size);
    assert_eq!(cases[2].frame.len(), 60 + 4);
    assert_eq!(stream.len(), 16 + 16 + 64);
}

#[test]
fn messages_are_classified() {
    assert_eq!(classify(&[]), RefMessage::Empty);
    assert_eq!(classify(&[2, 0, 0, 0, 1, 9]), RefMessage::Skipped(SkippedMessage::Ignored { data_len: 1 }));
    assert_eq!(classify(&[2, 0, 0]), RefMessage::Malformed(2));
    assert_eq!(classify(&[21]), RefMessage::UnsupportedTransition(21));
    assert_eq!(classify(&[35]), RefMessage::UnsupportedTransition(35));
    assert_eq!(classify(&[90]), RefMessage::Unexpected(90));
    assert_eq!(kex_name(b"ext-info-s"), KexName::ExtInfoServer);
    assert_eq!(kex_name(b"kex-strict-c"), KexName::StrictKexClient);
    assert_eq!(kex_name(b"kex-strict-s-v00@openssh.com"), KexName::StrictKexServer);
    assert_eq!(kex_name(b"curve25519-sha256"), KexName::Method);
}

#[test]
fn budgets_end_a_sequence() {
    let one = encode_initial_packet(&[3, 0, 0, 0, 7], 0);
    let mut stream = one.clone();
    stream.extend_from_slice(&one);
    let limits = InitialLimits { max_packets: 1, ..INITIAL };
    let skipped = Observed::Skipped {
        message: SkippedMessage::Unimplemented { sequence_number: 7 },
        consumed: one.len(),
    };
    let over = Observed::Error(InitialError::PacketBudgetExceeded { limit: 1 });
    let reports = vec![
        Reported { step: skipped.clone(), packets: 1, bytes: one.len() },
        Reported { step: over.clone(), packets: 1, bytes: one.len() },
    ];
    assert!(check_initial_packets(&stream, &limits, &reports, &vec![skipped.clone(), over.clone()]));
    assert!(!check_initial_packets(&stream, &INITIAL, &reports, &vec![skipped, over]));
    let tight = InitialLimits { max_bytes: one.len() - 1, ..INITIAL };
    let mut m = Model { packets: 0, bytes: 0 };
    assert_eq!(
        model_step(&mut m, &stream, &tight),
        ModelStep::Observed(Observed::Error(InitialError::ByteBudgetExceeded { limit: one.len() - 1 }))
    );
}

/// A machine made of the line reader and the packet model.
struct RefMachine {
    role: Role,
    limits: ModelLimits,
    sample: usize,
    reader: RefReader,
    model: Model,
    buf: Vec<u8>,
    stage: u8,
    end: Option<End>,
}

const ROOM: usize = 1 << 20;

impl RefMachine {
    fn new(role: Role, limits: ModelLimits, sample: usize) -> Self {
        RefMachine {
            role,
            limits,
            sample,
            reader: RefReader::new(limits.ident),
            model: Model { packets: 0, bytes: 0 },
            buf: vec![],
            stage: STAGE_IDENT,
            end: None,
        }
    }

    fn finish(&mut self, end: End) -> MStep {
        self.stage = STAGE_FINISHED;
        self.end = Some(end.clone());
        MStep::Finished(end)
    }
}

impl Machine for RefMachine {
    fn feed(&mut self, data: &[u8]) {
        if self.end.is_none() {
            self.buf.extend_from_slice(data);
        }
    }

    fn step(&mut self) -> MStep {
        if let Some(e) = &self.end {
            return MStep::Finished(e.clone());
        }
        if self.stage == STAGE_IDENT {
            if self.role == Role::Client && starts_ident(&self.buf) == Some(false) {
                let n = self.buf.len().min(self.sample);
                let end = End::UnexpectedInput { sample: self.buf[..n].to_vec(), truncated: self.buf.len() > n };
                self.buf.clear();
                return self.finish(end);
            }
            let buf = self.buf.clone();
            return match self.reader.feed(&buf) {
                Err(e) => self.finish(End::Error(InitialError::Ident(e))),
                Ok(LineStep::NeedMore) => MStep::NeedMore,
                Ok(LineStep::Prelude { line, terminator, consumed }) => {
                    self.buf.drain(..consumed);
                    MStep::Event(Ev::Prelude { line: line.to_vec(), terminator })
                }
                Ok(LineStep::Identification { ident, consumed }) => {
                    self.buf.drain(..consumed);
                    self.stage = STAGE_PACKETS;
                    MStep::Event(Ev::Ident(OwnedIdentification {
                        line: ident.line.to_vec(),
                        terminator: ident.terminator,
                        protocol_version: String::from_utf8(ident.protocol_version.to_vec()).unwrap(),
                        software_version: String::from_utf8(ident.software_version.to_vec()).unwrap(),
                        comments: ident.comments.map(<[u8]>::to_vec),
                        support: ident.support,
                    }))
                }
            };
        }
        if self.limits.banner_only {
            return self.finish(End::BannerOnly);
        }
        let initial = InitialLimits {
            max_packet_length: self.limits.cap,
            max_packets: self.limits.max_packets,
            max_bytes: self.limits.max_bytes,
        };
        let buf = self.buf.clone();
        match model_step(&mut self.model, &buf, &initial) {
            ModelStep::NeedMore => MStep::NeedMore,
            ModelStep::Malformed(number) => {
                let pad = buf[4] as usize;
                let total = 4 + u32::from_be_bytes([buf[0], buf[1], buf[2], buf[3]]) as usize;
                let p = &buf[5..total - pad];
                let error = match number {
                    1 => messages_ref::disconnect(p).map(|_| ()).unwrap_err(),
                    2 => messages_ref::ignore(p).map(|_| ()).unwrap_err(),
                    3 => messages_ref::unimplemented(p).map(|_| ()).unwrap_err(),
                    4 => messages_ref::debug(p).map(|_| ()).unwrap_err(),
                    _ => messages_ref::kexinit(p).map(|_| ()).unwrap_err(),
                };
                self.finish(End::Error(InitialError::Message { number, error }))
            }
            ModelStep::Observed(Observed::Skipped { message, consumed }) => {
                self.buf.drain(..consumed);
                MStep::Event(Ev::Skipped(message))
            }
            ModelStep::Observed(Observed::Disconnect { reason_code, description, language_tag, consumed }) => {
                self.buf.drain(..consumed);
                self.finish(End::Disconnected { reason_code, description, language_tag })
            }
            ModelStep::Observed(Observed::KexInit { kexinit, payload, consumed }) => {
                self.buf.drain(..consumed);
                let anomalies = match classify(&payload) {
                    RefMessage::KexInit(k) => k.anomalies(),
                    _ => unreachable!(),
                };
                let unexamined_bytes = self.buf.len();
                self.finish(End::Proposal(Box::new(EndProposal {
                    kexinit: *kexinit,
                    raw_payload: payload,
                    anomalies,
                    unexamined_bytes,
                })))
            }
            ModelStep::Observed(Observed::Error(e)) => self.finish(End::Error(e)),
        }
    }

    fn input_ended(&mut self) -> End {
        if self.end.is_none() {
            let end = End::Eof { stage: self.stage, pending_bytes: self.buf.len() };
            self.finish(end);
        }
        self.end.clone().unwrap()
    }

    fn pending(&self) -> usize {
        self.buf.len()
    }

    fn room(&self) -> usize {
        ROOM - self.buf.len()
    }

    fn stage(&self) -> u8 {
        self.stage
    }
}

fn limits(role: Role) -> ModelLimits {
    let ident = match role {
        Role::Server => IDENT,
        Role::Client => IdentLimits {
            max_prelude_lines: 0,
            max_prelude_bytes: 0,
            max_prelude_line: 255,
            max_identification_line: 255,
        },
    };
    ModelLimits { ident, cap: 65536, max_packets: 4, max_bytes: 9000, banner_only: false }
}

#[test]
fn generated_streams_meet_their_expectations() {
    let mut met = 0;
    for role in [Role::Server, Role::Client] {
        for n in 0..80u8 {
            let data = noise(n, 900);
            let mut cur = Cursor::new(&data);
            let g = generate(&mut cur, role, 65536);
            let lim = limits(role);
            let run = |mode: &ChunkMode| drive(&mut RefMachine::new(role, lim, 16), &g.bytes, mode, true).unwrap();
            let bytewise = run(&ChunkMode::ByteAtATime);
            let chunked = run(&ChunkMode::Fixed(7));
            let whole = run(&ChunkMode::All);
            assert!(check_deliveries(&bytewise, &chunked, Some(&whole)), "{n}");
            assert!(assert_same_run(&bytewise, &chunked));
            if role == Role::Server || starts_ident(&g.bytes) != Some(false) {
                assert!(assert_ident_phase(&bytewise, &g.bytes, lim.ident, true));
            }
            if !g.mutated {
                let exp = expect(&g, &lim);
                assert!(check_expectation(&g, &bytewise, &exp, true), "{role:?} {n}: {exp:?} {bytewise:?}");
                met += 1;
            }
        }
    }
    assert!(met > 40);
}

#[test]
fn elements_are_framed_beyond_the_drawn_sizes() {
    let f = frame(&GenMsg::Ignore { data_len: 0x20_0000 }, 7, 65536);
    assert_eq!(f.len() % 8, 0);
    assert_eq!(f[..4], ((f.len() - 4) as u32).to_be_bytes());
    assert_eq!(f.last(), Some(&7));
    assert_eq!(frame(&GenMsg::OversizedClaim, 0, u32::MAX - 1), [255, 255, 255, 255, 4]);
    assert_eq!(frame(&GenMsg::OversizedClaim, 0, 65536), [0, 1, 0, 4, 4]);
    assert_eq!(frame(&GenMsg::EmptyPayload, 9, u32::MAX).len(), 16);
}

#[test]
fn a_claim_that_is_not_reached_is_no_matter() {
    let mut g = generate(&mut Cursor::new(&[]), Role::Server, u32::MAX);
    assert!(g.msgs.is_empty());
    assert!(g.ident.expect.is_ok());
    let mut lim = ModelLimits { ident: IDENT, cap: u32::MAX, max_packets: 1, max_bytes: 9000, banner_only: false };
    g.msgs.push((GenMsg::EmptyPayload, frame(&GenMsg::EmptyPayload, 0, lim.cap)));
    g.msgs.push((GenMsg::OversizedClaim, vec![255, 255, 255, 255, 4]));
    assert!(matches!(expect(&g, &lim).end, ExpEnd::Error(InitialError::EmptyPayload)));
    g.msgs[0].0 = GenMsg::Unimplemented { sequence_number: 3 };
    assert!(matches!(
        expect(&g, &lim).end,
        ExpEnd::Error(InitialError::PacketBudgetExceeded { limit: 1 })
    ));
    lim.banner_only = true;
    assert!(matches!(expect(&g, &lim).end, ExpEnd::BannerOnly));
}

#[test]
fn generated_identifications_parse_as_expected() {
    for n in 0..=255u8 {
        let data = [&[n][..], &noise(n, 300)].concat();
        let g = gen_ident(&mut Cursor::new(&data));
        match (parse_content(&g.content, g.terminator), &g.expect) {
            (Ok(i), Ok(e)) => {
                assert_eq!(i.software_version, e.software_version.as_bytes());
                assert_eq!(i.protocol_version, e.protocol_version.as_bytes());
                assert_eq!(i.comments.map(<[u8]>::to_vec), e.comments);
                assert_eq!(i.support, e.support);
            }
            (Err(a), Err(b)) => assert_eq!(a, *b),
            (a, b) => panic!("{n}: {a:?} {b:?}"),
        }
    }
}

#[test]
fn broken_machines_are_found() {
    assert_eq!(judge_step(3, STAGE_PACKETS, &MStep::NeedMore, 3, STAGE_IDENT), Some(Fault::StageBackwards));
    assert_eq!(judge_step(3, STAGE_IDENT, &MStep::NeedMore, 2, STAGE_IDENT), Some(Fault::NeedMoreConsumed));
    let ev = MStep::Event(Ev::Prelude { line: vec![], terminator: LineTerminator::Lf });
    assert_eq!(judge_step(3, STAGE_IDENT, &ev, 3, STAGE_IDENT), Some(Fault::NoProgress));
    assert_eq!(judge_step(3, STAGE_IDENT, &ev, 2, STAGE_IDENT), None);
    assert_eq!(
        judge_step(3, STAGE_IDENT, &MStep::Finished(End::BannerOnly), 3, STAGE_PACKETS),
        Some(Fault::StageNotFinished)
    );
    assert_eq!(expected_outcome_code(&End::BannerOnly), "banner_only");
    assert_eq!(expected_outcome_code(&End::Eof { stage: 0, pending_bytes: 1 }), "eof");
}

#[test]
fn probe_settings() {
    let base = ProbeConfig {
        ident: IDENT,
        max_packet_length: 65536,
        max_packets_before_kexinit: 16,
        max_bytes_before_kexinit: 262_144,
    };
    assert_eq!(probe_config(0, base, IDENT), base);
    assert_eq!(probe_config(2, base, IDENT).max_bytes_before_kexinit, 64);
    assert_eq!(probe_config(3, base, IDENT).ident.max_identification_line, 512);
    assert_eq!(probe_config(15, base, IDENT).max_packet_length, 16);
    assert_eq!(probe::model_limits(&base).cap, 65536);
    assert_eq!(local_line(b"x"), b"SSH-2.0-x\r\n");
    let s = gen_session(&[0b1101_1010, 2, b'a', b'b', 1, 4, 0, 9, 7]);
    assert_eq!((s.sel, s.eof, s.structured, s.overflow_prefix), (2, true, true, 9));
    assert_eq!(s.software.as_deref(), Some("ab"));
    assert_eq!(s.mode, ChunkMode::Fixed(3));
    assert_eq!(s.rest, [7]);
    let fresh = |room| Fresh {
        line: b"SSH-2.0-x\r\n".to_vec(),
        line_without_end: b"SSH-2.0-x".to_vec(),
        room,
        pending: 0,
        stage: 0,
    };
    assert!(check_fresh(&fresh(330), "x", 330, 64, 4, 255));
    assert!(!check_fresh(&fresh(320), "x", 320, 64, 4, 255));
}

#[test]
fn overflows_are_judged() {
    assert_eq!(overflow_feed(9, 4, 7), 4);
    let end = End::Error(InitialError::InputOverflow(InputOverflow { capacity: 100, pending: 3, offered: 98 }));
    let o = Overflowed {
        capacity: 100,
        room: 97,
        pending_before: 3,
        pending_after: 3,
        stage_after: STAGE_FINISHED,
        step: Some(end.clone()),
        at_input_end: end,
    };
    assert!(check_overflow(&o));
    assert!(!check_overflow(&Overflowed { pending_after: 4, ..o }));
}

#[test]
fn observer_settings_and_policy() {
    let base = ObserverConfig {
        banner_only: false,
        initial: INITIAL,
        max_identification_line: 255,
        unexpected_sample: 64,
    };
    assert!(observer_config(1, base, INITIAL).banner_only);
    assert_eq!(observer_config(5, base, INITIAL).unexpected_sample, 4);
    assert_eq!(observer_config(7, base, INITIAL).initial.max_packet_length, 16);
    assert_eq!(observer::model_limits(&base).ident.max_prelude_lines, 0);
    assert!(check_sample(b"GET / HTTP", 3, 64, b"GET", false));
    assert!(check_sample(b"GET / HTTP", 10, 4, b"GET ", true));
    assert!(!check_sample(b"SSH-", 3, 64, b"SSH", false));

    let stream = b"GET / HTTP/1.1\r\n";
    let lim = observer::model_limits(&base);
    let run = drive(&mut RefMachine::new(Role::Client, lim, 64), stream, &ChunkMode::Fixed(5), true).unwrap();
    assert!(check_role_policy(&run, stream, &base, 0, &vec![]));
    let late = Run { decision_pending: Some(9), ..run };
    assert!(!check_role_policy(&late, stream, &base, 0, &vec![]));

    let banner = observer_config(1, base, INITIAL);
    let line = b"SSH-1.99-x\n";
    let lim = observer::model_limits(&banner);
    let run = drive(&mut RefMachine::new(Role::Client, lim, 64), line, &ChunkMode::All, true).unwrap();
    assert_eq!(run.end, Some(End::BannerOnly));
    assert!(check_role_policy(&run, line, &banner, 2, &vec![]));
    assert!(!check_role_policy(&run, line, &banner, 1, &vec![]));
    assert!(check_examined(&run, 11));
    assert!(check_proposal_names(&run.end, &vec![]));
}
