//! The bytes that the server sends: payloads, frames, and the three flights
//! of the exchange.

use vstd::prelude::*;
use vstd::slice::slice_subrange;
use crate::handshake::scenario::{
    array32, msg_fits, msg_views, msgs_fit, prot_fits, scenario_wf, IdentKind, Msg, MsgView, PairsView, Prot,
    ProtView, Reply, Scenario, ScenarioView,
};
use crate::kex_support::crypto::{
    derive_gcm, derived, ed25519_blob, ed25519_key_blob, ed25519_sig_blob, exchange_hash, keys_are, mpint_of,
    nonce_of, packet_of, pad_len, sha256_of, string, DirKeys, Gcm, HashInputs,
};
use crate::kex_support::keys::{
    ed25519_public, ed25519_public_of, ed25519_sign, ed25519_signature_of, x25519_public, x25519_public_of,
    x25519_shared, x25519_shared_of,
};
use crate::seqs::{copy_bytes, find_byte, first_at, head, push_all, same_bytes, tail, vecs};
use crate::tcp_support::packet_ref::{encode_initial_packet, framed};
use crate::tcp_support::stream_gen::lemma_joined_short;
use crate::text::bytes_of;
use crate::wire_core::bytes::{be32, be_u32, bool_byte, fits_u32, put_string, put_u32, ssh_string, u32_of};
use crate::wire_core::kex_ref::{assemble_ext_info, ext_info_bytes, pair_views};
use crate::wire_core::messages_ref::{kexinit_bytes, lists_bytes};

verus! {

broadcast use crate::wire_core::bytes::lemma_be32_len;

/// The software version that the client announces.
pub const SOFTWARE: &'static str = "tatami_0.1.0";

/// Unprotected binary packet (RFC 4253 section 6): `uint32 packet_length,
/// byte padding_length, payload, padding`, total a multiple of 8, padding of
/// at least 4 bytes.
pub fn frame(payload: &[u8]) -> (r: Vec<u8>)
    requires
        payload@.len() <= u32::MAX - 16,
    ensures
        r@ == framed(payload@, 0x5a),
{
    encode_initial_packet(payload, 0x5a)
}

/// The version that an identification announces.
pub open spec fn version_text(k: IdentKind) -> &'static str {
    match k {
        IdentKind::V20 => "2.0",
        IdentKind::V20LfOnly => "2.0",
        IdentKind::V199 => "1.99",
        IdentKind::V15 => "1.5",
    }
}

/// The server's identification without its terminator.
pub open spec fn ident_content(sc: ScenarioView) -> Seq<u8> {
    bytes_of("SSH-") + bytes_of(version_text(sc.ident)) + seq![45u8] + sc.software
}

/// The server's identification as it is sent.
pub open spec fn ident_bytes(sc: ScenarioView) -> Seq<u8> {
    ident_content(sc) + if sc.ident is V20LfOnly {
        seq![10u8]
    } else {
        seq![13u8, 10u8]
    }
}

/// The server's identification: content without terminator, wire bytes.
pub fn ident_line(sc: &Scenario) -> (r: (Vec<u8>, Vec<u8>))
    ensures
        r.0@ == ident_content(sc@),
        r.1@ == ident_bytes(sc@),
{
    let version: &'static str = match sc.ident {
        IdentKind::V20 | IdentKind::V20LfOnly => "2.0",
        IdentKind::V199 => "1.99",
        IdentKind::V15 => "1.5",
    };
    let mut content = copy_bytes("SSH-".as_bytes());
    push_all(&mut content, version.as_bytes());
    content.push(45);
    push_all(&mut content, sc.software.as_bytes());
    proof {
        assert(content@ =~= ident_content(sc@));
    }
    let mut wire = copy_bytes(content.as_slice());
    match sc.ident {
        IdentKind::V20LfOnly => {
            wire.push(10);
        },
        _ => {
            wire.push(13);
            wire.push(10);
        },
    }
    proof {
        assert(wire@ =~= ident_bytes(sc@));
    }
    (content, wire)
}

/// The payload of an unprotected message; `i_s` is the server's KEXINIT. An
/// unframeable length has none.
pub open spec fn msg_payload(m: MsgView, i_s: Seq<u8>) -> Seq<u8> {
    match m {
        Msg::Ignore(d) => seq![2u8] + ssh_string(d),
        Msg::Debug { always_display, message, language_tag } => seq![4u8, bool_byte(always_display)]
            + ssh_string(message) + ssh_string(language_tag),
        Msg::Unimplemented(seq) => seq![3u8] + be32(seq),
        Msg::Disconnect { reason_code, description } => seq![1u8] + be32(reason_code) + ssh_string(description)
            + ssh_string(Seq::empty()),
        Msg::Other(n) => seq![n, 0u8, 0, 0, 0],
        Msg::KexInitAgain => i_s,
        Msg::NewKeys => seq![21u8],
        Msg::ReplyAgain => seq![31u8, 0xde, 0xad],
        Msg::Malformed(mal) => mal.bytes(),
        Msg::Empty => Seq::empty(),
        Msg::BadFrame => Seq::empty(),
    }
}

/// The payload of one unprotected message.
pub fn transport_payload(m: &Msg, i_s: &[u8]) -> (r: Vec<u8>)
    requires
        msg_fits(m@),
    ensures
        r@ == msg_payload(m@, i_s@),
        r@.len() <= 0x10_0000 || r@ == i_s@,
{
    let mut p: Vec<u8> = Vec::new();
    match m {
        Msg::Ignore(d) => {
            p.push(2);
            put_string(&mut p, d.as_slice());
        },
        Msg::Debug { always_display, message, language_tag } => {
            p.push(4);
            p.push(if *always_display { 1 } else { 0 });
            put_string(&mut p, message.as_slice());
            put_string(&mut p, language_tag.as_slice());
        },
        Msg::Unimplemented(seq) => {
            p.push(3);
            put_u32(&mut p, *seq);
        },
        Msg::Disconnect { reason_code, description } => {
            p.push(1);
            put_u32(&mut p, *reason_code);
            put_string(&mut p, description.as_slice());
            let empty: [u8; 0] = [];
            proof {
                assert(empty@ =~= Seq::empty());
            }
            put_string(&mut p, empty.as_slice());
        },
        Msg::Other(n) => {
            p.push(*n);
            p.push(0);
            p.push(0);
            p.push(0);
            p.push(0);
        },
        Msg::KexInitAgain => {
            push_all(&mut p, i_s);
        },
        Msg::NewKeys => {
            p.push(21);
        },
        Msg::ReplyAgain => {
            p.push(31);
            p.push(0xde);
            p.push(0xad);
        },
        Msg::Malformed(mal) => {
            p = mal.payload();
        },
        Msg::Empty => {},
        Msg::BadFrame => {},
    }
    proof {
        assert(p@ =~= msg_payload(m@, i_s@));
    }
    p
}

/// The wire bytes of an unprotected message.
pub open spec fn msg_wire(m: MsgView, i_s: Seq<u8>) -> Seq<u8> {
    if m is BadFrame {
        seq![0xffu8, 0xff, 0xff, 0xff]
    } else {
        framed(msg_payload(m, i_s), 0x5a)
    }
}

/// Wire bytes of one unprotected server message.
pub fn wire_of(m: &Msg, i_s: &[u8]) -> (r: Vec<u8>)
    requires
        msg_fits(m@),
        i_s@.len() <= 0x10_0000,
    ensures
        r@ == msg_wire(m@, i_s@),
{
    match m {
        Msg::BadFrame => {
            let r: Vec<u8> = vec![0xff, 0xff, 0xff, 0xff];
            proof {
                assert(r@ =~= msg_wire(m@, i_s@));
            }
            r
        },
        _ => frame(transport_payload(m, i_s).as_slice()),
    }
}

/// The wire bytes of messages from the `i`-th on.
pub open spec fn msgs_wire(v: Seq<MsgView>, i: int, i_s: Seq<u8>) -> Seq<u8>
    decreases v.len() - i,
{
    if i >= v.len() {
        Seq::empty()
    } else {
        msg_wire(v[i], i_s) + msgs_wire(v, i + 1, i_s)
    }
}

fn put_msgs(out: &mut Vec<u8>, v: &Vec<Msg>, i_s: &[u8])
    requires
        msgs_fit(msg_views(v@)),
        i_s@.len() <= 0x10_0000,
    ensures
        final(out)@ == old(out)@ + msgs_wire(msg_views(v@), 0, i_s@),
{
    let ghost all = msg_views(v@);
    let mut i: usize = 0;
    while i < v.len()
        invariant
            i <= v@.len(),
            all == msg_views(v@),
            msgs_fit(all),
            i_s@.len() <= 0x10_0000,
            out@ + msgs_wire(all, i as int, i_s@) == old(out)@ + msgs_wire(all, 0, i_s@),
        decreases v@.len() - i,
    {
        proof {
            assert(msg_fits(all[i as int]));
        }
        let ghost before = out@;
        let w = wire_of(&v[i], i_s);
        push_all(out, w.as_slice());
        proof {
            assert(out@ + msgs_wire(all, i + 1, i_s@) =~= before + msgs_wire(all, i as int, i_s@));
        }
        i = i + 1;
    }
    proof {
        assert(out@ + Seq::<u8>::empty() =~= out@);
    }
}

/// Too many extensions: 65 of them, each named `a` with an empty value.
pub open spec fn too_many_pairs() -> PairsView {
    Seq::new(65, |i: int| (seq![97u8], Seq::<u8>::empty()))
}

/// The payload of a protected message.
pub open spec fn prot_bytes(p: ProtView, i_s: Seq<u8>) -> Seq<u8> {
    match p {
        Prot::ExtInfo(pairs) => ext_info_bytes(pairs),
        Prot::ExtInfoTooMany => ext_info_bytes(too_many_pairs()),
        Prot::ServiceAccept(name) => seq![6u8] + ssh_string(name),
        Prot::Disconnect { reason_code, description } => msg_payload(
            Msg::Disconnect { reason_code, description },
            i_s,
        ),
        Prot::KexInit => i_s,
        Prot::Ignore(d) => msg_payload(Msg::Ignore(d), i_s),
        Prot::Debug { always_display, message, language_tag } => msg_payload(
            Msg::Debug { always_display, message, language_tag },
            i_s,
        ),
        Prot::Unimplemented(seq) => msg_payload(Msg::Unimplemented(seq), i_s),
        Prot::Other(n) => seq![n, 0u8, 0, 0, 0],
        Prot::Empty => Seq::empty(),
        Prot::Malformed(mal) => mal.bytes(),
        Prot::BadLength => seq![2u8, 0, 0, 0, 0],
    }
}

proof fn lemma_pairs_bytes_short(pairs: PairsView, i: int)
    requires
        0 <= i <= pairs.len(),
        forall|j: int| 0 <= j < pairs.len() ==> (#[trigger] pairs[j]).0.len() <= 64 && pairs[j].1.len() <= 64,
    ensures
        crate::wire_core::kex_ref::pairs_bytes(pairs, i).len() <= 136 * (pairs.len() - i),
    decreases pairs.len() - i,
{
    if i < pairs.len() {
        lemma_pairs_bytes_short(pairs, i + 1);
        assert(pairs[i].0.len() <= 64 && pairs[i].1.len() <= 64);
    }
}

/// The payload of one protected message.
pub fn prot_payload(p: &Prot, i_s: &[u8]) -> (r: Vec<u8>)
    requires
        prot_fits(p@),
        i_s@.len() <= 0x10_0000,
    ensures
        r@ == prot_bytes(p@, i_s@),
        r@.len() <= 0x10_0000,
{
    match p {
        Prot::ExtInfo(pairs) => {
            proof {
                lemma_pairs_bytes_short(pair_views(pairs@), 0);
                assert forall|i: int| 0 <= i < pairs@.len() implies fits_u32((#[trigger] pair_views(pairs@)[i]).0)
                    && fits_u32(pair_views(pairs@)[i].1) by {
                    assert(pair_views(pairs@)[i].0.len() <= 64 && pair_views(pairs@)[i].1.len() <= 64);
                }
            }
            assemble_ext_info(pairs)
        },
        Prot::ExtInfoTooMany => {
            let mut pairs: Vec<(Vec<u8>, Vec<u8>)> = Vec::new();
            let mut i: usize = 0;
            while i < 65
                invariant
                    i <= 65,
                    pairs@.len() == i,
                    forall|j: int| 0 <= j < i ==> (#[trigger] pairs@[j]).0@ == seq![97u8] && pairs@[j].1@
                        == Seq::<u8>::empty(),
                decreases 65 - i,
            {
                let name: Vec<u8> = vec![97];
                let value: Vec<u8> = Vec::new();
                proof {
                    assert(name@ =~= seq![97u8]);
                    assert(value@ =~= Seq::empty());
                }
                pairs.push((name, value));
                i = i + 1;
            }
            proof {
                assert(pair_views(pairs@) =~= too_many_pairs());
                lemma_pairs_bytes_short(too_many_pairs(), 0);
            }
            assemble_ext_info(&pairs)
        },
        Prot::ServiceAccept(name) => {
            let mut out: Vec<u8> = Vec::new();
            out.push(6);
            put_string(&mut out, name.as_slice());
            proof {
                assert(out@ =~= prot_bytes(p@, i_s@));
            }
            out
        },
        Prot::Disconnect { reason_code, description } => transport_payload(
            &Msg::Disconnect { reason_code: *reason_code, description: copy_bytes(description.as_slice()) },
            i_s,
        ),
        Prot::KexInit => copy_bytes(i_s),
        Prot::Ignore(d) => transport_payload(&Msg::Ignore(copy_bytes(d.as_slice())), i_s),
        Prot::Debug { always_display, message, language_tag } => transport_payload(
            &Msg::Debug {
                always_display: *always_display,
                message: copy_bytes(message.as_slice()),
                language_tag: copy_bytes(language_tag.as_slice()),
            },
            i_s,
        ),
        Prot::Unimplemented(seq) => transport_payload(&Msg::Unimplemented(*seq), i_s),
        Prot::Other(n) => {
            let r: Vec<u8> = vec![*n, 0, 0, 0, 0];
            proof {
                assert(r@ =~= prot_bytes(p@, i_s@));
            }
            r
        },
        Prot::Empty => {
            let r: Vec<u8> = Vec::new();
            proof {
                assert(r@ =~= prot_bytes(p@, i_s@));
            }
            r
        },
        Prot::Malformed(mal) => mal.payload(),
        Prot::BadLength => {
            let r: Vec<u8> = vec![2, 0, 0, 0, 0];
            proof {
                assert(r@ =~= prot_bytes(p@, i_s@));
            }
            r
        },
    }
}

/// The server's KEXINIT payload.
pub open spec fn server_kexinit(sc: ScenarioView) -> Seq<u8> {
    kexinit_bytes(sc.server.fields())
}

proof fn lemma_lists_short(names: Seq<Seq<Seq<u8>>>, i: int)
    requires
        0 <= i <= names.len(),
        forall|j: int| 0 <= j < names.len() ==> crate::tcp_support::stream_gen::moderate(#[trigger] names[j], 5),
    ensures
        lists_bytes(names, i).len() <= 1000 * (names.len() - i),
    decreases names.len() - i,
{
    if i < names.len() {
        lemma_lists_short(names, i + 1);
        assert(crate::tcp_support::stream_gen::moderate(names[i], 5));
        lemma_joined_short(names[i]);
    }
}

proof fn lemma_kexinit_short(sc: ScenarioView)
    requires
        scenario_wf(sc),
    ensures
        server_kexinit(sc).len() <= 0x10_0000,
{
    lemma_lists_short(sc.server.slots, 0);
}

/// The prelude lines from the `i`-th on, as they are sent.
pub open spec fn prelude_wire(lines: Seq<Seq<u8>>, i: int) -> Seq<u8>
    decreases lines.len() - i,
{
    if i >= lines.len() {
        Seq::empty()
    } else {
        lines[i] + seq![13u8, 10u8] + prelude_wire(lines, i + 1)
    }
}

/// The first flight: prelude, identification, messages before KEXINIT, the
/// KEXINIT, the guess, and the messages before the reply. None of it depends
/// on the client.
pub open spec fn first_bytes(sc: ScenarioView) -> Seq<u8> {
    let i_s = server_kexinit(sc);
    prelude_wire(sc.prelude, 0) + ident_bytes(sc) + msgs_wire(sc.pre_kexinit, 0, i_s) + framed(i_s, 0x5a)
        + (match sc.guess {
        Some(g) => framed(seq![g, 0xde, 0xad], 0x5a),
        None => Seq::empty(),
    }) + msgs_wire(sc.before_reply, 0, i_s)
}

/// Builds the first flight.
pub fn first_flight(sc: &Scenario) -> (r: Vec<u8>)
    requires
        scenario_wf(sc@),
    ensures
        r@ == first_bytes(sc@),
{
    let ghost lines = vecs(sc.prelude@);
    let mut wire: Vec<u8> = Vec::new();
    let mut i: usize = 0;
    proof {
        assert(wire@ + prelude_wire(lines, 0) =~= prelude_wire(lines, 0));
    }
    while i < sc.prelude.len()
        invariant
            i <= sc.prelude@.len(),
            lines == vecs(sc.prelude@),
            wire@ + prelude_wire(lines, i as int) == prelude_wire(lines, 0),
        decreases sc.prelude@.len() - i,
    {
        let ghost before = wire@;
        push_all(&mut wire, sc.prelude[i].as_slice());
        wire.push(13);
        wire.push(10);
        proof {
            assert(wire@ + prelude_wire(lines, i + 1) =~= before + prelude_wire(lines, i as int));
        }
        i = i + 1;
    }
    proof {
        assert(wire@ + Seq::<u8>::empty() =~= wire@);
        lemma_kexinit_short(sc@);
    }
    let (content, ident) = ident_line(sc);
    push_all(&mut wire, ident.as_slice());
    let i_s = sc.server.payload();
    put_msgs(&mut wire, &sc.pre_kexinit, i_s.as_slice());
    let f = frame(i_s.as_slice());
    push_all(&mut wire, f.as_slice());
    let ghost before = wire@;
    if let Some(g) = sc.guess {
        let junk: [u8; 3] = [g, 0xde, 0xad];
        proof {
            assert(junk@ =~= seq![g, 0xde, 0xad]);
        }
        let f = frame(junk.as_slice());
        push_all(&mut wire, f.as_slice());
    } else {
        proof {
            assert(before + Seq::<u8>::empty() =~= before);
        }
    }
    put_msgs(&mut wire, &sc.before_reply, i_s.as_slice());
    wire
}

/// The client's identification without its terminator.
pub open spec fn client_line() -> Seq<u8> {
    bytes_of("SSH-2.0-") + bytes_of(SOFTWARE)
}

fn client_identification() -> (r: Vec<u8>)
    ensures
        r@ == client_line(),
{
    let mut v = copy_bytes("SSH-2.0-".as_bytes());
    push_all(&mut v, SOFTWARE.as_bytes());
    v
}

/// What a client packet got wrong.
#[derive(Clone, Copy, Debug, PartialEq, Eq, Structural)]
pub enum ClientFault {
    /// There is no identification line.
    NoLine,
    /// Fewer than four bytes of padding.
    ShortPadding,
    /// The packet is not a multiple of eight bytes.
    Misaligned,
    /// The packet or its padding ends behind the output.
    TruncatedPacket,
    /// KEXINIT and KEX_ECDH_INIT are not there.
    MissingMessages,
    /// The first message is not KEXINIT.
    NotKexInit,
    /// The second message is not KEX_ECDH_INIT.
    NotEcdhInit,
    /// The client's ephemeral key is not a string of 32 bytes.
    BadEphemeral,
}

/// The unprotected packets from `pos` on, up to and with NEWKEYS: their
/// payloads, and the position behind them.
pub open spec fn unprotected_read(out: Seq<u8>, pos: int) -> Result<(Seq<Seq<u8>>, int), ClientFault>
    decreases out.len() - pos,
{
    if out.len() - pos < 5 {
        Ok((Seq::empty(), pos))
    } else {
        let len = u32_of(out.subrange(pos, pos + 4)) as int;
        let pad = out[pos + 4] as int;
        if pad < 4 {
            Err(ClientFault::ShortPadding)
        } else if (4 + len) % 8 != 0 {
            Err(ClientFault::Misaligned)
        } else if pos + 4 + len > out.len() || len < pad + 1 {
            Err(ClientFault::TruncatedPacket)
        } else {
            let payload = out.subrange(pos + 5, pos + 4 + len - pad);
            if payload == seq![21u8] {
                Ok((seq![payload], pos + 4 + len))
            } else {
                match unprotected_read(out, pos + 4 + len) {
                    Err(e) => Err(e),
                    Ok((more, end)) => Ok((seq![payload] + more, end)),
                }
            }
        }
    }
}

/// Parses the client's unprotected packets (after the identification line)
/// up to and including NEWKEYS: the payloads and the bytes consumed.
pub fn parse_unprotected(out: &[u8]) -> (r: Result<(Vec<Vec<u8>>, usize), ClientFault>)
    ensures
        match unprotected_read(out@, 0) {
            Ok((payloads, end)) => r matches Ok(v) && vecs(v.0@) == payloads && v.1 == end && v.1 <= out@.len(),
            Err(e) => r matches Err(f) && f == e,
        },
{
    let mut payloads: Vec<Vec<u8>> = Vec::new();
    let mut pos: usize = 0;
    let ghost goal = unprotected_read(out@, 0);
    while out.len() - pos >= 5
        invariant
            pos <= out@.len(),
            goal == unprotected_read(out@, 0),
            match unprotected_read(out@, pos as int) {
                Ok((more, end)) => goal == Ok::<(Seq<Seq<u8>>, int), ClientFault>(
                    (vecs(payloads@) + more, end),
                ),
                Err(e) => goal == Err::<(Seq<Seq<u8>>, int), ClientFault>(e),
            },
        decreases out@.len() - pos,
    {
        let claimed: u32 = be_u32(slice_subrange(out, pos, pos + 4));
        let pad: usize = out[pos + 4] as usize;
        if pad < 4 {
            return Err(ClientFault::ShortPadding);
        }
        if (4 + claimed as u64) % 8 != 0 {
            return Err(ClientFault::Misaligned);
        }
        let left: usize = out.len() - pos - 4;
        if claimed as u64 > left as u64 || (claimed as u64) < pad as u64 + 1 {
            return Err(ClientFault::TruncatedPacket);
        }
        let len: usize = claimed as usize;
        let payload = copy_bytes(slice_subrange(out, pos + 5, pos + 4 + len - pad));
        let ghost before = vecs(payloads@);
        let ghost old_pos = pos;
        let ghost v = payload@;
        pos = pos + 4 + len;
        let stop: bool = payload.len() == 1 && payload[0] == 21;
        proof {
            if stop {
                assert(payload@ =~= seq![21u8]);
            }
        }
        payloads.push(payload);
        proof {
            assert(vecs(payloads@) =~= before.push(v));
            if stop {
                assert(vecs(payloads@) =~= before + seq![v]);
            } else if let Ok((more, end)) = unprotected_read(out@, pos as int) {
                assert(vecs(payloads@) + more =~= before + (seq![v] + more));
            }
        }
        if stop {
            return Ok((payloads, pos));
        }
    }
    proof {
        assert(vecs(payloads@) + Seq::<Seq<u8>>::empty() =~= vecs(payloads@));
    }
    Ok((payloads, pos))
}

/// The client's KEXINIT and its ephemeral key, from all it has sent so far.
pub open spec fn opening_read(out: Seq<u8>) -> Result<(Seq<u8>, Seq<u8>), ClientFault> {
    let line = first_at(out, 10, 0);
    if line >= out.len() {
        Err(ClientFault::NoLine)
    } else {
        match unprotected_read(out.skip(line + 1), 0) {
            Err(e) => Err(e),
            Ok((payloads, end)) => if payloads.len() < 2 {
                Err(ClientFault::MissingMessages)
            } else if payloads[0].len() == 0 || payloads[0][0] != 20 {
                Err(ClientFault::NotKexInit)
            } else if payloads[1].len() == 0 || payloads[1][0] != 30 {
                Err(ClientFault::NotEcdhInit)
            } else if payloads[1].len() != 37 || payloads[1].subrange(1, 5) != seq![0u8, 0, 0, 32] {
                Err(ClientFault::BadEphemeral)
            } else {
                Ok((payloads[0], payloads[1].skip(5)))
            },
        }
    }
}

/// Finds the client's KEXINIT and its ephemeral key.
pub fn client_opening(out: &[u8]) -> (r: Result<(Vec<u8>, [u8; 32]), ClientFault>)
    ensures
        match opening_read(out@) {
            Ok((i_c, q_c)) => r matches Ok(v) && v.0@ == i_c && v.1@ == q_c,
            Err(e) => r matches Err(f) && f == e,
        },
{
    let line: usize = find_byte(out, 10);
    if line >= out.len() {
        return Err(ClientFault::NoLine);
    }
    let (payloads, end) = match parse_unprotected(tail(out, line + 1)) {
        Ok(v) => v,
        Err(e) => {
            return Err(e);
        },
    };
    if payloads.len() < 2 {
        return Err(ClientFault::MissingMessages);
    }
    proof {
        assert(vecs(payloads@)[0] == payloads@[0]@);
        assert(vecs(payloads@)[1] == payloads@[1]@);
    }
    if payloads[0].len() == 0 || payloads[0][0] != 20 {
        return Err(ClientFault::NotKexInit);
    }
    if payloads[1].len() == 0 || payloads[1][0] != 30 {
        return Err(ClientFault::NotEcdhInit);
    }
    if payloads[1].len() != 37 {
        return Err(ClientFault::BadEphemeral);
    }
    let length: [u8; 4] = [0, 0, 0, 32];
    proof {
        assert(length@ =~= seq![0u8, 0, 0, 32]);
    }
    if !same_bytes(slice_subrange(payloads[1].as_slice(), 1, 5), length.as_slice()) {
        return Err(ClientFault::BadEphemeral);
    }
    Ok((copy_bytes(payloads[0].as_slice()), array32(tail(payloads[1].as_slice(), 5))))
}

/// The server's ephemeral key as the reply carries it.
pub open spec fn reply_q_s(sc: ScenarioView) -> Seq<u8> {
    let q_s = x25519_public_of(sc.server_secret);
    match sc.reply {
        Reply::QsZero => Seq::new(32, |i: int| 0u8),
        Reply::QsShort => q_s.take(31),
        _ => q_s,
    }
}

/// The host key blob as the reply carries it.
pub open spec fn reply_k_s(sc: ScenarioView) -> Seq<u8> {
    let pk = ed25519_public_of(sc.host_seed);
    match sc.reply {
        Reply::KsAlgRsa => ssh_string(bytes_of("ssh-rsa")) + ssh_string(pk),
        Reply::KsKey31 => ed25519_blob(pk.take(31)),
        Reply::KsMalformed => seq![0u8, 0, 0, 9, 120],
        _ => ed25519_blob(pk),
    }
}

/// What the exchange hash is taken of, from what both sides sent.
pub open spec fn hashed(sc: ScenarioView, i_c: Seq<u8>, q_c: Seq<u8>) -> Seq<u8> {
    ssh_string(client_line()) + ssh_string(ident_content(sc)) + ssh_string(i_c) + ssh_string(server_kexinit(sc))
        + ssh_string(reply_k_s(sc)) + ssh_string(q_c) + ssh_string(reply_q_s(sc)) + mpint_of(
        x25519_shared_of(sc.server_secret, q_c),
    )
}

/// The exchange hash.
pub open spec fn hash_of(sc: ScenarioView, i_c: Seq<u8>, q_c: Seq<u8>) -> Seq<u8> {
    sha256_of(hashed(sc, i_c, q_c))
}

/// A signature with one bit flipped.
pub open spec fn flipped(sig: Seq<u8>, flip: u8) -> Seq<u8> {
    let i = (flip % 64) as int;
    sig.update(i, sig[i] ^ (1u8 << ((flip % 8) as u8)))
}

/// The signature blob as the reply carries it.
pub open spec fn reply_signature(sc: ScenarioView, h: Seq<u8>) -> Seq<u8> {
    let sig = ed25519_signature_of(sc.host_seed, h);
    match sc.reply {
        Reply::WrongSig(flip) => ed25519_blob(flipped(sig, flip)),
        Reply::SigOverWrongHash => ed25519_blob(
            ed25519_signature_of(sc.host_seed, h.update(0, h[0] ^ 0x80)),
        ),
        Reply::SigAlgRsa => ssh_string(bytes_of("ssh-rsa")) + ssh_string(sig),
        Reply::SigTrailing => ed25519_blob(sig) + seq![0u8],
        Reply::SigShort => ed25519_blob(sig.take(63)),
        _ => ed25519_blob(sig),
    }
}

/// The reply's payload.
pub open spec fn reply_bytes(sc: ScenarioView, i_c: Seq<u8>, q_c: Seq<u8>) -> Seq<u8> {
    if sc.reply is Truncated {
        seq![31u8, 0xde, 0xad]
    } else {
        let body = seq![31u8] + ssh_string(reply_k_s(sc)) + ssh_string(reply_q_s(sc)) + ssh_string(
            reply_signature(sc, hash_of(sc, i_c, q_c)),
        );
        if sc.reply is Trailing {
            body.push(0)
        } else {
            body
        }
    }
}

/// What the server computes for its reply.
#[derive(Clone, Debug)]
pub struct Exchange {
    pub payload: Vec<u8>,
    /// The exchange hash.
    pub h: [u8; 32],
    /// The shared secret.
    pub k: [u8; 32],
}

fn named_blob(name: &'static str, content: &[u8]) -> (r: Vec<u8>)
    requires
        bytes_of(name).len() <= 64,
        content@.len() <= 64,
    ensures
        r@ == ssh_string(bytes_of(name)) + ssh_string(content@),
        r@.len() <= 200,
{
    let mut b = string(name.as_bytes());
    put_string(&mut b, content);
    b
}

proof fn lemma_names_short()
    ensures
        bytes_of("ssh-rsa").len() == 7,
        bytes_of("ssh-ed25519").len() == 11,
        bytes_of("SSH-2.0-").len() == 8,
        bytes_of(SOFTWARE).len() == 12,
        bytes_of("SSH-").len() == 4,
        bytes_of("2.0").len() == 3,
        bytes_of("1.99").len() == 4,
        bytes_of("1.5").len() == 3,
{
    reveal_strlit("ssh-rsa");
    reveal_strlit("ssh-ed25519");
    reveal_strlit("SSH-2.0-");
    reveal_strlit("tatami_0.1.0");
    reveal_strlit("SSH-");
    reveal_strlit("2.0");
    reveal_strlit("1.99");
    reveal_strlit("1.5");
    crate::text::lemma_ascii_len("ssh-rsa");
    crate::text::lemma_ascii_len("ssh-ed25519");
    crate::text::lemma_ascii_len("SSH-2.0-");
    crate::text::lemma_ascii_len("tatami_0.1.0");
    crate::text::lemma_ascii_len("SSH-");
    crate::text::lemma_ascii_len("2.0");
    crate::text::lemma_ascii_len("1.99");
    crate::text::lemma_ascii_len("1.5");
}

fn host_blob(sc: &Scenario) -> (r: Vec<u8>)
    requires
        scenario_wf(sc@),
    ensures
        r@ == reply_k_s(sc@),
        r@.len() <= 200,
{
    let pk = ed25519_public(&sc.host_seed);
    proof {
        lemma_names_short();
    }
    match sc.reply {
        Reply::KsAlgRsa => named_blob("ssh-rsa", pk.as_slice()),
        Reply::KsKey31 => named_blob("ssh-ed25519", head(pk.as_slice(), 31)),
        Reply::KsMalformed => {
            let r: Vec<u8> = vec![0, 0, 0, 9, 120];
            proof {
                assert(r@ =~= reply_k_s(sc@));
            }
            r
        },
        _ => ed25519_key_blob(&pk),
    }
}

fn ephemeral(sc: &Scenario) -> (r: Vec<u8>)
    requires
        scenario_wf(sc@),
    ensures
        r@ == reply_q_s(sc@),
        r@.len() <= 32,
{
    let q_s = x25519_public(&sc.server_secret);
    match sc.reply {
        Reply::QsZero => {
            let zero: [u8; 32] = [0; 32];
            let r = copy_bytes(zero.as_slice());
            proof {
                assert(r@ =~= reply_q_s(sc@));
            }
            r
        },
        Reply::QsShort => copy_bytes(head(q_s.as_slice(), 31)),
        _ => copy_bytes(q_s.as_slice()),
    }
}

fn flip_bit(sig: &[u8; 64], flip: u8) -> (r: [u8; 64])
    ensures
        r@ == flipped(sig@, flip),
{
    let mut s: [u8; 64] = *sig;
    let i: usize = (flip % 64) as usize;
    let k: u8 = flip % 8;
    s[i] = sig[i] ^ (1u8 << k);
    proof {
        assert(s@ =~= flipped(sig@, flip));
    }
    s
}

fn signature_blob(sc: &Scenario, h: &[u8; 32]) -> (r: Vec<u8>)
    requires
        scenario_wf(sc@),
    ensures
        r@ == reply_signature(sc@, h@),
        r@.len() <= 201,
{
    let sig = ed25519_sign(&sc.host_seed, h.as_slice());
    proof {
        lemma_names_short();
    }
    match sc.reply {
        Reply::WrongSig(flip) => ed25519_sig_blob(&flip_bit(&sig, flip)),
        Reply::SigOverWrongHash => {
            let mut wrong: [u8; 32] = *h;
            wrong[0] = h[0] ^ 0x80;
            proof {
                assert(wrong@ =~= h@.update(0, h@[0] ^ 0x80));
            }
            ed25519_sig_blob(&ed25519_sign(&sc.host_seed, wrong.as_slice()))
        },
        Reply::SigAlgRsa => named_blob("ssh-rsa", sig.as_slice()),
        Reply::SigTrailing => {
            let mut b = ed25519_sig_blob(&sig);
            let ghost before = b@;
            b.push(0);
            proof {
                assert(b@ =~= before + seq![0u8]);
            }
            b
        },
        Reply::SigShort => named_blob("ssh-ed25519", head(sig.as_slice(), 63)),
        _ => ed25519_sig_blob(&sig),
    }
}

/// Computes the shared secret and the exchange hash from the client's opening
/// and builds the reply that the scenario asks for.
pub fn server_reply(sc: &Scenario, i_c: &[u8], q_c: &[u8; 32]) -> (r: Exchange)
    requires
        scenario_wf(sc@),
        fits_u32(i_c@),
    ensures
        r.payload@ == reply_bytes(sc@, i_c@, q_c@),
        r.h@ == hash_of(sc@, i_c@, q_c@),
        r.k@ == x25519_shared_of(sc@.server_secret, q_c@),
        r.payload@.len() <= 1000,
{
    let k = x25519_shared(&sc.server_secret, q_c);
    let k_s = host_blob(sc);
    let q_s = ephemeral(sc);
    let v_c = client_identification();
    let (v_s, wire) = ident_line(sc);
    let i_s = sc.server.payload();
    proof {
        lemma_kexinit_short(sc@);
        lemma_names_short();
    }
    let inputs = HashInputs {
        v_c: v_c.as_slice(),
        v_s: v_s.as_slice(),
        i_c,
        i_s: i_s.as_slice(),
        k_s: k_s.as_slice(),
        q_c: q_c.as_slice(),
        q_s: q_s.as_slice(),
        k: &k,
    };
    let h = exchange_hash(&inputs);
    let signature = signature_blob(sc, &h);
    let payload = match sc.reply {
        Reply::Truncated => {
            let r: Vec<u8> = vec![31, 0xde, 0xad];
            proof {
                assert(r@ =~= reply_bytes(sc@, i_c@, q_c@));
            }
            r
        },
        _ => {
            let mut p: Vec<u8> = Vec::new();
            p.push(31);
            put_string(&mut p, k_s.as_slice());
            put_string(&mut p, q_s.as_slice());
            put_string(&mut p, signature.as_slice());
            match sc.reply {
                Reply::Trailing => {
                    p.push(0);
                },
                _ => {},
            }
            proof {
                assert(p@ =~= reply_bytes(sc@, i_c@, q_c@));
            }
            p
        },
    };
    Exchange { payload, h, k }
}

/// The second flight: the reply, the messages behind it, and NEWKEYS.
pub open spec fn second_bytes(sc: ScenarioView, reply: Seq<u8>) -> Seq<u8> {
    framed(reply, 0x5a) + msgs_wire(sc.before_newkeys, 0, server_kexinit(sc)) + if sc.send_newkeys {
        framed(seq![21u8], 0x5a)
    } else {
        Seq::empty()
    }
}

/// Builds the second flight.
pub fn second_flight(sc: &Scenario, reply: &[u8]) -> (r: Vec<u8>)
    requires
        scenario_wf(sc@),
        reply@.len() <= 1000,
    ensures
        r@ == second_bytes(sc@, reply@),
{
    let mut wire = frame(reply);
    let i_s = sc.server.payload();
    proof {
        lemma_kexinit_short(sc@);
    }
    put_msgs(&mut wire, &sc.before_newkeys, i_s.as_slice());
    let ghost before = wire@;
    if sc.send_newkeys {
        let newkeys: [u8; 1] = [21];
        proof {
            assert(newkeys@ =~= seq![21u8]);
        }
        let f = frame(newkeys.as_slice());
        push_all(&mut wire, f.as_slice());
    } else {
        proof {
            assert(before + Seq::<u8>::empty() =~= before);
        }
    }
    wire
}

/// A sealed packet as it is sent: with its clear length overwritten, with one
/// byte of its body or tag changed, or as it is.
pub open spec fn sent_packet(sc: ScenarioView, i: int, packet: Seq<u8>) -> Seq<u8> {
    if sc.protected[i] is BadLength {
        seq![0u8, 0, 0, 17] + packet.skip(4)
    } else if let Some((index, offset, xor)) = sc.tamper {
        if index == i {
            let at = 4 + offset as int % (packet.len() - 4);
            packet.update(at, packet[at] ^ xor)
        } else {
            packet
        }
    } else {
        packet
    }
}

/// A payload sealed with zero padding.
pub open spec fn sealed(key: Seq<u8>, nonce: Seq<u8>, payload: Seq<u8>) -> Seq<u8> {
    packet_of(key, nonce, payload, Seq::new(pad_len(payload.len() as int) as nat, |i: int| 0u8))
}

/// The protected packets from the `i`-th on, under consecutive nonces.
pub open spec fn protected_wire(sc: ScenarioView, i: int, key: Seq<u8>, fixed: Seq<u8>, count: u64) -> Seq<u8>
    decreases sc.protected.len() - i,
{
    if i >= sc.protected.len() {
        Seq::empty()
    } else {
        sent_packet(sc, i, sealed(key, nonce_of(fixed, count), prot_bytes(sc.protected[i], server_kexinit(sc))))
            + protected_wire(sc, i + 1, key, fixed, count.wrapping_add(1))
    }
}

/// The third flight, sealed with the server's keys.
pub open spec fn third_bytes(sc: ScenarioView, k: Seq<u8>, h: Seq<u8>) -> Seq<u8> {
    let iv = derived(k, h, 66, h, 12);
    protected_wire(
        sc,
        0,
        derived(k, h, 68, h, 16),
        iv.take(4),
        crate::wire_core::bytes::u64_of(iv.skip(4)),
    )
}

/// Seals the protected messages under the keys that the exchange derives:
/// the keys of the client's direction and the flight.
pub fn protected_flight(sc: &Scenario, k: &[u8; 32], h: &[u8; 32]) -> (r: (DirKeys, Vec<u8>))
    requires
        scenario_wf(sc@),
    ensures
        keys_are(r.0, k@, h@, h@, 65, 67),
        r.1@ == third_bytes(sc@, k@, h@),
{
    let (c2s, s2c) = derive_gcm(k, h, h);
    let mut sealer = Gcm::new(&s2c.key, &s2c.iv);
    let i_s = sc.server.payload();
    proof {
        lemma_kexinit_short(sc@);
    }
    let ghost key = s2c.key@;
    let ghost fixed = sealer.fixed_bytes();
    let ghost goal = third_bytes(sc@, k@, h@);
    let mut wire: Vec<u8> = Vec::new();
    let mut i: usize = 0;
    proof {
        assert(wire@ + goal =~= goal);
    }
    while i < sc.protected.len()
        invariant
            i <= sc.protected@.len(),
            scenario_wf(sc@),
            i_s@ == server_kexinit(sc@),
            i_s@.len() <= 0x10_0000,
            sealer.key_bytes() == key,
            sealer.fixed_bytes() == fixed,
            wire@ + protected_wire(sc@, i as int, key, fixed, sealer.count()) == goal,
        decreases sc.protected@.len() - i,
    {
        let ghost rest = protected_wire(sc@, i as int, key, fixed, sealer.count());
        let ghost before = wire@;
        proof {
            assert(prot_fits(sc@.protected[i as int]));
        }
        let payload = prot_payload(&sc.protected[i], i_s.as_slice());
        let mut packet = sealer.seal(payload.as_slice());
        let ghost whole = packet@;
        let bad_length: bool = match &sc.protected[i] {
            Prot::BadLength => true,
            _ => false,
        };
        if bad_length {
            packet.set(0, 0);
            packet.set(1, 0);
            packet.set(2, 0);
            packet.set(3, 17);
            proof {
                assert(packet@ =~= seq![0u8, 0, 0, 17] + whole.skip(4));
            }
        } else if let Some((index, offset, xor)) = sc.tamper {
            if index == i {
                let at: usize = 4 + offset % (packet.len() - 4);
                let changed: u8 = packet[at] ^ xor;
                packet.set(at, changed);
            }
        }
        proof {
            assert(packet@ =~= sent_packet(sc@, i as int, whole));
        }
        push_all(&mut wire, packet.as_slice());
        proof {
            assert(wire@ + protected_wire(sc@, i + 1, key, fixed, sealer.count()) =~= before + rest);
        }
        i = i + 1;
    }
    proof {
        assert(wire@ + Seq::<u8>::empty() =~= wire@);
    }
    (c2s, wire)
}

} // verus!
