//! What the server sends, as the other side reads it.

use vstd::prelude::*;
use crate::handshake::scenario::{Msg, MsgView, Prot, ProtView, Reply, ScenarioView};
use crate::handshake::wire::{
    first_bytes, hash_of, ident_bytes, ident_content, msg_payload, msg_wire, msgs_wire, opening_read,
    prot_bytes, protected_wire, reply_bytes, reply_k_s, reply_q_s, reply_signature, sealed, second_bytes,
    server_kexinit, third_bytes, unprotected_read, ClientFault,
};
use crate::kex_support::crypto::{derived, gcm_sealed, nonce_of, pad_len, sha256_of};
use crate::kex_support::keys::{ed25519_public_of, ed25519_signature_of, x25519_public_of, x25519_shared_of};
use crate::tcp_support::packet_ref::framed;
use crate::text::bytes_of;
use crate::wire_core::bytes::{be32, be64, fits_u32, ssh_string, u64_of};
use crate::wire_core::error::MessageError;
use crate::wire_core::kex_laws::lemma_ext_info_write_read;
use crate::wire_core::kex_ref::{
    ecdh_reply_read, ext_header_read, ext_info_verdict, newkeys_read, pairs_fit, service_accept_read,
};
use crate::wire_core::layouts::{lemma_debug_layout, lemma_disconnect_layout, lemma_short_layouts};
use crate::wire_core::messages_ref::{debug_read, disconnect_read, ignore_read, unimplemented_read};
use crate::wire_core::mpint_ref::positive_body;

verus! {

/// Every unprotected message is read as what it stands for.
pub proof fn lemma_message_reads(m: MsgView, i_s: Seq<u8>)
    ensures
        ({
            let p = msg_payload(m, i_s);
            &&& m matches Msg::Ignore(d) ==> fits_u32(d) ==> ignore_read(p) == Ok::<Seq<u8>, MessageError>(d)
            &&& m matches Msg::Unimplemented(n) ==> unimplemented_read(p) == Ok::<u32, MessageError>(n)
            &&& m matches Msg::Debug { always_display, message, language_tag } ==> fits_u32(message) && fits_u32(
                language_tag,
            ) ==> {
                debug_read(p) matches Ok(f) && f.always_display_byte == (if always_display {
                    1u8
                } else {
                    0
                }) && f.message == message && f.language_tag == language_tag
            }
            &&& m matches Msg::Disconnect { reason_code, description } ==> fits_u32(description) ==> {
                disconnect_read(p) matches Ok(f) && f.reason_code == reason_code && f.description == description
                    && f.language_tag.len() == 0
            }
            &&& m is NewKeys ==> newkeys_read(p) == Ok::<(), MessageError>(())
            &&& m is KexInitAgain ==> p == i_s
            &&& m is ReplyAgain ==> p.len() > 0 && p[0] == 31 && ecdh_reply_read(p) is Err
            &&& m matches Msg::Other(n) ==> p.len() == 5 && p[0] == n
            &&& m is Empty ==> p.len() == 0
        }),
{
    match m {
        Msg::Ignore(d) => {
            if fits_u32(d) {
                lemma_short_layouts(d, 0);
            }
        },
        Msg::Unimplemented(n) => {
            lemma_short_layouts(Seq::empty(), n);
        },
        Msg::Debug { always_display, message, language_tag } => {
            let b = if always_display {
                1u8
            } else {
                0
            };
            if fits_u32(message) && fits_u32(language_tag) {
                lemma_debug_layout(b, message, language_tag);
                assert(seq![4u8, b] =~= seq![4u8] + seq![b]);
            }
        },
        Msg::Disconnect { reason_code, description } => {
            if fits_u32(description) {
                lemma_disconnect_layout(reason_code, description, Seq::empty());
            }
        },
        Msg::NewKeys => {
            lemma_short_layouts(Seq::empty(), 0);
        },
        _ => {},
    }
}

/// Every protected message is read as what it stands for.
pub proof fn lemma_protected_reads(p: ProtView, i_s: Seq<u8>)
    ensures
        ({
            let b = prot_bytes(p, i_s);
            &&& p matches Prot::ServiceAccept(name) ==> fits_u32(name) ==> service_accept_read(b) == Ok::<
                Seq<u8>,
                MessageError,
            >(name)
            &&& p matches Prot::ExtInfo(pairs) ==> pairs_fit(pairs) && pairs.len() <= 64 ==> {
                ext_header_read(b) matches Ok(h) && h.claimed == pairs.len() && ext_info_verdict(b, h, 64) == Ok::<
                    usize,
                    crate::wire_core::kex_ref::ExtInfoError,
                >(pairs.len() as usize)
            }
            &&& p matches Prot::Ignore(d) ==> b == msg_payload(Msg::Ignore(d), i_s)
            &&& p matches Prot::Unimplemented(n) ==> b == msg_payload(Msg::Unimplemented(n), i_s)
            &&& p matches Prot::Debug { always_display, message, language_tag } ==> b == msg_payload(
                Msg::Debug { always_display, message, language_tag },
                i_s,
            )
            &&& p matches Prot::Disconnect { reason_code, description } ==> b == msg_payload(
                Msg::Disconnect { reason_code, description },
                i_s,
            )
            &&& p is KexInit ==> b == i_s
            &&& p matches Prot::Other(n) ==> b.len() == 5 && b[0] == n
            &&& p is Empty ==> b.len() == 0
        }),
{
    match p {
        Prot::ServiceAccept(name) => {
            if fits_u32(name) {
                lemma_short_layouts(name, 0);
            }
        },
        Prot::ExtInfo(pairs) => {
            if pairs_fit(pairs) && pairs.len() <= 64 {
                lemma_ext_info_write_read(pairs, Seq::empty(), 64);
                assert(prot_bytes(p, i_s) + Seq::<u8>::empty() =~= prot_bytes(p, i_s));
            }
        },
        _ => {},
    }
}

/// The identification of the server: its version, a dash, its software, and a
/// carriage return before the line feed but for one kind.
pub proof fn lemma_identification(sc: ScenarioView)
    ensures
        ident_content(sc) == bytes_of("SSH-") + (if sc.ident is V15 {
            bytes_of("1.5")
        } else if sc.ident is V199 {
            bytes_of("1.99")
        } else {
            bytes_of("2.0")
        }) + seq![45u8] + sc.software,
        sc.ident is V20LfOnly ==> ident_bytes(sc) == ident_content(sc).push(10),
        !(sc.ident is V20LfOnly) ==> ident_bytes(sc) == ident_content(sc).push(13).push(10),
{
    assert(sc.ident is V20LfOnly ==> ident_bytes(sc) =~= ident_content(sc).push(10));
    assert(!(sc.ident is V20LfOnly) ==> ident_bytes(sc) =~= ident_content(sc).push(13).push(10));
}

proof fn lemma_msgs_push(v: Seq<MsgView>, m: MsgView, i_s: Seq<u8>, i: int)
    requires
        0 <= i <= v.len(),
    ensures
        msgs_wire(v.push(m), i, i_s) == msgs_wire(v, i, i_s) + msg_wire(m, i_s),
    decreases v.len() - i,
{
    if i < v.len() {
        lemma_msgs_push(v, m, i_s, i + 1);
        assert(v.push(m)[i] == v[i]);
        assert(msgs_wire(v.push(m), i, i_s) =~= msgs_wire(v, i, i_s) + msg_wire(m, i_s));
    } else {
        reveal_with_fuel(msgs_wire, 2);
        assert(msg_wire(m, i_s) + Seq::<u8>::empty() =~= Seq::<u8>::empty() + msg_wire(m, i_s));
    }
}

/// The first flight: with nothing else in it, the identification and the
/// KEXINIT; a message before KEXINIT stands between the two; a guess and then
/// the messages before the reply stand behind them, each in its order.
pub proof fn lemma_first_flight(sc: ScenarioView, m: MsgView)
    ensures
        sc.prelude.len() == 0 && sc.pre_kexinit.len() == 0 && sc.guess is None && sc.before_reply.len() == 0
            ==> first_bytes(sc) == ident_bytes(sc) + framed(server_kexinit(sc), 0x5a),
        sc.prelude.len() == 0 && sc.pre_kexinit == seq![m] && sc.guess is None && sc.before_reply.len() == 0
            ==> first_bytes(sc) == ident_bytes(sc) + msg_wire(m, server_kexinit(sc)) + framed(server_kexinit(sc), 0x5a),
        sc.guess matches Some(g) && sc.before_reply.len() == 0 ==> first_bytes(sc) == first_bytes(
            ScenarioView { guess: None, ..sc },
        ) + framed(seq![sc.guess->0, 0xde, 0xad], 0x5a),
        first_bytes(ScenarioView { before_reply: sc.before_reply.push(m), ..sc }) == first_bytes(sc) + msg_wire(
            m,
            server_kexinit(sc),
        ),
{
    let i_s = server_kexinit(sc);
    reveal_with_fuel(msgs_wire, 3);
    if sc.prelude.len() == 0 && sc.pre_kexinit.len() == 0 && sc.guess is None && sc.before_reply.len() == 0 {
        assert(first_bytes(sc) =~= ident_bytes(sc) + framed(i_s, 0x5a));
    }
    if sc.prelude.len() == 0 && sc.pre_kexinit == seq![m] && sc.guess is None && sc.before_reply.len() == 0 {
        assert(first_bytes(sc) =~= ident_bytes(sc) + msg_wire(m, i_s) + framed(i_s, 0x5a));
    }
    if sc.guess is Some && sc.before_reply.len() == 0 {
        let none = ScenarioView { guess: None, ..sc };
        assert(server_kexinit(none) == i_s);
        assert(first_bytes(sc) =~= first_bytes(none) + framed(seq![sc.guess->0, 0xde, 0xad], 0x5a));
    }
    let more = ScenarioView { before_reply: sc.before_reply.push(m), ..sc };
    assert(server_kexinit(more) == i_s && ident_bytes(more) == ident_bytes(sc));
    lemma_msgs_push(sc.before_reply, m, i_s, 0);
    assert(first_bytes(more) =~= first_bytes(sc) + msg_wire(m, i_s));
}

/// The second flight: the reply, the messages before NEWKEYS in their order,
/// and NEWKEYS last, where it is sent.
pub proof fn lemma_second_flight(sc: ScenarioView, reply: Seq<u8>, m: MsgView)
    ensures
        sc.before_newkeys.len() == 0 && !sc.send_newkeys ==> second_bytes(sc, reply) == framed(reply, 0x5a),
        !sc.send_newkeys ==> second_bytes(ScenarioView { before_newkeys: sc.before_newkeys.push(m), ..sc }, reply)
            == second_bytes(sc, reply) + msg_wire(m, server_kexinit(sc)),
        sc.send_newkeys ==> second_bytes(sc, reply) == second_bytes(ScenarioView { send_newkeys: false, ..sc }, reply)
            + framed(seq![21u8], 0x5a),
{
    let i_s = server_kexinit(sc);
    assert(sc.before_newkeys.len() == 0 && !sc.send_newkeys ==> second_bytes(sc, reply) =~= framed(reply, 0x5a));
    let more = ScenarioView { before_newkeys: sc.before_newkeys.push(m), ..sc };
    lemma_msgs_push(sc.before_newkeys, m, i_s, 0);
    assert(server_kexinit(more) == i_s);
    assert(!sc.send_newkeys ==> second_bytes(more, reply) =~= second_bytes(sc, reply) + msg_wire(m, i_s));
    let none = ScenarioView { send_newkeys: false, ..sc };
    assert(server_kexinit(none) == i_s);
    assert(sc.send_newkeys ==> second_bytes(sc, reply) =~= second_bytes(none, reply) + framed(seq![21u8], 0x5a));
}

/// A key or signature of the `ssh-ed25519` algorithm.
pub open spec fn ed25519_parts(content: Seq<u8>) -> Seq<u8> {
    ssh_string(bytes_of("ssh-ed25519")) + ssh_string(content)
}

/// A reply that is not made to fail carries the host key, the server's
/// ephemeral key, and a signature with the host key of the exchange hash. The
/// hash is taken of both identifications, both KEXINITs, the host key, both
/// ephemeral keys, and the shared secret, the client's part always first.
pub proof fn lemma_valid_reply(sc: ScenarioView, i_c: Seq<u8>, q_c: Seq<u8>)
    requires
        sc.reply is Valid,
    ensures
        ({
            let k_s = ed25519_parts(ed25519_public_of(sc.host_seed));
            let q_s = x25519_public_of(sc.server_secret);
            let h = sha256_of(
                ssh_string(bytes_of("SSH-2.0-") + bytes_of(crate::handshake::wire::SOFTWARE)) + ssh_string(
                    ident_content(sc),
                ) + ssh_string(i_c) + ssh_string(server_kexinit(sc)) + ssh_string(k_s) + ssh_string(q_c) + ssh_string(
                    q_s,
                ) + ssh_string(positive_body(x25519_shared_of(sc.server_secret, q_c))),
            );
            &&& hash_of(sc, i_c, q_c) == h
            &&& reply_bytes(sc, i_c, q_c) == seq![31u8] + ssh_string(k_s) + ssh_string(q_s) + ssh_string(
                ed25519_parts(ed25519_signature_of(sc.host_seed, h)),
            )
        }),
{
}

/// What each faulty reply gets wrong: one field and nothing else, or the shape
/// of the message.
pub proof fn lemma_faulty_reply(sc: ScenarioView, i_c: Seq<u8>, q_c: Seq<u8>)
    ensures
        ({
            let pk = ed25519_public_of(sc.host_seed);
            let h = hash_of(sc, i_c, q_c);
            let sig = ed25519_signature_of(sc.host_seed, h);
            let b = reply_bytes(sc, i_c, q_c);
            let parts = seq![31u8] + ssh_string(reply_k_s(sc)) + ssh_string(reply_q_s(sc)) + ssh_string(
                reply_signature(sc, h),
            );
            &&& sc.reply is Truncated ==> b == seq![31u8, 0xde, 0xad]
            &&& sc.reply is Trailing ==> b == parts.push(0)
            &&& !(sc.reply is Truncated) && !(sc.reply is Trailing) ==> b == parts
            &&& sc.reply is QsZero ==> reply_q_s(sc) == Seq::new(32, |i: int| 0u8)
            &&& sc.reply is QsShort ==> reply_q_s(sc) == x25519_public_of(sc.server_secret).take(31)
            &&& !(sc.reply is QsZero) && !(sc.reply is QsShort) ==> reply_q_s(sc) == x25519_public_of(sc.server_secret)
            &&& sc.reply is KsAlgRsa ==> reply_k_s(sc) == ssh_string(bytes_of("ssh-rsa")) + ssh_string(pk)
            &&& sc.reply is KsKey31 ==> reply_k_s(sc) == ed25519_parts(pk.take(31))
            &&& sc.reply is KsMalformed ==> reply_k_s(sc) == seq![0u8, 0, 0, 9, 120]
            &&& !(sc.reply is KsAlgRsa) && !(sc.reply is KsKey31) && !(sc.reply is KsMalformed) ==> reply_k_s(sc)
                == ed25519_parts(pk)
            &&& sc.reply is SigAlgRsa ==> reply_signature(sc, h) == ssh_string(bytes_of("ssh-rsa")) + ssh_string(sig)
            &&& sc.reply is SigTrailing ==> reply_signature(sc, h) == ed25519_parts(sig).push(0)
            &&& sc.reply is SigShort ==> reply_signature(sc, h) == ed25519_parts(sig.take(63))
            &&& sc.reply is SigOverWrongHash ==> reply_signature(sc, h) == ed25519_parts(
                ed25519_signature_of(sc.host_seed, h.update(0, h[0] ^ 0x80)),
            )
            &&& sc.reply matches Reply::WrongSig(flip) ==> reply_signature(sc, h) == ed25519_parts(
                sig.update((flip % 64) as int, sig[(flip % 64) as int] ^ (1u8 << ((flip % 8) as u8))),
            )
            &&& !(sc.reply is SigAlgRsa) && !(sc.reply is SigTrailing) && !(sc.reply is SigShort) && !(
            sc.reply is SigOverWrongHash) && !(sc.reply is WrongSig) ==> reply_signature(sc, h) == ed25519_parts(sig)
        }),
{
    let h = hash_of(sc, i_c, q_c);
    let sig = ed25519_signature_of(sc.host_seed, h);
    assert(ed25519_parts(sig) + seq![0u8] =~= ed25519_parts(sig).push(0));
}

/// The counter after `n` packets.
pub open spec fn counter_after(count: u64, n: nat) -> u64
    decreases n,
{
    if n == 0 {
        count
    } else {
        counter_after(count.wrapping_add(1), (n - 1) as nat)
    }
}

/// Whether nothing is done to the `i`-th protected packet on its way.
pub open spec fn intact(sc: ScenarioView, i: int) -> bool {
    !(sc.protected[i] is BadLength) && !(sc.tamper matches Some(t) && t.0 == i)
}

proof fn lemma_protected_last(sc: ScenarioView, p: ProtView, i: int, key: Seq<u8>, fixed: Seq<u8>, count: u64)
    requires
        0 <= i <= sc.protected.len(),
        intact(ScenarioView { protected: sc.protected.push(p), ..sc }, sc.protected.len() as int),
    ensures
        protected_wire(ScenarioView { protected: sc.protected.push(p), ..sc }, i, key, fixed, count) == protected_wire(
            sc,
            i,
            key,
            fixed,
            count,
        ) + sealed(
            key,
            fixed + be64(counter_after(count, (sc.protected.len() - i) as nat)),
            prot_bytes(p, server_kexinit(sc)),
        ),
    decreases sc.protected.len() - i,
{
    let more = ScenarioView { protected: sc.protected.push(p), ..sc };
    assert(server_kexinit(more) == server_kexinit(sc));
    if i < sc.protected.len() {
        assert(more.protected[i] == sc.protected[i]);
        lemma_protected_last(sc, p, i + 1, key, fixed, count.wrapping_add(1));
        let one = crate::handshake::wire::sent_packet(
            sc,
            i,
            sealed(key, nonce_of(fixed, count), prot_bytes(sc.protected[i], server_kexinit(sc))),
        );
        let rest = protected_wire(sc, i + 1, key, fixed, count.wrapping_add(1));
        let last = sealed(
            key,
            fixed + be64(counter_after(count, (sc.protected.len() - i) as nat)),
            prot_bytes(p, server_kexinit(sc)),
        );
        assert(one + (rest + last) =~= one + rest + last);
    } else {
        reveal_with_fuel(protected_wire, 2);
        let last = sealed(key, nonce_of(fixed, count), prot_bytes(p, server_kexinit(sc)));
        assert(more.protected[i] == p);
        assert(last + Seq::<u8>::empty() =~= Seq::<u8>::empty() + last);
    }
}

/// The protected packets of the server are sealed with the keys of its own
/// direction: the key from letter `D`, the nonce from letter `B`, the counter
/// one further for each packet. One more message is one more packet behind.
pub proof fn lemma_third_flight(sc: ScenarioView, p: ProtView, k: Seq<u8>, h: Seq<u8>)
    requires
        intact(ScenarioView { protected: sc.protected.push(p), ..sc }, sc.protected.len() as int),
    ensures
        sc.protected.len() == 0 ==> third_bytes(sc, k, h).len() == 0,
        ({
            let secret = ssh_string(positive_body(k)) + h;
            let key = sha256_of(secret + seq![68u8] + h).take(16);
            let iv = sha256_of(secret + seq![66u8] + h).take(12);
            third_bytes(ScenarioView { protected: sc.protected.push(p), ..sc }, k, h) == third_bytes(sc, k, h) + sealed(
                key,
                iv.take(4) + be64(counter_after(u64_of(iv.skip(4)), sc.protected.len())),
                prot_bytes(p, server_kexinit(sc)),
            )
        }),
{
    let iv = derived(k, h, 66, h, 12);
    let key = derived(k, h, 68, h, 16);
    lemma_protected_last(sc, p, 0, key, iv.take(4), u64_of(iv.skip(4)));
}

/// A sealed packet: its length in clear, which is authenticated, then the
/// sealed padding length, payload and zeros, then the tag.
pub proof fn lemma_sealed_layout(key: Seq<u8>, nonce: Seq<u8>, payload: Seq<u8>)
    ensures
        ({
            let pad = pad_len(payload.len() as int);
            let length = be32((1 + payload.len() + pad) as u32);
            let zeros = Seq::new(pad as nat, |i: int| 0u8);
            let s = gcm_sealed(key, nonce, length, seq![pad as u8] + payload + zeros);
            sealed(key, nonce, payload) == length + s.0 + s.1
        }),
{
}

/// What is taken from the client: behind its line its first two packets, of
/// which the first is KEXINIT and the second holds a key of 32 bytes.
pub proof fn lemma_opening_taken(out: Seq<u8>)
    ensures
        opening_read(out) matches Ok(r) ==> {
            let line = crate::seqs::first_at(out, 10, 0);
            &&& line < out.len()
            &&& unprotected_read(out.skip(line + 1), 0) matches Ok((v, end)) && v.len() >= 2 && r.0 == v[0]
                && v[0].len() > 0 && v[0][0] == 20 && v[1].len() == 37 && v[1][0] == 30 && r.1 == v[1].skip(5)
        },
        crate::seqs::first_at(out, 10, 0) >= out.len() ==> opening_read(out) == Err::<(Seq<u8>, Seq<u8>), ClientFault>(
            ClientFault::NoLine,
        ),
{
}

} // verus!
