//! Key exchange and service codecs under test: what decoding must give for any
//! payload, samples, and changed samples with what must become of them.

use vstd::prelude::*;
use crate::seqs::{copy_bytes, head, same_bytes, vecs};
use crate::text::{bytes_of, lemma_name_literal, name_chars};
use crate::wire_core::bytes::{fits_u32, put_string, put_u8};
use crate::wire_core::cursor::read_string;
use crate::wire_core::error::{Field, MessageError};
use crate::wire_core::generate::{after, bounded_bytes, bounded_gen, byte, little, Source};
use crate::wire_core::kex_laws::{
    lemma_newkeys, lemma_reply_read_write, lemma_reply_truncated, lemma_reply_write_read,
    lemma_string_message_read_write, lemma_string_message_truncated, lemma_string_message_write_read, reply_fits,
};
use crate::wire_core::kex_ref::{
    ecdh_init, ecdh_init_read, ecdh_reply, ecdh_reply_bytes, ecdh_reply_read, newkeys, newkeys_read, service_accept,
    service_accept_read, service_request, service_request_read, string_message_bytes, ReplyFields, KEX_ECDH_INIT,
    KEX_ECDH_REPLY, NEWKEYS, SERVICE_ACCEPT, SERVICE_REQUEST,
};
use crate::wire_samples::{mutated, Mutation};

verus! {

/// The messages of fixed layout.
#[derive(Clone, Copy, Debug, PartialEq, Eq, Structural)]
pub enum KexKind {
    EcdhInit,
    EcdhReply,
    NewKeys,
    ServiceRequest,
    ServiceAccept,
}

impl KexKind {
    /// The message number.
    pub open spec fn code(self) -> u8 {
        match self {
            KexKind::EcdhInit => KEX_ECDH_INIT,
            KexKind::EcdhReply => KEX_ECDH_REPLY,
            KexKind::NewKeys => NEWKEYS,
            KexKind::ServiceRequest => SERVICE_REQUEST,
            KexKind::ServiceAccept => SERVICE_ACCEPT,
        }
    }

    /// The message number.
    pub fn number(self) -> (r: u8)
        ensures
            r == self.code(),
    {
        match self {
            KexKind::EcdhInit => KEX_ECDH_INIT,
            KexKind::EcdhReply => KEX_ECDH_REPLY,
            KexKind::NewKeys => NEWKEYS,
            KexKind::ServiceRequest => SERVICE_REQUEST,
            KexKind::ServiceAccept => SERVICE_ACCEPT,
        }
    }
}

/// A message of fixed layout.
#[derive(Clone, Debug, PartialEq, Eq)]
pub enum KexMessage<B = Vec<u8>> {
    EcdhInit { client_ephemeral: B },
    EcdhReply { host_key_blob: B, server_ephemeral: B, signature_blob: B },
    NewKeys,
    ServiceRequest { service_name: B },
    ServiceAccept { service_name: B },
}

/// A message over sequences.
pub type KexView = KexMessage<Seq<u8>>;

impl View for KexMessage<Vec<u8>> {
    type V = KexView;

    open spec fn view(&self) -> KexView {
        match self {
            KexMessage::EcdhInit { client_ephemeral } => KexMessage::EcdhInit { client_ephemeral: client_ephemeral@ },
            KexMessage::EcdhReply { host_key_blob, server_ephemeral, signature_blob } => KexMessage::EcdhReply {
                host_key_blob: host_key_blob@,
                server_ephemeral: server_ephemeral@,
                signature_blob: signature_blob@,
            },
            KexMessage::NewKeys => KexMessage::NewKeys,
            KexMessage::ServiceRequest { service_name } => KexMessage::ServiceRequest { service_name: service_name@ },
            KexMessage::ServiceAccept { service_name } => KexMessage::ServiceAccept { service_name: service_name@ },
        }
    }
}

/// Which message it is.
pub open spec fn kind_of(m: KexView) -> KexKind {
    match m {
        KexMessage::EcdhInit { .. } => KexKind::EcdhInit,
        KexMessage::EcdhReply { .. } => KexKind::EcdhReply,
        KexMessage::NewKeys => KexKind::NewKeys,
        KexMessage::ServiceRequest { .. } => KexKind::ServiceRequest,
        KexMessage::ServiceAccept { .. } => KexKind::ServiceAccept,
    }
}

/// The payload of a message.
pub open spec fn kex_bytes(m: KexView) -> Seq<u8> {
    match m {
        KexMessage::EcdhInit { client_ephemeral } => string_message_bytes(KEX_ECDH_INIT, client_ephemeral),
        KexMessage::EcdhReply { host_key_blob, server_ephemeral, signature_blob } => ecdh_reply_bytes(
            ReplyFields { k_s: host_key_blob, q_s: server_ephemeral, signature: signature_blob },
        ),
        KexMessage::NewKeys => seq![NEWKEYS],
        KexMessage::ServiceRequest { service_name } => string_message_bytes(SERVICE_REQUEST, service_name),
        KexMessage::ServiceAccept { service_name } => string_message_bytes(SERVICE_ACCEPT, service_name),
    }
}

/// The fields fit their length fields.
pub open spec fn kex_ok(m: KexView) -> bool {
    match m {
        KexMessage::EcdhInit { client_ephemeral } => fits_u32(client_ephemeral),
        KexMessage::EcdhReply { host_key_blob, server_ephemeral, signature_blob } => fits_u32(host_key_blob)
            && fits_u32(server_ephemeral) && fits_u32(signature_blob),
        KexMessage::NewKeys => true,
        KexMessage::ServiceRequest { service_name } => fits_u32(service_name),
        KexMessage::ServiceAccept { service_name } => fits_u32(service_name),
    }
}

/// What decoding a payload as a message gives.
pub open spec fn read_kex(kind: KexKind, s: Seq<u8>) -> Result<KexView, MessageError> {
    match kind {
        KexKind::EcdhInit => match ecdh_init_read(s) {
            Ok(v) => Ok(KexMessage::EcdhInit { client_ephemeral: v }),
            Err(e) => Err(e),
        },
        KexKind::EcdhReply => match ecdh_reply_read(s) {
            Ok(f) => Ok(
                KexMessage::EcdhReply {
                    host_key_blob: f.k_s,
                    server_ephemeral: f.q_s,
                    signature_blob: f.signature,
                },
            ),
            Err(e) => Err(e),
        },
        KexKind::NewKeys => match newkeys_read(s) {
            Ok(_) => Ok(KexMessage::NewKeys),
            Err(e) => Err(e),
        },
        KexKind::ServiceRequest => match service_request_read(s) {
            Ok(v) => Ok(KexMessage::ServiceRequest { service_name: v }),
            Err(e) => Err(e),
        },
        KexKind::ServiceAccept => match service_accept_read(s) {
            Ok(v) => Ok(KexMessage::ServiceAccept { service_name: v }),
            Err(e) => Err(e),
        },
    }
}

/// A result over sequences.
pub open spec fn kex_outcome(r: Result<KexMessage, MessageError>) -> Result<KexView, MessageError> {
    match r {
        Ok(m) => Ok(m@),
        Err(e) => Err(e),
    }
}

/// Decodes a payload as a message.
pub fn decode_kex(kind: KexKind, payload: &[u8]) -> (r: Result<KexMessage, MessageError>)
    ensures
        kex_outcome(r) == read_kex(kind, payload@),
{
    match kind {
        KexKind::EcdhInit => match ecdh_init(payload) {
            Ok(v) => Ok(KexMessage::EcdhInit { client_ephemeral: copy_bytes(v) }),
            Err(e) => Err(e),
        },
        KexKind::EcdhReply => match ecdh_reply(payload) {
            Ok(f) => Ok(
                KexMessage::EcdhReply {
                    host_key_blob: copy_bytes(f.k_s),
                    server_ephemeral: copy_bytes(f.q_s),
                    signature_blob: copy_bytes(f.signature),
                },
            ),
            Err(e) => Err(e),
        },
        KexKind::NewKeys => match newkeys(payload) {
            Ok(_) => Ok(KexMessage::NewKeys),
            Err(e) => Err(e),
        },
        KexKind::ServiceRequest => match service_request(payload) {
            Ok(v) => Ok(KexMessage::ServiceRequest { service_name: copy_bytes(v) }),
            Err(e) => Err(e),
        },
        KexKind::ServiceAccept => match service_accept(payload) {
            Ok(v) => Ok(KexMessage::ServiceAccept { service_name: copy_bytes(v) }),
            Err(e) => Err(e),
        },
    }
}

impl KexMessage<Vec<u8>> {
    /// Whether two messages are the same.
    pub fn same(&self, other: &Self) -> (r: bool)
        ensures
            r == (self@ == other@),
    {
        match (self, other) {
            (KexMessage::EcdhInit { client_ephemeral: a }, KexMessage::EcdhInit { client_ephemeral: b }) => same_bytes(
                a.as_slice(),
                b.as_slice(),
            ),
            (
                KexMessage::EcdhReply { host_key_blob: a, server_ephemeral: b, signature_blob: c },
                KexMessage::EcdhReply { host_key_blob: d, server_ephemeral: e, signature_blob: f },
            ) => same_bytes(a.as_slice(), d.as_slice()) && same_bytes(b.as_slice(), e.as_slice()) && same_bytes(
                c.as_slice(),
                f.as_slice(),
            ),
            (KexMessage::NewKeys, KexMessage::NewKeys) => true,
            (KexMessage::ServiceRequest { service_name: a }, KexMessage::ServiceRequest { service_name: b }) =>
            same_bytes(a.as_slice(), b.as_slice()),
            (KexMessage::ServiceAccept { service_name: a }, KexMessage::ServiceAccept { service_name: b }) =>
            same_bytes(a.as_slice(), b.as_slice()),
            _ => false,
        }
    }
}

/// Whether a decoder gave what it must for a payload: every field, or the
/// exact error.
pub fn check_kex_raw(kind: KexKind, payload: &[u8], actual: &Result<KexMessage, MessageError>) -> (r: bool)
    ensures
        r == (kex_outcome(*actual) == read_kex(kind, payload@)),
{
    match (decode_kex(kind, payload), actual) {
        (Ok(a), Ok(b)) => a.same(b),
        (Err(a), Err(b)) => a == *b,
        _ => false,
    }
}

/// The payload of a message.
pub fn assemble_kex(m: &KexMessage) -> (r: Vec<u8>)
    requires
        kex_ok(m@),
    ensures
        r@ == kex_bytes(m@),
{
    let mut out: Vec<u8> = Vec::new();
    match m {
        KexMessage::EcdhInit { client_ephemeral } => {
            put_u8(&mut out, KEX_ECDH_INIT);
            put_string(&mut out, client_ephemeral.as_slice());
        },
        KexMessage::EcdhReply { host_key_blob, server_ephemeral, signature_blob } => {
            put_u8(&mut out, KEX_ECDH_REPLY);
            put_string(&mut out, host_key_blob.as_slice());
            put_string(&mut out, server_ephemeral.as_slice());
            put_string(&mut out, signature_blob.as_slice());
        },
        KexMessage::NewKeys => {
            put_u8(&mut out, NEWKEYS);
        },
        KexMessage::ServiceRequest { service_name } => {
            put_u8(&mut out, SERVICE_REQUEST);
            put_string(&mut out, service_name.as_slice());
        },
        KexMessage::ServiceAccept { service_name } => {
            put_u8(&mut out, SERVICE_ACCEPT);
            put_string(&mut out, service_name.as_slice());
        },
    }
    proof {
        assert(out@ =~= kex_bytes(m@));
    }
    out
}

/// Changed forms of a message: a KEX_ECDH_REPLY cut inside the length of each
/// field, a service message under the number of the other.
pub open spec fn variants_of(m: KexView) -> Seq<Seq<u8>> {
    let s = kex_bytes(m);
    match m {
        KexMessage::EcdhReply { host_key_blob, server_ephemeral, signature_blob } => {
            let q_s_at = 5 + host_key_blob.len() as int;
            let signature_at = q_s_at + 4 + server_ephemeral.len() as int;
            seq![s.take(3), s.take(q_s_at + 2), s.take(signature_at + 3)]
        },
        KexMessage::ServiceRequest { .. } => seq![s.update(0, SERVICE_ACCEPT)],
        KexMessage::ServiceAccept { .. } => seq![s.update(0, SERVICE_REQUEST)],
        _ => Seq::empty(),
    }
}

/// The changed forms of a message.
pub fn kex_variants(m: &KexMessage) -> (r: Vec<Vec<u8>>)
    requires
        kex_ok(m@),
    ensures
        vecs(r@) == variants_of(m@),
{
    broadcast use crate::wire_core::bytes::lemma_be32_len;

    let mut hand = assemble_kex(m);
    let mut out: Vec<Vec<u8>> = Vec::new();
    match m {
        KexMessage::EcdhReply { host_key_blob, server_ephemeral, signature_blob } => {
            let total: usize = hand.len();
            proof {
                assert(total == 13 + host_key_blob@.len() + server_ephemeral@.len() + signature_blob@.len());
            }
            let q_s_at: usize = 5 + host_key_blob.len();
            let signature_at: usize = q_s_at + 4 + server_ephemeral.len();
            out.push(copy_bytes(head(hand.as_slice(), 3)));
            out.push(copy_bytes(head(hand.as_slice(), q_s_at + 2)));
            out.push(copy_bytes(head(hand.as_slice(), signature_at + 3)));
        },
        KexMessage::ServiceRequest { .. } => {
            hand.set(0, SERVICE_ACCEPT);
            out.push(hand);
        },
        KexMessage::ServiceAccept { .. } => {
            hand.set(0, SERVICE_REQUEST);
            out.push(hand);
        },
        _ => {},
    }
    proof {
        assert(vecs(out@) =~= variants_of(m@));
    }
    out
}

/// An empty payload is refused as empty, and one of another message with both
/// numbers.
pub proof fn lemma_kex_dispatch(kind: KexKind, s: Seq<u8>)
    ensures
        s.len() == 0 ==> read_kex(kind, s) == Err::<KexView, MessageError>(MessageError::Empty),
        s.len() > 0 && s[0] != kind.code() ==> read_kex(kind, s) == Err::<KexView, MessageError>(
            MessageError::UnexpectedMessage { expected: kind.code(), found: s[0] },
        ),
{
}

/// A payload that decodes is written again as it was.
pub proof fn lemma_kex_reencode(kind: KexKind, s: Seq<u8>)
    requires
        read_kex(kind, s) is Ok,
    ensures
        kex_ok(read_kex(kind, s)->Ok_0),
        kind_of(read_kex(kind, s)->Ok_0) == kind,
        kex_bytes(read_kex(kind, s)->Ok_0) == s,
{
    match kind {
        KexKind::EcdhInit => {
            lemma_string_message_read_write(KEX_ECDH_INIT, Field::ClientEphemeral, s);
        },
        KexKind::EcdhReply => {
            lemma_reply_read_write(s);
        },
        KexKind::NewKeys => {
            assert(s =~= seq![NEWKEYS]);
        },
        KexKind::ServiceRequest => {
            lemma_string_message_read_write(SERVICE_REQUEST, Field::ServiceName, s);
        },
        KexKind::ServiceAccept => {
            lemma_string_message_read_write(SERVICE_ACCEPT, Field::ServiceName, s);
        },
    }
}

/// A message is read back from its payload; bytes behind it are trailing; no
/// proper prefix decodes; and with its number changed it is another message.
pub proof fn lemma_kex_mutated(m: KexView, extra: Seq<u8>, n: int, xor: u8)
    requires
        kex_ok(m),
        xor != 0,
        0 <= n < kex_bytes(m).len(),
    ensures
        read_kex(kind_of(m), kex_bytes(m)) == Ok::<KexView, MessageError>(m),
        extra.len() > 0 ==> read_kex(kind_of(m), kex_bytes(m) + extra) == Err::<KexView, MessageError>(
            MessageError::TrailingBytes { count: extra.len() as usize },
        ),
        read_kex(kind_of(m), kex_bytes(m).take(n)) is Err,
        read_kex(kind_of(m), mutated(kex_bytes(m), Mutation::Flip { index: 0, xor })) == Err::<KexView, MessageError>(
            MessageError::UnexpectedMessage { expected: kind_of(m).code(), found: kind_of(m).code() ^ xor },
        ),
{
    match m {
        KexMessage::EcdhInit { client_ephemeral } => {
            lemma_string_message_write_read(KEX_ECDH_INIT, Field::ClientEphemeral, client_ephemeral, extra);
            lemma_string_message_truncated(KEX_ECDH_INIT, Field::ClientEphemeral, client_ephemeral, n);
        },
        KexMessage::EcdhReply { host_key_blob, server_ephemeral, signature_blob } => {
            let f = ReplyFields { k_s: host_key_blob, q_s: server_ephemeral, signature: signature_blob };
            lemma_reply_write_read(f, extra);
            lemma_reply_truncated(f, n);
        },
        KexMessage::NewKeys => {
            lemma_newkeys(extra);
        },
        KexMessage::ServiceRequest { service_name } => {
            lemma_string_message_write_read(SERVICE_REQUEST, Field::ServiceName, service_name, extra);
            lemma_string_message_truncated(SERVICE_REQUEST, Field::ServiceName, service_name, n);
        },
        KexMessage::ServiceAccept { service_name } => {
            lemma_string_message_write_read(SERVICE_ACCEPT, Field::ServiceName, service_name, extra);
            lemma_string_message_truncated(SERVICE_ACCEPT, Field::ServiceName, service_name, n);
        },
    }
    let c = kind_of(m).code();
    assert(kex_bytes(m)[0] == c);
    assert(c ^ xor != c) by (bit_vector)
        requires
            xor != 0,
    ;
    lemma_kex_dispatch(kind_of(m), mutated(kex_bytes(m), Mutation::Flip { index: 0, xor }));
}

proof fn lemma_string_prefix(s: Seq<u8>, pos: int, n: int)
    requires
        0 <= pos <= n <= s.len() <= usize::MAX,
        read_string(s, pos) is Ok,
    ensures
        ({
            let (b, p) = read_string(s, pos)->Ok_0;
            if n >= p {
                read_string(s.take(n), pos) == read_string(s, pos)
            } else {
                read_string(s.take(n), pos) is Err
            }
        }),
{
    let (b, p) = read_string(s, pos)->Ok_0;
    let t = s.take(n);
    if n >= pos + 4 {
        assert(t.subrange(pos, pos + 4) =~= s.subrange(pos, pos + 4));
        if n >= p {
            assert(t.subrange(pos + 4, p) =~= s.subrange(pos + 4, p));
        }
    }
}

/// A KEX_ECDH_REPLY that is cut inside a field is refused with that field and
/// its offset.
pub proof fn lemma_reply_cut(f: ReplyFields, n: int)
    requires
        reply_fits(f),
        1 <= n < ecdh_reply_bytes(f).len() <= usize::MAX,
    ensures
        ({
            let q_s_at = 5 + f.k_s.len() as int;
            let signature_at = q_s_at + 4 + f.q_s.len() as int;
            ecdh_reply_read(ecdh_reply_bytes(f).take(n)) matches Err(MessageError::Field { field, offset, error })
                && if n < q_s_at {
                field == Field::HostKey && offset == 1
            } else if n < signature_at {
                field == Field::ServerEphemeral && offset == q_s_at
            } else {
                field == Field::Signature && offset == signature_at
            }
        }),
{
    let s = ecdh_reply_bytes(f);
    lemma_reply_write_read(f, Seq::empty());
    let (a, p1) = read_string(s, 1)->Ok_0;
    let (b, p2) = read_string(s, p1)->Ok_0;
    lemma_string_prefix(s, 1, n);
    if n >= p1 {
        lemma_string_prefix(s, p1, n);
        if n >= p2 {
            lemma_string_prefix(s, p2, n);
        }
    }
}

/// A SERVICE_REQUEST and a SERVICE_ACCEPT differ in their number alone.
pub proof fn lemma_services_differ(name: Seq<u8>)
    requires
        fits_u32(name),
    ensures
        string_message_bytes(SERVICE_REQUEST, name).update(0, SERVICE_ACCEPT) == string_message_bytes(
            SERVICE_ACCEPT,
            name,
        ),
        read_kex(KexKind::ServiceRequest, string_message_bytes(SERVICE_ACCEPT, name)) == Err::<KexView, MessageError>(
            MessageError::UnexpectedMessage { expected: SERVICE_REQUEST, found: SERVICE_ACCEPT },
        ),
        read_kex(KexKind::ServiceAccept, string_message_bytes(SERVICE_REQUEST, name)) == Err::<KexView, MessageError>(
            MessageError::UnexpectedMessage { expected: SERVICE_ACCEPT, found: SERVICE_REQUEST },
        ),
{
    assert(string_message_bytes(SERVICE_REQUEST, name).update(0, SERVICE_ACCEPT) =~= string_message_bytes(
        SERVICE_ACCEPT,
        name,
    ));
    lemma_kex_dispatch(KexKind::ServiceRequest, string_message_bytes(SERVICE_ACCEPT, name));
    lemma_kex_dispatch(KexKind::ServiceAccept, string_message_bytes(SERVICE_REQUEST, name));
}

/// Services to ask for.
pub const SERVICES: [&'static str; 4] = ["ssh-userauth", "ssh-connection", "", "x@example"];

/// The service that the input gives.
pub open spec fn service_gen(s: Seq<u8>) -> (Seq<u8>, Seq<u8>) {
    let sel = little(s, 1);
    let s1 = after(s, 1);
    if sel < 0xC0 {
        (bytes_of(SERVICES@[sel % 4]), s1)
    } else {
        bounded_gen(s1, 200)
    }
}

proof fn lemma_service_short(i: int)
    requires
        0 <= i < 4,
    ensures
        bytes_of(SERVICES@[i]).len() <= 200,
{
    reveal_with_fuel(name_chars, 20);
    if i == 0 {
        reveal_strlit("ssh-userauth");
        lemma_name_literal("ssh-userauth");
    } else if i == 1 {
        reveal_strlit("ssh-connection");
        lemma_name_literal("ssh-connection");
    } else if i == 2 {
        reveal_strlit("");
        crate::text::lemma_ascii_len("");
    } else {
        reveal_strlit("x@example");
        lemma_name_literal("x@example");
    }
}

/// Draws a service: one of the table, or any bytes.
pub fn gen_service(u: &mut Source<'_>) -> (r: Vec<u8>)
    ensures
        (r@, final(u)@) == service_gen(old(u)@),
        r@.len() <= 200,
{
    let sel: u8 = byte(u);
    if sel < 0xC0 {
        let i: usize = sel as usize % 4;
        proof {
            lemma_service_short(i as int);
        }
        copy_bytes(SERVICES.as_slice()[i].as_bytes())
    } else {
        bounded_bytes(u, 200)
    }
}

/// Bytes with more of the same behind them, up to 32.
pub open spec fn widened(b: Seq<u8>) -> Seq<u8> {
    b + Seq::new((32 - b.len()) as nat, |i: int| 0x42u8)
}

/// The message that a selector and the input give.
pub open spec fn kex_gen(kind: KexKind, s: Seq<u8>) -> (KexView, Seq<u8>) {
    match kind {
        KexKind::EcdhInit => {
            let s1 = after(s, 1);
            if little(s, 1) % 2 == 1 {
                let (q, s2) = bounded_gen(s1, 200);
                (KexMessage::EcdhInit { client_ephemeral: q }, s2)
            } else {
                let (q, s2) = bounded_gen(s1, 32);
                (KexMessage::EcdhInit { client_ephemeral: widened(q) }, s2)
            }
        },
        KexKind::EcdhReply => {
            let (k, s1) = bounded_gen(s, 200);
            let (q, s2) = bounded_gen(s1, 64);
            let (g, s3) = bounded_gen(s2, 200);
            (KexMessage::EcdhReply { host_key_blob: k, server_ephemeral: q, signature_blob: g }, s3)
        },
        KexKind::NewKeys => (KexMessage::NewKeys, s),
        KexKind::ServiceRequest => {
            let (n, s1) = service_gen(s);
            (KexMessage::ServiceRequest { service_name: n }, s1)
        },
        KexKind::ServiceAccept => {
            let (n, s1) = service_gen(s);
            (KexMessage::ServiceAccept { service_name: n }, s1)
        },
    }
}

/// Draws a message.
pub fn gen_kex(kind: KexKind, u: &mut Source<'_>) -> (r: KexMessage)
    ensures
        (r@, final(u)@) == kex_gen(kind, old(u)@),
        kex_ok(r@),
        kind_of(r@) == kind,
{
    match kind {
        KexKind::EcdhInit => {
            if byte(u) % 2 == 1 {
                KexMessage::EcdhInit { client_ephemeral: bounded_bytes(u, 200) }
            } else {
                let mut q = bounded_bytes(u, 32);
                let ghost drawn = q@;
                while q.len() < 32
                    invariant
                        drawn.len() <= q@.len() <= 32,
                        q@ =~= drawn + Seq::new((q@.len() - drawn.len()) as nat, |i: int| 0x42u8),
                    decreases 32 - q@.len(),
                {
                    q.push(0x42);
                }
                proof {
                    assert(q@ =~= widened(drawn));
                }
                KexMessage::EcdhInit { client_ephemeral: q }
            }
        },
        KexKind::EcdhReply => {
            let host_key_blob = bounded_bytes(u, 200);
            let server_ephemeral = bounded_bytes(u, 64);
            let signature_blob = bounded_bytes(u, 200);
            KexMessage::EcdhReply { host_key_blob, server_ephemeral, signature_blob }
        },
        KexKind::NewKeys => KexMessage::NewKeys,
        KexKind::ServiceRequest => KexMessage::ServiceRequest { service_name: gen_service(u) },
        KexKind::ServiceAccept => KexMessage::ServiceAccept { service_name: gen_service(u) },
    }
}

} // verus!
