//! The server's side of the cryptography: the exchange hash, the key
//! expansion, packet protection, and a deterministic byte stream.

use vstd::prelude::*;
use aes_gcm::aead::generic_array::GenericArray;
use aes_gcm::{AeadInPlace, Aes128Gcm, KeyInit};
use sha2::{Digest, Sha256};
use crate::seqs::{copy_bytes, head, min_int, push_all, tail};
use crate::tcp_support::packet_ref::lemma_u32_prefix;
use crate::wire_core::bytes::{
    be32, be64, be_u32, be_u64, fits_u32, lemma_be32_len, lemma_u32_write_read, put_u32, put_u64,
    ssh_string, u32_of, u64_of,
};
use crate::wire_core::mpint_ref::{positive_body, positive_encoding};

verus! {

/// What SHA-256 makes of data.
pub uninterp spec fn sha256_of(data: Seq<u8>) -> Seq<u8>;

/// `Sha256::digest` of `sha2`: a function of the data alone, 32 bytes long.
#[verifier::external_body]
pub(crate) fn sha256(data: &[u8]) -> (r: [u8; 32])
    ensures
        r@ == sha256_of(data@),
{
    Sha256::digest(data).into()
}

/// What AES-128-GCM makes of a plaintext: the ciphertext and the tag.
pub uninterp spec fn gcm_sealed(key: Seq<u8>, nonce: Seq<u8>, aad: Seq<u8>, plain: Seq<u8>) -> (
    Seq<u8>,
    Seq<u8>,
);

/// What AES-128-GCM makes of a ciphertext and a tag: the plaintext, where the
/// tag verifies.
pub uninterp spec fn gcm_opened(key: Seq<u8>, nonce: Seq<u8>, aad: Seq<u8>, cipher: Seq<u8>, tag: Seq<u8>)
    -> Option<Seq<u8>>;

/// `encrypt_in_place_detached` of `aes_gcm` with the 128-bit key: ciphertext
/// and tag depend on key, nonce, associated data and plaintext alone, the
/// ciphertext is as long as the plaintext, and opening both under the same
/// key, nonce and associated data gives the plaintext back. The length limit
/// of the algorithm is left out by the precondition.
#[verifier::external_body]
pub(crate) fn gcm_encrypt(key: &[u8; 16], nonce: &[u8; 12], aad: &[u8], plain: Vec<u8>) -> (r: (Vec<u8>, [u8; 16]))
    requires
        plain@.len() <= 0x10_0000_0000,
        aad@.len() <= 0x10_0000_0000,
    ensures
        (r.0@, r.1@) == gcm_sealed(key@, nonce@, aad@, plain@),
        r.0@.len() == plain@.len(),
        gcm_opened(key@, nonce@, aad@, r.0@, r.1@) == Some(plain@),
{
    let cipher = Aes128Gcm::new(GenericArray::from_slice(key));
    let mut body = plain;
    let tag = cipher
        .encrypt_in_place_detached(GenericArray::from_slice(nonce), aad, &mut body)
        .expect("within the length limit");
    (body, tag.into())
}

/// `decrypt_in_place_detached` of `aes_gcm` with the 128-bit key: the outcome
/// depends on key, nonce, associated data, ciphertext and tag alone, and a
/// plaintext is as long as the ciphertext.
#[verifier::external_body]
pub(crate) fn gcm_decrypt(key: &[u8; 16], nonce: &[u8; 12], aad: &[u8], cipher: Vec<u8>, tag: &[u8; 16]) -> (r: Option<
    Vec<u8>,
>)
    ensures
        match r {
            Some(p) => gcm_opened(key@, nonce@, aad@, cipher@, tag@) == Some(p@) && p@.len() == cipher@.len(),
            None => gcm_opened(key@, nonce@, aad@, cipher@, tag@) is None,
        },
{
    let aes = Aes128Gcm::new(GenericArray::from_slice(key));
    let mut body = cipher;
    aes.decrypt_in_place_detached(
        GenericArray::from_slice(nonce),
        aad,
        &mut body,
        GenericArray::from_slice(tag),
    )
    .ok()
    .map(|_| body)
}

/// SSH `string`.
pub fn put_string(out: &mut Vec<u8>, b: &[u8])
    requires
        fits_u32(b@),
    ensures
        final(out)@ == old(out)@ + ssh_string(b@),
{
    crate::wire_core::bytes::put_string(out, b);
}

/// SSH `string` as a fresh vector.
pub fn string(b: &[u8]) -> (r: Vec<u8>)
    requires
        fits_u32(b@),
    ensures
        r@ == ssh_string(b@),
{
    let mut v: Vec<u8> = Vec::new();
    put_string(&mut v, b);
    proof {
        assert(v@ =~= ssh_string(b@));
    }
    v
}

/// The `mpint` of a magnitude, with its length.
pub open spec fn mpint_of(magnitude: Seq<u8>) -> Seq<u8> {
    ssh_string(positive_body(magnitude))
}

/// Positive `mpint` (RFC 4251 section 5) of an unsigned magnitude: leading
/// zeros stripped, a zero byte prepended when the top bit is set, with the
/// length in front.
pub fn mpint(magnitude: &[u8]) -> (r: Vec<u8>)
    requires
        magnitude@.len() < u32::MAX,
    ensures
        r@ == mpint_of(magnitude@),
{
    positive_encoding(magnitude)
}

/// A blob of the `ssh-ed25519` algorithm around its content.
pub open spec fn ed25519_blob(content: Seq<u8>) -> Seq<u8> {
    ssh_string(crate::text::bytes_of("ssh-ed25519")) + ssh_string(content)
}

proof fn lemma_algorithm_len()
    ensures
        crate::text::bytes_of("ssh-ed25519").len() == 11,
{
    reveal_strlit("ssh-ed25519");
    reveal_with_fuel(crate::text::name_chars, 20);
    crate::text::lemma_name_literal("ssh-ed25519");
}

fn ed25519_blob_of(content: &[u8]) -> (r: Vec<u8>)
    requires
        fits_u32(content@),
    ensures
        r@ == ed25519_blob(content@),
{
    proof {
        lemma_algorithm_len();
    }
    let mut b = string("ssh-ed25519".as_bytes());
    put_string(&mut b, content);
    b
}

/// `ssh-ed25519` public-key blob (RFC 8709 section 4).
pub fn ed25519_key_blob(pk: &[u8; 32]) -> (r: Vec<u8>)
    ensures
        r@ == ed25519_blob(pk@),
{
    ed25519_blob_of(pk.as_slice())
}

/// `ssh-ed25519` signature blob (RFC 8709 section 6).
pub fn ed25519_sig_blob(sig: &[u8; 64]) -> (r: Vec<u8>)
    ensures
        r@ == ed25519_blob(sig@),
{
    ed25519_blob_of(sig.as_slice())
}

/// The exchange-hash inputs as they appeared on the wire.
#[derive(Clone, Copy, Debug)]
pub struct HashInputs<'a> {
    pub v_c: &'a [u8],
    pub v_s: &'a [u8],
    pub i_c: &'a [u8],
    pub i_s: &'a [u8],
    pub k_s: &'a [u8],
    pub q_c: &'a [u8],
    pub q_s: &'a [u8],
    pub k: &'a [u8; 32],
}

/// What the exchange hash is taken of.
pub open spec fn hash_input(i: HashInputs<'_>) -> Seq<u8> {
    ssh_string(i.v_c@) + ssh_string(i.v_s@) + ssh_string(i.i_c@) + ssh_string(i.i_s@) + ssh_string(i.k_s@)
        + ssh_string(i.q_c@) + ssh_string(i.q_s@) + mpint_of(i.k@)
}

/// Every part fits its length field.
pub open spec fn hash_parts_fit(i: HashInputs<'_>) -> bool {
    fits_u32(i.v_c@) && fits_u32(i.v_s@) && fits_u32(i.i_c@) && fits_u32(i.i_s@) && fits_u32(i.k_s@) && fits_u32(
        i.q_c@,
    ) && fits_u32(i.q_s@)
}

/// `H = SHA256(string V_C || string V_S || string I_C || string I_S ||
/// string K_S || string Q_C || string Q_S || mpint K)` (RFC 5656 section 4
/// with the `mpint K` of RFC 8731 section 3).
pub fn exchange_hash(i: &HashInputs<'_>) -> (r: [u8; 32])
    requires
        hash_parts_fit(*i),
    ensures
        r@ == sha256_of(hash_input(*i)),
        r@ == sha256_of(
            ssh_string(i.v_c@) + ssh_string(i.v_s@) + ssh_string(i.i_c@) + ssh_string(i.i_s@) + ssh_string(i.k_s@)
                + ssh_string(i.q_c@) + ssh_string(i.q_s@) + ssh_string(positive_body(i.k@)),
        ),
{
    let mut data: Vec<u8> = Vec::new();
    put_string(&mut data, i.v_c);
    put_string(&mut data, i.v_s);
    put_string(&mut data, i.i_c);
    put_string(&mut data, i.i_s);
    put_string(&mut data, i.k_s);
    put_string(&mut data, i.q_c);
    put_string(&mut data, i.q_s);
    let k = mpint(i.k.as_slice());
    push_all(&mut data, k.as_slice());
    proof {
        assert(Seq::<u8>::empty() + ssh_string(i.v_c@) =~= ssh_string(i.v_c@));
        assert(data@ == hash_input(*i));
    }
    sha256(data.as_slice())
}

/// The first `blocks` blocks of the key stream for one letter (RFC 4253
/// section 7.2): each block hashes the secret, the exchange hash and, for the
/// first, the letter and the session, for the others all blocks before.
pub open spec fn key_blocks(k: Seq<u8>, h: Seq<u8>, letter: u8, session_id: Seq<u8>, blocks: int) -> Seq<u8>
    decreases blocks,
{
    if blocks <= 1 {
        sha256_of(mpint_of(k) + h + seq![letter] + session_id)
    } else {
        let before = key_blocks(k, h, letter, session_id, blocks - 1);
        before + sha256_of(mpint_of(k) + h + before)
    }
}

/// The number of blocks that `n` bytes need.
pub open spec fn blocks_for(n: int) -> int {
    if n <= 32 {
        1
    } else {
        (n + 31) / 32
    }
}

/// `n` bytes of key material.
pub open spec fn derived(k: Seq<u8>, h: Seq<u8>, letter: u8, session_id: Seq<u8>, n: int) -> Seq<u8> {
    key_blocks(k, h, letter, session_id, blocks_for(n)).take(n)
}

/// `K1 = HASH(K || H || X || session_id)`, `K2 = HASH(K || H || K1)`, and so
/// on, concatenated and truncated to `n` bytes.
pub fn derive(k: &[u8; 32], h: &[u8; 32], letter: u8, session_id: &[u8; 32], n: usize) -> (r: Vec<u8>)
    requires
        n <= usize::MAX - 64,
    ensures
        r@ == derived(k@, h@, letter, session_id@, n as int),
        r@.len() == n,
        n <= 32 ==> r@ == sha256_of(ssh_string(positive_body(k@)) + h@ + seq![letter] + session_id@).take(n as int),
        n > 32 ==> r@.take(32) == sha256_of(ssh_string(positive_body(k@)) + h@ + seq![letter] + session_id@),
        forall|at: int|
            0 < at < n && at % 32 == 0 ==> r@.subrange(at, min_int(at + 32, n as int)) == sha256_of(
                ssh_string(positive_body(k@)) + h@ + #[trigger] r@.take(at),
            ).take(min_int(32, n - at)),
{
    let mut prefix = mpint(k.as_slice());
    push_all(&mut prefix, h.as_slice());
    let mut first = copy_bytes(prefix.as_slice());
    first.push(letter);
    push_all(&mut first, session_id.as_slice());
    proof {
        assert(first@ =~= mpint_of(k@) + h@ + seq![letter] + session_id@);
    }
    let block = sha256(first.as_slice());
    let mut out = copy_bytes(block.as_slice());
    let ghost mut blocks: int = 1;
    while out.len() < n
        invariant
            prefix@ == mpint_of(k@) + h@,
            blocks >= 1,
            out@ == key_blocks(k@, h@, letter, session_id@, blocks),
            out@.len() == 32 * blocks,
            blocks <= blocks_for(n as int),
            n <= usize::MAX - 64,
            forall|b: int|
                1 <= b <= blocks ==> (#[trigger] key_blocks(k@, h@, letter, session_id@, b)).len() == 32 * b,
        decreases n + 32 - out@.len(),
    {
        let mut input = copy_bytes(prefix.as_slice());
        push_all(&mut input, out.as_slice());
        let next = sha256(input.as_slice());
        push_all(&mut out, next.as_slice());
        proof {
            blocks = blocks + 1;
        }
    }
    let ghost all = out@;
    out.truncate(n);
    proof {
        assert(blocks == blocks_for(n as int));
        assert(out@ =~= all.take(n as int));
        lemma_key_blocks(k@, h@, letter, session_id@, blocks);
        assert(all.take(32) =~= sha256_of(mpint_of(k@) + h@ + seq![letter] + session_id@));
        if n <= 32 {
            assert(all =~= all.take(32));
        } else {
            assert(out@.take(32) =~= all.take(32));
        }
        assert forall|at: int| 0 < at < n && at % 32 == 0 implies out@.subrange(at, min_int(at + 32, n as int))
            == sha256_of(mpint_of(k@) + h@ + #[trigger] out@.take(at)).take(min_int(32, n - at)) by {
            assert(out@.take(at) =~= all.take(at));
            let e = min_int(at + 32, n as int);
            assert(out@.subrange(at, e) =~= all.subrange(at, at + 32).take(e - at));
        }
    }
    out
}

/// Blocks of a digest that is 32 bytes long: the first hashes the secret, the
/// exchange hash, the letter and the session, each other one the secret, the
/// exchange hash and everything before it.
proof fn lemma_key_blocks(k: Seq<u8>, h: Seq<u8>, letter: u8, session_id: Seq<u8>, blocks: int)
    requires
        blocks >= 1,
        forall|b: int| 1 <= b <= blocks ==> (#[trigger] key_blocks(k, h, letter, session_id, b)).len() == 32 * b,
    ensures
        ({
            let all = key_blocks(k, h, letter, session_id, blocks);
            &&& all.len() == 32 * blocks
            &&& all.take(32) == sha256_of(ssh_string(positive_body(k)) + h + seq![letter] + session_id)
            &&& forall|at: int|
                0 < at < all.len() && at % 32 == 0 ==> all.subrange(at, at + 32) == sha256_of(
                    ssh_string(positive_body(k)) + h + #[trigger] all.take(at),
                )
        }),
    decreases blocks,
{
    let all = key_blocks(k, h, letter, session_id, blocks);
    if blocks == 1 {
        assert(all.take(32) =~= all);
    } else {
        lemma_key_blocks(k, h, letter, session_id, blocks - 1);
        let before = key_blocks(k, h, letter, session_id, blocks - 1);
        assert(all.take(32) =~= before.take(32));
        assert forall|at: int| 0 < at < all.len() && at % 32 == 0 implies all.subrange(at, at + 32) == sha256_of(
            ssh_string(positive_body(k)) + h + #[trigger] all.take(at),
        ) by {
            if at < before.len() {
                assert(at + 32 <= before.len());
                assert(all.take(at) =~= before.take(at));
                assert(all.subrange(at, at + 32) =~= before.subrange(at, at + 32));
            } else {
                assert(at == before.len());
                assert(all.take(at) =~= before);
                assert(all.subrange(at, at + 32) =~= all.skip(at));
            }
        }
    }
}

/// Key material (RFC 4253 section 7.2), where a digest is 32 bytes long: the
/// first 32 bytes are the digest of the secret as an `mpint`, the exchange
/// hash, the letter and the session; every later block is the digest of the
/// secret, the exchange hash and all the material before it. Fewer bytes are a
/// prefix of more.
pub proof fn lemma_derived(k: Seq<u8>, h: Seq<u8>, letter: u8, session_id: Seq<u8>, n: int)
    requires
        n >= 0,
        forall|data: Seq<u8>| (#[trigger] sha256_of(data)).len() == 32,
    ensures
        ({
            let r = derived(k, h, letter, session_id, n);
            let secret = ssh_string(positive_body(k));
            &&& r.len() == n
            &&& r.take(min_int(n, 32)) == sha256_of(secret + h + seq![letter] + session_id).take(min_int(n, 32))
            &&& forall|at: int|
                0 < at < n && at % 32 == 0 ==> r.subrange(at, min_int(at + 32, n)) == sha256_of(
                    secret + h + #[trigger] r.take(at),
                ).take(min_int(32, n - at))
        }),
{
    let blocks = blocks_for(n);
    assert forall|b: int| 1 <= b <= blocks implies (#[trigger] key_blocks(k, h, letter, session_id, b)).len() == 32
        * b by {
        lemma_blocks_len(k, h, letter, session_id, b);
    }
    lemma_key_blocks(k, h, letter, session_id, blocks);
    let all = key_blocks(k, h, letter, session_id, blocks);
    let r = derived(k, h, letter, session_id, n);
    assert(r.take(min_int(n, 32)) =~= all.take(32).take(min_int(n, 32)));
    assert forall|at: int| 0 < at < n && at % 32 == 0 implies r.subrange(at, min_int(at + 32, n)) == sha256_of(
        ssh_string(positive_body(k)) + h + #[trigger] r.take(at),
    ).take(min_int(32, n - at)) by {
        assert(r.take(at) =~= all.take(at));
        let e = min_int(at + 32, n);
        assert(r.subrange(at, e) =~= all.subrange(at, at + 32).take(e - at));
    }
}

proof fn lemma_blocks_len(k: Seq<u8>, h: Seq<u8>, letter: u8, session_id: Seq<u8>, blocks: int)
    requires
        blocks >= 1,
        forall|data: Seq<u8>| (#[trigger] sha256_of(data)).len() == 32,
    ensures
        key_blocks(k, h, letter, session_id, blocks).len() == 32 * blocks,
    decreases blocks,
{
    if blocks > 1 {
        lemma_blocks_len(k, h, letter, session_id, blocks - 1);
    }
}

/// Key and initial nonce for one direction of `aes128-gcm@openssh.com`.
#[derive(Clone, Copy, Debug, PartialEq, Eq)]
pub struct DirKeys {
    pub key: [u8; 16],
    pub iv: [u8; 12],
}

fn take16(v: &Vec<u8>) -> (r: [u8; 16])
    requires
        v@.len() == 16,
    ensures
        r@ == v@,
{
    crate::tcp_support::msg_ref::cookie_array(v.as_slice())
}

fn take12(v: &[u8]) -> (r: [u8; 12])
    requires
        v@.len() == 12,
    ensures
        r@ == v@,
{
    let r: [u8; 12] = [v[0], v[1], v[2], v[3], v[4], v[5], v[6], v[7], v[8], v[9], v[10], v[11]];
    proof {
        assert(r@ =~= v@);
    }
    r
}

/// The keys of one direction are derived with the given letters.
pub open spec fn keys_are(d: DirKeys, k: Seq<u8>, h: Seq<u8>, session_id: Seq<u8>, iv: u8, key: u8) -> bool {
    d.iv@ == derived(k, h, iv, session_id, 12) && d.key@ == derived(k, h, key, session_id, 16)
}

/// Both directions: `A`/`C` client to server, `B`/`D` server to client.
pub fn derive_gcm(k: &[u8; 32], h: &[u8; 32], session_id: &[u8; 32]) -> (r: (DirKeys, DirKeys))
    ensures
        keys_are(r.0, k@, h@, session_id@, 65, 67),
        keys_are(r.1, k@, h@, session_id@, 66, 68),
        ({
            let secret = ssh_string(positive_body(k@)) + h@;
            &&& r.0.iv@ == sha256_of(secret + seq![65u8] + session_id@).take(12)
            &&& r.1.iv@ == sha256_of(secret + seq![66u8] + session_id@).take(12)
            &&& r.0.key@ == sha256_of(secret + seq![67u8] + session_id@).take(16)
            &&& r.1.key@ == sha256_of(secret + seq![68u8] + session_id@).take(16)
        }),
{
    let c2s = DirKeys {
        iv: take12(derive(k, h, 65, session_id, 12).as_slice()),
        key: take16(&derive(k, h, 67, session_id, 16)),
    };
    let s2c = DirKeys {
        iv: take12(derive(k, h, 66, session_id, 12).as_slice()),
        key: take16(&derive(k, h, 68, session_id, 16)),
    };
    (c2s, s2c)
}

/// The padding that aligns a protected payload with the fewest bytes.
pub open spec fn pad_len(payload_len: int) -> int {
    let short = 16 - (1 + payload_len) % 16;
    if short < 4 {
        short + 16
    } else {
        short
    }
}

/// The length of a protected body: its padding length, the payload and the
/// padding.
pub open spec fn body_len(payload_len: int) -> int {
    1 + payload_len + pad_len(payload_len)
}

/// Protected-packet padding rule (RFC 5647 section 7.2 with a 16-byte block):
/// `1 + payload + padding` is a multiple of 16 with at least 4 bytes of
/// padding, and no fewer bytes would do.
pub fn padding_len(payload_len: usize) -> (r: usize)
    requires
        payload_len < usize::MAX,
    ensures
        r == pad_len(payload_len as int),
        4 <= r < 20,
        (1 + payload_len + r) % 16 == 0,
        forall|p: int| 4 <= p < r ==> #[trigger] ((1 + payload_len + p) % 16) != 0,
{
    let n: usize = 1 + payload_len;
    let mut pad: usize = 16 - (n % 16);
    if pad < 4 {
        pad = pad + 16;
    }
    proof {
        let q = n as int / 16;
        let m = n as int % 16;
        lemma_remainder(q, m + pad);
        assert forall|p: int| 4 <= p < pad implies #[trigger] ((1 + payload_len + p) % 16) != 0 by {
            lemma_remainder(q, m + p);
        }
    }
    pad
}

proof fn lemma_remainder(q: int, m: int)
    requires
        0 <= m < 48,
    ensures
        (16 * q + m) % 16 == if m < 16 {
            m
        } else if m < 32 {
            m - 16
        } else {
            m - 32
        },
{
}

/// A nonce: the fixed field and the counter.
pub open spec fn nonce_of(fixed: Seq<u8>, counter: u64) -> Seq<u8> {
    fixed + be64(counter)
}

/// A protected packet: the length in clear, the sealed body, the tag.
pub open spec fn packet_of(key: Seq<u8>, nonce: Seq<u8>, payload: Seq<u8>, padding: Seq<u8>) -> Seq<u8> {
    let aad = be32((1 + payload.len() + padding.len()) as u32);
    let (cipher, tag) = gcm_sealed(key, nonce, aad, seq![padding.len() as u8] + payload + padding);
    aad + cipher + tag
}

/// The payload of the packet at the front of `buf` and the packet's length,
/// where the tag verifies and the padding is regular.
pub open spec fn packet_opened(key: Seq<u8>, nonce: Seq<u8>, buf: Seq<u8>) -> Option<(Seq<u8>, int)> {
    let n = u32_of(buf) as int;
    if buf.len() < 4 || buf.len() < 4 + n + 16 {
        None
    } else {
        match gcm_opened(key, nonce, buf.take(4), buf.subrange(4, 4 + n), buf.subrange(4 + n, 4 + n + 16)) {
            None => None,
            Some(body) => if body.len() == 0 || body[0] < 4 || body[0] + 1 > n {
                None
            } else {
                Some((body.subrange(1, n - body[0]), n + 20))
            },
        }
    }
}

/// What stands behind a packet changes nothing: it opens to the same payload
/// and the same length.
pub proof fn lemma_open_prefix(key: Seq<u8>, nonce: Seq<u8>, packet: Seq<u8>, rest: Seq<u8>)
    requires
        packet_opened(key, nonce, packet) is Some,
    ensures
        packet_opened(key, nonce, packet + rest) == packet_opened(key, nonce, packet),
{
    let buf = packet + rest;
    let n = u32_of(packet) as int;
    assert(buf.take(4) =~= packet.take(4));
    lemma_u32_prefix(packet, packet.take(4));
    lemma_u32_prefix(buf, packet.take(4));
    assert(buf.subrange(4, 4 + n) =~= packet.subrange(4, 4 + n));
    assert(buf.subrange(4 + n, 4 + n + 16) =~= packet.subrange(4 + n, 4 + n + 16));
}

/// A sealed packet opens: whatever stands behind it, a direction with the same
/// key and nonce finds the payload and the length of the packet.
pub proof fn lemma_sealed_opens(
    key: Seq<u8>,
    nonce: Seq<u8>,
    packet: Seq<u8>,
    payload: Seq<u8>,
    rest: Seq<u8>,
)
    requires
        packet_opened(key, nonce, packet) == Some((payload, packet.len() as int)),
    ensures
        packet_opened(key, nonce, packet + rest) == Some((payload, packet.len() as int)),
{
    lemma_open_prefix(key, nonce, packet, rest);
}

/// One AES-128-GCM direction in the RFC 5647 layout: the nonce is a 4-byte
/// fixed field and an 8-byte big-endian counter incremented after every
/// packet.
#[derive(Clone, Copy, Debug)]
pub struct Gcm {
    key: [u8; 16],
    fixed: [u8; 4],
    counter: u64,
    first: u64,
}

impl Gcm {
    /// The key of the direction.
    pub closed spec fn key_bytes(self) -> Seq<u8> {
        self.key@
    }

    /// The fixed field of the nonce.
    pub closed spec fn fixed_bytes(self) -> Seq<u8> {
        self.fixed@
    }

    /// The counter of the nonce.
    pub closed spec fn count(self) -> u64 {
        self.counter
    }

    /// The counter of the initial nonce.
    pub closed spec fn initial(self) -> u64 {
        self.first
    }

    /// The nonce of the next packet.
    pub open spec fn next_nonce(self) -> Seq<u8> {
        nonce_of(self.fixed_bytes(), self.count())
    }

    /// The direction after one packet.
    pub open spec fn stepped(self, after: Gcm) -> bool {
        after.key_bytes() == self.key_bytes() && after.fixed_bytes() == self.fixed_bytes() && after.count()
            == self.count().wrapping_add(1) && after.initial() == self.initial()
    }

    /// A direction with the given key and initial nonce.
    pub fn new(key: &[u8; 16], iv: &[u8; 12]) -> (r: Self)
        ensures
            r.key_bytes() == key@,
            r.next_nonce() == iv@,
            r.fixed_bytes() == iv@.take(4),
            r.count() == u64_of(iv@.skip(4)),
            r.initial() == r.count(),
    {
        let fixed: [u8; 4] = [iv[0], iv[1], iv[2], iv[3]];
        let counter: u64 = be_u64(tail(iv.as_slice(), 4));
        proof {
            crate::wire_core::bytes::lemma_u64_read_write(iv@.skip(4));
            assert(iv@.skip(4).take(8) =~= iv@.skip(4));
            assert(fixed@ =~= iv@.take(4));
            assert(iv@.take(4) + iv@.skip(4) =~= iv@);
        }
        Gcm { key: *key, fixed, counter, first: counter }
    }

    /// The nonce the next packet uses.
    pub fn nonce(&self) -> (r: [u8; 12])
        ensures
            r@ == self.next_nonce(),
            r@ == self.fixed_bytes() + be64(self.count()),
    {
        let mut v = copy_bytes(self.fixed.as_slice());
        put_u64(&mut v, self.counter);
        proof {
            crate::wire_core::bytes::lemma_u64_write_read(self.counter);
        }
        take12(v.as_slice())
    }

    /// Packets sealed or opened so far, relative to the initial nonce.
    pub fn counter(&self) -> (r: u64)
        ensures
            r == self.count().wrapping_sub(self.initial()),
    {
        self.counter.wrapping_sub(self.first)
    }

    /// Seals `payload` with the given padding bytes into a complete packet.
    /// A direction in the same state opens it to the payload.
    pub fn seal_with_padding(&mut self, payload: &[u8], padding: &[u8]) -> (r: Vec<u8>)
        requires
            body_len(payload@.len() as int) <= u32::MAX,
            padding@.len() == pad_len(payload@.len() as int),
        ensures
            r@ == packet_of(old(self).key_bytes(), old(self).next_nonce(), payload@, padding@),
            old(self).stepped(*final(self)),
            r@.len() == 4 + 1 + payload@.len() + padding@.len() + 16,
            ({
                let g = *old(self);
                let len = be32((1 + payload@.len() + padding@.len()) as u32);
                let plain = seq![padding@.len() as u8] + payload@ + padding@;
                let (cipher, tag) = gcm_sealed(g.key_bytes(), g.fixed_bytes() + be64(g.count()), len, plain);
                r@ == len + cipher + tag
            }),
            packet_opened(old(self).key_bytes(), old(self).next_nonce(), r@) == Some(
                (payload@, r@.len() as int),
            ),
    {
        let packet_length: u32 = (1 + payload.len() + padding.len()) as u32;
        let mut out: Vec<u8> = Vec::new();
        put_u32(&mut out, packet_length);
        let aad = copy_bytes(out.as_slice());
        let mut body: Vec<u8> = Vec::new();
        body.push(padding.len() as u8);
        push_all(&mut body, payload);
        push_all(&mut body, padding);
        let ghost plain = body@;
        proof {
            assert(aad@ =~= be32(packet_length));
            assert(plain =~= seq![padding@.len() as u8] + payload@ + padding@);
            lemma_be32_len(packet_length);
        }
        let nonce = self.nonce();
        let (cipher, tag) = gcm_encrypt(&self.key, &nonce, aad.as_slice(), body);
        self.counter = self.counter.wrapping_add(1);
        push_all(&mut out, cipher.as_slice());
        push_all(&mut out, tag.as_slice());
        proof {
            let n = packet_length as int;
            lemma_u32_write_read(packet_length);
            lemma_u32_prefix(out@, be32(packet_length));
            assert(out@.take(4) =~= aad@);
            assert(out@.subrange(4, 4 + n) =~= cipher@);
            assert(out@.subrange(4 + n, 4 + n + 16) =~= tag@);
            assert(plain[0] == padding@.len() as u8);
            assert(plain.subrange(1, n - plain[0]) =~= payload@);
        }
        out
    }

    /// Seals with zero padding.
    pub fn seal(&mut self, payload: &[u8]) -> (r: Vec<u8>)
        requires
            body_len(payload@.len() as int) <= u32::MAX,
        ensures
            r@ == packet_of(
                old(self).key_bytes(),
                old(self).next_nonce(),
                payload@,
                Seq::new(pad_len(payload@.len() as int) as nat, |i: int| 0u8),
            ),
            old(self).stepped(*final(self)),
            packet_opened(old(self).key_bytes(), old(self).next_nonce(), r@) == Some(
                (payload@, r@.len() as int),
            ),
    {
        let n: usize = padding_len(payload.len());
        let mut pad: Vec<u8> = Vec::new();
        let mut i: usize = 0;
        while i < n
            invariant
                i <= n,
                pad@ =~= Seq::new(i as nat, |j: int| 0u8),
            decreases n - i,
        {
            pad.push(0);
            i = i + 1;
        }
        self.seal_with_padding(payload, pad.as_slice())
    }

    /// Opens one packet from the front of `buf`: the payload and the packet's
    /// length when the tag verifies, `None` otherwise (the counter then does
    /// not advance).
    pub fn open(&mut self, buf: &[u8]) -> (r: Option<(Vec<u8>, usize)>)
        ensures
            match packet_opened(old(self).key_bytes(), old(self).next_nonce(), buf@) {
                Some((payload, total)) => {
                    &&& r matches Some(v) && v.0@ == payload && v.1 == total
                    &&& old(self).stepped(*final(self))
                },
                None => r is None && *final(self) == *old(self),
            },
    {
        if buf.len() < 4 {
            return None;
        }
        let claimed: u32 = be_u32(buf);
        if ((buf.len() - 4) as u64) < claimed as u64 + 16 {
            return None;
        }
        let n: usize = claimed as usize;
        let aad = head(buf, 4);
        let cipher = copy_bytes(vstd::slice::slice_subrange(buf, 4, 4 + n));
        let tag = take16(&copy_bytes(vstd::slice::slice_subrange(buf, 4 + n, 4 + n + 16)));
        let nonce = self.nonce();
        match gcm_decrypt(&self.key, &nonce, aad, cipher, &tag) {
            None => None,
            Some(body) => {
                if body.len() == 0 {
                    return None;
                }
                let pad: usize = body[0] as usize;
                if pad < 4 || pad + 1 > n {
                    return None;
                }
                self.counter = self.counter.wrapping_add(1);
                let payload = copy_bytes(vstd::slice::slice_subrange(body.as_slice(), 1, n - pad));
                Some((payload, 4 + n + 16))
            },
        }
    }
}

/// A fresh direction has counted no packet, and each packet counts one more.
pub proof fn lemma_counted(before: Gcm, after: Gcm)
    requires
        before.stepped(after),
    ensures
        after.count().wrapping_sub(after.initial()) == before.count().wrapping_sub(before.initial()).wrapping_add(1),
        before.count() == before.initial() ==> before.count().wrapping_sub(before.initial()) == 0,
{
}

/// One step of the xorshift generator.
pub open spec fn xorshift(x: u64) -> u64 {
    let a = x ^ (x >> 12);
    let b = a ^ (a << 25);
    b ^ (b >> 27)
}

/// The state after `n` steps.
pub open spec fn rng_state(seed: u64, n: int) -> u64
    decreases n,
{
    if n <= 0 {
        seed
    } else {
        xorshift(rng_state(seed, n - 1))
    }
}

/// The output of a state.
pub open spec fn rng_output(state: u64) -> u64 {
    state.wrapping_mul(0x2545_F491_4F6C_DD1D)
}

/// `n` bytes from a state: the outputs in little-endian order.
pub open spec fn rng_bytes(state: u64, n: int) -> Seq<u8> {
    Seq::new(n as nat, |i: int| (rng_output(rng_state(state, i / 8 + 1)) >> ((8 * (i % 8)) as u64)) as u8)
}

/// The number of outputs that `n` bytes take.
pub open spec fn rng_steps(n: int) -> int {
    (n + 7) / 8
}

/// Deterministic byte stream (xorshift64*), usable both as an entropy source
/// and as a reproducible padding source. It is not cryptographic.
#[derive(Clone, Copy, Debug, PartialEq, Eq, Structural)]
pub struct HarnessRng {
    state: u64,
    fail_after: Option<usize>,
    drawn: usize,
}

impl HarnessRng {
    /// The state of the generator.
    pub closed spec fn at(self) -> u64 {
        self.state
    }

    /// The bytes after which fallible draws fail.
    pub closed spec fn limit(self) -> Option<usize> {
        self.fail_after
    }

    /// The bytes drawn so far.
    pub closed spec fn spent(self) -> usize {
        self.drawn
    }

    /// The stream after `n` more bytes.
    pub open spec fn advanced(self, n: int, after: HarnessRng) -> bool {
        &&& after.at() == rng_state(self.at(), rng_steps(n))
        &&& after.limit() == self.limit()
        &&& after.spent() == self.spent() + n
    }

    /// A stream from a seed (never the all-zero state).
    pub fn new(seed: u64) -> (r: Self)
        ensures
            r.at() == seed | 1,
            r.at() != 0,
            r.limit() is None,
            r.spent() == 0,
    {
        proof {
            assert(seed | 1 != 0) by (bit_vector);
        }
        HarnessRng { state: seed | 1, fail_after: None, drawn: 0 }
    }

    /// A stream whose fallible draws fail once `limit` bytes were drawn.
    pub fn failing_after(seed: u64, limit: usize) -> (r: Self)
        ensures
            r.at() == seed | 1,
            r.limit() == Some(limit),
            r.spent() == 0,
    {
        HarnessRng { state: seed | 1, fail_after: Some(limit), drawn: 0 }
    }

    /// The next output.
    pub fn next_u64(&mut self) -> (r: u64)
        ensures
            final(self).at() == xorshift(old(self).at()),
            r == rng_output(final(self).at()),
            final(self).limit() == old(self).limit(),
            final(self).spent() == old(self).spent(),
    {
        let mut x: u64 = self.state;
        x = x ^ (x >> 12);
        x = x ^ (x << 25);
        x = x ^ (x >> 27);
        self.state = x;
        x.wrapping_mul(0x2545_F491_4F6C_DD1D)
    }

    /// The upper half of the next output.
    pub fn next_u32(&mut self) -> (r: u32)
        ensures
            final(self).at() == xorshift(old(self).at()),
            r == (rng_output(final(self).at()) >> 32) as u32,
            final(self).limit() == old(self).limit(),
            final(self).spent() == old(self).spent(),
    {
        (self.next_u64() >> 32) as u32
    }

    /// Draws `n` bytes.
    pub fn fill_bytes(&mut self, n: usize) -> (r: Vec<u8>)
        requires
            old(self).spent() + n <= usize::MAX,
        ensures
            r@ == rng_bytes(old(self).at(), n as int),
            old(self).advanced(n as int, *final(self)),
    {
        let ghost start = self.state;
        let mut out: Vec<u8> = Vec::new();
        let mut v: u64 = 0;
        let mut i: usize = 0;
        while i < n
            invariant
                i <= n,
                start == old(self).state,
                self.state == rng_state(start, rng_steps(i as int)),
                self.fail_after == old(self).fail_after,
                self.drawn == old(self).drawn,
                i % 8 != 0 ==> v == rng_output(rng_state(start, i as int / 8 + 1)),
                out@ =~= rng_bytes(start, i as int),
            decreases n - i,
        {
            if i % 8 == 0 {
                v = self.next_u64();
            }
            let shift: u64 = 8 * (i % 8) as u64;
            out.push((v >> shift) as u8);
            i = i + 1;
        }
        self.drawn = self.drawn + n;
        out
    }

    /// Draws `n` bytes unless that passes the limit, in which case nothing is
    /// drawn.
    pub fn try_fill_bytes(&mut self, n: usize) -> (r: Option<Vec<u8>>)
        requires
            old(self).spent() + n <= usize::MAX,
        ensures
            match old(self).limit() {
                Some(limit) => r is None <==> old(self).spent() + n > limit,
                None => r is Some,
            },
            r is None ==> *final(self) == *old(self),
            r matches Some(b) ==> b@ == rng_bytes(old(self).at(), n as int) && old(self).advanced(
                n as int,
                *final(self),
            ),
    {
        if let Some(limit) = self.fail_after {
            if self.drawn + n > limit {
                return None;
            }
        }
        Some(self.fill_bytes(n))
    }
}

} // verus!
