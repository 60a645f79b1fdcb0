//! Key and signature blobs, `ssh-ed25519` host keys, `SHA256:` fingerprints
//! and the pinned trust policy.

use vstd::prelude::*;
use vstd::utf8::{encode_utf8, valid_utf8};
use crate::handshake::scenario::array32;
use crate::handshake::types::{
    BlobError, BlobField, KeyError, TrustDecision, TrustSource, UntrustedReason,
};
use crate::kex_support::base64::{decode_43_strict, encode_unpadded, encoded, lemma_encoding_injective, lemma_symbols};
use crate::kex_support::crypto::{ed25519_blob, ed25519_key_blob, ed25519_sig_blob, put_string, sha256, sha256_of, string};
use crate::kex_support::keys::{
    ed25519_key_valid, ed25519_public, ed25519_public_of, ed25519_sign, ed25519_signature_of, ed25519_valid,
};
use crate::seqs::{copy_bytes, find_byte, head, same_bytes, starts_with, tail, vecs};
use crate::tcp_support::{byte_at, dropped, taken_filled, Cursor};
use crate::text::{
    ascii_text, bytes_of, chars_of, lemma_ascii_len, lemma_ascii_text, push_text, string_from_chars,
    string_from_utf8,
};
use crate::wire_core::bytes::{fits_u32, ssh_string};
use crate::wire_core::cursor::{read_string, RefCursor};
use crate::wire_core::laws::lemma_string_at;

verus! {

/// The layout of a key blob: a `string` algorithm, and the rest as its body.
pub open spec fn key_blob_read(s: Seq<u8>) -> Result<(Seq<u8>, Seq<u8>), BlobError> {
    match read_string(s, 0) {
        Err(error) => Err(BlobError::Field { field: BlobField::Algorithm, offset: 0, error }),
        Ok((algorithm, p)) => Ok((algorithm, s.skip(p))),
    }
}

/// The layout of two `string`s with nothing behind them.
pub open spec fn two_strings_read(s: Seq<u8>, second: BlobField) -> Result<(Seq<u8>, Seq<u8>), BlobError> {
    match read_string(s, 0) {
        Err(error) => Err(BlobError::Field { field: BlobField::Algorithm, offset: 0, error }),
        Ok((algorithm, p)) => match read_string(s, p) {
            Err(error) => Err(BlobError::Field { field: second, offset: p as usize, error }),
            Ok((value, q)) => if q != s.len() {
                Err(BlobError::TrailingBytes { count: (s.len() - q) as usize })
            } else {
                Ok((algorithm, value))
            },
        },
    }
}

/// The layout of a signature blob.
pub open spec fn signature_blob_read(s: Seq<u8>) -> Result<(Seq<u8>, Seq<u8>), BlobError> {
    two_strings_read(s, BlobField::Signature)
}

/// The 32 bytes of the host key in a blob, whether or not they are a key.
pub open spec fn host_key_read(s: Seq<u8>) -> Result<Seq<u8>, KeyError<Seq<u8>>> {
    match key_blob_read(s) {
        Err(e) => Err(KeyError::Blob(e)),
        Ok((algorithm, _)) => if algorithm != bytes_of("ssh-ed25519") {
            Err(KeyError::UnsupportedAlgorithm(algorithm))
        } else {
            match two_strings_read(s, BlobField::Key) {
                Err(e) => Err(KeyError::Blob(e)),
                Ok((_, key)) => if key.len() != 32 {
                    Err(KeyError::WrongLength { field: BlobField::Key, expected: 32, found: key.len() as usize })
                } else {
                    Ok(key)
                },
            }
        },
    }
}

/// The host key in a blob.
pub open spec fn host_key_of(s: Seq<u8>) -> Result<Seq<u8>, KeyError<Seq<u8>>> {
    match host_key_read(s) {
        Ok(key) => if ed25519_key_valid(key) {
            Ok(key)
        } else {
            Err(KeyError::InvalidKey)
        },
        Err(e) => Err(e),
    }
}

/// The 64 bytes of a decoded signature.
pub open spec fn signature_of(algorithm: Seq<u8>, signature: Seq<u8>) -> Result<Seq<u8>, KeyError<Seq<u8>>> {
    if algorithm != bytes_of("ssh-ed25519") {
        Err(KeyError::UnsupportedAlgorithm(algorithm))
    } else if signature.len() != 64 {
        Err(KeyError::WrongLength { field: BlobField::Signature, expected: 64, found: signature.len() as usize })
    } else {
        Ok(signature)
    }
}

/// A `string` algorithm, and the rest as the body.
pub fn ref_public_key_blob(blob: &[u8]) -> (r: Result<(&[u8], &[u8]), BlobError>)
    ensures
        match r {
            Ok((a, b)) => key_blob_read(blob@) == Ok::<(Seq<u8>, Seq<u8>), BlobError>((a@, b@)),
            Err(e) => key_blob_read(blob@) == Err::<(Seq<u8>, Seq<u8>), BlobError>(e),
        },
{
    let mut c = RefCursor::new(blob);
    match c.string() {
        Err(error) => Err(BlobError::Field { field: BlobField::Algorithm, offset: 0, error }),
        Ok(algorithm) => Ok((algorithm, c.rest())),
    }
}

fn two_strings(blob: &[u8], second: BlobField) -> (r: Result<(&[u8], &[u8]), BlobError>)
    ensures
        match r {
            Ok((a, b)) => two_strings_read(blob@, second) == Ok::<(Seq<u8>, Seq<u8>), BlobError>((a@, b@)),
            Err(e) => two_strings_read(blob@, second) == Err::<(Seq<u8>, Seq<u8>), BlobError>(e),
        },
{
    let mut c = RefCursor::new(blob);
    let algorithm = match c.string() {
        Err(error) => {
            return Err(BlobError::Field { field: BlobField::Algorithm, offset: 0, error });
        },
        Ok(a) => a,
    };
    let offset: usize = c.pos;
    let value = match c.string() {
        Err(error) => {
            return Err(BlobError::Field { field: second, offset, error });
        },
        Ok(v) => v,
    };
    let count: usize = c.remaining();
    if count != 0 {
        Err(BlobError::TrailingBytes { count })
    } else {
        Ok((algorithm, value))
    }
}

/// A `string` algorithm and a `string` signature, nothing behind.
pub fn ref_signature_blob(blob: &[u8]) -> (r: Result<(&[u8], &[u8]), BlobError>)
    ensures
        match r {
            Ok((a, b)) => signature_blob_read(blob@) == Ok::<(Seq<u8>, Seq<u8>), BlobError>((a@, b@)),
            Err(e) => signature_blob_read(blob@) == Err::<(Seq<u8>, Seq<u8>), BlobError>(e),
        },
{
    two_strings(blob, BlobField::Signature)
}

/// The 32 bytes of the host key in a blob.
pub fn ref_host_key(blob: &[u8]) -> (r: Result<[u8; 32], KeyError>)
    ensures
        match r {
            Ok(k) => host_key_read(blob@) == Ok::<Seq<u8>, KeyError<Seq<u8>>>(k@),
            Err(e) => host_key_read(blob@) == Err::<Seq<u8>, KeyError<Seq<u8>>>(e@),
        },
{
    let (algorithm, _body) = match ref_public_key_blob(blob) {
        Err(e) => {
            return Err(KeyError::Blob(e));
        },
        Ok(v) => v,
    };
    if !same_bytes(algorithm, "ssh-ed25519".as_bytes()) {
        return Err(KeyError::UnsupportedAlgorithm(copy_bytes(algorithm)));
    }
    match two_strings(blob, BlobField::Key) {
        Err(e) => Err(KeyError::Blob(e)),
        Ok((_algorithm, key)) => if key.len() != 32 {
            Err(KeyError::WrongLength { field: BlobField::Key, expected: 32, found: key.len() })
        } else {
            Ok(array32(key))
        },
    }
}

/// The host key in a blob: its layout, its length, and that it is a key.
pub fn host_key(blob: &[u8]) -> (r: Result<[u8; 32], KeyError>)
    ensures
        match r {
            Ok(k) => host_key_of(blob@) == Ok::<Seq<u8>, KeyError<Seq<u8>>>(k@),
            Err(e) => host_key_of(blob@) == Err::<Seq<u8>, KeyError<Seq<u8>>>(e@),
        },
{
    match ref_host_key(blob) {
        Err(e) => Err(e),
        Ok(key) => checked_key(key, ed25519_valid(&key)),
    }
}

/// A key whose bytes are valid or not.
pub fn checked_key(key: [u8; 32], valid: bool) -> (r: Result<[u8; 32], KeyError>)
    ensures
        valid ==> r == Ok::<[u8; 32], KeyError>(key),
        !valid ==> r == Err::<[u8; 32], KeyError>(KeyError::InvalidKey),
{
    if valid {
        Ok(key)
    } else {
        Err(KeyError::InvalidKey)
    }
}

/// Why a decoded signature is none of this algorithm.
pub fn signature_error(algorithm: &[u8], signature: &[u8]) -> (r: Option<KeyError>)
    ensures
        match signature_of(algorithm@, signature@) {
            Ok(_) => r is None,
            Err(e) => r matches Some(f) && f@ == e,
        },
{
    if !same_bytes(algorithm, "ssh-ed25519".as_bytes()) {
        Some(KeyError::UnsupportedAlgorithm(copy_bytes(algorithm)))
    } else if signature.len() != 64 {
        Some(KeyError::WrongLength { field: BlobField::Signature, expected: 64, found: signature.len() })
    } else {
        None
    }
}

/// Why a fingerprint text is none.
#[derive(Clone, Copy, Debug, PartialEq, Eq, Structural)]
pub enum FingerprintParseError {
    MissingPrefix,
    Padding,
    WrongLength { found: usize },
    InvalidBase64,
}

/// The text of a fingerprint.
pub open spec fn fingerprint_of(digest: Seq<u8>) -> Seq<char> {
    "SHA256:"@ + ascii_text(encoded(digest))
}

/// What a fingerprint text stands for.
pub open spec fn fingerprint_read(t: Seq<u8>) -> Result<Seq<u8>, FingerprintParseError> {
    let p = bytes_of("SHA256:");
    let body = t.skip(p.len() as int);
    if !p.is_prefix_of(t) {
        Err(FingerprintParseError::MissingPrefix)
    } else if body.contains(61) {
        Err(FingerprintParseError::Padding)
    } else if body.len() != 43 {
        Err(FingerprintParseError::WrongLength { found: body.len() as usize })
    } else if exists|d: Seq<u8>| d.len() == 32 && #[trigger] encoded(d) == body {
        Ok(choose|d: Seq<u8>| d.len() == 32 && #[trigger] encoded(d) == body)
    } else {
        Err(FingerprintParseError::InvalidBase64)
    }
}

/// Reads the text of a fingerprint: `SHA256:` and 43 characters of unpadded
/// canonical base64.
pub fn ref_parse_fingerprint(text: &str) -> (r: Result<[u8; 32], FingerprintParseError>)
    ensures
        match r {
            Ok(d) => fingerprint_read(bytes_of(text)) == Ok::<Seq<u8>, FingerprintParseError>(d@),
            Err(e) => fingerprint_read(bytes_of(text)) == Err::<Seq<u8>, FingerprintParseError>(e),
        },
{
    let t = text.as_bytes();
    let prefix = "SHA256:".as_bytes();
    if !starts_with(t, prefix) {
        return Err(FingerprintParseError::MissingPrefix);
    }
    let body = tail(t, prefix.len());
    let at: usize = find_byte(body, 61);
    if at < body.len() {
        proof {
            assert(body@[at as int] == 61);
            assert(body@.contains(61));
        }
        return Err(FingerprintParseError::Padding);
    }
    proof {
        assert(!body@.contains(61));
    }
    if body.len() != 43 {
        return Err(FingerprintParseError::WrongLength { found: body.len() });
    }
    match decode_43_strict(body) {
        Some(d) => {
            proof {
                assert(d@.len() == 32 && encoded(d@) == body@);
                let c = choose|d: Seq<u8>| d.len() == 32 && #[trigger] encoded(d) == body@;
                lemma_encoding_injective(d@, c);
            }
            Ok(d)
        },
        None => Err(FingerprintParseError::InvalidBase64),
    }
}

/// The text of a fingerprint.
pub fn fingerprint_text(digest: &[u8; 32]) -> (r: String)
    ensures
        r@ == fingerprint_of(digest@),
{
    let body = encode_unpadded(digest.as_slice());
    let mut out = chars_of("SHA256:");
    push_text(&mut out, body.as_str());
    string_from_chars(out)
}

/// What the pinned policy decides: trusted where the fingerprints are one.
pub fn pinned_decision(pin: &[u8; 32], fingerprint: &[u8; 32]) -> (r: TrustDecision)
    ensures
        r == (if pin@ == fingerprint@ {
            TrustDecision::Trusted { source: TrustSource::PinnedFingerprint }
        } else {
            TrustDecision::Untrusted { reason: UntrustedReason::FingerprintMismatch }
        }),
{
    if same_bytes(pin.as_slice(), fingerprint.as_slice()) {
        TrustDecision::Trusted { source: TrustSource::PinnedFingerprint }
    } else {
        TrustDecision::Untrusted { reason: UntrustedReason::FingerprintMismatch }
    }
}

/// What the absence of a policy decides.
pub fn no_policy_decision() -> (r: TrustDecision)
    ensures
        r == (TrustDecision::Untrusted { reason: UntrustedReason::NoPolicy }),
{
    TrustDecision::Untrusted { reason: UntrustedReason::NoPolicy }
}

/// Why a signature does not verify.
#[derive(Debug, PartialEq, Eq)]
pub enum VerifyError<B = Vec<u8>, K = KeyError> {
    Invalid,
    AlgorithmMismatch { key_algorithm: B, signature_algorithm: B },
    MalformedSignature(K),
}

/// A verification error over sequences.
pub type VerifyErrorView = VerifyError<Seq<u8>, KeyError<Seq<u8>>>;

impl View for VerifyError<Vec<u8>, KeyError> {
    type V = VerifyErrorView;

    open spec fn view(&self) -> VerifyErrorView {
        match self {
            VerifyError::Invalid => VerifyError::Invalid,
            VerifyError::AlgorithmMismatch { key_algorithm, signature_algorithm } => VerifyError::AlgorithmMismatch {
                key_algorithm: key_algorithm@,
                signature_algorithm: signature_algorithm@,
            },
            VerifyError::MalformedSignature(e) => VerifyError::MalformedSignature(e@),
        }
    }
}

/// Why a decoded signature does not verify under an `ssh-ed25519` key, given
/// whether its bytes are genuine: the algorithm counts first, then the length.
pub open spec fn verify_expect(algorithm: Seq<u8>, signature: Seq<u8>, genuine: bool) -> Option<VerifyErrorView> {
    if algorithm != bytes_of("ssh-ed25519") {
        Some(
            VerifyError::AlgorithmMismatch {
                key_algorithm: bytes_of("ssh-ed25519"),
                signature_algorithm: algorithm,
            },
        )
    } else if signature.len() != 64 {
        Some(
            VerifyError::MalformedSignature(
                KeyError::WrongLength {
                    field: BlobField::Signature,
                    expected: 64,
                    found: signature.len() as usize,
                },
            ),
        )
    } else if genuine {
        None
    } else {
        Some(VerifyError::Invalid)
    }
}

/// An optional verification error over sequences.
pub open spec fn opt_verify(o: Option<VerifyError>) -> Option<VerifyErrorView> {
    match o {
        Some(e) => Some(e@),
        None => None,
    }
}

/// Why a decoded signature does not verify.
pub fn expected_verify(algorithm: &[u8], signature: &[u8], genuine: bool) -> (r: Option<VerifyError>)
    ensures
        opt_verify(r) == verify_expect(algorithm@, signature@, genuine),
{
    if !same_bytes(algorithm, "ssh-ed25519".as_bytes()) {
        Some(
            VerifyError::AlgorithmMismatch {
                key_algorithm: copy_bytes("ssh-ed25519".as_bytes()),
                signature_algorithm: copy_bytes(algorithm),
            },
        )
    } else if signature.len() != 64 {
        Some(
            VerifyError::MalformedSignature(
                KeyError::WrongLength { field: BlobField::Signature, expected: 64, found: signature.len() },
            ),
        )
    } else if genuine {
        None
    } else {
        Some(VerifyError::Invalid)
    }
}

/// What raw bytes are as a key blob, a signature blob, a fingerprint text and
/// a digest.
#[derive(Debug)]
pub struct RawExpect {
    /// Algorithm and body of the key blob.
    pub key_blob: Result<(Vec<u8>, Vec<u8>), BlobError>,
    /// The host key.
    pub host_key: Result<[u8; 32], KeyError>,
    /// The fingerprint of all bytes.
    pub digest: [u8; 32],
    /// Algorithm and signature of the signature blob.
    pub signature_blob: Result<(Vec<u8>, Vec<u8>), BlobError>,
    /// Why the decoded signature is none of this algorithm.
    pub signature_error: Option<KeyError>,
    /// What the fingerprint text stands for, where the bytes are text.
    pub fingerprint: Option<Result<[u8; 32], FingerprintParseError>>,
    /// The fingerprint text of the first 32 bytes.
    pub shown: Option<String>,
}

/// A decoded pair over sequences.
pub open spec fn pair_of(r: Result<(Vec<u8>, Vec<u8>), BlobError>) -> Result<(Seq<u8>, Seq<u8>), BlobError> {
    match r {
        Ok((a, b)) => Ok((a@, b@)),
        Err(e) => Err(e),
    }
}

/// What raw bytes are.
pub open spec fn raw_holds(s: Seq<u8>, r: RawExpect) -> bool {
    &&& pair_of(r.key_blob) == key_blob_read(s)
    &&& match r.host_key {
        Ok(k) => host_key_of(s) == Ok::<Seq<u8>, KeyError<Seq<u8>>>(k@),
        Err(e) => host_key_of(s) == Err::<Seq<u8>, KeyError<Seq<u8>>>(e@),
    }
    &&& r.digest@ == sha256_of(s)
    &&& pair_of(r.signature_blob) == signature_blob_read(s)
    &&& match signature_blob_read(s) {
        Ok((a, b)) => match signature_of(a, b) {
            Ok(_) => r.signature_error is None,
            Err(e) => r.signature_error matches Some(f) && f@ == e,
        },
        Err(_) => r.signature_error is None,
    }
    &&& match r.fingerprint {
        Some(Ok(d)) => valid_utf8(s) && fingerprint_read(s) == Ok::<Seq<u8>, FingerprintParseError>(d@),
        Some(Err(e)) => valid_utf8(s) && fingerprint_read(s) == Err::<Seq<u8>, FingerprintParseError>(e),
        None => !valid_utf8(s),
    }
    &&& match r.shown {
        Some(t) => s.len() >= 32 && t@ == fingerprint_of(s.take(32)),
        None => s.len() < 32,
    }
}

fn owned_pair(r: Result<(&[u8], &[u8]), BlobError>) -> (o: Result<(Vec<u8>, Vec<u8>), BlobError>)
    ensures
        match r {
            Ok((a, b)) => pair_of(o) == Ok::<(Seq<u8>, Seq<u8>), BlobError>((a@, b@)),
            Err(e) => pair_of(o) == Err::<(Seq<u8>, Seq<u8>), BlobError>(e),
        },
{
    match r {
        Ok((a, b)) => Ok((copy_bytes(a), copy_bytes(b))),
        Err(e) => Err(e),
    }
}

/// What raw bytes are as a key blob, a signature blob, a fingerprint text and
/// a digest.
pub fn run_raw(bytes: &[u8]) -> (r: RawExpect)
    ensures
        raw_holds(bytes@, r),
{
    let key_blob = owned_pair(ref_public_key_blob(bytes));
    let host_key = host_key(bytes);
    let digest = sha256(bytes);
    let decoded = ref_signature_blob(bytes);
    let signature_error = match &decoded {
        Ok((a, b)) => signature_error(a, b),
        Err(_) => None,
    };
    let signature_blob = owned_pair(decoded);
    let fingerprint = match string_from_utf8(copy_bytes(bytes)) {
        Some(t) => Some(ref_parse_fingerprint(t.as_str())),
        None => None,
    };
    let shown = if bytes.len() >= 32 {
        Some(fingerprint_text(&array32(head(bytes, 32))))
    } else {
        None
    };
    RawExpect { key_blob, host_key, digest, signature_blob, signature_error, fingerprint, shown }
}

/// A sequence with one bit of one byte flipped.
pub open spec fn flipped(s: Seq<u8>, at: int, k: u8) -> Seq<u8> {
    s.update(at, s[at] ^ (1u8 << k))
}

/// A flipped bit makes another sequence.
pub proof fn lemma_flipped(s: Seq<u8>, at: int, k: u8)
    requires
        0 <= at < s.len(),
        k < 8,
    ensures
        flipped(s, at, k) != s,
        flipped(s, at, k).len() == s.len(),
{
    let b = s[at];
    assert(b ^ (1u8 << k) != b) by (bit_vector)
        requires
            k < 8,
    ;
    assert(flipped(s, at, k)[at] != s[at]);
}

/// Flips the bit that a byte selects.
fn flip(v: &mut Vec<u8>, sel: u8)
    requires
        old(v)@.len() > 0,
    ensures
        final(v)@ == flipped(old(v)@, sel as int % old(v)@.len() as int, (sel % 8) as u8),
{
    let i: usize = sel as usize % v.len();
    let b: u8 = v[i] ^ (1u8 << (sel % 8));
    v.set(i, b);
}

/// A signature to verify, and what has to come of it.
#[derive(Debug)]
pub struct Trial<B = Vec<u8>, E = VerifyError> {
    /// The blob of the key.
    pub key_blob: B,
    /// The message.
    pub message: B,
    /// The blob of the signature.
    pub signature_blob: B,
    /// Why it does not verify.
    pub error: Option<E>,
}

/// A trial over sequences.
pub type TrialView = Trial<Seq<u8>, VerifyErrorView>;

impl View for Trial<Vec<u8>, VerifyError> {
    type V = TrialView;

    open spec fn view(&self) -> TrialView {
        Trial {
            key_blob: self.key_blob@,
            message: self.message@,
            signature_blob: self.signature_blob@,
            error: opt_verify(self.error),
        }
    }
}

/// Trials over sequences.
pub open spec fn trials_of(v: Seq<Trial>) -> Seq<TrialView> {
    Seq::new(v.len(), |i: int| v[i]@)
}

/// A key pair, a signed message, and everything that goes wrong around them.
#[derive(Debug)]
pub struct KeyCase {
    /// The public key.
    pub public_key: [u8; 32],
    /// Its blob.
    pub key_blob: Vec<u8>,
    /// The fingerprint of the blob.
    pub digest: [u8; 32],
    /// The fingerprint as text.
    pub text: String,
    /// A pin that is off by one bit.
    pub wrong_pin: Vec<u8>,
    /// The signature.
    pub signature: [u8; 64],
    /// Its blob.
    pub signature_blob: Vec<u8>,
    /// Signatures to verify.
    pub trials: Vec<Trial>,
    /// Key blobs that are none.
    pub bad_keys: Vec<Vec<u8>>,
    /// Signature blobs that are none.
    pub bad_signatures: Vec<Vec<u8>>,
}

/// What a case is drawn from.
pub ghost struct CaseSource {
    /// The seed of the key pair.
    pub seed: Seq<u8>,
    /// Selects the flipped bit of the signature.
    pub flip_sig: u8,
    /// Selects the flipped bit of the message.
    pub flip_msg: u8,
    /// Selects the flipped bit of the pin.
    pub flip_pin: u8,
    /// The message.
    pub message: Seq<u8>,
}

/// What a case is drawn from.
pub open spec fn source_gen(s: Seq<u8>) -> CaseSource {
    let s1 = dropped(s, 32);
    let s2 = dropped(s1, 1);
    let s3 = dropped(s2, 1);
    let s4 = dropped(s3, 1);
    CaseSource {
        seed: taken_filled(s, 32, 41),
        flip_sig: byte_at(s1, 0),
        flip_msg: byte_at(s2, 0),
        flip_pin: byte_at(s3, 0),
        message: taken_filled(dropped(s4, 1), byte_at(s4, 0) as int % 129, 43),
    }
}

/// A blob of an algorithm around its content.
pub open spec fn blob_of(algorithm: &str, content: Seq<u8>) -> Seq<u8> {
    ssh_string(bytes_of(algorithm)) + ssh_string(content)
}

/// A sequence of the given length: cut off, or filled up.
pub open spec fn resized(s: Seq<u8>, n: int, fill: u8) -> Seq<u8> {
    if n <= s.len() {
        s.take(n)
    } else {
        s + Seq::new((n - s.len()) as nat, |i: int| fill)
    }
}

/// The seed of another key pair.
pub open spec fn other_seed(seed: Seq<u8>) -> Seq<u8> {
    seed.update(0, seed[0] ^ 1u8)
}

/// The signatures to verify: the genuine one; with a flipped bit; over a
/// message with a flipped bit; over a longer message; under another key; of
/// another algorithm; too short; too long.
pub open spec fn case_trials(c: CaseSource) -> Seq<TrialView> {
    let key = ed25519_blob(ed25519_public_of(c.seed));
    let sig = ed25519_signature_of(c.seed, c.message);
    let blob = ed25519_blob(sig);
    let invalid = Some(VerifyError::Invalid);
    seq![
        Trial { key_blob: key, message: c.message, signature_blob: blob, error: None },
        Trial {
            key_blob: key,
            message: c.message,
            signature_blob: ed25519_blob(flipped(sig, c.flip_sig as int % 64, (c.flip_sig % 8) as u8)),
            error: invalid,
        },
    ] + (if c.message.len() == 0 {
        Seq::empty()
    } else {
        seq![
            Trial {
                key_blob: key,
                message: flipped(c.message, c.flip_msg as int % c.message.len() as int, (c.flip_msg % 8) as u8),
                signature_blob: blob,
                error: invalid,
            },
        ]
    }) + seq![
        Trial { key_blob: key, message: c.message.push(c.flip_msg), signature_blob: blob, error: invalid },
        Trial {
            key_blob: ed25519_blob(ed25519_public_of(other_seed(c.seed))),
            message: c.message,
            signature_blob: blob,
            error: invalid,
        },
        Trial {
            key_blob: key,
            message: c.message,
            signature_blob: blob_of("ssh-rsa", sig),
            error: verify_expect(bytes_of("ssh-rsa"), sig, true),
        },
        Trial {
            key_blob: key,
            message: c.message,
            signature_blob: ed25519_blob(resized(sig, 63, 0x22)),
            error: verify_expect(bytes_of("ssh-ed25519"), resized(sig, 63, 0x22), true),
        },
        Trial {
            key_blob: key,
            message: c.message,
            signature_blob: ed25519_blob(resized(sig, 65, 0x22)),
            error: verify_expect(bytes_of("ssh-ed25519"), resized(sig, 65, 0x22), true),
        },
    ]
}

/// The key blobs that are none: of another algorithm, with a byte behind, too
/// short, too long.
pub open spec fn case_bad_keys(c: CaseSource) -> Seq<Seq<u8>> {
    let pk = ed25519_public_of(c.seed);
    seq![
        blob_of("ssh-rsa", pk),
        ed25519_blob(pk).push(0),
        ed25519_blob(resized(Seq::empty(), 31, 0x11)),
        ed25519_blob(resized(Seq::empty(), 33, 0x11)),
    ]
}

/// A case is what its source says.
pub open spec fn case_holds(c: CaseSource, k: KeyCase) -> bool {
    let pk = ed25519_public_of(c.seed);
    let sig = ed25519_signature_of(c.seed, c.message);
    &&& k.public_key@ == pk
    &&& k.key_blob@ == ed25519_blob(pk)
    &&& k.digest@ == sha256_of(ed25519_blob(pk))
    &&& k.text@ == fingerprint_of(k.digest@)
    &&& k.wrong_pin@ == flipped(k.digest@, c.flip_pin as int % 32, (c.flip_pin % 8) as u8)
    &&& k.signature@ == sig
    &&& k.signature_blob@ == ed25519_blob(sig)
    &&& trials_of(k.trials@) == case_trials(c)
    &&& vecs(k.bad_keys@) == case_bad_keys(c)
    &&& vecs(k.bad_signatures@) == seq![
        ed25519_blob(sig).push(0),
        blob_of("ssh-rsa", sig),
    ]
}

fn filled_with(n: usize, fill: u8) -> (r: Vec<u8>)
    ensures
        r@ == resized(Seq::empty(), n as int, fill),
{
    let mut out: Vec<u8> = Vec::new();
    let mut i: usize = 0;
    while i < n
        invariant
            i <= n,
            out@.len() == i,
            forall|k: int| 0 <= k < i ==> out@[k] == fill,
        decreases n - i,
    {
        out.push(fill);
        i = i + 1;
    }
    proof {
        assert(out@ =~= resized(Seq::empty(), n as int, fill));
    }
    out
}

fn two_part(algorithm: &str, content: &[u8]) -> (r: Vec<u8>)
    requires
        fits_u32(bytes_of(algorithm)),
        fits_u32(content@),
    ensures
        r@ == blob_of(algorithm, content@),
{
    let mut b = string(algorithm.as_bytes());
    put_string(&mut b, content);
    b
}

proof fn lemma_names_short()
    ensures
        fits_u32(bytes_of("ssh-rsa")),
        fits_u32(bytes_of("ssh-ed25519")),
        bytes_of("ssh-rsa") != bytes_of("ssh-ed25519"),
        bytes_of("ssh-rsa").len() == 7,
        bytes_of("ssh-ed25519").len() == 11,
{
    reveal_strlit("ssh-rsa");
    reveal_strlit("ssh-ed25519");
    lemma_ascii_len("ssh-rsa");
    lemma_ascii_len("ssh-ed25519");
}

fn trial(key_blob: &Vec<u8>, message: Vec<u8>, signature_blob: Vec<u8>, error: Option<VerifyError>) -> (r: Trial)
    ensures
        r@ == (Trial {
            key_blob: key_blob@,
            message: message@,
            signature_blob: signature_blob@,
            error: opt_verify(error),
        }),
{
    Trial { key_blob: copy_bytes(key_blob.as_slice()), message, signature_blob, error }
}

fn push_trial(v: &mut Vec<Trial>, t: Trial)
    ensures
        trials_of(final(v)@) == trials_of(old(v)@).push(t@),
{
    v.push(t);
    proof {
        assert(trials_of(v@) =~= trials_of(old(v)@).push(t@));
    }
}

/// The signatures to verify.
fn build_trials(seed: &[u8; 32], sig: &[u8; 64], message: &Vec<u8>, flip_sig: u8, flip_msg: u8, Ghost(c): Ghost<CaseSource>) -> (r: Vec<Trial>)
    requires
        c.seed == seed@,
        c.message == message@,
        c.flip_sig == flip_sig,
        c.flip_msg == flip_msg,
        sig@ == ed25519_signature_of(c.seed, c.message),
    ensures
        trials_of(r@) == case_trials(c),
{
    proof {
        lemma_names_short();
    }
    let key = ed25519_key_blob(&ed25519_public(seed));
    let blob = ed25519_sig_blob(sig);
    let mut out: Vec<Trial> = Vec::new();
    proof {
        assert(trials_of(out@) =~= Seq::empty());
    }
    push_trial(&mut out, trial(&key, copy_bytes(message.as_slice()), copy_bytes(blob.as_slice()), None));
    let mut bad_sig = copy_bytes(sig.as_slice());
    flip(&mut bad_sig, flip_sig);
    push_trial(
        &mut out,
        trial(
            &key,
            copy_bytes(message.as_slice()),
            two_part("ssh-ed25519", bad_sig.as_slice()),
            Some(VerifyError::Invalid),
        ),
    );
    if message.len() > 0 {
        let mut bad_msg = copy_bytes(message.as_slice());
        flip(&mut bad_msg, flip_msg);
        push_trial(&mut out, trial(&key, bad_msg, copy_bytes(blob.as_slice()), Some(VerifyError::Invalid)));
    }
    let ghost first = trials_of(out@);
    let mut longer = copy_bytes(message.as_slice());
    longer.push(flip_msg);
    push_trial(&mut out, trial(&key, longer, copy_bytes(blob.as_slice()), Some(VerifyError::Invalid)));
    let mut other: [u8; 32] = *seed;
    other[0] = other[0] ^ 1u8;
    proof {
        assert(other@ =~= other_seed(c.seed));
    }
    let other_key = ed25519_key_blob(&ed25519_public(&other));
    push_trial(
        &mut out,
        trial(&other_key, copy_bytes(message.as_slice()), copy_bytes(blob.as_slice()), Some(VerifyError::Invalid)),
    );
    push_trial(
        &mut out,
        trial(
            &key,
            copy_bytes(message.as_slice()),
            two_part("ssh-rsa", sig.as_slice()),
            expected_verify("ssh-rsa".as_bytes(), sig.as_slice(), true),
        ),
    );
    let short = copy_bytes(head(sig.as_slice(), 63));
    proof {
        assert(short@ =~= resized(sig@, 63, 0x22));
    }
    push_trial(
        &mut out,
        trial(
            &key,
            copy_bytes(message.as_slice()),
            two_part("ssh-ed25519", short.as_slice()),
            expected_verify("ssh-ed25519".as_bytes(), short.as_slice(), true),
        ),
    );
    let mut long = copy_bytes(sig.as_slice());
    long.push(0x22);
    proof {
        assert(long@ =~= resized(sig@, 65, 0x22));
    }
    push_trial(
        &mut out,
        trial(
            &key,
            copy_bytes(message.as_slice()),
            two_part("ssh-ed25519", long.as_slice()),
            expected_verify("ssh-ed25519".as_bytes(), long.as_slice(), true),
        ),
    );
    proof {
        assert(trials_of(out@) =~= case_trials(c));
    }
    out
}

/// Draws a key pair, signs a message, and builds everything that goes wrong
/// around them.
pub fn structured(data: &[u8]) -> (r: KeyCase)
    ensures
        case_holds(source_gen(data@), r),
{
    let mut cur = Cursor::new(data);
    let seed = array32(cur.take_filled(32, 41).as_slice());
    let flip_sig: u8 = cur.u8();
    let flip_msg: u8 = cur.u8();
    let flip_pin: u8 = cur.u8();
    let msg_len: usize = cur.u8() as usize % 129;
    let message = cur.take_filled(msg_len, 43);
    let ghost c = source_gen(data@);
    let public_key = ed25519_public(&seed);
    let key_blob = ed25519_key_blob(&public_key);
    let digest = sha256(key_blob.as_slice());
    let text = fingerprint_text(&digest);
    let mut wrong_pin = copy_bytes(digest.as_slice());
    flip(&mut wrong_pin, flip_pin);
    let signature = ed25519_sign(&seed, message.as_slice());
    let signature_blob = ed25519_sig_blob(&signature);
    let trials = build_trials(&seed, &signature, &message, flip_sig, flip_msg, Ghost(c));
    proof {
        lemma_names_short();
    }
    let mut bad_keys: Vec<Vec<u8>> = Vec::new();
    bad_keys.push(two_part("ssh-rsa", public_key.as_slice()));
    let mut trailing = copy_bytes(key_blob.as_slice());
    trailing.push(0);
    bad_keys.push(trailing);
    bad_keys.push(two_part("ssh-ed25519", filled_with(31, 0x11).as_slice()));
    bad_keys.push(two_part("ssh-ed25519", filled_with(33, 0x11).as_slice()));
    let mut bad_signatures: Vec<Vec<u8>> = Vec::new();
    let mut sig_trailing = copy_bytes(signature_blob.as_slice());
    sig_trailing.push(0);
    bad_signatures.push(sig_trailing);
    bad_signatures.push(two_part("ssh-rsa", signature.as_slice()));
    proof {
        assert(vecs(bad_keys@) =~= case_bad_keys(c));
        assert(vecs(bad_signatures@) =~= seq![
            ed25519_blob(signature@).push(0),
            blob_of("ssh-rsa", signature@),
        ]);
    }
    KeyCase {
        public_key,
        key_blob,
        digest,
        text,
        wrong_pin,
        signature,
        signature_blob,
        trials,
        bad_keys,
        bad_signatures,
    }
}

/// A blob of two parts reads back, whatever it holds; a byte behind it is
/// counted.
pub proof fn lemma_two_strings(algorithm: Seq<u8>, value: Seq<u8>, extra: Seq<u8>, second: BlobField)
    requires
        fits_u32(algorithm),
        fits_u32(value),
    ensures
        key_blob_read(ssh_string(algorithm) + ssh_string(value) + extra) == Ok::<(Seq<u8>, Seq<u8>), BlobError>(
            (algorithm, ssh_string(value) + extra),
        ),
        two_strings_read(ssh_string(algorithm) + ssh_string(value) + extra, second) == (if extra.len() == 0 {
            Ok::<(Seq<u8>, Seq<u8>), BlobError>((algorithm, value))
        } else {
            Err(BlobError::TrailingBytes { count: extra.len() as usize })
        }),
{
    let s = ssh_string(algorithm) + ssh_string(value) + extra;
    let none = Seq::<u8>::empty();
    broadcast use crate::wire_core::bytes::lemma_be32_len;

    assert(s =~= none + ssh_string(algorithm) + (ssh_string(value) + extra));
    lemma_string_at(none, algorithm, ssh_string(value) + extra);
    lemma_string_at(ssh_string(algorithm), value, extra);
    assert(s.skip(4 + algorithm.len() as int) =~= ssh_string(value) + extra);
}

/// A host key blob is read for what it holds: another algorithm is
/// unsupported, another length is wrong, and nothing may stand behind.
pub proof fn lemma_host_key_blob(algorithm: Seq<u8>, key: Seq<u8>, extra: Seq<u8>)
    requires
        fits_u32(algorithm),
        fits_u32(key),
    ensures
        host_key_read(ssh_string(algorithm) + ssh_string(key) + extra) == (if algorithm != bytes_of("ssh-ed25519") {
            Err::<Seq<u8>, KeyError<Seq<u8>>>(KeyError::UnsupportedAlgorithm(algorithm))
        } else if extra.len() > 0 {
            Err(KeyError::Blob(BlobError::TrailingBytes { count: extra.len() as usize }))
        } else if key.len() != 32 {
            Err(KeyError::WrongLength { field: BlobField::Key, expected: 32, found: key.len() as usize })
        } else {
            Ok(key)
        }),
{
    lemma_two_strings(algorithm, key, extra, BlobField::Key);
}

/// A fingerprint's text is read back, and only its own text is read as it.
pub proof fn lemma_fingerprint_text(digest: Seq<u8>, t: Seq<u8>)
    requires
        digest.len() == 32,
    ensures
        fingerprint_read(encode_utf8(fingerprint_of(digest))) == Ok::<Seq<u8>, FingerprintParseError>(digest),
        fingerprint_read(t) == Ok::<Seq<u8>, FingerprintParseError>(digest) ==> t == encode_utf8(fingerprint_of(digest)),
{
    let p = bytes_of("SHA256:");
    let b = encoded(digest);
    reveal_strlit("SHA256:");
    lemma_ascii_len("SHA256:");
    let whole = p + b;
    assert forall|i: int| 0 <= i < whole.len() implies #[trigger] whole[i] < 128 by {
        if i >= p.len() {
            assert(whole[i] == b[i - p.len()]);
            lemma_symbols(digest, i - p.len());
        }
    }
    lemma_ascii_text(whole);
    assert(ascii_text(whole) =~= fingerprint_of(digest));
    assert(encode_utf8(fingerprint_of(digest)) == whole);
    assert(whole.skip(p.len() as int) =~= b);
    assert(p.is_prefix_of(whole)) by {
        assert(whole.subrange(0, p.len() as int) =~= p);
    }
    if b.contains(61) {
        let k = choose|k: int| 0 <= k < b.len() && b[k] == 61;
        lemma_symbols(digest, k);
    }
    let d = choose|d: Seq<u8>| d.len() == 32 && #[trigger] encoded(d) == b;
    assert(encoded(digest) == b);
    lemma_encoding_injective(d, digest);
    if fingerprint_read(t) == Ok::<Seq<u8>, FingerprintParseError>(digest) {
        let body = t.skip(p.len() as int);
        let e = choose|e: Seq<u8>| e.len() == 32 && #[trigger] encoded(e) == body;
        assert(t =~= p + body) by {
            assert(t.subrange(0, p.len() as int) =~= p);
        }
    }
}

} // verus!
