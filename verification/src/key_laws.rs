//! What key blobs, signatures and fingerprints are accepted as, and in which
//! order they are refused.

use vstd::prelude::*;
use crate::handshake::types::{BlobError, BlobField, KeyError};
use crate::kex_support::base64::{encoded, encoded_len, sextet, symbol};
use crate::kex_support::keys::ed25519_key_valid;
use crate::key_blobs::{
    fingerprint_read, host_key_of, key_blob_read, lemma_two_strings, signature_blob_read, signature_of,
    two_strings_read, verify_expect, FingerprintParseError, VerifyError,
};
use crate::text::bytes_of;
use crate::wire_core::bytes::{fits_u32, ssh_string};
use crate::wire_core::laws::lemma_string_was_at;

verus! {

proof fn lemma_two_were(s: Seq<u8>, second: BlobField)
    ensures
        two_strings_read(s, second) matches Ok((a, v)) ==> s == ssh_string(a) + ssh_string(v) && fits_u32(a)
            && fits_u32(v),
        key_blob_read(s) matches Ok((a, b)) ==> s == ssh_string(a) + b && fits_u32(a),
{
    lemma_string_was_at(s, 0);
    if let Ok((a, rest)) = key_blob_read(s) {
        let p = 4 + a.len() as int;
        assert(s =~= s.subrange(0, p) + s.skip(p));
        lemma_string_was_at(s, p);
        if let Ok((b, v)) = two_strings_read(s, second) {
            let q = p + 4 + v.len();
            assert(s =~= s.subrange(0, p) + s.subrange(p, q));
        }
    }
}

/// A host key is accepted exactly where the blob is the name `ssh-ed25519` and
/// 32 bytes, each as a string, and the bytes are a key.
pub proof fn lemma_host_key_accepted(s: Seq<u8>, key: Seq<u8>)
    ensures
        host_key_of(s) == Ok::<Seq<u8>, KeyError<Seq<u8>>>(key) <==> {
            &&& s == ssh_string(bytes_of("ssh-ed25519")) + ssh_string(key)
            &&& key.len() == 32
            &&& ed25519_key_valid(key)
        },
{
    lemma_two_were(s, BlobField::Key);
    let name = bytes_of("ssh-ed25519");
    reveal_strlit("ssh-ed25519");
    crate::text::lemma_ascii_len("ssh-ed25519");
    if s == ssh_string(name) + ssh_string(key) && key.len() == 32 {
        lemma_two_strings(name, key, Seq::empty(), BlobField::Key);
        assert(s + Seq::<u8>::empty() =~= s);
    }
}

/// A host key is refused by its algorithm first, then by its layout, then by
/// its length, and last because its bytes are no key.
pub proof fn lemma_host_key_refused(s: Seq<u8>)
    ensures
        host_key_of(s) is Err ==> match host_key_of(s)->Err_0 {
            KeyError::Blob(e) => key_blob_read(s) == Err::<(Seq<u8>, Seq<u8>), BlobError>(e) || (key_blob_read(s) is Ok
                && key_blob_read(s)->Ok_0.0 == bytes_of("ssh-ed25519") && two_strings_read(s, BlobField::Key) == Err::<
                (Seq<u8>, Seq<u8>),
                BlobError,
            >(e)),
            KeyError::UnsupportedAlgorithm(a) => key_blob_read(s) is Ok && key_blob_read(s)->Ok_0.0 == a && a
                != bytes_of("ssh-ed25519"),
            KeyError::WrongLength { field, expected, found } => field is Key && expected == 32 && two_strings_read(
                s,
                BlobField::Key,
            ) is Ok && found == two_strings_read(s, BlobField::Key)->Ok_0.1.len() as usize
                && two_strings_read(s, BlobField::Key)->Ok_0.1.len() != 32,
            KeyError::InvalidKey => two_strings_read(s, BlobField::Key) is Ok && !ed25519_key_valid(
                two_strings_read(s, BlobField::Key)->Ok_0.1,
            ),
        },
{
}

/// Two strings and nothing behind: a fault in the first is at the front, one in
/// the second where that starts.
pub proof fn lemma_blob_faults(s: Seq<u8>, second: BlobField)
    requires
        s.len() <= usize::MAX,
    ensures
        two_strings_read(s, second) matches Err(BlobError::Field { field, offset, .. }) ==> {
            ||| field is Algorithm && offset == 0
            ||| field == second && offset >= 4
        },
        signature_blob_read(s) == two_strings_read(s, BlobField::Signature),
        key_blob_read(s) matches Err(e) ==> e matches BlobError::Field { field, offset, .. } && field is Algorithm && offset
            == 0,
        two_strings_read(s, second) matches Ok((a, v)) ==> s == ssh_string(a) + ssh_string(v),
        signature_blob_read(s) matches Ok((a, v)) ==> s == ssh_string(a) + ssh_string(v),
{
    lemma_two_were(s, second);
    lemma_two_were(s, BlobField::Signature);
    lemma_string_was_at(s, 0);
}

/// A signature is taken where it is of `ssh-ed25519` and 64 bytes long; the
/// algorithm is asked first.
pub proof fn lemma_signature_taken(algorithm: Seq<u8>, signature: Seq<u8>)
    ensures
        signature_of(algorithm, signature) is Ok <==> algorithm == bytes_of("ssh-ed25519") && signature.len() == 64,
        signature_of(algorithm, signature) matches Ok(v) ==> v == signature,
        algorithm != bytes_of("ssh-ed25519") <==> signature_of(algorithm, signature) == Err::<
            Seq<u8>,
            KeyError<Seq<u8>>,
        >(KeyError::UnsupportedAlgorithm(algorithm)),
        algorithm == bytes_of("ssh-ed25519") && signature.len() != 64 ==> signature_of(algorithm, signature) == Err::<
            Seq<u8>,
            KeyError<Seq<u8>>,
        >(KeyError::WrongLength { field: BlobField::Signature, expected: 64, found: signature.len() as usize }),
{
}

/// A signature verifies only where its algorithm is that of the key, its length
/// is right and its bytes are genuine, and these are asked in this order.
pub proof fn lemma_verification(algorithm: Seq<u8>, signature: Seq<u8>, genuine: bool)
    ensures
        ({
            let e = verify_expect(algorithm, signature, genuine);
            let named = algorithm == bytes_of("ssh-ed25519");
            &&& e is None <==> named && signature.len() == 64 && genuine
            &&& !named <==> e is Some && e->0 is AlgorithmMismatch
            &&& named && signature.len() != 64 <==> e is Some && e->0 is MalformedSignature
            &&& named && signature.len() == 64 && !genuine <==> e is Some && e->0 is Invalid
            &&& e matches Some(VerifyError::AlgorithmMismatch { key_algorithm, signature_algorithm }) ==> key_algorithm
                == bytes_of("ssh-ed25519") && signature_algorithm == algorithm
        }),
{
}

/// A fingerprint is refused for its prefix first, then for padding, then for
/// its length, and last because its characters are no encoding of 32 bytes.
pub proof fn lemma_fingerprint_refused(t: Seq<u8>)
    requires
        t.len() <= usize::MAX,
    ensures
        ({
            let p = bytes_of("SHA256:");
            let body = t.skip(p.len() as int);
            let r = fingerprint_read(t);
            &&& !p.is_prefix_of(t) <==> r is Err && r->Err_0 is MissingPrefix
            &&& p.is_prefix_of(t) && body.contains(61) <==> r is Err && r->Err_0 is Padding
            &&& p.is_prefix_of(t) && !body.contains(61) && body.len() != 43 <==> r is Err && r->Err_0 is WrongLength
            &&& r matches Err(FingerprintParseError::WrongLength { found }) ==> found == body.len()
            &&& r is Err && r->Err_0 is InvalidBase64 ==> body.len() == 43 && forall|d: Seq<u8>|
                d.len() == 32 ==> #[trigger] encoded(d) != body
        }),
{
}

/// The alphabet: capitals, small letters, digits, plus and slash.
pub proof fn lemma_alphabet(v: int)
    requires
        0 <= v < 64,
    ensures
        v < 26 ==> symbol(v) == 'A' as u32 + v,
        26 <= v < 52 ==> symbol(v) == 'a' as u32 + (v - 26),
        52 <= v < 62 ==> symbol(v) == '0' as u32 + (v - 52),
        v == 62 ==> symbol(v) == '+' as u32,
        v == 63 ==> symbol(v) == '/' as u32,
{
}

/// Three bytes and the four characters that they are written as stand for the
/// same number of 24 bits, and characters are as few as can hold the bytes.
pub proof fn lemma_group(s: Seq<u8>, g: int)
    requires
        0 <= g,
        3 * g + 2 < s.len(),
    ensures
        0x10000 * s[3 * g] + 0x100 * s[3 * g + 1] + s[3 * g + 2] == 0x40000 * sextet(s, 4 * g) + 0x1000 * sextet(
            s,
            4 * g + 1,
        ) + 0x40 * sextet(s, 4 * g + 2) + sextet(s, 4 * g + 3),
        encoded(s)[4 * g] == symbol(sextet(s, 4 * g)),
        encoded(s)[4 * g + 3] == symbol(sextet(s, 4 * g + 3)),
        8 * s.len() <= 6 * encoded(s).len() < 8 * s.len() + 6,
{
    assert(4 * g / 4 == g && (4 * g + 1) / 4 == g && (4 * g + 2) / 4 == g && (4 * g + 3) / 4 == g);
    assert(4 * g % 4 == 0 && (4 * g + 1) % 4 == 1 && (4 * g + 2) % 4 == 2 && (4 * g + 3) % 4 == 3);
    let x = s[3 * g] as int;
    let y = s[3 * g + 1] as int;
    let z = s[3 * g + 2] as int;
    assert(x == 4 * (x / 4) + x % 4);
    assert(y == 16 * (y / 16) + y % 16);
    assert(z == 64 * (z / 64) + z % 64);
    assert(encoded_len(s.len() as int) == (4 * s.len() + 2) / 3);
}

} // verus!
