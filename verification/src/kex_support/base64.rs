//! The standard alphabet of RFC 4648 section 4, unpadded, with a strict
//! decoder.

use vstd::prelude::*;
use crate::text::{ascii_bytes, ascii_string, ascii_text};

verus! {

/// The character of a six-bit value.
pub open spec fn symbol(v: int) -> u8 {
    if v < 26 {
        (65 + v) as u8
    } else if v < 52 {
        (71 + v) as u8
    } else if v < 62 {
        (v - 4) as u8
    } else if v == 62 {
        43
    } else {
        47
    }
}

/// The number of characters for `n` bytes.
pub open spec fn encoded_len(n: int) -> int {
    (4 * n + 2) / 3
}

/// The `i`-th byte of `s`, or 0 beyond its end.
pub open spec fn byte_or_zero(s: Seq<u8>, i: int) -> int {
    if i < s.len() {
        s[i] as int
    } else {
        0
    }
}

/// The `k`-th group of six bits of `s`, most significant first.
pub open spec fn sextet(s: Seq<u8>, k: int) -> int {
    let g = k / 4;
    let x = byte_or_zero(s, 3 * g);
    let y = byte_or_zero(s, 3 * g + 1);
    let z = byte_or_zero(s, 3 * g + 2);
    if k % 4 == 0 {
        x / 4
    } else if k % 4 == 1 {
        x % 4 * 16 + y / 16
    } else if k % 4 == 2 {
        y % 16 * 4 + z / 64
    } else {
        z % 64
    }
}

/// The encoding of `s`: one character for every started group of six bits.
pub open spec fn encoded(s: Seq<u8>) -> Seq<u8> {
    Seq::new(encoded_len(s.len() as int) as nat, |k: int| symbol(sextet(s, k)))
}

fn symbol_of(v: u8) -> (r: u8)
    requires
        v < 64,
    ensures
        r == symbol(v as int),
        r < 128,
{
    if v < 26 {
        65 + v
    } else if v < 52 {
        71 + v
    } else if v < 62 {
        v - 4
    } else if v == 62 {
        43
    } else {
        47
    }
}

/// The number of characters for `n` bytes.
fn symbol_count(n: usize) -> (r: usize)
    requires
        encoded_len(n as int) <= usize::MAX,
    ensures
        r == encoded_len(n as int),
{
    let tail: usize = n % 3;
    let whole: usize = n - tail;
    if tail == 0 {
        whole + whole / 3
    } else {
        whole + whole / 3 + tail + 1
    }
}

/// Unpadded encoding: every 3 bytes become 4 characters; a 2-byte tail
/// becomes 3 characters, a 1-byte tail 2.
pub fn encode_unpadded(bytes: &[u8]) -> (r: String)
    requires
        encoded_len(bytes@.len() as int) <= usize::MAX,
    ensures
        r@ == ascii_text(encoded(bytes@)),
        ascii_bytes(encoded(bytes@)),
{
    let n: usize = symbol_count(bytes.len());
    let mut out: Vec<u8> = Vec::new();
    let mut k: usize = 0;
    while k < n
        invariant
            k <= n,
            n == encoded_len(bytes@.len() as int),
            out@.len() == k,
            forall|j: int| 0 <= j < k ==> #[trigger] out@[j] == symbol(sextet(bytes@, j)),
            ascii_bytes(out@),
        decreases n - k,
    {
        let g: usize = k / 4;
        let x: u8 = bytes[3 * g];
        let left: usize = bytes.len() - 3 * g;
        let y: u8 = if left > 1 { bytes[3 * g + 1] } else { 0 };
        let z: u8 = if left > 2 { bytes[3 * g + 2] } else { 0 };
        let v: u8 = if k % 4 == 0 {
            x / 4
        } else if k % 4 == 1 {
            x % 4 * 16 + y / 16
        } else if k % 4 == 2 {
            y % 16 * 4 + z / 64
        } else {
            z % 64
        };
        out.push(symbol_of(v));
        k = k + 1;
    }
    proof {
        assert(out@ =~= encoded(bytes@));
    }
    ascii_string(out)
}

/// The six-bit value of a character, if it is in the alphabet.
fn value(c: u8) -> (r: Option<u8>)
    ensures
        match r {
            Some(v) => v < 64 && symbol(v as int) == c,
            None => forall|v: int| 0 <= v < 64 ==> #[trigger] symbol(v) != c,
        },
{
    if 65 <= c && c <= 90 {
        Some(c - 65)
    } else if 97 <= c && c <= 122 {
        Some(c - 71)
    } else if 48 <= c && c <= 57 {
        Some(c + 4)
    } else if c == 43 {
        Some(62)
    } else if c == 47 {
        Some(63)
    } else {
        None
    }
}

/// Different values have different characters.
proof fn lemma_symbol_injective(a: int, b: int)
    requires
        0 <= a < 64,
        0 <= b < 64,
        symbol(a) == symbol(b),
    ensures
        a == b,
{
}

proof fn lemma_sextet_range(s: Seq<u8>, k: int)
    requires
        k >= 0,
    ensures
        0 <= sextet(s, k) < 64,
{
}

proof fn lemma_encoded_at(s: Seq<u8>, k: int)
    requires
        0 <= k < encoded_len(s.len() as int),
    ensures
        encoded(s)[k] == symbol(sextet(s, k)),
        0 <= sextet(s, k) < 64,
{
    lemma_sextet_range(s, k);
}

/// The `j`-th byte that a list of six-bit values spells.
spec fn byte_from(vals: Seq<u8>, j: int) -> int {
    let g = j / 3;
    if j % 3 == 0 {
        vals[4 * g] * 4 + vals[4 * g + 1] / 16
    } else if j % 3 == 1 {
        vals[4 * g + 1] % 16 * 16 + vals[4 * g + 2] / 4
    } else {
        vals[4 * g + 2] % 4 * 64 + vals[4 * g + 3]
    }
}

proof fn lemma_bytes_spell(vals: Seq<u8>, out: Seq<u8>)
    requires
        vals.len() == 43,
        out.len() == 32,
        forall|k: int| 0 <= k < 43 ==> #[trigger] vals[k] < 64,
        vals[42] % 4 == 0,
        forall|j: int| 0 <= j < 32 ==> #[trigger] out[j] == byte_from(vals, j),
    ensures
        forall|k: int| 0 <= k < 43 ==> #[trigger] vals[k] == sextet(out, k),
{
    assert forall|k: int| 0 <= k < 43 implies #[trigger] vals[k] == sextet(out, k) by {
        let g = k / 4;
        assert(vals[4 * g] < 64 && vals[4 * g + 1] < 64 && vals[4 * g + 2] < 64);
        assert(out[3 * g] == byte_from(vals, 3 * g));
        assert(out[3 * g + 1] == byte_from(vals, 3 * g + 1));
        assert((3 * g) / 3 == g && (3 * g) % 3 == 0);
        assert((3 * g + 1) / 3 == g && (3 * g + 1) % 3 == 1);
        assert((3 * g + 2) / 3 == g && (3 * g + 2) % 3 == 2);
        if g < 10 {
            assert(vals[4 * g + 3] < 64);
            assert(out[3 * g + 2] == byte_from(vals, 3 * g + 2));
        }
    }
}

/// The bytes that 43 six-bit values spell.
fn bytes_from(vals: &Vec<u8>) -> (r: [u8; 32])
    requires
        vals@.len() == 43,
        forall|k: int| 0 <= k < 43 ==> #[trigger] vals@[k] < 64,
    ensures
        forall|k: int| 0 <= k < 32 ==> #[trigger] r@[k] == byte_from(vals@, k),
{
    let mut out: [u8; 32] = [0; 32];
    let mut j: usize = 0;
    while j < 32
        invariant
            j <= 32,
            vals@.len() == 43,
            forall|k: int| 0 <= k < 43 ==> #[trigger] vals@[k] < 64,
            forall|k: int| 0 <= k < j ==> #[trigger] out@[k] == byte_from(vals@, k),
        decreases 32 - j,
    {
        let g: usize = j / 3;
        proof {
            assert(vals@[4 * g as int] < 64 && vals@[4 * g + 1] < 64 && vals@[4 * g + 2] < 64);
        }
        let b: u8 = if j % 3 == 0 {
            vals[4 * g] * 4 + vals[4 * g + 1] / 16
        } else if j % 3 == 1 {
            vals[4 * g + 1] % 16 * 16 + vals[4 * g + 2] / 4
        } else {
            proof {
                assert(vals@[4 * g + 3] < 64);
            }
            vals[4 * g + 2] % 4 * 64 + vals[4 * g + 3]
        };
        out[j] = b;
        j = j + 1;
    }
    out
}

proof fn lemma_decoded(vals: Seq<u8>, out: Seq<u8>, text: Seq<u8>)
    requires
        vals.len() == 43,
        out.len() == 32,
        text.len() == 43,
        forall|k: int| 0 <= k < 43 ==> #[trigger] vals[k] < 64 && symbol(vals[k] as int) == text[k],
        vals[42] % 4 == 0,
        forall|j: int| 0 <= j < 32 ==> #[trigger] out[j] == byte_from(vals, j),
    ensures
        encoded(out) == text,
{
    lemma_bytes_spell(vals, out);
    assert forall|k: int| 0 <= k < 43 implies encoded(out)[k] == text[k] by {
        assert(vals[k] < 64);
        lemma_encoded_at(out, k);
    }
    assert(encoded(out) =~= text);
}

/// Strict unpadded decoding of exactly 43 characters into 32 bytes: the bytes
/// whose encoding the text is, and `None` where it is no encoding of 32 bytes
/// (a character outside the alphabet, or unused trailing bits that are set).
pub fn decode_43_strict(text: &[u8]) -> (r: Option<[u8; 32]>)
    ensures
        match r {
            Some(b) => encoded(b@) == text@,
            None => forall|b: Seq<u8>| b.len() == 32 ==> #[trigger] encoded(b) != text@,
        },
{
    if text.len() != 43 {
        return None;
    }
    let mut vals: Vec<u8> = Vec::new();
    let mut i: usize = 0;
    while i < 43
        invariant
            i <= 43,
            text@.len() == 43,
            vals@.len() == i,
            forall|k: int| 0 <= k < i ==> #[trigger] vals@[k] < 64 && symbol(vals@[k] as int) == text@[k],
        decreases 43 - i,
    {
        match value(text[i]) {
            Some(v) => {
                vals.push(v);
            },
            None => {
                proof {
                    assert forall|b: Seq<u8>| b.len() == 32 implies #[trigger] encoded(b) != text@ by {
                        lemma_encoded_at(b, i as int);
                    }
                }
                return None;
            },
        }
        i = i + 1;
    }
    if vals[42] % 4 != 0 {
        proof {
            assert forall|b: Seq<u8>| b.len() == 32 implies #[trigger] encoded(b) != text@ by {
                if encoded(b) == text@ {
                    lemma_encoded_at(b, 42);
                    lemma_symbol_injective(sextet(b, 42), vals@[42] as int);
                }
            }
        }
        return None;
    }
    let out = bytes_from(&vals);
    proof {
        lemma_decoded(vals@, out@, text@);
    }
    Some(out)
}

/// Different inputs of 32 bytes have different encodings.
pub proof fn lemma_encoding_injective(a: Seq<u8>, b: Seq<u8>)
    requires
        a.len() == 32,
        b.len() == 32,
        encoded(a) == encoded(b),
    ensures
        a == b,
{
    assert forall|j: int| 0 <= j < 32 implies a[j] == b[j] by {
        let g = j / 3;
        let k = 4 * g;
        assert(k / 4 == g && (k + 1) / 4 == g && (k + 2) / 4 == g && (k + 3) / 4 == g);
        assert(encoded(a)[k] == encoded(b)[k]);
        assert(encoded(a)[k + 1] == encoded(b)[k + 1]);
        assert(encoded(a)[k + 2] == encoded(b)[k + 2]);
        lemma_encoded_at(a, k);
        lemma_encoded_at(b, k);
        lemma_symbol_injective(sextet(a, k), sextet(b, k));
        lemma_encoded_at(a, k + 1);
        lemma_encoded_at(b, k + 1);
        lemma_symbol_injective(sextet(a, k + 1), sextet(b, k + 1));
        lemma_encoded_at(a, k + 2);
        lemma_encoded_at(b, k + 2);
        lemma_symbol_injective(sextet(a, k + 2), sextet(b, k + 2));
        if g < 10 {
            assert(encoded(a)[k + 3] == encoded(b)[k + 3]);
            lemma_encoded_at(a, k + 3);
        lemma_encoded_at(b, k + 3);
        lemma_symbol_injective(sextet(a, k + 3), sextet(b, k + 3));
        }
    }
    assert(a =~= b);
}

/// Encoded text is of the alphabet: ASCII, without padding.
pub proof fn lemma_symbols(s: Seq<u8>, k: int)
    requires
        0 <= k < encoded(s).len(),
    ensures
        encoded(s)[k] < 128,
        encoded(s)[k] != 61,
{
    let v = sextet(s, k);
    assert(0 <= v < 64);
}

} // verus!
