//! Decimal and hexadecimal notation.

use vstd::prelude::*;
use crate::text::{ascii_string, ascii_text};

verus! {

/// The decimal digits of a number, without leading zeros.
pub open spec fn decimal(n: int) -> Seq<u8>
    decreases n,
{
    if n < 10 {
        seq![(48 + n) as u8]
    } else {
        decimal(n / 10).push((48 + n % 10) as u8)
    }
}

/// The number that decimal digits stand for.
pub open spec fn decimal_value(s: Seq<u8>) -> int
    decreases s.len(),
{
    if s.len() == 0 {
        0
    } else {
        10 * decimal_value(s.drop_last()) + (s.last() - 48)
    }
}

/// A decimal digit.
pub open spec fn is_digit(b: u8) -> bool {
    48 <= b <= 57
}

/// Every byte is a decimal digit.
pub open spec fn all_digits(s: Seq<u8>) -> bool {
    forall|i: int| 0 <= i < s.len() ==> is_digit(#[trigger] s[i])
}

/// Digits as numbers are written: at least one, and no leading zero but in
/// zero itself.
pub open spec fn canonical_digits(s: Seq<u8>) -> bool {
    s.len() > 0 && all_digits(s) && (s.len() > 1 ==> s[0] != 48)
}

/// A number is written canonically, and the digits stand for it.
pub proof fn lemma_decimal(n: int)
    requires
        n >= 0,
    ensures
        canonical_digits(decimal(n)),
        decimal_value(decimal(n)) == n,
        n >= 1 ==> decimal(n)[0] != 48,
    decreases n,
{
    if n >= 10 {
        lemma_decimal(n / 10);
        let d = decimal(n);
        let h = decimal(n / 10);
        assert(d.drop_last() =~= h);
        assert(d[0] == h[0]);
    } else {
        let d = decimal(n);
        assert(d.drop_last() =~= Seq::empty());
        assert(decimal_value(d.drop_last()) == 0);
        assert(d.last() == (48 + n) as u8);
    }
}

/// Canonical digits are what their number is written as.
pub proof fn lemma_canonical(s: Seq<u8>)
    requires
        canonical_digits(s),
    ensures
        decimal(decimal_value(s)) == s,
        decimal_value(s) >= 0,
        s.len() > 1 ==> decimal_value(s) >= 10,
        s[0] != 48 ==> decimal_value(s) >= 1,
    decreases s.len(),
{
    let h = s.drop_last();
    let v = s.last() - 48;
    assert(is_digit(s[s.len() - 1]));
    if s.len() == 1 {
        assert(h =~= Seq::empty());
        assert(decimal_value(h) == 0);
        assert(decimal_value(s) == v);
        assert(decimal(v) =~= s);
    } else {
        assert(h[0] == s[0]);
        assert(canonical_digits(h)) by {
            assert forall|i: int| 0 <= i < h.len() implies is_digit(#[trigger] h[i]) by {
                assert(is_digit(s[i]));
            }
        }
        lemma_canonical(h);
        let n = decimal_value(s);
        assert(n == 10 * decimal_value(h) + v);
        assert(n / 10 == decimal_value(h));
        assert(n % 10 == v);
        assert(decimal(n) =~= s);
    }
}

/// Appends the decimal digits of a number.
pub fn push_decimal(out: &mut Vec<u8>, n: u64)
    ensures
        final(out)@ == old(out)@ + decimal(n as int),
    decreases n,
{
    if n < 10 {
        out.push(48 + n as u8);
    } else {
        push_decimal(out, n / 10);
        out.push(48 + (n % 10) as u8);
    }
    proof {
        assert(out@ =~= old(out)@ + decimal(n as int));
    }
}

/// The decimal digits of a number, with leading zeros up to a width.
pub open spec fn padded(n: int, width: int) -> Seq<u8> {
    let d = decimal(n);
    if d.len() < width {
        Seq::new((width - d.len()) as nat, |i: int| 48u8) + d
    } else {
        d
    }
}

/// Appends a number with leading zeros up to a width.
pub fn push_padded(out: &mut Vec<u8>, n: u64, width: usize)
    ensures
        final(out)@ == old(out)@ + padded(n as int, width as int),
{
    let mut d: Vec<u8> = Vec::new();
    push_decimal(&mut d, n);
    proof {
        assert(d@ =~= decimal(n as int));
    }
    let mut i: usize = d.len();
    let ghost start = out@;
    let ghost len = d@.len();
    while i < width
        invariant
            len <= i,
            len == d@.len(),
            i <= width || i == len,
            out@ == start + Seq::new((i - len) as nat, |j: int| 48u8),
        decreases width - i,
    {
        out.push(48);
        i = i + 1;
        proof {
            assert(out@ =~= start + Seq::new((i - len) as nat, |j: int| 48u8));
        }
    }
    crate::seqs::push_all(out, d.as_slice());
    proof {
        assert(out@ =~= start + padded(n as int, width as int));
    }
}

/// The lowercase hexadecimal digit of a value below 16.
pub open spec fn hex_digit_of(v: int) -> u8 {
    if v < 10 {
        (48 + v) as u8
    } else {
        (87 + v) as u8
    }
}

/// The lowercase hexadecimal digit of a value below 16.
pub fn hex_digit(v: u8) -> (r: u8)
    requires
        v < 16,
    ensures
        r == hex_digit_of(v as int),
{
    if v < 10 {
        48 + v
    } else {
        87 + v
    }
}

/// The value of a hexadecimal digit of either case.
pub open spec fn hex_value_of(d: u8) -> Option<u8> {
    if 48 <= d <= 57 {
        Some((d - 48) as u8)
    } else if 97 <= d <= 102 {
        Some((d - 87) as u8)
    } else if 65 <= d <= 70 {
        Some((d - 55) as u8)
    } else {
        None
    }
}

/// The value of a hexadecimal digit of either case, if it is one.
pub fn hex_value(d: u8) -> (r: Option<u8>)
    ensures
        r == hex_value_of(d),
        r matches Some(v) ==> v < 16,
{
    if 48 <= d && d <= 57 {
        Some(d - 48)
    } else if 97 <= d && d <= 102 {
        Some(d - 87)
    } else if 65 <= d && d <= 70 {
        Some(d - 55)
    } else {
        None
    }
}

/// Bytes in lowercase hexadecimal.
pub open spec fn hex_of(b: Seq<u8>) -> Seq<u8> {
    Seq::new(
        2 * b.len(),
        |i: int|
            if i % 2 == 0 {
                hex_digit_of((b[i / 2] / 16) as int)
            } else {
                hex_digit_of((b[i / 2] % 16) as int)
            },
    )
}

/// Bytes in lowercase hexadecimal.
pub fn hex_lower(bytes: &[u8]) -> (r: String)
    ensures
        r@ == ascii_text(hex_of(bytes@)),
{
    let mut out: Vec<u8> = Vec::new();
    let mut i: usize = 0;
    while i < bytes.len()
        invariant
            i <= bytes@.len(),
            out@ == hex_of(bytes@.take(i as int)),
        decreases bytes@.len() - i,
    {
        out.push(hex_digit(bytes[i] / 16));
        out.push(hex_digit(bytes[i] % 16));
        i = i + 1;
        proof {
            assert(out@ =~= hex_of(bytes@.take(i as int)));
        }
    }
    proof {
        assert(bytes@.take(i as int) =~= bytes@);
    }
    proof {
        lemma_hex_lower(bytes@);
        assert forall|k: int| 0 <= k < out@.len() implies #[trigger] out@[k] < 128 by {
            assert(lower_hex(hex_of(bytes@)[k]));
        }
    }
    ascii_string(out)
}

/// Hexadecimal text holds lowercase digits only.
pub proof fn lemma_hex_lower(b: Seq<u8>)
    ensures
        forall|i: int| 0 <= i < hex_of(b).len() ==> lower_hex(#[trigger] hex_of(b)[i]),
{
}

/// A lowercase hexadecimal digit.
pub open spec fn lower_hex(d: u8) -> bool {
    48 <= d <= 57 || 97 <= d <= 102
}

/// The bytes that lowercase hexadecimal stands for: an even number of
/// lowercase digits, and nothing else.
pub open spec fn hex_decoded(s: Seq<u8>) -> Option<Seq<u8>> {
    if s.len() % 2 != 0 || exists|i: int| 0 <= i < s.len() && !lower_hex(#[trigger] s[i]) {
        None
    } else {
        Some(
            Seq::new(
                s.len() / 2,
                |i: int| (16 * hex_value_of(s[2 * i])->0 + hex_value_of(s[2 * i + 1])->0) as u8,
            ),
        )
    }
}

fn is_lower_hex(d: u8) -> (r: bool)
    ensures
        r == lower_hex(d),
{
    (48 <= d && d <= 57) || (97 <= d && d <= 102)
}

/// Decodes lowercase hexadecimal.
pub fn decode_hex(s: &[u8]) -> (r: Option<Vec<u8>>)
    ensures
        match hex_decoded(s@) {
            Some(b) => r matches Some(v) && v@ == b,
            None => r is None,
        },
{
    if s.len() % 2 != 0 {
        return None;
    }
    let mut out: Vec<u8> = Vec::new();
    let mut i: usize = 0;
    while i < s.len()
        invariant
            i <= s@.len(),
            i % 2 == 0,
            s@.len() % 2 == 0,
            out@.len() == i / 2,
            forall|j: int| 0 <= j < i ==> lower_hex(#[trigger] s@[j]),
            forall|j: int| 0 <= j < i / 2 ==> #[trigger] out@[j] == (16 * hex_value_of(s@[2 * j])->0
                + hex_value_of(s@[2 * j + 1])->0) as u8,
        decreases s@.len() - i,
    {
        if !is_lower_hex(s[i]) || !is_lower_hex(s[i + 1]) {
            proof {
                if !lower_hex(s@[i as int]) {
                    assert(hex_decoded(s@) is None);
                } else {
                    assert(!lower_hex(s@[i + 1]));
                    assert(hex_decoded(s@) is None);
                }
            }
            return None;
        }
        let hi: u8 = match hex_value(s[i]) {
            Some(v) => v,
            None => 0,
        };
        let lo: u8 = match hex_value(s[i + 1]) {
            Some(v) => v,
            None => 0,
        };
        out.push(16 * hi + lo);
        i = i + 2;
    }
    proof {
        assert(out@ =~= hex_decoded(s@)->0);
    }
    Some(out)
}

/// Lowercase hexadecimal is decoded to the bytes it was written from.
pub proof fn lemma_hex_round_trip(b: Seq<u8>)
    ensures
        hex_decoded(hex_of(b)) == Some(b),
{
    let h = hex_of(b);
    assert forall|i: int| 0 <= i < h.len() implies lower_hex(#[trigger] h[i]) by {
        assert(b[i / 2] / 16 < 16 && b[i / 2] % 16 < 16);
    }
    assert forall|i: int| 0 <= i < b.len() implies #[trigger] hex_decoded(h)->0[i] == b[i] by {
        assert(h[2 * i] == hex_digit_of((b[i] / 16) as int));
        assert(h[2 * i + 1] == hex_digit_of((b[i] % 16) as int));
        assert(16 * (b[i] / 16) + b[i] % 16 == b[i]);
    }
    assert(hex_decoded(h)->0 =~= b);
}

} // verus!
