//! The `mpint` of RFC 4251 section 5: two's complement, most significant byte
//! first, no byte that could be dropped without changing the value.

use vstd::prelude::*;
use crate::seqs::{push_all, tail};
use crate::wire_core::bytes::{put_u32, ssh_string};

verus! {

/// The number of zero bytes at the front of `s`, from the `i`-th on.
pub open spec fn zeros_from(s: Seq<u8>, i: int) -> int
    decreases s.len() - i,
{
    if i >= s.len() || s[i] != 0 {
        i
    } else {
        zeros_from(s, i + 1)
    }
}

/// `s` without the zero bytes at its front.
pub open spec fn stripped(s: Seq<u8>) -> Seq<u8> {
    s.skip(zeros_from(s, 0))
}

/// The body of a non-negative `mpint` with the given magnitude.
pub open spec fn positive_body(magnitude: Seq<u8>) -> Seq<u8> {
    let m = stripped(magnitude);
    if m.len() > 0 && m[0] >= 0x80 {
        seq![0u8] + m
    } else {
        m
    }
}

/// The sign bit of a body.
pub open spec fn negative(body: Seq<u8>) -> bool {
    body.len() > 0 && body[0] >= 0x80
}

/// The first byte of a body repeats the sign of what follows, so it could be
/// dropped without changing the value.
pub open spec fn droppable_first(body: Seq<u8>) -> bool {
    ||| body.len() == 1 && body[0] == 0
    ||| body.len() >= 2 && body[0] == 0 && body[1] < 0x80
    ||| body.len() >= 2 && body[0] == 0xff && body[1] >= 0x80
}

/// No byte of the body can be dropped.
pub open spec fn canonical(body: Seq<u8>) -> bool {
    !droppable_first(body)
}

/// Where the zero bytes end.
pub proof fn lemma_zeros(s: Seq<u8>, i: int)
    requires
        0 <= i <= s.len(),
    ensures
        i <= zeros_from(s, i) <= s.len(),
        forall|j: int| i <= j < zeros_from(s, i) ==> s[j] == 0,
        zeros_from(s, i) < s.len() ==> s[zeros_from(s, i)] != 0,
    decreases s.len() - i,
{
    if i < s.len() && s[i] == 0 {
        lemma_zeros(s, i + 1);
    }
}

fn leading_zeros(s: &[u8]) -> (r: usize)
    ensures
        r == zeros_from(s@, 0),
        r <= s@.len(),
{
    let mut i: usize = 0;
    while i < s.len() && s[i] == 0
        invariant
            i <= s@.len(),
            zeros_from(s@, 0) == zeros_from(s@, i as int),
        decreases s@.len() - i,
    {
        i = i + 1;
    }
    i
}

/// The magnitude without leading zero bytes.
pub fn strip_zeros(s: &[u8]) -> (r: &[u8])
    ensures
        r@ == stripped(s@),
{
    tail(s, leading_zeros(s))
}

/// The sign of a body.
pub fn is_negative(body: &[u8]) -> (r: bool)
    ensures
        r == negative(body@),
{
    body.len() > 0 && body[0] >= 0x80
}

/// Whether no byte of the body can be dropped without changing the value.
pub fn is_canonical(body: &[u8]) -> (r: bool)
    ensures
        r == canonical(body@),
{
    if body.len() == 0 {
        true
    } else if body.len() == 1 {
        body[0] != 0
    } else {
        !((body[0] == 0 && body[1] < 0x80) || (body[0] == 0xff && body[1] >= 0x80))
    }
}

/// The magnitude of a body that is not negative.
pub fn positive_magnitude(body: &[u8]) -> (r: Option<&[u8]>)
    ensures
        match r {
            Some(m) => !negative(body@) && m@ == stripped(body@),
            None => negative(body@),
        },
{
    if is_negative(body) {
        None
    } else {
        Some(strip_zeros(body))
    }
}

/// The body of the non-negative `mpint` of a magnitude.
pub fn positive_body_of(magnitude: &[u8]) -> (r: Vec<u8>)
    ensures
        r@ == positive_body(magnitude@),
{
    let m = strip_zeros(magnitude);
    let mut body: Vec<u8> = Vec::new();
    if m.len() > 0 && m[0] >= 0x80 {
        body.push(0);
    }
    push_all(&mut body, m);
    proof {
        assert(body@ =~= positive_body(magnitude@));
    }
    body
}

/// The `mpint` of a magnitude, with its length.
pub fn positive_encoding(magnitude: &[u8]) -> (r: Vec<u8>)
    requires
        magnitude@.len() < u32::MAX,
    ensures
        r@ == ssh_string(positive_body(magnitude@)),
{
    proof {
        lemma_zeros(magnitude@, 0);
    }
    let body = positive_body_of(magnitude);
    let mut out: Vec<u8> = Vec::new();
    put_u32(&mut out, body.len() as u32);
    push_all(&mut out, body.as_slice());
    proof {
        assert(out@ =~= ssh_string(positive_body(magnitude@)));
    }
    out
}

/// Writing always yields a canonical, non-negative body, from which the
/// magnitude comes back without its leading zeros.
pub proof fn lemma_positive_round_trip(magnitude: Seq<u8>)
    ensures
        canonical(positive_body(magnitude)),
        !negative(positive_body(magnitude)),
        stripped(positive_body(magnitude)) == stripped(magnitude),
        positive_body(magnitude).len() == 0 <==> stripped(magnitude).len() == 0,
{
    lemma_zeros(magnitude, 0);
    let m = stripped(magnitude);
    let body = positive_body(magnitude);
    lemma_zeros(body, 0);
    if m.len() > 0 {
        assert(m[0] == magnitude[zeros_from(magnitude, 0)]);
        if m[0] >= 0x80 {
            assert(body[0] == 0 && body[1] == m[0]);
            assert(zeros_from(body, 1) == 1);
            assert(body.skip(1) =~= m);
        } else {
            assert(zeros_from(body, 0) == 0);
            assert(body.skip(0) =~= m);
        }
    } else {
        assert(body =~= Seq::empty());
        assert(stripped(body) =~= m);
    }
}

/// Writing the magnitude of a non-negative body gives the body back exactly
/// where the body was canonical.
pub proof fn lemma_rewrite_iff_canonical(body: Seq<u8>)
    requires
        !negative(body),
    ensures
        positive_body(stripped(body)) == body <==> canonical(body),
{
    lemma_zeros(body, 0);
    let m = stripped(body);
    let z = zeros_from(body, 0);
    lemma_zeros(m, 0);
    if m.len() > 0 {
        assert(m[0] == body[z]);
        assert(zeros_from(m, 0) == 0);
    }
    assert(stripped(m) =~= m);
    let again = positive_body(m);
    if canonical(body) {
        if z == 0 {
            assert(m =~= body);
        } else {
            assert(body[0] == 0);
            assert(body.len() >= 2);
            if z >= 2 {
                assert(body[1] == 0);
            }
            assert(z == 1);
            assert(again =~= body);
        }
    } else {
        assert(body[0] == 0);
        if body.len() == 1 {
            assert(z == 1) by {
                reveal_with_fuel(zeros_from, 2);
            }
            assert(again.len() == 0);
        } else {
            assert(z >= 1) by {
                reveal_with_fuel(zeros_from, 2);
            }
            if again == body {
                assert(again.len() == body.len());
                assert(m.len() == body.len() - z);
                assert(z == 1 && m[0] >= 0x80);
                assert(m[0] == body[1]);
            }
        }
    }
}

} // verus!
