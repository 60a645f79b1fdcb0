//! Text: the standard library's string operations that the models use, and
//! what they say about ASCII.

use vstd::prelude::*;
use crate::wire_core::namelist_ref::valid_name;
use vstd::utf8::{
    encode_utf8, encode_utf8_decode_utf8, encode_utf8_valid_utf8, is_ascii_chars,
    is_ascii_chars_encode_utf8, valid_utf8,
};

verus! {

/// Every byte is US-ASCII.
pub open spec fn ascii_bytes(b: Seq<u8>) -> bool {
    forall|i: int| 0 <= i < b.len() ==> #[trigger] b[i] < 128
}

/// The text that ASCII bytes spell.
pub open spec fn ascii_text(b: Seq<u8>) -> Seq<char> {
    Seq::new(b.len(), |i: int| b[i] as char)
}

/// The bytes of a text.
pub open spec fn bytes_of(s: &str) -> Seq<u8> {
    encode_utf8(s@)
}

/// `String::from_utf8` takes exactly the valid encodings, and what it returns
/// encodes to the bytes it took.
#[verifier::external_body]
pub(crate) fn string_from_utf8(bytes: Vec<u8>) -> (r: Option<String>)
    ensures
        r is Some <==> valid_utf8(bytes@),
        r matches Some(s) ==> encode_utf8(s@) == bytes@,
{
    String::from_utf8(bytes).ok()
}

/// ASCII bytes are a valid encoding, of the text that they spell.
pub proof fn lemma_ascii_text(b: Seq<u8>)
    requires
        ascii_bytes(b),
    ensures
        valid_utf8(b),
        encode_utf8(ascii_text(b)) == b,
        forall|t: Seq<char>| #[trigger] encode_utf8(t) == b ==> t == ascii_text(b),
{
    let t = ascii_text(b);
    assert(is_ascii_chars(t)) by {
        assert forall|i: int| 0 <= i < t.len() implies '\0' <= #[trigger] t[i] <= '\u{7f}' by {
            assert(b[i] < 128);
        }
    }
    is_ascii_chars_encode_utf8(t);
    assert(encode_utf8(t) =~= b) by {
        assert forall|i: int| 0 <= i < b.len() implies encode_utf8(t)[i] == b[i] by {
            assert(b[i] < 128);
        }
    }
    encode_utf8_valid_utf8(t);
    assert forall|u: Seq<char>| #[trigger] encode_utf8(u) == b implies u == t by {
        encode_utf8_decode_utf8(u);
        encode_utf8_decode_utf8(t);
    }
}

/// The text that ASCII bytes spell.
pub fn ascii_string(bytes: Vec<u8>) -> (r: String)
    requires
        ascii_bytes(bytes@),
    ensures
        r@ == ascii_text(bytes@),
{
    proof {
        lemma_ascii_text(bytes@);
    }
    match string_from_utf8(bytes) {
        Some(s) => s,
        None => String::new(),
    }
}


/// From the `i`-th on, every character may stand in a name.
pub open spec fn name_chars(t: Seq<char>, i: int) -> bool
    decreases t.len() - i,
{
    i >= t.len() || ('!' <= t[i] <= '~' && t[i] != ',' && name_chars(t, i + 1))
}

proof fn lemma_name_chars_at(t: Seq<char>, i: int, k: int)
    requires
        name_chars(t, i),
        0 <= i <= k < t.len(),
    ensures
        '!' <= t[k] <= '~' && t[k] != ',',
    decreases k - i,
{
    if i < k {
        lemma_name_chars_at(t, i + 1, k);
    }
}

/// A text of name characters spells a valid name.
pub proof fn lemma_name_literal(s: &str)
    requires
        s@.len() > 0,
        name_chars(s@, 0),
    ensures
        valid_name(bytes_of(s)),
        bytes_of(s).len() == s@.len(),
        ascii_bytes(bytes_of(s)),
        forall|i: int| 0 <= i < s@.len() ==> #[trigger] bytes_of(s)[i] == s@[i] as u8,
{
    let t = s@;
    assert forall|k: int| 0 <= k < t.len() implies '!' <= #[trigger] t[k] <= '~' && t[k] != ',' by {
        lemma_name_chars_at(t, 0, k);
    }
    assert(is_ascii_chars(t));
    is_ascii_chars_encode_utf8(t);
    let b = bytes_of(s);
    assert forall|k: int| 0 <= k < b.len() implies 0x21 <= #[trigger] b[k] <= 0x7e && b[k] != 44u8 by {
        assert('!' <= t[k] <= '~' && t[k] != ',');
        assert(b[k] == t[k] as u8);
    }
}


/// A text of ASCII characters has as many bytes as characters.
pub proof fn lemma_ascii_len(s: &str)
    requires
        is_ascii_chars(s@),
    ensures
        bytes_of(s).len() == s@.len(),
        ascii_bytes(bytes_of(s)),
        forall|i: int| 0 <= i < s@.len() ==> #[trigger] bytes_of(s)[i] == s@[i] as u8,
{
    is_ascii_chars_encode_utf8(s@);
    assert forall|i: int| 0 <= i < s@.len() implies #[trigger] bytes_of(s)[i] < 128 by {
        assert('\0' <= s@[i] <= '\u{7f}');
    }
}

/// What `String::from_utf8_lossy` makes of bytes.
pub uninterp spec fn lossy_chars(bytes: Seq<u8>) -> Seq<char>;

/// `String::from_utf8_lossy` decodes bytes, with a replacement character for
/// what is not valid: the result depends on the bytes alone, and a valid
/// encoding is decoded as it is.
#[verifier::external_body]
pub(crate) fn string_from_utf8_lossy(bytes: &[u8]) -> (r: String)
    ensures
        r@ == lossy_chars(bytes@),
        valid_utf8(bytes@) ==> encode_utf8(r@) == bytes@,
{
    String::from_utf8_lossy(bytes).into_owned()
}

/// The text of bytes: ASCII as it stands, anything else with replacement
/// characters where it does not decode.
pub open spec fn text_of(bytes: Seq<u8>) -> Seq<char> {
    if ascii_bytes(bytes) {
        ascii_text(bytes)
    } else {
        lossy_chars(bytes)
    }
}

/// Whether every byte is US-ASCII.
pub fn is_ascii(b: &[u8]) -> (r: bool)
    ensures
        r == ascii_bytes(b@),
{
    let mut i: usize = 0;
    while i < b.len()
        invariant
            i <= b@.len(),
            forall|j: int| 0 <= j < i ==> #[trigger] b@[j] < 128,
        decreases b@.len() - i,
    {
        if b[i] >= 128 {
            return false;
        }
        i = i + 1;
    }
    true
}

/// The text of bytes.
pub fn lossy_string(bytes: &[u8]) -> (r: String)
    ensures
        r@ == text_of(bytes@),
{
    if is_ascii(bytes) {
        ascii_string(crate::seqs::copy_bytes(bytes))
    } else {
        string_from_utf8_lossy(bytes)
    }
}

/// Whether two texts are the same.
pub fn same_text(a: &str, b: &str) -> (r: bool)
    ensures
        r == (a@ == b@),
{
    let r = crate::seqs::same_bytes(a.as_bytes(), b.as_bytes());
    proof {
        encode_utf8_decode_utf8(a@);
        encode_utf8_decode_utf8(b@);
    }
    r
}


/// A text of name characters is the text of its bytes, and texts that differ
/// have bytes that differ.
pub proof fn lemma_literal_text(s: &str)
    ensures
        s@.len() > 0 && name_chars(s@, 0) ==> text_of(bytes_of(s)) == s@,
        forall|t: &str| #[trigger] bytes_of(t) == bytes_of(s) ==> t@ == s@,
{
    if s@.len() > 0 && name_chars(s@, 0) {
        lemma_name_literal(s);
        lemma_ascii_text(bytes_of(s));
    }
    assert forall|t: &str| #[trigger] bytes_of(t) == bytes_of(s) implies t@ == s@ by {
        encode_utf8_decode_utf8(t@);
        encode_utf8_decode_utf8(s@);
    }
}

/// The characters of a text.
pub fn chars_of(s: &str) -> (r: Vec<char>)
    ensures
        r@ == s@,
{
    let mut out: Vec<char> = Vec::new();
    for c in it: s.chars()
        invariant
            it.seq() == s@,
            out@ == s@.take(it.index() as int),
    {
        proof {
            assert(s@.take(it.index() as int + 1) =~= s@.take(it.index() as int).push(c));
        }
        out.push(c);
    }
    proof {
        assert(s@.take(s@.len() as int) =~= s@);
    }
    out
}

/// `String::from_iter` over characters gives the text of exactly these.
#[verifier::external_body]
pub(crate) fn string_from_chars(chars: Vec<char>) -> (r: String)
    ensures
        r@ == chars@,
{
    String::from_iter(chars)
}

/// Appends characters.
pub fn push_chars(out: &mut Vec<char>, s: &[char])
    ensures
        final(out)@ == old(out)@ + s@,
{
    let mut i: usize = 0;
    while i < s.len()
        invariant
            i <= s@.len(),
            out@ == old(out)@ + s@.take(i as int),
        decreases s@.len() - i,
    {
        out.push(s[i]);
        i = i + 1;
        proof {
            assert(s@.take(i as int) =~= s@.take(i - 1).push(s@[i - 1]));
            assert(out@ =~= old(out)@ + s@.take(i as int));
        }
    }
    proof {
        assert(s@.take(i as int) =~= s@);
    }
}

/// Appends the characters of a text.
pub fn push_text(out: &mut Vec<char>, s: &str)
    ensures
        final(out)@ == old(out)@ + s@,
{
    let c = chars_of(s);
    push_chars(out, c.as_slice());
}

/// Appends ASCII bytes as characters.
pub fn push_ascii(out: &mut Vec<char>, b: &[u8])
    requires
        ascii_bytes(b@),
    ensures
        final(out)@ == old(out)@ + ascii_text(b@),
{
    let mut i: usize = 0;
    while i < b.len()
        invariant
            i <= b@.len(),
            ascii_bytes(b@),
            out@ == old(out)@ + ascii_text(b@.take(i as int)),
        decreases b@.len() - i,
    {
        out.push(b[i] as char);
        i = i + 1;
        proof {
            assert(out@ =~= old(out)@ + ascii_text(b@.take(i as int)));
        }
    }
    proof {
        assert(b@.take(i as int) =~= b@);
    }
}

/// An owned copy of a text.
pub fn copy_text(s: &str) -> (r: String)
    ensures
        r@ == s@,
{
    string_from_chars(chars_of(s))
}

} // verus!
