//! The identification grammar (RFC 4253 section 4.2):
//! `SSH-protoversion-softwareversion [SP comments]`.

use vstd::prelude::*;
use vstd::slice::slice_subrange;
use crate::seqs::{opt_slice, push_all};

verus! {

/// An accepted identification, by its fields.
#[derive(Clone, Copy, Debug)]
pub struct RefIdent<'a> {
    pub protocol_version: &'a [u8],
    pub software_version: &'a [u8],
    pub comments: Option<&'a [u8]>,
}

/// The fields of an identification as byte sequences.
pub ghost struct IdentFields {
    pub protocol_version: Seq<u8>,
    pub software_version: Seq<u8>,
    pub comments: Option<Seq<u8>>,
}

impl<'a> View for RefIdent<'a> {
    type V = IdentFields;

    open spec fn view(&self) -> IdentFields {
        IdentFields {
            protocol_version: self.protocol_version@,
            software_version: self.software_version@,
            comments: opt_slice(self.comments),
        }
    }
}

/// Printable US-ASCII excluding whitespace and the minus sign.
pub open spec fn token_byte(b: u8) -> bool {
    0x21 <= b <= 0x7e && b != 45u8
}

/// CR, LF and NUL may never appear anywhere in the content.
pub open spec fn forbidden_byte(b: u8) -> bool {
    b == 13u8 || b == 10u8 || b == 0u8
}

/// Some byte of `s` is forbidden.
pub open spec fn has_forbidden(s: Seq<u8>) -> bool {
    exists|i: int| 0 <= i < s.len() && forbidden_byte(#[trigger] s[i])
}

/// A non-empty run of token bytes.
pub open spec fn version_token(s: Seq<u8>) -> bool {
    s.len() > 0 && forall|i: int| 0 <= i < s.len() ==> token_byte(#[trigger] s[i])
}

/// The four bytes that open every identification.
pub open spec fn ssh_prefix() -> Seq<u8> {
    seq![83u8, 83u8, 72u8, 45u8]
}

/// The line content that carries the given fields.
pub open spec fn assembled(f: IdentFields) -> Seq<u8> {
    let fixed = ssh_prefix() + f.protocol_version + seq![45u8] + f.software_version;
    match f.comments {
        None => fixed,
        Some(c) => fixed + seq![32u8] + c,
    }
}

/// The fields satisfy the grammar.
pub open spec fn valid_fields(f: IdentFields) -> bool {
    &&& version_token(f.protocol_version)
    &&& version_token(f.software_version)
    &&& f.comments matches Some(c) ==> !has_forbidden(c)
}

/// Printable US-ASCII excluding whitespace and the minus sign.
pub fn is_token_byte(b: u8) -> (r: bool)
    ensures
        r == token_byte(b),
{
    0x21 <= b && b <= 0x7e && b != 45u8
}

/// CR, LF and NUL may never appear anywhere in the content.
pub fn is_forbidden_byte(b: u8) -> (r: bool)
    ensures
        r == forbidden_byte(b),
{
    b == 13u8 || b == 10u8 || b == 0u8
}

/// Whether some byte of `s` is forbidden.
pub fn contains_forbidden(s: &[u8]) -> (r: bool)
    ensures
        r == has_forbidden(s@),
{
    let mut i: usize = 0;
    while i < s.len()
        invariant
            i <= s@.len(),
            forall|j: int| 0 <= j < i ==> !forbidden_byte(#[trigger] s@[j]),
        decreases s@.len() - i,
    {
        if is_forbidden_byte(s[i]) {
            return true;
        }
        i = i + 1;
    }
    false
}

/// Length of the maximal leading run of token bytes.
fn token_run(s: &[u8]) -> (r: usize)
    ensures
        r <= s@.len(),
        forall|j: int| 0 <= j < r ==> token_byte(#[trigger] s@[j]),
        r < s@.len() ==> !token_byte(s@[r as int]),
{
    let mut i: usize = 0;
    while i < s.len() && is_token_byte(s[i])
        invariant
            i <= s@.len(),
            forall|j: int| 0 <= j < i ==> token_byte(#[trigger] s@[j]),
        decreases s@.len() - i,
    {
        i = i + 1;
    }
    i
}

/// Non-empty run of token bytes.
pub fn is_version_token(t: &[u8]) -> (r: bool)
    ensures
        r == version_token(t@),
{
    t.len() > 0 && token_run(t) == t.len()
}

/// The content `data` determines its fields.
pub proof fn lemma_fields_unique(a: IdentFields, b: IdentFields)
    requires
        valid_fields(a),
        valid_fields(b),
        assembled(a) == assembled(b),
    ensures
        a == b,
{
    let s = assembled(a);
    let pa = a.protocol_version.len() as int;
    let pb = b.protocol_version.len() as int;
    assert(s[4 + pa] == 45u8);
    assert(s[4 + pb] == 45u8);
    assert(forall|i: int| 0 <= i < pa ==> s[4 + i] == a.protocol_version[i]);
    assert(forall|i: int| 0 <= i < pb ==> s[4 + i] == b.protocol_version[i]);
    if pa < pb {
        assert(token_byte(b.protocol_version[pa]));
    }
    if pb < pa {
        assert(token_byte(a.protocol_version[pb]));
    }
    assert(a.protocol_version =~= b.protocol_version);
    let sa = a.software_version.len() as int;
    let sb = b.software_version.len() as int;
    assert(forall|i: int| 0 <= i < sa ==> s[5 + pa + i] == a.software_version[i]);
    assert(forall|i: int| 0 <= i < sb ==> s[5 + pa + i] == b.software_version[i]);
    if sa < sb {
        assert(token_byte(b.software_version[sa]));
        assert(s[5 + pa + sa] == 32u8);
    }
    if sb < sa {
        assert(token_byte(a.software_version[sb]));
        assert(s[5 + pa + sb] == 32u8);
    }
    assert(a.software_version =~= b.software_version);
    match (a.comments, b.comments) {
        (Some(x), Some(y)) => {
            assert(x =~= s.skip(6 + pa + sa));
            assert(y =~= s.skip(6 + pa + sa));
        },
        _ => {},
    }
}

/// Accepts iff `data` matches the grammar; returns the fields.
pub fn parse(data: &[u8]) -> (r: Option<RefIdent<'_>>)
    ensures
        match r {
            Some(f) => valid_fields(f@) && assembled(f@) == data@,
            None => forall|f: IdentFields| #![trigger assembled(f)]
                !(valid_fields(f) && assembled(f) == data@),
        },
{
    if contains_forbidden(data) {
        proof {
            let k = choose|i: int| 0 <= i < data@.len() && forbidden_byte(#[trigger] data@[i]);
            assert forall|f: IdentFields| #![trigger assembled(f)]
                !(valid_fields(f) && assembled(f) == data@) by {
                if valid_fields(f) && assembled(f) == data@ {
                    lemma_no_forbidden(f);
                    assert(forbidden_byte(assembled(f)[k]));
                }
            }
        }
        return None;
    }
    if data.len() < 4 || data[0] != 83u8 || data[1] != 83u8 || data[2] != 72u8 || data[3] != 45u8 {
        proof {
            assert forall|f: IdentFields| #![trigger assembled(f)]
                !(valid_fields(f) && assembled(f) == data@) by {
                let s = assembled(f);
                assert(s.len() >= 4 && s[0] == 83u8 && s[1] == 83u8 && s[2] == 72u8 && s[3] == 45u8);
            }
        }
        return None;
    }
    let rest = slice_subrange(data, 4, data.len());
    let p: usize = token_run(rest);
    if p == 0 || p >= rest.len() || rest[p] != 45u8 {
        proof {
            assert forall|f: IdentFields| #![trigger assembled(f)]
                !(valid_fields(f) && assembled(f) == data@) by {
                if valid_fields(f) && assembled(f) == data@ {
                    lemma_protocol_run(f, data@, p as int);
                }
            }
        }
        return None;
    }
    let protocol_version = slice_subrange(rest, 0, p);
    let after = slice_subrange(rest, p + 1, rest.len());
    let s: usize = token_run(after);
    if s == 0 || (s < after.len() && after[s] != 32u8) {
        proof {
            assert forall|f: IdentFields| #![trigger assembled(f)]
                !(valid_fields(f) && assembled(f) == data@) by {
                if valid_fields(f) && assembled(f) == data@ {
                    lemma_protocol_run(f, data@, p as int);
                    let n = f.software_version.len() as int;
                    assert(forall|i: int| 0 <= i < n ==> data@[5 + p + i] == f.software_version[i]);
                    assert(forall|i: int|
                        0 <= i < after@.len() ==> after@[i] == #[trigger] data@[5 + p + i]);
                    if s < n {
                        assert(token_byte(f.software_version[s as int]));
                        assert(after@[s as int] == data@[5 + p + s]);
                    } else if n < s {
                        assert(after@[n] == data@[5 + p + n]);
                        assert(token_byte(after@[n]));
                    }
                }
            }
        }
        return None;
    }
    let software_version = slice_subrange(after, 0, s);
    let comments = if s < after.len() {
        Some(slice_subrange(after, s + 1, after.len()))
    } else {
        None
    };
    let r = RefIdent { protocol_version, software_version, comments };
    proof {
        assert(assembled(r@) =~= data@);
        match r@.comments {
            Some(c) => {
                assert forall|i: int| 0 <= i < c.len() implies !forbidden_byte(#[trigger] c[i]) by {
                    assert(c[i] == data@[6 + p + s + i]);
                }
            },
            None => {},
        }
    }
    Some(r)
}

proof fn lemma_no_forbidden(f: IdentFields)
    requires
        valid_fields(f),
    ensures
        !has_forbidden(assembled(f)),
{
    let s = assembled(f);
    let p = f.protocol_version.len() as int;
    let n = f.software_version.len() as int;
    assert forall|i: int| 0 <= i < s.len() implies !forbidden_byte(#[trigger] s[i]) by {
        if 4 <= i < 4 + p {
            assert(s[i] == f.protocol_version[i - 4]);
        } else if 5 + p <= i < 5 + p + n {
            assert(s[i] == f.software_version[i - 5 - p]);
        } else if i >= 6 + p + n {
            let c = f.comments->0;
            assert(s[i] == c[i - 6 - p - n]);
        }
    }
}

/// The protocol version ends where the run of token bytes does.
proof fn lemma_protocol_run(f: IdentFields, data: Seq<u8>, p: int)
    requires
        valid_fields(f),
        assembled(f) == data,
        0 <= p <= data.len() - 4,
        forall|j: int| 0 <= j < p ==> token_byte(#[trigger] data.subrange(4, data.len() as int)[j]),
        p < data.len() - 4 ==> !token_byte(data[4 + p]),
    ensures
        f.protocol_version.len() == p,
        data.len() > 4 + p,
        data[4 + p] == 45u8,
{
    let n = f.protocol_version.len() as int;
    assert(data[4 + n] == 45u8);
    assert(forall|i: int| 0 <= i < n ==> data[4 + i] == f.protocol_version[i]);
    if p < n {
        assert(token_byte(f.protocol_version[p]));
    }
    if n < p {
        assert(token_byte(data.subrange(4, data.len() as int)[n]));
    }
}

/// Bytes of the line content for the given fields.
pub fn assemble(proto: &[u8], software: &[u8], comments: Option<&[u8]>) -> (r: Vec<u8>)
    ensures
        r@ == assembled(
            (IdentFields {
                protocol_version: proto@,
                software_version: software@,
                comments: opt_slice(comments),
            }),
        ),
{
    let mut out: Vec<u8> = Vec::new();
    out.push(83u8);
    out.push(83u8);
    out.push(72u8);
    out.push(45u8);
    push_all(&mut out, proto);
    out.push(45u8);
    push_all(&mut out, software);
    if let Some(c) = comments {
        out.push(32u8);
        push_all(&mut out, c);
    }
    proof {
        assert(out@ =~= assembled(
            IdentFields {
                protocol_version: proto@,
                software_version: software@,
                comments: opt_slice(comments),
            },
        ));
    }
    out
}

/// The byte of the token alphabet that stands for `b`.
pub open spec fn token_of(b: u8) -> u8 {
    let c = (0x21 + b % 94) as u8;
    if c == 45u8 {
        95
    } else {
        c
    }
}

/// Maps arbitrary bytes onto the token alphabet (in place).
pub fn sanitize_token(bytes: &mut Vec<u8>)
    ensures
        final(bytes)@ == old(bytes)@.map_values(|b: u8| token_of(b)),
        old(bytes)@.len() > 0 ==> version_token(final(bytes)@),
{
    let mut i: usize = 0;
    let ghost start = bytes@;
    while i < bytes.len()
        invariant
            i <= bytes@.len(),
            bytes@.len() == start.len(),
            forall|j: int| 0 <= j < i ==> bytes@[j] == token_of(start[j]),
            forall|j: int| i <= j < start.len() ==> bytes@[j] == start[j],
        decreases bytes@.len() - i,
    {
        let c: u8 = 0x21 + (bytes[i] % 94);
        let v: u8 = if c == 45u8 { 95 } else { c };
        bytes.set(i, v);
        i = i + 1;
    }
    proof {
        assert(bytes@ =~= start.map_values(|b: u8| token_of(b)));
    }
}

} // verus!
