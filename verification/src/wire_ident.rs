//! Codecs of identification lines under test: what an encoder must write and
//! report, and what a parser may refuse.

use vstd::prelude::*;
use crate::seqs::{copy_bytes, find_byte, first_at, head, opt_slice, opt_vec, push_all, same_bytes, same_opt, starts_with, tail};
use crate::wire_core::generate::{after, bounded_bytes, bounded_gen, byte, little, small, small_gen, Source};
use crate::wire_core::ident_ref::{
    assemble, assembled, contains_forbidden, forbidden_byte, has_forbidden, is_forbidden_byte, is_version_token, parse,
    sanitize_token, ssh_prefix, token_of, valid_fields, version_token, IdentFields,
};
use crate::wire_core::laws::lemma_identification_determines_fields;

verus! {

/// Why an identification cannot be encoded.
#[derive(Clone, Copy, Debug, PartialEq, Eq, Structural)]
pub enum IdentEncodeError {
    BadProtocolVersion,
    BadSoftwareVersion,
    BadComments,
    InsufficientCapacity { needed: usize, available: usize },
}

/// Fields by their bytes.
pub open spec fn fields(proto: Seq<u8>, software: Seq<u8>, comments: Option<Seq<u8>>) -> IdentFields {
    IdentFields { protocol_version: proto, software_version: software, comments }
}

/// The size of a line: that of its bytes, where the fields are valid.
pub open spec fn line_len(f: IdentFields) -> Option<usize> {
    if valid_fields(f) {
        Some(assembled(f).len() as usize)
    } else {
        None
    }
}

/// What encoding into a buffer must report: the first field that is not
/// valid, a buffer that is too short, or the size.
pub open spec fn encode_outcome(f: IdentFields, capacity: usize) -> Result<usize, IdentEncodeError> {
    if !version_token(f.protocol_version) {
        Err(IdentEncodeError::BadProtocolVersion)
    } else if !version_token(f.software_version) {
        Err(IdentEncodeError::BadSoftwareVersion)
    } else if !valid_fields(f) {
        Err(IdentEncodeError::BadComments)
    } else if capacity < assembled(f).len() {
        Err(IdentEncodeError::InsufficientCapacity { needed: assembled(f).len() as usize, available: capacity })
    } else {
        Ok(assembled(f).len() as usize)
    }
}

fn comments_ok(comments: Option<&[u8]>) -> (r: bool)
    ensures
        r == (opt_slice(comments) matches Some(c) ==> !has_forbidden(c)),
{
    match comments {
        Some(c) => !contains_forbidden(c),
        None => true,
    }
}

/// `Some(size)` iff the fields are valid.
pub fn expected_len(proto: &[u8], software: &[u8], comments: Option<&[u8]>) -> (r: Option<usize>)
    requires
        assembled(fields(proto@, software@, opt_slice(comments))).len() <= usize::MAX,
    ensures
        r == line_len(fields(proto@, software@, opt_slice(comments))),
{
    if !is_version_token(proto) || !is_version_token(software) || !comments_ok(comments) {
        return None;
    }
    let fixed: usize = 4 + proto.len() + 1 + software.len();
    match comments {
        Some(c) => Some(fixed + 1 + c.len()),
        None => Some(fixed),
    }
}

/// What encoding into a buffer of `capacity` bytes must report.
pub fn expected_encode(proto: &[u8], software: &[u8], comments: Option<&[u8]>, capacity: usize) -> (r: Result<
    usize,
    IdentEncodeError,
>)
    requires
        assembled(fields(proto@, software@, opt_slice(comments))).len() <= usize::MAX,
    ensures
        r == encode_outcome(fields(proto@, software@, opt_slice(comments)), capacity),
{
    if !is_version_token(proto) {
        return Err(IdentEncodeError::BadProtocolVersion);
    }
    if !is_version_token(software) {
        return Err(IdentEncodeError::BadSoftwareVersion);
    }
    match expected_len(proto, software, comments) {
        None => Err(IdentEncodeError::BadComments),
        Some(needed) => if capacity < needed {
            Err(IdentEncodeError::InsufficientCapacity { needed, available: capacity })
        } else {
            Ok(needed)
        },
    }
}

/// Bytes that count up from `fill`.
pub open spec fn pattern(n: int, fill: u8) -> Seq<u8> {
    Seq::new(n as nat, |i: int| ((fill + i) % 256) as u8)
}

/// A buffer of bytes that count up from `fill`.
pub fn patterned(n: usize, fill: u8) -> (r: Vec<u8>)
    ensures
        r@ == pattern(n as int, fill),
{
    let mut out: Vec<u8> = Vec::new();
    let mut v: u8 = fill;
    let mut i: usize = 0;
    while i < n
        invariant
            i <= n,
            v == (fill + i) % 256,
            out@ =~= pattern(i as int, fill),
        decreases n - i,
    {
        out.push(v);
        v = if v == 255 { 0 } else { v + 1 };
        i = i + 1;
    }
    out
}

/// What an encoder did: the size it named, its outcome, and the whole buffer,
/// which held a pattern before.
pub struct Encoded {
    pub len: Option<usize>,
    pub outcome: Result<usize, IdentEncodeError>,
    pub buf: Vec<u8>,
}

/// An encoder named the right size and outcome, wrote exactly the line, and
/// nothing where it refused.
pub open spec fn encoding_right(e: Encoded, f: IdentFields, capacity: usize, fill: u8) -> bool {
    &&& e.len == line_len(f)
    &&& e.outcome == encode_outcome(f, capacity)
    &&& e.buf@ == (match encode_outcome(f, capacity) {
        Ok(n) => assembled(f) + pattern(capacity as int, fill).skip(n as int),
        Err(_) => pattern(capacity as int, fill),
    })
}

/// Whether an encoder did right.
pub fn check(
    e: &Encoded,
    proto: &[u8],
    software: &[u8],
    comments: Option<&[u8]>,
    capacity: usize,
    fill: u8,
) -> (r: bool)
    requires
        assembled(fields(proto@, software@, opt_slice(comments))).len() <= usize::MAX,
    ensures
        r == encoding_right(*e, fields(proto@, software@, opt_slice(comments)), capacity, fill),
{
    let len = expected_len(proto, software, comments);
    let outcome = expected_encode(proto, software, comments, capacity);
    let before = patterned(capacity, fill);
    let same_len: bool = match (e.len, len) {
        (Some(a), Some(b)) => a == b,
        (None, None) => true,
        _ => false,
    };
    let same_outcome: bool = match (&e.outcome, &outcome) {
        (Ok(a), Ok(b)) => *a == *b,
        (Err(a), Err(b)) => *a == *b,
        _ => false,
    };
    let want = match outcome {
        Ok(n) => {
            let mut w = assemble(proto, software, comments);
            push_all(&mut w, tail(before.as_slice(), n));
            w
        },
        Err(_) => before,
    };
    same_len && same_outcome && same_bytes(e.buf.as_slice(), want.as_slice())
}

/// What the fields of a test are drawn as.
#[derive(Debug)]
pub struct Input {
    pub proto: Vec<u8>,
    pub software: Vec<u8>,
    pub comments: Option<Vec<u8>>,
    pub capacity: usize,
    pub fill: u8,
}

/// Bytes without those that are forbidden.
pub open spec fn allowed(s: Seq<u8>) -> Seq<u8>
    decreases s.len(),
{
    if s.len() == 0 {
        Seq::empty()
    } else if forbidden_byte(s.last()) {
        allowed(s.drop_last())
    } else {
        allowed(s.drop_last()) + seq![s.last()]
    }
}

fn keep_allowed(b: &[u8]) -> (r: Vec<u8>)
    ensures
        r@ == allowed(b@),
        r@.len() <= b@.len(),
{
    let mut out: Vec<u8> = Vec::new();
    let mut i: usize = 0;
    while i < b.len()
        invariant
            i <= b@.len(),
            out@ == allowed(b@.take(i as int)),
            out@.len() <= i,
        decreases b@.len() - i,
    {
        proof {
            assert(b@.take(i + 1).drop_last() =~= b@.take(i as int));
            assert(b@.take(i + 1).last() == b@[i as int]);
        }
        if !is_forbidden_byte(b[i]) {
            let ghost was = out@;
            out.push(b[i]);
            proof {
                assert(out@ =~= was + seq![b@[i as int]]);
            }
        }
        i = i + 1;
    }
    proof {
        assert(b@.take(i as int) =~= b@);
    }
    out
}

/// Bytes as they are, or mapped onto the token alphabet.
pub open spec fn tokened(s: Seq<u8>, on: bool) -> Seq<u8> {
    if on {
        s.map_values(|b: u8| token_of(b))
    } else {
        s
    }
}

/// The capacity that a mode picks: around the size of the line where it has
/// one, else a drawn one.
pub open spec fn capacity_for(k: int, needed: Option<usize>, drawn: usize) -> int {
    match needed {
        Some(n) => if k == 1 {
            n as int
        } else if k == 2 {
            n - 1
        } else if k == 3 {
            n + 7
        } else {
            drawn as int
        },
        None => drawn as int,
    }
}

/// A test is what the input says.
pub open spec fn input_holds(s: Seq<u8>, r: Input) -> bool {
    let mode = little(s, 1);
    let (p, s1) = bounded_gen(after(s, 1), 300);
    let (w, s2) = bounded_gen(s1, 300);
    let (c, s3) = bounded_gen(s2, 300);
    let (drawn, s4) = small_gen(s3, 600);
    let proto = tokened(p, mode % 2 == 1);
    let software = tokened(w, mode / 2 % 2 == 1);
    let comments = if mode / 4 % 2 == 1 {
        Some(
            if mode / 8 % 2 == 1 {
                allowed(c)
            } else {
                c
            },
        )
    } else {
        None
    };
    &&& r.proto@ == proto
    &&& r.software@ == software
    &&& opt_vec(r.comments) == comments
    &&& r.capacity == capacity_for(mode / 16 % 4, line_len(fields(proto, software, comments)), drawn)
    &&& r.fill == little(s4, 1)
}

/// Draws a test.
pub fn gen_input(data: &[u8]) -> (r: Input)
    ensures
        input_holds(data@, r),
{
    let mut u = Source::new(data);
    let mode: u8 = byte(&mut u);
    let mut proto = bounded_bytes(&mut u, 300);
    if mode % 2 == 1 {
        sanitize_token(&mut proto);
    }
    let mut software = bounded_bytes(&mut u, 300);
    if mode / 2 % 2 == 1 {
        sanitize_token(&mut software);
    }
    let mut text = bounded_bytes(&mut u, 300);
    if mode / 8 % 2 == 1 {
        text = keep_allowed(text.as_slice());
    }
    let comments: Option<Vec<u8>> = if mode / 4 % 2 == 1 { Some(text) } else { None };
    let drawn: usize = small(&mut u, 600);
    let borrowed: Option<&[u8]> = match &comments {
        Some(c) => Some(c.as_slice()),
        None => None,
    };
    let needed = expected_len(proto.as_slice(), software.as_slice(), borrowed);
    let k: u8 = mode / 16 % 4;
    let capacity: usize = match needed {
        Some(n) => if k == 1 {
            n
        } else if k == 2 {
            n - 1
        } else if k == 3 {
            n + 7
        } else {
            drawn
        },
        None => drawn,
    };
    let fill: u8 = byte(&mut u);
    Input { proto, software, comments, capacity, fill }
}

/// The class of a protocol version.
#[derive(Clone, Copy, Debug, PartialEq, Eq, Structural)]
pub enum ProtocolVersionClass {
    Ssh2,
    Ssh2Compatibility,
    Other,
}

/// Exactly `2.0` and `1.99` are known.
pub open spec fn class_of(token: Seq<u8>) -> ProtocolVersionClass {
    if token == seq![50u8, 46u8, 48u8] {
        ProtocolVersionClass::Ssh2
    } else if token == seq![49u8, 46u8, 57u8, 57u8] {
        ProtocolVersionClass::Ssh2Compatibility
    } else {
        ProtocolVersionClass::Other
    }
}

/// The class of a protocol version.
pub fn expected_class(token: &[u8]) -> (r: ProtocolVersionClass)
    ensures
        r == class_of(token@),
{
    let two: [u8; 3] = [50, 46, 48];
    let compat: [u8; 4] = [49, 46, 57, 57];
    proof {
        assert(two@ =~= seq![50u8, 46u8, 48u8]);
        assert(compat@ =~= seq![49u8, 46u8, 57u8, 57u8]);
    }
    if same_bytes(token, two.as_slice()) {
        ProtocolVersionClass::Ssh2
    } else if same_bytes(token, compat.as_slice()) {
        ProtocolVersionClass::Ssh2Compatibility
    } else {
        ProtocolVersionClass::Other
    }
}

/// Why a line is not an identification.
#[derive(Clone, Copy, Debug, PartialEq, Eq, Structural)]
pub enum IdentSyntaxError {
    ControlCharacter,
    MissingPrefix,
    MissingSeparator,
    BadProtocolVersion,
    BadSoftwareVersion,
}

/// What a line must be like for an error to be given for it.
pub open spec fn implied(data: Seq<u8>, e: IdentSyntaxError) -> bool {
    let opens = ssh_prefix().is_prefix_of(data);
    let rest = data.skip(4);
    let dash = first_at(rest, 45, 0);
    let behind = rest.skip(dash + 1);
    match e {
        IdentSyntaxError::ControlCharacter => has_forbidden(data),
        IdentSyntaxError::MissingPrefix => !opens,
        IdentSyntaxError::MissingSeparator => opens && dash == rest.len(),
        IdentSyntaxError::BadProtocolVersion => opens && dash < rest.len() && !version_token(rest.take(dash)),
        IdentSyntaxError::BadSoftwareVersion => opens && dash < rest.len() && version_token(rest.take(dash))
            && !version_token(behind.take(first_at(behind, 32, 0))),
    }
}

/// Whether an error may be given for a line.
pub fn check_error_implication(data: &[u8], e: IdentSyntaxError) -> (r: bool)
    ensures
        r == implied(data@, e),
{
    if e == IdentSyntaxError::ControlCharacter {
        return contains_forbidden(data);
    }
    let prefix: [u8; 4] = [83, 83, 72, 45];
    proof {
        assert(prefix@ =~= ssh_prefix());
    }
    let opens: bool = starts_with(data, prefix.as_slice());
    if e == IdentSyntaxError::MissingPrefix {
        return !opens;
    }
    if !opens {
        return false;
    }
    let rest = tail(data, 4);
    let dash: usize = find_byte(rest, 45);
    if e == IdentSyntaxError::MissingSeparator {
        return dash == rest.len();
    }
    if dash == rest.len() {
        return false;
    }
    let version: bool = is_version_token(head(rest, dash));
    if e == IdentSyntaxError::BadProtocolVersion {
        return !version;
    }
    let behind = tail(rest, dash + 1);
    version && !is_version_token(head(behind, find_byte(behind, 32)))
}

/// A parsed identification.
#[derive(Clone, Debug, PartialEq, Eq)]
pub struct Parsed {
    pub protocol_version: Vec<u8>,
    pub software_version: Vec<u8>,
    pub comments: Option<Vec<u8>>,
    pub class: ProtocolVersionClass,
}

/// The fields of a line, where it is an identification.
pub open spec fn fields_of(data: Seq<u8>) -> Option<IdentFields> {
    if exists|f: IdentFields| valid_fields(f) && #[trigger] assembled(f) == data {
        Some(choose|f: IdentFields| valid_fields(f) && #[trigger] assembled(f) == data)
    } else {
        None
    }
}

/// A parser accepts exactly the identifications, with their fields and class,
/// and gives no error that the line does not bear out.
pub open spec fn parse_right(data: Seq<u8>, actual: Result<Parsed, IdentSyntaxError>) -> bool {
    match (fields_of(data), actual) {
        (Some(f), Ok(p)) => p.protocol_version@ == f.protocol_version && p.software_version@ == f.software_version
            && opt_vec(p.comments) == f.comments && p.class == class_of(f.protocol_version),
        (None, Err(e)) => implied(data, e),
        _ => false,
    }
}

/// Whether a parser did right with a line.
pub fn check_parse(data: &[u8], actual: &Result<Parsed, IdentSyntaxError>) -> (r: bool)
    ensures
        r == parse_right(data@, *actual),
{
    let want = parse(data);
    proof {
        match want {
            Some(f) => {
                assert(valid_fields(f@) && assembled(f@) == data@);
                let g = fields_of(data@)->0;
                lemma_identification_determines_fields(f@, g);
            },
            None => {
                assert(fields_of(data@) is None);
            },
        }
    }
    match (&want, actual) {
        (Some(f), Ok(p)) => {
            let c = match f.comments {
                Some(c) => Some(copy_bytes(c)),
                None => None,
            };
            same_bytes(p.protocol_version.as_slice(), f.protocol_version) && same_bytes(
                p.software_version.as_slice(),
                f.software_version,
            ) && same_opt(&p.comments, &c) && p.class == expected_class(f.protocol_version)
        },
        (None, Err(e)) => check_error_implication(data, *e),
        _ => false,
    }
}

/// A line that encodes parses back to its fields, and one that parses encodes
/// to itself.
pub proof fn lemma_encode_parse(f: IdentFields, data: Seq<u8>)
    ensures
        valid_fields(f) ==> fields_of(assembled(f)) == Some(f),
        fields_of(data) matches Some(g) ==> valid_fields(g) && assembled(g) == data,
{
    if valid_fields(f) {
        let g = fields_of(assembled(f))->0;
        lemma_identification_determines_fields(f, g);
    }
}

} // verus!
