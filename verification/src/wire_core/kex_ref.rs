//! Key-exchange, service and extension messages, by their layouts.

use vstd::prelude::*;
use crate::seqs::{same_bytes, slices};
use crate::wire_core::bytes::{be32, fits_u32, put_string, put_u32, ssh_string};
use crate::wire_core::cursor::{read_string, read_u32, RefCursor};
use crate::wire_core::error::{DecodeError, Field, InvalidEncoding, MessageError};
use crate::wire_core::messages_ref::{at_end, expect_number, field_string, field_u32, finish, in_field, number_read};
use crate::wire_core::namelist_ref::{self, names_of};
use crate::text::bytes_of;

verus! {

pub const SERVICE_REQUEST: u8 = 5;
pub const SERVICE_ACCEPT: u8 = 6;
pub const EXT_INFO: u8 = 7;
pub const NEWKEYS: u8 = 21;
pub const KEX_ECDH_INIT: u8 = 30;
pub const KEX_ECDH_REPLY: u8 = 31;

/// The fewest bytes that an extension takes: two empty strings.
pub const MIN_PAIR_LEN: usize = 8;

/// The only string of a payload, or the first fault in it.
pub open spec fn string_message_read(s: Seq<u8>, number: u8, field: Field) -> Result<Seq<u8>, MessageError> {
    match number_read(s, number) {
        Err(e) => Err(e),
        Ok(p0) => match in_field(field, p0, read_string(s, p0)) {
            Err(e) => Err(e),
            Ok((v, p1)) => at_end(s, p1, v),
        },
    }
}

/// The payload of a message with one string.
pub open spec fn string_message_bytes(number: u8, v: Seq<u8>) -> Seq<u8> {
    seq![number] + ssh_string(v)
}

fn string_message(payload: &[u8], number: u8, field: Field) -> (r: Result<&[u8], MessageError>)
    ensures
        match r {
            Ok(m) => string_message_read(payload@, number, field) == Ok::<Seq<u8>, MessageError>(m@),
            Err(e) => string_message_read(payload@, number, field) == Err::<Seq<u8>, MessageError>(e),
        },
{
    let mut c = RefCursor::new(payload);
    match expect_number(&mut c, number) {
        Ok(()) => {},
        Err(e) => {
            return Err(e);
        },
    }
    let v = match field_string(&mut c, field) {
        Ok(v) => v,
        Err(e) => {
            return Err(e);
        },
    };
    match finish(&c) {
        Ok(()) => Ok(v),
        Err(e) => Err(e),
    }
}

/// The client's ephemeral key in KEX_ECDH_INIT, or the first fault.
pub open spec fn ecdh_init_read(s: Seq<u8>) -> Result<Seq<u8>, MessageError> {
    string_message_read(s, KEX_ECDH_INIT, Field::ClientEphemeral)
}

/// Decodes KEX_ECDH_INIT to the client's ephemeral key.
pub fn ecdh_init(payload: &[u8]) -> (r: Result<&[u8], MessageError>)
    ensures
        match r {
            Ok(m) => ecdh_init_read(payload@) == Ok::<Seq<u8>, MessageError>(m@),
            Err(e) => ecdh_init_read(payload@) == Err::<Seq<u8>, MessageError>(e),
        },
{
    string_message(payload, KEX_ECDH_INIT, Field::ClientEphemeral)
}

/// The service name in SERVICE_REQUEST, or the first fault.
pub open spec fn service_request_read(s: Seq<u8>) -> Result<Seq<u8>, MessageError> {
    string_message_read(s, SERVICE_REQUEST, Field::ServiceName)
}

/// Decodes SERVICE_REQUEST to the service name.
pub fn service_request(payload: &[u8]) -> (r: Result<&[u8], MessageError>)
    ensures
        match r {
            Ok(m) => service_request_read(payload@) == Ok::<Seq<u8>, MessageError>(m@),
            Err(e) => service_request_read(payload@) == Err::<Seq<u8>, MessageError>(e),
        },
{
    string_message(payload, SERVICE_REQUEST, Field::ServiceName)
}

/// The service name in SERVICE_ACCEPT, or the first fault.
pub open spec fn service_accept_read(s: Seq<u8>) -> Result<Seq<u8>, MessageError> {
    string_message_read(s, SERVICE_ACCEPT, Field::ServiceName)
}

/// Decodes SERVICE_ACCEPT to the service name.
pub fn service_accept(payload: &[u8]) -> (r: Result<&[u8], MessageError>)
    ensures
        match r {
            Ok(m) => service_accept_read(payload@) == Ok::<Seq<u8>, MessageError>(m@),
            Err(e) => service_accept_read(payload@) == Err::<Seq<u8>, MessageError>(e),
        },
{
    string_message(payload, SERVICE_ACCEPT, Field::ServiceName)
}

/// The fields of KEX_ECDH_REPLY.
#[derive(Clone, Copy, Debug)]
pub struct RefReply<'a> {
    pub k_s: &'a [u8],
    pub q_s: &'a [u8],
    pub signature: &'a [u8],
}

/// The fields of KEX_ECDH_REPLY over sequences.
pub ghost struct ReplyFields {
    pub k_s: Seq<u8>,
    pub q_s: Seq<u8>,
    pub signature: Seq<u8>,
}

impl<'a> View for RefReply<'a> {
    type V = ReplyFields;

    open spec fn view(&self) -> ReplyFields {
        ReplyFields { k_s: self.k_s@, q_s: self.q_s@, signature: self.signature@ }
    }
}

/// The fields of a KEX_ECDH_REPLY payload, or the first fault in it.
pub open spec fn ecdh_reply_read(s: Seq<u8>) -> Result<ReplyFields, MessageError> {
    match number_read(s, KEX_ECDH_REPLY) {
        Err(e) => Err(e),
        Ok(p0) => match in_field(Field::HostKey, p0, read_string(s, p0)) {
            Err(e) => Err(e),
            Ok((k_s, p1)) => match in_field(Field::ServerEphemeral, p1, read_string(s, p1)) {
                Err(e) => Err(e),
                Ok((q_s, p2)) => match in_field(Field::Signature, p2, read_string(s, p2)) {
                    Err(e) => Err(e),
                    Ok((signature, p3)) => at_end(s, p3, ReplyFields { k_s, q_s, signature }),
                },
            },
        },
    }
}

/// The payload that carries the fields of a KEX_ECDH_REPLY.
pub open spec fn ecdh_reply_bytes(f: ReplyFields) -> Seq<u8> {
    seq![KEX_ECDH_REPLY] + ssh_string(f.k_s) + ssh_string(f.q_s) + ssh_string(f.signature)
}

/// Decodes KEX_ECDH_REPLY.
pub fn ecdh_reply(payload: &[u8]) -> (r: Result<RefReply<'_>, MessageError>)
    ensures
        match r {
            Ok(m) => {
                &&& ecdh_reply_read(payload@) == Ok::<ReplyFields, MessageError>(m@)
                &&& payload@ == seq![31u8] + ssh_string(m.k_s@) + ssh_string(m.q_s@) + ssh_string(m.signature@)
            },
            Err(e) => ecdh_reply_read(payload@) == Err::<ReplyFields, MessageError>(e),
        },
{
    proof {
        crate::wire_core::kex_laws::lemma_reply_read_write(payload@);
    }
    let mut c = RefCursor::new(payload);
    match expect_number(&mut c, KEX_ECDH_REPLY) {
        Ok(()) => {},
        Err(e) => {
            return Err(e);
        },
    }
    let k_s = match field_string(&mut c, Field::HostKey) {
        Ok(v) => v,
        Err(e) => {
            return Err(e);
        },
    };
    let q_s = match field_string(&mut c, Field::ServerEphemeral) {
        Ok(v) => v,
        Err(e) => {
            return Err(e);
        },
    };
    let signature = match field_string(&mut c, Field::Signature) {
        Ok(v) => v,
        Err(e) => {
            return Err(e);
        },
    };
    match finish(&c) {
        Ok(()) => Ok(RefReply { k_s, q_s, signature }),
        Err(e) => Err(e),
    }
}

/// Whether a payload is NEWKEYS, or the first fault in it.
pub open spec fn newkeys_read(s: Seq<u8>) -> Result<(), MessageError> {
    match number_read(s, NEWKEYS) {
        Err(e) => Err(e),
        Ok(p0) => at_end(s, p0, ()),
    }
}

/// Decodes NEWKEYS, which has no fields.
pub fn newkeys(payload: &[u8]) -> (r: Result<(), MessageError>)
    ensures
        r == newkeys_read(payload@),
{
    let mut c = RefCursor::new(payload);
    match expect_number(&mut c, NEWKEYS) {
        Ok(()) => finish(&c),
        Err(e) => Err(e),
    }
}

/// Why an EXT_INFO message is refused.
#[derive(Clone, Copy, Debug, PartialEq, Eq, Structural)]
pub enum ExtInfoError {
    /// More extensions than the caller takes.
    TooManyExtensions { claimed: u32, max: usize },
    /// The message ends after fewer extensions than it claims.
    CountMismatch { claimed: u32, found: usize },
    /// A pair does not read, or bytes follow the last.
    Message(MessageError),
    /// The value of `server-sig-algs` is no name-list.
    InvalidServerSigAlgs(InvalidEncoding),
}

/// What the front of an EXT_INFO message says.
#[derive(Clone, Copy, Debug, PartialEq, Eq, Structural)]
pub struct ExtHeader {
    pub claimed: u32,
    /// The claimed count, which the bytes behind it could hold.
    pub count: usize,
}

/// The header of an EXT_INFO payload; a count that cannot fit is refused
/// before any pair is read.
pub open spec fn ext_header_read(s: Seq<u8>) -> Result<ExtHeader, MessageError> {
    match number_read(s, EXT_INFO) {
        Err(e) => Err(e),
        Ok(p0) => match in_field(Field::ExtensionCount, p0, read_u32(s, p0)) {
            Err(e) => Err(e),
            Ok((claimed, p1)) => if claimed > (s.len() - p1) / 8 {
                Err(
                    MessageError::Field {
                        field: Field::ExtensionCount,
                        offset: p0 as usize,
                        error: DecodeError::LengthOverflow { claimed, available: (s.len() - p1) as usize },
                    },
                )
            } else {
                Ok(ExtHeader { claimed, count: claimed as usize })
            },
        },
    }
}

/// Decodes the header of EXT_INFO.
pub fn ext_info_header(payload: &[u8]) -> (r: Result<ExtHeader, MessageError>)
    ensures
        r == ext_header_read(payload@),
{
    let mut c = RefCursor::new(payload);
    match expect_number(&mut c, EXT_INFO) {
        Ok(()) => {},
        Err(e) => {
            return Err(e);
        },
    }
    let offset: usize = c.pos;
    let claimed: u32 = match field_u32(&mut c, Field::ExtensionCount) {
        Ok(v) => v,
        Err(e) => {
            return Err(e);
        },
    };
    let available: usize = c.remaining();
    if claimed as u64 > (available / 8) as u64 {
        return Err(
            MessageError::Field {
                field: Field::ExtensionCount,
                offset,
                error: DecodeError::LengthOverflow { claimed, available },
            },
        );
    }
    Ok(ExtHeader { claimed, count: claimed as usize })
}

/// A pair over sequences.
pub type PairView = (Seq<u8>, Seq<u8>);

/// The pair at `pos` and the position behind it, or the first fault.
pub open spec fn pair_read(s: Seq<u8>, pos: int) -> Result<(PairView, int), MessageError> {
    match in_field(Field::ExtensionName, pos, read_string(s, pos)) {
        Err(e) => Err(e),
        Ok((name, p1)) => match in_field(Field::ExtensionValue, p1, read_string(s, p1)) {
            Err(e) => Err(e),
            Ok((value, p2)) => Ok(((name, value), p2)),
        },
    }
}

fn pair<'a>(c: &mut RefCursor<'a>) -> (r: Result<(&'a [u8], &'a [u8]), MessageError>)
    requires
        old(c).wf(),
    ensures
        final(c).wf(),
        final(c).data == old(c).data,
        match pair_read(old(c).data@, old(c).pos as int) {
            Ok((p, end)) => r matches Ok(v) && (v.0@, v.1@) == p && final(c).pos == end,
            Err(e) => r matches Err(f) && f == e,
        },
{
    let name = match field_string(c, Field::ExtensionName) {
        Ok(v) => v,
        Err(e) => {
            return Err(e);
        },
    };
    match field_string(c, Field::ExtensionValue) {
        Ok(value) => Ok((name, value)),
        Err(e) => Err(e),
    }
}

/// Up to `n` pairs from `pos` on: each that reads, and the first fault, which
/// is the last item.
pub open spec fn pairs_read(s: Seq<u8>, pos: int, n: int) -> Seq<Result<PairView, MessageError>>
    decreases n,
{
    if n <= 0 {
        Seq::empty()
    } else {
        match pair_read(s, pos) {
            Err(e) => seq![Err(e)],
            Ok((p, end)) => seq![Ok(p)] + pairs_read(s, end, n - 1),
        }
    }
}

/// The items of a walk over sequences.
pub open spec fn pair_items(v: Seq<Result<(&[u8], &[u8]), MessageError>>) -> Seq<Result<PairView, MessageError>> {
    Seq::new(
        v.len(),
        |i: int|
            match v[i] {
                Ok(p) => Ok((p.0@, p.1@)),
                Err(e) => Err(e),
            },
    )
}

/// The claimed pairs in order, up to and with the first fault.
pub fn ext_info_pairs<'a>(payload: &'a [u8], h: &ExtHeader) -> (r: Vec<Result<(&'a [u8], &'a [u8]), MessageError>>)
    requires
        payload@.len() >= 5,
    ensures
        pair_items(r@) == pairs_read(payload@, 5, h.count as int),
{
    let mut c = RefCursor { data: payload, pos: 5 };
    let mut out: Vec<Result<(&'a [u8], &'a [u8]), MessageError>> = Vec::new();
    let ghost goal = pairs_read(payload@, 5, h.count as int);
    let mut i: usize = 0;
    proof {
        assert(pair_items(out@) + goal =~= goal);
    }
    while i < h.count
        invariant
            i <= h.count,
            c.wf(),
            c.data == payload,
            goal == pairs_read(payload@, 5, h.count as int),
            pair_items(out@) + pairs_read(payload@, c.pos as int, h.count - i) == goal,
        decreases h.count - i,
    {
        let ghost before = pair_items(out@);
        let ghost rest = pairs_read(payload@, c.pos as int, h.count - i);
        match pair(&mut c) {
            Ok(p) => {
                out.push(Ok(p));
                proof {
                    let next = pairs_read(payload@, c.pos as int, h.count - i - 1);
                    assert(rest == seq![Ok::<PairView, MessageError>((p.0@, p.1@))] + next);
                    assert(pair_items(out@) =~= before.push(Ok((p.0@, p.1@))));
                    assert(pair_items(out@) + next =~= before + rest);
                }
            },
            Err(e) => {
                out.push(Err(e));
                proof {
                    assert(rest == seq![Err::<PairView, MessageError>(e)]);
                    assert(pair_items(out@) =~= before.push(Err(e)));
                    assert(pair_items(out@) =~= before + rest);
                }
                return out;
            },
        }
        i = i + 1;
    }
    proof {
        assert(pair_items(out@) + Seq::<Result<PairView, MessageError>>::empty() =~= pair_items(out@));
    }
    out
}

/// The verdict on the pairs from `pos` on, after `found` of them: the count,
/// or the first of an end between pairs, a pair that does not read, and bytes
/// behind the last.
pub open spec fn walk_verdict(s: Seq<u8>, pos: int, h: ExtHeader, found: int) -> Result<usize, ExtInfoError>
    decreases h.count - found,
{
    if found >= h.count {
        if pos == s.len() {
            Ok(h.count)
        } else {
            Err(ExtInfoError::Message(MessageError::TrailingBytes { count: (s.len() - pos) as usize }))
        }
    } else if pos == s.len() {
        Err(ExtInfoError::CountMismatch { claimed: h.claimed, found: found as usize })
    } else {
        match pair_read(s, pos) {
            Err(e) => Err(ExtInfoError::Message(e)),
            Ok((p, end)) => walk_verdict(s, end, h, found + 1),
        }
    }
}

/// The verdict on an EXT_INFO message whose header was read: first the limit,
/// then the pairs.
pub open spec fn ext_info_verdict(s: Seq<u8>, h: ExtHeader, max: usize) -> Result<usize, ExtInfoError> {
    if h.count > max {
        Err(ExtInfoError::TooManyExtensions { claimed: h.claimed, max })
    } else {
        walk_verdict(s, 5, h, 0)
    }
}

/// Validates the pairs of an EXT_INFO message under a limit.
pub fn ext_info_validate(payload: &[u8], h: &ExtHeader, max: usize) -> (r: Result<usize, ExtInfoError>)
    requires
        payload@.len() >= 5,
    ensures
        r == ext_info_verdict(payload@, *h, max),
{
    if h.count > max {
        return Err(ExtInfoError::TooManyExtensions { claimed: h.claimed, max });
    }
    let mut c = RefCursor { data: payload, pos: 5 };
    let mut found: usize = 0;
    while found < h.count
        invariant
            found <= h.count <= max,
            c.wf(),
            c.data == payload,
            walk_verdict(payload@, c.pos as int, *h, found as int) == walk_verdict(payload@, 5, *h, 0),
        decreases h.count - found,
    {
        if c.remaining() == 0 {
            return Err(ExtInfoError::CountMismatch { claimed: h.claimed, found });
        }
        match pair(&mut c) {
            Ok(p) => {},
            Err(e) => {
                return Err(ExtInfoError::Message(e));
            },
        }
        found = found + 1;
    }
    let count: usize = c.remaining();
    if count == 0 {
        Ok(h.count)
    } else {
        Err(ExtInfoError::Message(MessageError::TrailingBytes { count }))
    }
}

/// The value of the first `server-sig-algs` among the pairs that read.
pub open spec fn sig_algs_read(s: Seq<u8>, pos: int, n: int) -> Option<Result<Seq<Seq<u8>>, ExtInfoError>>
    decreases n,
{
    if n <= 0 {
        None
    } else {
        match pair_read(s, pos) {
            Err(e) => None,
            Ok((p, end)) => if p.0 == bytes_of("server-sig-algs") {
                match names_of(p.1) {
                    Ok(names) => Some(Ok(names)),
                    Err(e) => Some(Err(ExtInfoError::InvalidServerSigAlgs(e))),
                }
            } else {
                sig_algs_read(s, end, n - 1)
            },
        }
    }
}

/// The names in the first `server-sig-algs`, if there is one.
pub fn server_sig_algs<'a>(payload: &'a [u8], h: &ExtHeader) -> (r: Option<Result<Vec<&'a [u8]>, ExtInfoError>>)
    requires
        payload@.len() >= 5,
    ensures
        match sig_algs_read(payload@, 5, h.count as int) {
            None => r is None,
            Some(Ok(names)) => r matches Some(Ok(v)) && slices(v@) == names,
            Some(Err(e)) => r matches Some(Err(f)) && f == e,
        },
{
    let mut c = RefCursor { data: payload, pos: 5 };
    let mut i: usize = 0;
    while i < h.count
        invariant
            i <= h.count,
            c.wf(),
            c.data == payload,
            sig_algs_read(payload@, c.pos as int, h.count - i) == sig_algs_read(payload@, 5, h.count as int),
        decreases h.count - i,
    {
        let (name, value) = match pair(&mut c) {
            Ok(p) => p,
            Err(e) => {
                return None;
            },
        };
        if same_bytes(name, "server-sig-algs".as_bytes()) {
            return match namelist_ref::parse(value) {
                Ok(names) => Some(Ok(names)),
                Err(e) => Some(Err(ExtInfoError::InvalidServerSigAlgs(e))),
            };
        }
        i = i + 1;
    }
    None
}

/// The extensions with a meaning of their own.
#[derive(Clone, Copy, Debug, PartialEq, Eq, Structural)]
pub enum KnownExtension {
    ServerSigAlgs,
    DelayCompression,
    NoFlowControl,
    Elevation,
}

impl KnownExtension {
    /// The registered name.
    pub open spec fn text(self) -> &'static str {
        match self {
            KnownExtension::ServerSigAlgs => "server-sig-algs",
            KnownExtension::DelayCompression => "delay-compression",
            KnownExtension::NoFlowControl => "no-flow-control",
            KnownExtension::Elevation => "elevation",
        }
    }

    /// The registered name.
    pub fn name(self) -> (r: &'static str)
        ensures
            r == self.text(),
    {
        match self {
            KnownExtension::ServerSigAlgs => "server-sig-algs",
            KnownExtension::DelayCompression => "delay-compression",
            KnownExtension::NoFlowControl => "no-flow-control",
            KnownExtension::Elevation => "elevation",
        }
    }
}

/// The extension that a name is registered for.
pub open spec fn extension_of(name: Seq<u8>) -> Option<KnownExtension> {
    if name == bytes_of("server-sig-algs") {
        Some(KnownExtension::ServerSigAlgs)
    } else if name == bytes_of("delay-compression") {
        Some(KnownExtension::DelayCompression)
    } else if name == bytes_of("no-flow-control") {
        Some(KnownExtension::NoFlowControl)
    } else if name == bytes_of("elevation") {
        Some(KnownExtension::Elevation)
    } else {
        None
    }
}

/// The extension that a name is registered for.
pub fn classify_extension(name: &[u8]) -> (r: Option<KnownExtension>)
    ensures
        r == extension_of(name@),
        match r {
            Some(k) => name@ == bytes_of(k.text()),
            None => forall|k: KnownExtension| name@ != #[trigger] bytes_of(k.text()),
        },
{
    if same_bytes(name, "server-sig-algs".as_bytes()) {
        Some(KnownExtension::ServerSigAlgs)
    } else if same_bytes(name, "delay-compression".as_bytes()) {
        Some(KnownExtension::DelayCompression)
    } else if same_bytes(name, "no-flow-control".as_bytes()) {
        Some(KnownExtension::NoFlowControl)
    } else if same_bytes(name, "elevation".as_bytes()) {
        Some(KnownExtension::Elevation)
    } else {
        proof {
            assert forall|k: KnownExtension| name@ != #[trigger] bytes_of(k.text()) by {
                match k {
                    KnownExtension::ServerSigAlgs => {},
                    KnownExtension::DelayCompression => {},
                    KnownExtension::NoFlowControl => {},
                    KnownExtension::Elevation => {},
                }
            }
        }
        None
    }
}

/// The bytes of the pairs from the `i`-th on, one behind the other.
pub open spec fn pairs_bytes(pairs: Seq<PairView>, i: int) -> Seq<u8>
    decreases pairs.len() - i,
{
    if i >= pairs.len() {
        Seq::empty()
    } else {
        ssh_string(pairs[i].0) + ssh_string(pairs[i].1) + pairs_bytes(pairs, i + 1)
    }
}

/// The EXT_INFO payload that carries the pairs.
pub open spec fn ext_info_bytes(pairs: Seq<PairView>) -> Seq<u8> {
    seq![EXT_INFO] + be32(pairs.len() as u32) + pairs_bytes(pairs, 0)
}

/// Names and values fit their length fields, and the count its own.
pub open spec fn pairs_fit(pairs: Seq<PairView>) -> bool {
    pairs.len() < u32::MAX && forall|i: int|
        0 <= i < pairs.len() ==> fits_u32((#[trigger] pairs[i]).0) && fits_u32(pairs[i].1)
}

/// The contents of name and value pairs.
pub open spec fn pair_views(v: Seq<(Vec<u8>, Vec<u8>)>) -> Seq<PairView> {
    Seq::new(v.len(), |i: int| (v[i].0@, v[i].1@))
}

/// Writes an EXT_INFO payload.
pub fn assemble_ext_info(pairs: &Vec<(Vec<u8>, Vec<u8>)>) -> (r: Vec<u8>)
    requires
        pairs_fit(pair_views(pairs@)),
    ensures
        r@ == ext_info_bytes(pair_views(pairs@)),
{
    let ghost all = pair_views(pairs@);
    let mut out: Vec<u8> = Vec::new();
    out.push(EXT_INFO);
    put_u32(&mut out, pairs.len() as u32);
    let ghost head = out@;
    proof {
        assert(head =~= seq![EXT_INFO] + be32(all.len() as u32));
    }
    let mut i: usize = 0;
    while i < pairs.len()
        invariant
            i <= pairs@.len(),
            all == pair_views(pairs@),
            pairs_fit(all),
            out@ + pairs_bytes(all, i as int) == head + pairs_bytes(all, 0),
        decreases pairs@.len() - i,
    {
        proof {
            assert(fits_u32(all[i as int].0) && fits_u32(all[i as int].1));
        }
        let ghost before = out@;
        put_string(&mut out, pairs[i].0.as_slice());
        put_string(&mut out, pairs[i].1.as_slice());
        proof {
            assert(out@ + pairs_bytes(all, i + 1) =~= before + pairs_bytes(all, i as int));
        }
        i = i + 1;
    }
    proof {
        assert(out@ + Seq::<u8>::empty() =~= out@);
    }
    out
}

} // verus!
