//! Layouts of the message payloads. Field names follow the RFC definitions.

use vstd::prelude::*;
use crate::seqs::slices;
use crate::wire_core::bytes::{be32, fits_u32, ssh_string};
use crate::wire_core::cursor::{read_bytes, read_name_list, read_string, read_u32, read_u8, RefCursor};
use crate::wire_core::error::{DecodeError, Field, MessageError};
use crate::wire_core::namelist_ref::{joined, valid_names};

verus! {

pub const DISCONNECT: u8 = 1;
pub const IGNORE: u8 = 2;
pub const UNIMPLEMENTED: u8 = 3;
pub const DEBUG: u8 = 4;
pub const KEXINIT: u8 = 20;
pub const CHANNEL_OPEN: u8 = 90;
pub const CHANNEL_OPEN_CONFIRMATION: u8 = 91;
pub const CHANNEL_OPEN_FAILURE: u8 = 92;

/// Cookie length (RFC 4253 section 7.1).
pub const COOKIE_LEN: usize = 16;

/// The number of name-lists in KEXINIT.
pub const LIST_COUNT: usize = 10;

/// Number of leading lists that must not be empty (the language lists may).
pub const REQUIRED_LIST_COUNT: usize = 8;

/// The entries of `kex_algorithms` that are markers and no methods.
pub const KEX_MARKERS: [&'static str; 6] = [
    "ext-info-c",
    "ext-info-s",
    "kex-strict-c-v00@openssh.com",
    "kex-strict-s-v00@openssh.com",
    "kex-strict-c",
    "kex-strict-s",
];

/// The name-list fields of KEXINIT in wire order.
pub open spec fn list_field(i: int) -> Field {
    if i == 0 {
        Field::KexAlgorithms
    } else if i == 1 {
        Field::ServerHostKeyAlgorithms
    } else if i == 2 {
        Field::EncryptionClientToServer
    } else if i == 3 {
        Field::EncryptionServerToClient
    } else if i == 4 {
        Field::MacClientToServer
    } else if i == 5 {
        Field::MacServerToClient
    } else if i == 6 {
        Field::CompressionClientToServer
    } else if i == 7 {
        Field::CompressionServerToClient
    } else if i == 8 {
        Field::LanguagesClientToServer
    } else {
        Field::LanguagesServerToClient
    }
}

/// The name-list fields of KEXINIT in wire order.
pub fn kexinit_list_field(i: usize) -> (r: Field)
    requires
        i < LIST_COUNT,
    ensures
        r == list_field(i as int),
        r is KexAlgorithms <==> i == 0,
        r is ServerHostKeyAlgorithms <==> i == 1,
        r is EncryptionClientToServer <==> i == 2,
        r is EncryptionServerToClient <==> i == 3,
        r is MacClientToServer <==> i == 4,
        r is MacServerToClient <==> i == 5,
        r is CompressionClientToServer <==> i == 6,
        r is CompressionServerToClient <==> i == 7,
        r is LanguagesClientToServer <==> i == 8,
        r is LanguagesServerToClient <==> i == 9,
{
    match i {
        0 => Field::KexAlgorithms,
        1 => Field::ServerHostKeyAlgorithms,
        2 => Field::EncryptionClientToServer,
        3 => Field::EncryptionServerToClient,
        4 => Field::MacClientToServer,
        5 => Field::MacServerToClient,
        6 => Field::CompressionClientToServer,
        7 => Field::CompressionServerToClient,
        8 => Field::LanguagesClientToServer,
        _ => Field::LanguagesServerToClient,
    }
}

/// The name of a registered disconnect reason (RFC 4253 section 11.1).
pub open spec fn disconnect_reason_text(code: u32) -> Option<&'static str> {
    match code {
        1 => Some("SSH_DISCONNECT_HOST_NOT_ALLOWED_TO_CONNECT"),
        2 => Some("SSH_DISCONNECT_PROTOCOL_ERROR"),
        3 => Some("SSH_DISCONNECT_KEY_EXCHANGE_FAILED"),
        4 => Some("SSH_DISCONNECT_RESERVED"),
        5 => Some("SSH_DISCONNECT_MAC_ERROR"),
        6 => Some("SSH_DISCONNECT_COMPRESSION_ERROR"),
        7 => Some("SSH_DISCONNECT_SERVICE_NOT_AVAILABLE"),
        8 => Some("SSH_DISCONNECT_PROTOCOL_VERSION_NOT_SUPPORTED"),
        9 => Some("SSH_DISCONNECT_HOST_KEY_NOT_VERIFIABLE"),
        10 => Some("SSH_DISCONNECT_CONNECTION_LOST"),
        11 => Some("SSH_DISCONNECT_BY_APPLICATION"),
        12 => Some("SSH_DISCONNECT_TOO_MANY_CONNECTIONS"),
        13 => Some("SSH_DISCONNECT_AUTH_CANCELLED_BY_USER"),
        14 => Some("SSH_DISCONNECT_NO_MORE_AUTH_METHODS_AVAILABLE"),
        15 => Some("SSH_DISCONNECT_ILLEGAL_USER_NAME"),
        _ => None,
    }
}

/// The name of a registered disconnect reason, if the code is registered.
pub fn disconnect_reason_name(code: u32) -> (r: Option<&'static str>)
    ensures
        r == disconnect_reason_text(code),
{
    match code {
        1 => Some("SSH_DISCONNECT_HOST_NOT_ALLOWED_TO_CONNECT"),
        2 => Some("SSH_DISCONNECT_PROTOCOL_ERROR"),
        3 => Some("SSH_DISCONNECT_KEY_EXCHANGE_FAILED"),
        4 => Some("SSH_DISCONNECT_RESERVED"),
        5 => Some("SSH_DISCONNECT_MAC_ERROR"),
        6 => Some("SSH_DISCONNECT_COMPRESSION_ERROR"),
        7 => Some("SSH_DISCONNECT_SERVICE_NOT_AVAILABLE"),
        8 => Some("SSH_DISCONNECT_PROTOCOL_VERSION_NOT_SUPPORTED"),
        9 => Some("SSH_DISCONNECT_HOST_KEY_NOT_VERIFIABLE"),
        10 => Some("SSH_DISCONNECT_CONNECTION_LOST"),
        11 => Some("SSH_DISCONNECT_BY_APPLICATION"),
        12 => Some("SSH_DISCONNECT_TOO_MANY_CONNECTIONS"),
        13 => Some("SSH_DISCONNECT_AUTH_CANCELLED_BY_USER"),
        14 => Some("SSH_DISCONNECT_NO_MORE_AUTH_METHODS_AVAILABLE"),
        15 => Some("SSH_DISCONNECT_ILLEGAL_USER_NAME"),
        _ => None,
    }
}

/// The name of a registered open-failure reason (RFC 4254 section 5.1).
pub open spec fn open_failure_text(code: u32) -> Option<&'static str> {
    match code {
        1 => Some("SSH_OPEN_ADMINISTRATIVELY_PROHIBITED"),
        2 => Some("SSH_OPEN_CONNECT_FAILED"),
        3 => Some("SSH_OPEN_UNKNOWN_CHANNEL_TYPE"),
        4 => Some("SSH_OPEN_RESOURCE_SHORTAGE"),
        _ => None,
    }
}

/// The name of a registered open-failure reason, if the code is registered.
pub fn open_failure_name(code: u32) -> (r: Option<&'static str>)
    ensures
        r == open_failure_text(code),
{
    match code {
        1 => Some("SSH_OPEN_ADMINISTRATIVELY_PROHIBITED"),
        2 => Some("SSH_OPEN_CONNECT_FAILED"),
        3 => Some("SSH_OPEN_UNKNOWN_CHANNEL_TYPE"),
        4 => Some("SSH_OPEN_RESOURCE_SHORTAGE"),
        _ => None,
    }
}

/// The position behind the message number, where it is the expected one.
pub open spec fn number_read(s: Seq<u8>, expected: u8) -> Result<int, MessageError> {
    if s.len() == 0 {
        Err(MessageError::Empty)
    } else if s[0] != expected {
        Err(MessageError::UnexpectedMessage { expected, found: s[0] })
    } else {
        Ok(1)
    }
}

/// A field read at `offset`: a failure names the field and where it starts.
pub open spec fn in_field<T>(field: Field, offset: int, r: Result<T, DecodeError>) -> Result<
    T,
    MessageError,
> {
    match r {
        Ok(v) => Ok(v),
        Err(error) => Err(MessageError::Field { field, offset: offset as usize, error }),
    }
}

/// `v`, where `pos` is the end of the payload.
pub open spec fn at_end<T>(s: Seq<u8>, pos: int, v: T) -> Result<T, MessageError> {
    if pos == s.len() {
        Ok(v)
    } else {
        Err(MessageError::TrailingBytes { count: (s.len() - pos) as usize })
    }
}

pub(crate) fn expect_number(c: &mut RefCursor<'_>, expected: u8) -> (r: Result<(), MessageError>)
    requires
        old(c).wf(),
        old(c).pos == 0,
    ensures
        final(c).wf(),
        final(c).data == old(c).data,
        match number_read(old(c).data@, expected) {
            Ok(p) => r is Ok && final(c).pos == p,
            Err(e) => r == Err::<(), MessageError>(e),
        },
{
    match c.u8() {
        Err(_) => Err(MessageError::Empty),
        Ok(found) => if found == expected {
            Ok(())
        } else {
            Err(MessageError::UnexpectedMessage { expected, found })
        },
    }
}

pub(crate) fn field_u8(c: &mut RefCursor<'_>, field: Field) -> (r: Result<u8, MessageError>)
    requires
        old(c).wf(),
    ensures
        final(c).wf(),
        final(c).data == old(c).data,
        match in_field(field, old(c).pos as int, read_u8(old(c).data@, old(c).pos as int)) {
            Ok((v, p)) => r == Ok::<u8, MessageError>(v) && final(c).pos == p,
            Err(e) => r == Err::<u8, MessageError>(e),
        },
{
    let offset: usize = c.pos;
    match c.u8() {
        Ok(v) => Ok(v),
        Err(error) => Err(MessageError::Field { field, offset, error }),
    }
}

pub(crate) fn field_u32(c: &mut RefCursor<'_>, field: Field) -> (r: Result<u32, MessageError>)
    requires
        old(c).wf(),
    ensures
        final(c).wf(),
        final(c).data == old(c).data,
        match in_field(field, old(c).pos as int, read_u32(old(c).data@, old(c).pos as int)) {
            Ok((v, p)) => r == Ok::<u32, MessageError>(v) && final(c).pos == p,
            Err(e) => r == Err::<u32, MessageError>(e),
        },
{
    let offset: usize = c.pos;
    match c.u32() {
        Ok(v) => Ok(v),
        Err(error) => Err(MessageError::Field { field, offset, error }),
    }
}

pub(crate) fn field_bytes<'a>(c: &mut RefCursor<'a>, field: Field, n: usize) -> (r: Result<&'a [u8], MessageError>)
    requires
        old(c).wf(),
    ensures
        final(c).wf(),
        final(c).data == old(c).data,
        match in_field(field, old(c).pos as int, read_bytes(old(c).data@, old(c).pos as int, n as int)) {
            Ok((v, p)) => r matches Ok(b) && b@ == v && final(c).pos == p,
            Err(e) => r == Err::<&'a [u8], MessageError>(e),
        },
{
    let offset: usize = c.pos;
    match c.take(n) {
        Ok(v) => Ok(v),
        Err(error) => Err(MessageError::Field { field, offset, error }),
    }
}

/// Reads a `string` field.
pub fn field_string<'a>(c: &mut RefCursor<'a>, field: Field) -> (r: Result<&'a [u8], MessageError>)
    requires
        old(c).wf(),
    ensures
        final(c).wf(),
        final(c).data == old(c).data,
        match in_field(field, old(c).pos as int, read_string(old(c).data@, old(c).pos as int)) {
            Ok((v, p)) => r matches Ok(b) && b@ == v && final(c).pos == p,
            Err(e) => r == Err::<&'a [u8], MessageError>(e),
        },
{
    let offset: usize = c.pos;
    match c.string() {
        Ok(v) => Ok(v),
        Err(error) => Err(MessageError::Field { field, offset, error }),
    }
}

fn field_name_list<'a>(c: &mut RefCursor<'a>, field: Field) -> (r: Result<
    (&'a [u8], Vec<&'a [u8]>),
    MessageError,
>)
    requires
        old(c).wf(),
    ensures
        final(c).wf(),
        final(c).data == old(c).data,
        match in_field(field, old(c).pos as int, read_name_list(old(c).data@, old(c).pos as int)) {
            Ok((b, n, p)) => r matches Ok(v) && v.0@ == b && slices(v.1@) == n && final(c).pos == p,
            Err(e) => r matches Err(f) && f == e,
        },
{
    let offset: usize = c.pos;
    match c.name_list() {
        Ok(v) => Ok(v),
        Err(error) => Err(MessageError::Field { field, offset, error }),
    }
}

pub(crate) fn finish(c: &RefCursor<'_>) -> (r: Result<(), MessageError>)
    requires
        c.wf(),
    ensures
        r == at_end(c.data@, c.pos as int, ()),
{
    match c.finish() {
        Ok(()) => Ok(()),
        Err(count) => Err(MessageError::TrailingBytes { count }),
    }
}

/// A decoded KEXINIT.
#[derive(Clone, Debug)]
pub struct RefKexInit<'a> {
    pub cookie: &'a [u8],
    /// Raw bodies of the ten lists, wire order.
    pub lists: [&'a [u8]; 10],
    /// Names of the ten lists, wire order.
    pub names: Vec<Vec<&'a [u8]>>,
    /// Raw boolean byte as sent.
    pub first_kex_packet_follows_byte: u8,
    /// Payload offset of that byte.
    pub first_kex_packet_follows_offset: usize,
    pub reserved: u32,
}

/// What a KEXINIT carries.
pub ghost struct KexInitFields {
    pub cookie: Seq<u8>,
    pub names: Seq<Seq<Seq<u8>>>,
    pub first_byte: u8,
    pub first_offset: int,
    pub reserved: u32,
}

/// The contents of a list of name lists.
pub open spec fn name_lists(v: Seq<Vec<&[u8]>>) -> Seq<Seq<Seq<u8>>> {
    Seq::new(v.len(), |i: int| slices(v[i]@))
}

impl<'a> View for RefKexInit<'a> {
    type V = KexInitFields;

    open spec fn view(&self) -> KexInitFields {
        KexInitFields {
            cookie: self.cookie@,
            names: name_lists(self.names@),
            first_byte: self.first_kex_packet_follows_byte,
            first_offset: self.first_kex_packet_follows_offset as int,
            reserved: self.reserved,
        }
    }
}

/// The name-lists from the `i`-th on, read at `pos`, and the position behind
/// the last.
pub open spec fn lists_read(s: Seq<u8>, pos: int, i: int) -> Result<
    (Seq<Seq<Seq<u8>>>, int),
    MessageError,
>
    decreases LIST_COUNT - i,
{
    if i >= LIST_COUNT {
        Ok((Seq::empty(), pos))
    } else {
        match in_field(list_field(i), pos, read_name_list(s, pos)) {
            Err(e) => Err(e),
            Ok((_, names, p)) => match lists_read(s, p, i + 1) {
                Err(e) => Err(e),
                Ok((rest, q)) => Ok((seq![names] + rest, q)),
            },
        }
    }
}

/// The contents of a KEXINIT payload, or the first fault in it.
pub open spec fn kexinit_read(s: Seq<u8>) -> Result<KexInitFields, MessageError> {
    match number_read(s, KEXINIT) {
        Err(e) => Err(e),
        Ok(p0) => match in_field(Field::Cookie, p0, read_bytes(s, p0, COOKIE_LEN as int)) {
            Err(e) => Err(e),
            Ok((cookie, p1)) => match lists_read(s, p1, 0) {
                Err(e) => Err(e),
                Ok((names, p2)) => match in_field(Field::FirstKexPacketFollows, p2, read_u8(s, p2)) {
                    Err(e) => Err(e),
                    Ok((first_byte, p3)) => match in_field(Field::Reserved, p3, read_u32(s, p3)) {
                        Err(e) => Err(e),
                        Ok((reserved, p4)) => at_end(
                            s,
                            p4,
                            KexInitFields { cookie, names, first_byte, first_offset: p2, reserved },
                        ),
                    },
                },
            },
        },
    }
}

/// Decodes a KEXINIT payload.
#[verifier::rlimit(60)]
pub fn kexinit(payload: &[u8]) -> (r: Result<RefKexInit<'_>, MessageError>)
    ensures
        match r {
            Ok(k) => {
                &&& kexinit_read(payload@) == Ok::<KexInitFields, MessageError>(k@)
                &&& k.names@.len() == LIST_COUNT
                &&& payload@ == seq![20u8] + k.cookie@ + lists_bytes(name_lists(k.names@), 0) + seq![
                    k.first_kex_packet_follows_byte,
                ] + be32(k.reserved)
                &&& k.cookie@.len() == 16
                &&& k.first_kex_packet_follows_offset == payload@.len() - 5
                &&& forall|i: int|
                    0 <= i < LIST_COUNT ==> #[trigger] k.lists@[i]@ == joined(k@.names[i])
            },
            Err(e) => kexinit_read(payload@) == Err::<KexInitFields, MessageError>(e),
        },
{
    let mut c = RefCursor::new(payload);
    match expect_number(&mut c, KEXINIT) {
        Ok(()) => {},
        Err(e) => {
            return Err(e);
        },
    }
    let cookie = match field_bytes(&mut c, Field::Cookie, COOKIE_LEN) {
        Ok(v) => v,
        Err(e) => {
            return Err(e);
        },
    };
    let mut bodies: Vec<&[u8]> = Vec::new();
    let mut names: Vec<Vec<&[u8]>> = Vec::new();
    let mut i: usize = 0;
    let ghost start = c.pos as int;
    proof {
        assert(name_lists(names@) =~= Seq::empty());
        match lists_read(payload@, start, 0) {
            Ok((rest, q)) => {
                assert(Seq::<Seq<Seq<u8>>>::empty() + rest =~= rest);
            },
            Err(_) => {},
        }
    }
    while i < LIST_COUNT
        invariant
            i <= LIST_COUNT,
            c.wf(),
            c.data@ == payload@,
            bodies@.len() == i,
            names@.len() == i,
            forall|j: int|
                0 <= j < i ==> #[trigger] bodies@[j]@ == joined(slices(names@[j]@)),
            match lists_read(payload@, c.pos as int, i as int) {
                Ok((rest, q)) => lists_read(payload@, start, 0) == Ok::<
                    (Seq<Seq<Seq<u8>>>, int),
                    MessageError,
                >((name_lists(names@) + rest, q)),
                Err(e) => lists_read(payload@, start, 0) == Err::<
                    (Seq<Seq<Seq<u8>>>, int),
                    MessageError,
                >(e),
            },
            kexinit_read(payload@) == (match lists_read(payload@, start, 0) {
                Err(e) => Err::<KexInitFields, MessageError>(e),
                Ok((ns, p2)) => match in_field(
                    Field::FirstKexPacketFollows,
                    p2,
                    read_u8(payload@, p2),
                ) {
                    Err(e) => Err(e),
                    Ok((first_byte, p3)) => match in_field(
                        Field::Reserved,
                        p3,
                        read_u32(payload@, p3),
                    ) {
                        Err(e) => Err(e),
                        Ok((reserved, p4)) => at_end(
                            payload@,
                            p4,
                            KexInitFields {
                                cookie: cookie@,
                                names: ns,
                                first_byte,
                                first_offset: p2,
                                reserved,
                            },
                        ),
                    },
                },
            }),
        decreases LIST_COUNT - i,
    {
        let ghost before = name_lists(names@);
        let ghost at = c.pos as int;
        let (body, list) = match field_name_list(&mut c, kexinit_list_field(i)) {
            Ok(v) => v,
            Err(e) => {
                return Err(e);
            },
        };
        proof {
            crate::wire_core::laws::lemma_parse_joins(body@);
        }
        let ghost got = slices(list@);
        bodies.push(body);
        names.push(list);
        i = i + 1;
        proof {
            assert(name_lists(names@) =~= before + seq![got]);
            match lists_read(payload@, c.pos as int, i as int) {
                Ok((rest, q)) => {
                    assert(before + (seq![got] + rest) =~= name_lists(names@) + rest);
                },
                Err(_) => {},
            }
        }
    }
    proof {
        assert(name_lists(names@) + Seq::<Seq<Seq<u8>>>::empty() =~= name_lists(names@));
    }
    let first_kex_packet_follows_offset: usize = c.pos;
    let first_kex_packet_follows_byte: u8 = match field_u8(&mut c, Field::FirstKexPacketFollows) {
        Ok(v) => v,
        Err(e) => {
            return Err(e);
        },
    };
    let reserved: u32 = match field_u32(&mut c, Field::Reserved) {
        Ok(v) => v,
        Err(e) => {
            return Err(e);
        },
    };
    match finish(&c) {
        Ok(()) => {},
        Err(e) => {
            return Err(e);
        },
    }
    let lists = [
        bodies[0],
        bodies[1],
        bodies[2],
        bodies[3],
        bodies[4],
        bodies[5],
        bodies[6],
        bodies[7],
        bodies[8],
        bodies[9],
    ];
    let k = RefKexInit {
        cookie,
        lists,
        names,
        first_kex_packet_follows_byte,
        first_kex_packet_follows_offset,
        reserved,
    };
    proof {
        assert forall|j: int| 0 <= j < LIST_COUNT implies #[trigger] k.lists@[j]@ == joined(k@.names[j]) by {
            assert(k.lists@[j] == bodies@[j]);
        }
        assert(kexinit_read(payload@) == Ok::<KexInitFields, MessageError>(k@));
        crate::wire_core::laws::lemma_kexinit_read_write(payload@);
    }
    Ok(k)
}


/// DISCONNECT, decoded.
#[derive(Clone, Copy, Debug)]
pub struct RefDisconnect<'a> {
    pub reason_code: u32,
    pub description: &'a [u8],
    pub language_tag: &'a [u8],
}

/// The fields of the message.
pub ghost struct DisconnectFields {
    pub reason_code: u32,
    pub description: Seq<u8>,
    pub language_tag: Seq<u8>,
}

impl<'a> View for RefDisconnect<'a> {
    type V = DisconnectFields;

    open spec fn view(&self) -> DisconnectFields {
        DisconnectFields {
            reason_code: self.reason_code,
            description: self.description@,
            language_tag: self.language_tag@,
        }
    }
}

/// The contents of a DISCONNECT payload, or the first fault in it.
pub open spec fn disconnect_read(s: Seq<u8>) -> Result<DisconnectFields, MessageError> {
    match number_read(s, DISCONNECT) {
        Err(e) => Err(e),
        Ok(p0) => match in_field(Field::ReasonCode, p0, read_u32(s, p0)) {
            Err(e) => Err(e),
            Ok((reason_code, p1)) => match in_field(Field::Description, p1, read_string(s, p1)) {
                Err(e) => Err(e),
                Ok((description, p2)) => match in_field(Field::LanguageTag, p2, read_string(s, p2)) {
                    Err(e) => Err(e),
                    Ok((language_tag, p3)) => at_end(s, p3, DisconnectFields { reason_code, description, language_tag }),
                },
            },
        },
    }
}

/// Decodes the message.
pub fn disconnect(payload: &[u8]) -> (r: Result<RefDisconnect<'_>, MessageError>)
    ensures
        match r {
            Ok(m) => {
                &&& disconnect_read(payload@) == Ok::<DisconnectFields, MessageError>(m@)
                &&& payload@ == seq![1u8] + be32(m.reason_code) + ssh_string(m.description@) + ssh_string(m.language_tag@)
            },
            Err(e) => disconnect_read(payload@) == Err::<DisconnectFields, MessageError>(e),
        },
{
    proof {
        crate::wire_core::laws::lemma_disconnect_read_write(payload@);
    }
    let mut c = RefCursor::new(payload);
    match expect_number(&mut c, DISCONNECT) {
        Ok(()) => {},
        Err(e) => {
            return Err(e);
        },
    }
    let reason_code: u32 = match field_u32(&mut c, Field::ReasonCode) {
        Ok(v) => v,
        Err(e) => {
            return Err(e);
        },
    };
    let description = match field_string(&mut c, Field::Description) {
        Ok(v) => v,
        Err(e) => {
            return Err(e);
        },
    };
    let language_tag = match field_string(&mut c, Field::LanguageTag) {
        Ok(v) => v,
        Err(e) => {
            return Err(e);
        },
    };
    match finish(&c) {
        Ok(()) => {},
        Err(e) => {
            return Err(e);
        },
    }
    Ok(RefDisconnect { reason_code, description, language_tag })
}

/// The payload that carries the given fields.
pub open spec fn disconnect_bytes(f: DisconnectFields) -> Seq<u8> {
    seq![DISCONNECT] + be32(f.reason_code) + ssh_string(f.description) + ssh_string(f.language_tag)
}

/// DEBUG, decoded.
#[derive(Clone, Copy, Debug)]
pub struct RefDebug<'a> {
    pub always_display_byte: u8,
    pub message: &'a [u8],
    pub language_tag: &'a [u8],
}

/// The fields of the message.
pub ghost struct DebugFields {
    pub always_display_byte: u8,
    pub message: Seq<u8>,
    pub language_tag: Seq<u8>,
}

impl<'a> View for RefDebug<'a> {
    type V = DebugFields;

    open spec fn view(&self) -> DebugFields {
        DebugFields {
            always_display_byte: self.always_display_byte,
            message: self.message@,
            language_tag: self.language_tag@,
        }
    }
}

/// The contents of a DEBUG payload, or the first fault in it.
pub open spec fn debug_read(s: Seq<u8>) -> Result<DebugFields, MessageError> {
    match number_read(s, DEBUG) {
        Err(e) => Err(e),
        Ok(p0) => match in_field(Field::AlwaysDisplay, p0, read_u8(s, p0)) {
            Err(e) => Err(e),
            Ok((always_display_byte, p1)) => match in_field(Field::Message, p1, read_string(s, p1)) {
                Err(e) => Err(e),
                Ok((message, p2)) => match in_field(Field::LanguageTag, p2, read_string(s, p2)) {
                    Err(e) => Err(e),
                    Ok((language_tag, p3)) => at_end(s, p3, DebugFields { always_display_byte, message, language_tag }),
                },
            },
        },
    }
}

/// Decodes the message.
pub fn debug(payload: &[u8]) -> (r: Result<RefDebug<'_>, MessageError>)
    ensures
        match r {
            Ok(m) => {
                &&& debug_read(payload@) == Ok::<DebugFields, MessageError>(m@)
                &&& payload@ == seq![4u8] + seq![m.always_display_byte] + ssh_string(m.message@) + ssh_string(m.language_tag@)
            },
            Err(e) => debug_read(payload@) == Err::<DebugFields, MessageError>(e),
        },
{
    proof {
        crate::wire_core::laws::lemma_debug_read_write(payload@);
    }
    let mut c = RefCursor::new(payload);
    match expect_number(&mut c, DEBUG) {
        Ok(()) => {},
        Err(e) => {
            return Err(e);
        },
    }
    let always_display_byte: u8 = match field_u8(&mut c, Field::AlwaysDisplay) {
        Ok(v) => v,
        Err(e) => {
            return Err(e);
        },
    };
    let message = match field_string(&mut c, Field::Message) {
        Ok(v) => v,
        Err(e) => {
            return Err(e);
        },
    };
    let language_tag = match field_string(&mut c, Field::LanguageTag) {
        Ok(v) => v,
        Err(e) => {
            return Err(e);
        },
    };
    match finish(&c) {
        Ok(()) => {},
        Err(e) => {
            return Err(e);
        },
    }
    Ok(RefDebug { always_display_byte, message, language_tag })
}

/// The payload that carries the given fields.
pub open spec fn debug_bytes(f: DebugFields) -> Seq<u8> {
    seq![DEBUG] + seq![f.always_display_byte] + ssh_string(f.message) + ssh_string(f.language_tag)
}

/// CHANNEL_OPEN, decoded.
#[derive(Clone, Copy, Debug)]
pub struct RefChannelOpen<'a> {
    pub channel_type: &'a [u8],
    pub sender_channel: u32,
    pub initial_window_size: u32,
    pub maximum_packet_size: u32,
    pub type_specific: &'a [u8],
}

/// The fields of the message.
pub ghost struct ChannelOpenFields {
    pub channel_type: Seq<u8>,
    pub sender_channel: u32,
    pub initial_window_size: u32,
    pub maximum_packet_size: u32,
    pub type_specific: Seq<u8>,
}

impl<'a> View for RefChannelOpen<'a> {
    type V = ChannelOpenFields;

    open spec fn view(&self) -> ChannelOpenFields {
        ChannelOpenFields {
            channel_type: self.channel_type@,
            sender_channel: self.sender_channel,
            initial_window_size: self.initial_window_size,
            maximum_packet_size: self.maximum_packet_size,
            type_specific: self.type_specific@,
        }
    }
}

/// The contents of a CHANNEL_OPEN payload, or the first fault in it.
pub open spec fn channel_open_read(s: Seq<u8>) -> Result<ChannelOpenFields, MessageError> {
    match number_read(s, CHANNEL_OPEN) {
        Err(e) => Err(e),
        Ok(p0) => match in_field(Field::ChannelType, p0, read_string(s, p0)) {
            Err(e) => Err(e),
            Ok((channel_type, p1)) => match in_field(Field::SenderChannel, p1, read_u32(s, p1)) {
                Err(e) => Err(e),
                Ok((sender_channel, p2)) => match in_field(Field::InitialWindowSize, p2, read_u32(s, p2)) {
                    Err(e) => Err(e),
                    Ok((initial_window_size, p3)) => match in_field(Field::MaximumPacketSize, p3, read_u32(s, p3)) {
                        Err(e) => Err(e),
                        Ok((maximum_packet_size, p4)) => Ok(ChannelOpenFields { channel_type, sender_channel, initial_window_size, maximum_packet_size, type_specific: s.skip(p4) }),
                    },
                },
            },
        },
    }
}

/// Decodes the message.
pub fn channel_open(payload: &[u8]) -> (r: Result<RefChannelOpen<'_>, MessageError>)
    ensures
        match r {
            Ok(m) => {
                &&& channel_open_read(payload@) == Ok::<ChannelOpenFields, MessageError>(m@)
                &&& payload@ == seq![90u8] + ssh_string(m.channel_type@) + be32(m.sender_channel) + be32(m.initial_window_size) + be32(m.maximum_packet_size) + m.type_specific@
            },
            Err(e) => channel_open_read(payload@) == Err::<ChannelOpenFields, MessageError>(e),
        },
{
    proof {
        crate::wire_core::laws::lemma_channel_open_read_write(payload@);
    }
    let mut c = RefCursor::new(payload);
    match expect_number(&mut c, CHANNEL_OPEN) {
        Ok(()) => {},
        Err(e) => {
            return Err(e);
        },
    }
    let channel_type = match field_string(&mut c, Field::ChannelType) {
        Ok(v) => v,
        Err(e) => {
            return Err(e);
        },
    };
    let sender_channel: u32 = match field_u32(&mut c, Field::SenderChannel) {
        Ok(v) => v,
        Err(e) => {
            return Err(e);
        },
    };
    let initial_window_size: u32 = match field_u32(&mut c, Field::InitialWindowSize) {
        Ok(v) => v,
        Err(e) => {
            return Err(e);
        },
    };
    let maximum_packet_size: u32 = match field_u32(&mut c, Field::MaximumPacketSize) {
        Ok(v) => v,
        Err(e) => {
            return Err(e);
        },
    };
    Ok(RefChannelOpen { channel_type, sender_channel, initial_window_size, maximum_packet_size, type_specific: c.rest() })
}

/// The payload that carries the given fields.
pub open spec fn channel_open_bytes(f: ChannelOpenFields) -> Seq<u8> {
    seq![CHANNEL_OPEN] + ssh_string(f.channel_type) + be32(f.sender_channel) + be32(f.initial_window_size) + be32(f.maximum_packet_size) + f.type_specific
}

/// CHANNEL_OPEN_CONFIRMATION, decoded.
#[derive(Clone, Copy, Debug)]
pub struct RefChannelOpenConfirmation<'a> {
    pub recipient_channel: u32,
    pub sender_channel: u32,
    pub initial_window_size: u32,
    pub maximum_packet_size: u32,
    pub type_specific: &'a [u8],
}

/// The fields of the message.
pub ghost struct ChannelOpenConfirmationFields {
    pub recipient_channel: u32,
    pub sender_channel: u32,
    pub initial_window_size: u32,
    pub maximum_packet_size: u32,
    pub type_specific: Seq<u8>,
}

impl<'a> View for RefChannelOpenConfirmation<'a> {
    type V = ChannelOpenConfirmationFields;

    open spec fn view(&self) -> ChannelOpenConfirmationFields {
        ChannelOpenConfirmationFields {
            recipient_channel: self.recipient_channel,
            sender_channel: self.sender_channel,
            initial_window_size: self.initial_window_size,
            maximum_packet_size: self.maximum_packet_size,
            type_specific: self.type_specific@,
        }
    }
}

/// The contents of a CHANNEL_OPEN_CONFIRMATION payload, or the first fault in it.
pub open spec fn channel_open_confirmation_read(s: Seq<u8>) -> Result<ChannelOpenConfirmationFields, MessageError> {
    match number_read(s, CHANNEL_OPEN_CONFIRMATION) {
        Err(e) => Err(e),
        Ok(p0) => match in_field(Field::RecipientChannel, p0, read_u32(s, p0)) {
            Err(e) => Err(e),
            Ok((recipient_channel, p1)) => match in_field(Field::SenderChannel, p1, read_u32(s, p1)) {
                Err(e) => Err(e),
                Ok((sender_channel, p2)) => match in_field(Field::InitialWindowSize, p2, read_u32(s, p2)) {
                    Err(e) => Err(e),
                    Ok((initial_window_size, p3)) => match in_field(Field::MaximumPacketSize, p3, read_u32(s, p3)) {
                        Err(e) => Err(e),
                        Ok((maximum_packet_size, p4)) => Ok(ChannelOpenConfirmationFields { recipient_channel, sender_channel, initial_window_size, maximum_packet_size, type_specific: s.skip(p4) }),
                    },
                },
            },
        },
    }
}

/// Decodes the message.
pub fn channel_open_confirmation(payload: &[u8]) -> (r: Result<RefChannelOpenConfirmation<'_>, MessageError>)
    ensures
        match r {
            Ok(m) => {
                &&& channel_open_confirmation_read(payload@) == Ok::<ChannelOpenConfirmationFields, MessageError>(m@)
                &&& payload@ == seq![91u8] + be32(m.recipient_channel) + be32(m.sender_channel) + be32(m.initial_window_size) + be32(m.maximum_packet_size) + m.type_specific@
            },
            Err(e) => channel_open_confirmation_read(payload@) == Err::<ChannelOpenConfirmationFields, MessageError>(e),
        },
{
    proof {
        crate::wire_core::laws::lemma_channel_open_confirmation_read_write(payload@);
    }
    let mut c = RefCursor::new(payload);
    match expect_number(&mut c, CHANNEL_OPEN_CONFIRMATION) {
        Ok(()) => {},
        Err(e) => {
            return Err(e);
        },
    }
    let recipient_channel: u32 = match field_u32(&mut c, Field::RecipientChannel) {
        Ok(v) => v,
        Err(e) => {
            return Err(e);
        },
    };
    let sender_channel: u32 = match field_u32(&mut c, Field::SenderChannel) {
        Ok(v) => v,
        Err(e) => {
            return Err(e);
        },
    };
    let initial_window_size: u32 = match field_u32(&mut c, Field::InitialWindowSize) {
        Ok(v) => v,
        Err(e) => {
            return Err(e);
        },
    };
    let maximum_packet_size: u32 = match field_u32(&mut c, Field::MaximumPacketSize) {
        Ok(v) => v,
        Err(e) => {
            return Err(e);
        },
    };
    Ok(RefChannelOpenConfirmation { recipient_channel, sender_channel, initial_window_size, maximum_packet_size, type_specific: c.rest() })
}

/// The payload that carries the given fields.
pub open spec fn channel_open_confirmation_bytes(f: ChannelOpenConfirmationFields) -> Seq<u8> {
    seq![CHANNEL_OPEN_CONFIRMATION] + be32(f.recipient_channel) + be32(f.sender_channel) + be32(f.initial_window_size) + be32(f.maximum_packet_size) + f.type_specific
}

/// CHANNEL_OPEN_FAILURE, decoded.
#[derive(Clone, Copy, Debug)]
pub struct RefChannelOpenFailure<'a> {
    pub recipient_channel: u32,
    pub reason_code: u32,
    pub description: &'a [u8],
    pub language_tag: &'a [u8],
}

/// The fields of the message.
pub ghost struct ChannelOpenFailureFields {
    pub recipient_channel: u32,
    pub reason_code: u32,
    pub description: Seq<u8>,
    pub language_tag: Seq<u8>,
}

impl<'a> View for RefChannelOpenFailure<'a> {
    type V = ChannelOpenFailureFields;

    open spec fn view(&self) -> ChannelOpenFailureFields {
        ChannelOpenFailureFields {
            recipient_channel: self.recipient_channel,
            reason_code: self.reason_code,
            description: self.description@,
            language_tag: self.language_tag@,
        }
    }
}

/// The contents of a CHANNEL_OPEN_FAILURE payload, or the first fault in it.
pub open spec fn channel_open_failure_read(s: Seq<u8>) -> Result<ChannelOpenFailureFields, MessageError> {
    match number_read(s, CHANNEL_OPEN_FAILURE) {
        Err(e) => Err(e),
        Ok(p0) => match in_field(Field::RecipientChannel, p0, read_u32(s, p0)) {
            Err(e) => Err(e),
            Ok((recipient_channel, p1)) => match in_field(Field::ReasonCode, p1, read_u32(s, p1)) {
                Err(e) => Err(e),
                Ok((reason_code, p2)) => match in_field(Field::Description, p2, read_string(s, p2)) {
                    Err(e) => Err(e),
                    Ok((description, p3)) => match in_field(Field::LanguageTag, p3, read_string(s, p3)) {
                        Err(e) => Err(e),
                        Ok((language_tag, p4)) => at_end(s, p4, ChannelOpenFailureFields { recipient_channel, reason_code, description, language_tag }),
                    },
                },
            },
        },
    }
}

/// Decodes the message.
pub fn channel_open_failure(payload: &[u8]) -> (r: Result<RefChannelOpenFailure<'_>, MessageError>)
    ensures
        match r {
            Ok(m) => {
                &&& channel_open_failure_read(payload@) == Ok::<ChannelOpenFailureFields, MessageError>(m@)
                &&& payload@ == seq![92u8] + be32(m.recipient_channel) + be32(m.reason_code) + ssh_string(m.description@) + ssh_string(m.language_tag@)
            },
            Err(e) => channel_open_failure_read(payload@) == Err::<ChannelOpenFailureFields, MessageError>(e),
        },
{
    proof {
        crate::wire_core::laws::lemma_channel_open_failure_read_write(payload@);
    }
    let mut c = RefCursor::new(payload);
    match expect_number(&mut c, CHANNEL_OPEN_FAILURE) {
        Ok(()) => {},
        Err(e) => {
            return Err(e);
        },
    }
    let recipient_channel: u32 = match field_u32(&mut c, Field::RecipientChannel) {
        Ok(v) => v,
        Err(e) => {
            return Err(e);
        },
    };
    let reason_code: u32 = match field_u32(&mut c, Field::ReasonCode) {
        Ok(v) => v,
        Err(e) => {
            return Err(e);
        },
    };
    let description = match field_string(&mut c, Field::Description) {
        Ok(v) => v,
        Err(e) => {
            return Err(e);
        },
    };
    let language_tag = match field_string(&mut c, Field::LanguageTag) {
        Ok(v) => v,
        Err(e) => {
            return Err(e);
        },
    };
    match finish(&c) {
        Ok(()) => {},
        Err(e) => {
            return Err(e);
        },
    }
    Ok(RefChannelOpenFailure { recipient_channel, reason_code, description, language_tag })
}

/// The payload that carries the given fields.
pub open spec fn channel_open_failure_bytes(f: ChannelOpenFailureFields) -> Seq<u8> {
    seq![CHANNEL_OPEN_FAILURE] + be32(f.recipient_channel) + be32(f.reason_code) + ssh_string(f.description) + ssh_string(f.language_tag)
}

/// The data of an IGNORE payload, or the first fault in it.
pub open spec fn ignore_read(s: Seq<u8>) -> Result<Seq<u8>, MessageError> {
    match number_read(s, IGNORE) {
        Err(e) => Err(e),
        Ok(p0) => match in_field(Field::Data, p0, read_string(s, p0)) {
            Err(e) => Err(e),
            Ok((data, p1)) => at_end(s, p1, data),
        },
    }
}

/// Decodes IGNORE to its data.
pub fn ignore(payload: &[u8]) -> (r: Result<&[u8], MessageError>)
    ensures
        match r {
            Ok(m) => ignore_read(payload@) == Ok::<Seq<u8>, MessageError>(m@),
            Err(e) => ignore_read(payload@) == Err::<Seq<u8>, MessageError>(e),
        },
{
    let mut c = RefCursor::new(payload);
    match expect_number(&mut c, IGNORE) {
        Ok(()) => {},
        Err(e) => {
            return Err(e);
        },
    }
    let data = match field_string(&mut c, Field::Data) {
        Ok(v) => v,
        Err(e) => {
            return Err(e);
        },
    };
    match finish(&c) {
        Ok(()) => {},
        Err(e) => {
            return Err(e);
        },
    }
    Ok(data)
}

/// The IGNORE payload that carries `data`.
pub open spec fn ignore_bytes(data: Seq<u8>) -> Seq<u8> {
    seq![IGNORE] + ssh_string(data)
}

/// The sequence number of an UNIMPLEMENTED payload, or the first fault in it.
pub open spec fn unimplemented_read(s: Seq<u8>) -> Result<u32, MessageError> {
    match number_read(s, UNIMPLEMENTED) {
        Err(e) => Err(e),
        Ok(p0) => match in_field(Field::SequenceNumber, p0, read_u32(s, p0)) {
            Err(e) => Err(e),
            Ok((v, p1)) => at_end(s, p1, v),
        },
    }
}

/// Decodes UNIMPLEMENTED to its sequence number.
pub fn unimplemented(payload: &[u8]) -> (r: Result<u32, MessageError>)
    ensures
        r == unimplemented_read(payload@),
{
    let mut c = RefCursor::new(payload);
    match expect_number(&mut c, UNIMPLEMENTED) {
        Ok(()) => {},
        Err(e) => {
            return Err(e);
        },
    }
    let sequence_number: u32 = match field_u32(&mut c, Field::SequenceNumber) {
        Ok(v) => v,
        Err(e) => {
            return Err(e);
        },
    };
    match finish(&c) {
        Ok(()) => {},
        Err(e) => {
            return Err(e);
        },
    }
    Ok(sequence_number)
}

/// The UNIMPLEMENTED payload for a sequence number.
pub open spec fn unimplemented_bytes(v: u32) -> Seq<u8> {
    seq![UNIMPLEMENTED] + be32(v)
}

/// The name-lists from the `i`-th on, on the wire.
pub open spec fn lists_bytes(names: Seq<Seq<Seq<u8>>>, i: int) -> Seq<u8>
    decreases names.len() - i,
{
    if i >= names.len() {
        Seq::empty()
    } else {
        ssh_string(joined(names[i])) + lists_bytes(names, i + 1)
    }
}

/// The KEXINIT payload that carries the given fields.
pub open spec fn kexinit_bytes(f: KexInitFields) -> Seq<u8> {
    seq![KEXINIT] + f.cookie + lists_bytes(f.names, 0) + seq![f.first_byte] + be32(f.reserved)
}

/// The fields are those of a KEXINIT: sixteen cookie bytes, ten lists of
/// valid names that fit their length fields, and the offset that they imply.
pub open spec fn kexinit_valid(f: KexInitFields) -> bool {
    &&& f.cookie.len() == COOKIE_LEN
    &&& f.names.len() == LIST_COUNT
    &&& forall|i: int|
        0 <= i < LIST_COUNT ==> valid_names(#[trigger] f.names[i]) && fits_u32(joined(f.names[i]))
    &&& f.first_offset == 1 + COOKIE_LEN + lists_bytes(f.names, 0).len()
}

/// The names of the required lists that are empty, in wire order.
pub open spec fn empty_required(names: Seq<Seq<Seq<u8>>>, from: int) -> Seq<Field>
    decreases REQUIRED_LIST_COUNT - from,
{
    if from >= REQUIRED_LIST_COUNT {
        Seq::empty()
    } else if names[from].len() == 0 {
        seq![list_field(from)] + empty_required(names, from + 1)
    } else {
        empty_required(names, from + 1)
    }
}

} // verus!
