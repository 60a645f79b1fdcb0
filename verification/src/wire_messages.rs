//! Message codecs under test: messages as values, their bytes, what decoding
//! must give for any payload, and changed messages with what must become of
//! them.

use vstd::prelude::*;
use crate::seqs::{copy_bytes, nested, own_all, push_all, same_bytes, same_vecs, vecs};
use crate::wire_core::bytes::{bool_byte, fits_u32, put_bool, put_name_list, put_string, put_u32, put_u8};
use crate::wire_core::error::{Field, MessageError};
use crate::wire_core::laws::{
    lemma_channel_open_confirmation_read_write, lemma_channel_open_failure_read_write,
    lemma_channel_open_read_write, lemma_debug_read_write, lemma_disconnect_read_write, lemma_ignore_read_write,
    lemma_kexinit_read_write, lemma_unimplemented_read_write,
};
use crate::wire_core::messages_ref::{
    channel_open, channel_open_bytes, channel_open_confirmation, channel_open_confirmation_bytes,
    channel_open_confirmation_read, channel_open_failure, channel_open_failure_bytes, channel_open_failure_read,
    channel_open_read, debug, debug_bytes, debug_read, disconnect, disconnect_bytes, disconnect_read,
    empty_required, ignore, ignore_bytes, ignore_read, kexinit, kexinit_bytes, kexinit_list_field, kexinit_read,
    kexinit_valid, lists_bytes, name_lists, unimplemented, unimplemented_bytes, unimplemented_read,
    ChannelOpenConfirmationFields, ChannelOpenFailureFields, ChannelOpenFields, DebugFields, DisconnectFields,
    KexInitFields, CHANNEL_OPEN, CHANNEL_OPEN_CONFIRMATION, CHANNEL_OPEN_FAILURE, DEBUG, DISCONNECT, IGNORE,
    KEXINIT, LIST_COUNT, REQUIRED_LIST_COUNT, UNIMPLEMENTED,
};
use crate::wire_core::namelist_ref::joined;

verus! {

/// The messages.
#[derive(Clone, Copy, Debug, PartialEq, Eq, Structural)]
pub enum MessageKind {
    KexInit,
    Disconnect,
    Ignore,
    Unimplemented,
    Debug,
    ChannelOpen,
    ChannelOpenConfirmation,
    ChannelOpenFailure,
}

impl MessageKind {
    /// The message number.
    pub open spec fn code(self) -> u8 {
        match self {
            MessageKind::KexInit => KEXINIT,
            MessageKind::Disconnect => DISCONNECT,
            MessageKind::Ignore => IGNORE,
            MessageKind::Unimplemented => UNIMPLEMENTED,
            MessageKind::Debug => DEBUG,
            MessageKind::ChannelOpen => CHANNEL_OPEN,
            MessageKind::ChannelOpenConfirmation => CHANNEL_OPEN_CONFIRMATION,
            MessageKind::ChannelOpenFailure => CHANNEL_OPEN_FAILURE,
        }
    }

    /// The message number.
    pub fn number(self) -> (r: u8)
        ensures
            r == self.code(),
    {
        match self {
            MessageKind::KexInit => KEXINIT,
            MessageKind::Disconnect => DISCONNECT,
            MessageKind::Ignore => IGNORE,
            MessageKind::Unimplemented => UNIMPLEMENTED,
            MessageKind::Debug => DEBUG,
            MessageKind::ChannelOpen => CHANNEL_OPEN,
            MessageKind::ChannelOpenConfirmation => CHANNEL_OPEN_CONFIRMATION,
            MessageKind::ChannelOpenFailure => CHANNEL_OPEN_FAILURE,
        }
    }
}

/// A message.
#[derive(Clone, Debug, PartialEq, Eq)]
pub enum WireMessage<B = Vec<u8>, L = Vec<Vec<Vec<u8>>>> {
    KexInit { cookie: B, lists: L, first_kex_packet_follows: bool, reserved: u32 },
    Disconnect { reason_code: u32, description: B, language_tag: B },
    Ignore { data: B },
    Unimplemented { sequence_number: u32 },
    Debug { always_display: bool, message: B, language_tag: B },
    ChannelOpen {
        channel_type: B,
        sender_channel: u32,
        initial_window_size: u32,
        maximum_packet_size: u32,
        type_specific: B,
    },
    ChannelOpenConfirmation {
        recipient_channel: u32,
        sender_channel: u32,
        initial_window_size: u32,
        maximum_packet_size: u32,
        type_specific: B,
    },
    ChannelOpenFailure { recipient_channel: u32, reason_code: u32, description: B, language_tag: B },
}

/// A message over sequences.
pub type MessageView = WireMessage<Seq<u8>, Seq<Seq<Seq<u8>>>>;

impl View for WireMessage<Vec<u8>, Vec<Vec<Vec<u8>>>> {
    type V = MessageView;

    open spec fn view(&self) -> MessageView {
        match self {
            WireMessage::KexInit { cookie, lists, first_kex_packet_follows, reserved } => WireMessage::KexInit {
                cookie: cookie@,
                lists: nested(lists@),
                first_kex_packet_follows: *first_kex_packet_follows,
                reserved: *reserved,
            },
            WireMessage::Disconnect { reason_code, description, language_tag } => WireMessage::Disconnect {
                reason_code: *reason_code,
                description: description@,
                language_tag: language_tag@,
            },
            WireMessage::Ignore { data } => WireMessage::Ignore { data: data@ },
            WireMessage::Unimplemented { sequence_number } => WireMessage::Unimplemented {
                sequence_number: *sequence_number,
            },
            WireMessage::Debug { always_display, message, language_tag } => WireMessage::Debug {
                always_display: *always_display,
                message: message@,
                language_tag: language_tag@,
            },
            WireMessage::ChannelOpen {
                channel_type,
                sender_channel,
                initial_window_size,
                maximum_packet_size,
                type_specific,
            } => WireMessage::ChannelOpen {
                channel_type: channel_type@,
                sender_channel: *sender_channel,
                initial_window_size: *initial_window_size,
                maximum_packet_size: *maximum_packet_size,
                type_specific: type_specific@,
            },
            WireMessage::ChannelOpenConfirmation {
                recipient_channel,
                sender_channel,
                initial_window_size,
                maximum_packet_size,
                type_specific,
            } => WireMessage::ChannelOpenConfirmation {
                recipient_channel: *recipient_channel,
                sender_channel: *sender_channel,
                initial_window_size: *initial_window_size,
                maximum_packet_size: *maximum_packet_size,
                type_specific: type_specific@,
            },
            WireMessage::ChannelOpenFailure { recipient_channel, reason_code, description, language_tag } =>
            WireMessage::ChannelOpenFailure {
                recipient_channel: *recipient_channel,
                reason_code: *reason_code,
                description: description@,
                language_tag: language_tag@,
            },
        }
    }
}

/// Which message it is.
pub open spec fn kind_of(m: MessageView) -> MessageKind {
    match m {
        WireMessage::KexInit { .. } => MessageKind::KexInit,
        WireMessage::Disconnect { .. } => MessageKind::Disconnect,
        WireMessage::Ignore { .. } => MessageKind::Ignore,
        WireMessage::Unimplemented { .. } => MessageKind::Unimplemented,
        WireMessage::Debug { .. } => MessageKind::Debug,
        WireMessage::ChannelOpen { .. } => MessageKind::ChannelOpen,
        WireMessage::ChannelOpenConfirmation { .. } => MessageKind::ChannelOpenConfirmation,
        WireMessage::ChannelOpenFailure { .. } => MessageKind::ChannelOpenFailure,
    }
}

/// The fields of a KEXINIT on the wire.
pub open spec fn kex_fields(cookie: Seq<u8>, lists: Seq<Seq<Seq<u8>>>, first: bool, reserved: u32) -> KexInitFields {
    KexInitFields {
        cookie,
        names: lists,
        first_byte: bool_byte(first),
        first_offset: 17 + lists_bytes(lists, 0).len() as int,
        reserved,
    }
}

/// The payload of a message.
pub open spec fn message_bytes(m: MessageView) -> Seq<u8> {
    match m {
        WireMessage::KexInit { cookie, lists, first_kex_packet_follows, reserved } => kexinit_bytes(
            kex_fields(cookie, lists, first_kex_packet_follows, reserved),
        ),
        WireMessage::Disconnect { reason_code, description, language_tag } => disconnect_bytes(
            DisconnectFields { reason_code, description, language_tag },
        ),
        WireMessage::Ignore { data } => ignore_bytes(data),
        WireMessage::Unimplemented { sequence_number } => unimplemented_bytes(sequence_number),
        WireMessage::Debug { always_display, message, language_tag } => debug_bytes(
            DebugFields { always_display_byte: bool_byte(always_display), message, language_tag },
        ),
        WireMessage::ChannelOpen {
            channel_type,
            sender_channel,
            initial_window_size,
            maximum_packet_size,
            type_specific,
        } => channel_open_bytes(
            ChannelOpenFields { channel_type, sender_channel, initial_window_size, maximum_packet_size, type_specific },
        ),
        WireMessage::ChannelOpenConfirmation {
            recipient_channel,
            sender_channel,
            initial_window_size,
            maximum_packet_size,
            type_specific,
        } => channel_open_confirmation_bytes(
            ChannelOpenConfirmationFields {
                recipient_channel,
                sender_channel,
                initial_window_size,
                maximum_packet_size,
                type_specific,
            },
        ),
        WireMessage::ChannelOpenFailure { recipient_channel, reason_code, description, language_tag } =>
        channel_open_failure_bytes(
            ChannelOpenFailureFields { recipient_channel, reason_code, description, language_tag },
        ),
    }
}

/// A message that has a payload: fields that fit their length fields, and
/// ten lists of valid names behind sixteen cookie bytes.
pub open spec fn message_ok(m: MessageView) -> bool {
    match m {
        WireMessage::KexInit { cookie, lists, first_kex_packet_follows, reserved } => kexinit_valid(
            kex_fields(cookie, lists, first_kex_packet_follows, reserved),
        ),
        WireMessage::Disconnect { reason_code, description, language_tag } => fits_u32(description) && fits_u32(
            language_tag,
        ),
        WireMessage::Ignore { data } => fits_u32(data),
        WireMessage::Unimplemented { sequence_number } => true,
        WireMessage::Debug { always_display, message, language_tag } => fits_u32(message) && fits_u32(language_tag),
        WireMessage::ChannelOpen {
            channel_type,
            sender_channel,
            initial_window_size,
            maximum_packet_size,
            type_specific,
        } => fits_u32(channel_type),
        WireMessage::ChannelOpenConfirmation { .. } => true,
        WireMessage::ChannelOpenFailure { recipient_channel, reason_code, description, language_tag } => fits_u32(
            description,
        ) && fits_u32(language_tag),
    }
}

/// What decoding a payload as a message gives.
pub open spec fn read_as(kind: MessageKind, s: Seq<u8>) -> Result<MessageView, MessageError> {
    match kind {
        MessageKind::KexInit => match kexinit_read(s) {
            Ok(f) => Ok(
                WireMessage::KexInit {
                    cookie: f.cookie,
                    lists: f.names,
                    first_kex_packet_follows: f.first_byte != 0,
                    reserved: f.reserved,
                },
            ),
            Err(e) => Err(e),
        },
        MessageKind::Disconnect => match disconnect_read(s) {
            Ok(f) => Ok(
                WireMessage::Disconnect {
                    reason_code: f.reason_code,
                    description: f.description,
                    language_tag: f.language_tag,
                },
            ),
            Err(e) => Err(e),
        },
        MessageKind::Ignore => match ignore_read(s) {
            Ok(data) => Ok(WireMessage::Ignore { data }),
            Err(e) => Err(e),
        },
        MessageKind::Unimplemented => match unimplemented_read(s) {
            Ok(sequence_number) => Ok(WireMessage::Unimplemented { sequence_number }),
            Err(e) => Err(e),
        },
        MessageKind::Debug => match debug_read(s) {
            Ok(f) => Ok(
                WireMessage::Debug {
                    always_display: f.always_display_byte != 0,
                    message: f.message,
                    language_tag: f.language_tag,
                },
            ),
            Err(e) => Err(e),
        },
        MessageKind::ChannelOpen => match channel_open_read(s) {
            Ok(f) => Ok(
                WireMessage::ChannelOpen {
                    channel_type: f.channel_type,
                    sender_channel: f.sender_channel,
                    initial_window_size: f.initial_window_size,
                    maximum_packet_size: f.maximum_packet_size,
                    type_specific: f.type_specific,
                },
            ),
            Err(e) => Err(e),
        },
        MessageKind::ChannelOpenConfirmation => match channel_open_confirmation_read(s) {
            Ok(f) => Ok(
                WireMessage::ChannelOpenConfirmation {
                    recipient_channel: f.recipient_channel,
                    sender_channel: f.sender_channel,
                    initial_window_size: f.initial_window_size,
                    maximum_packet_size: f.maximum_packet_size,
                    type_specific: f.type_specific,
                },
            ),
            Err(e) => Err(e),
        },
        MessageKind::ChannelOpenFailure => match channel_open_failure_read(s) {
            Ok(f) => Ok(
                WireMessage::ChannelOpenFailure {
                    recipient_channel: f.recipient_channel,
                    reason_code: f.reason_code,
                    description: f.description,
                    language_tag: f.language_tag,
                },
            ),
            Err(e) => Err(e),
        },
    }
}

/// A result over sequences.
pub open spec fn outcome(r: Result<WireMessage, MessageError>) -> Result<MessageView, MessageError> {
    match r {
        Ok(m) => Ok(m@),
        Err(e) => Err(e),
    }
}

fn own_lists(v: &Vec<Vec<&[u8]>>) -> (r: Vec<Vec<Vec<u8>>>)
    ensures
        nested(r@) == name_lists(v@),
{
    let mut out: Vec<Vec<Vec<u8>>> = Vec::new();
    let mut i: usize = 0;
    while i < v.len()
        invariant
            i <= v@.len(),
            out@.len() == i,
            forall|j: int| 0 <= j < i ==> vecs((#[trigger] out@[j])@) == name_lists(v@)[j],
        decreases v@.len() - i,
    {
        out.push(own_all(&v[i]));
        i = i + 1;
    }
    proof {
        assert(nested(out@) =~= name_lists(v@));
    }
    out
}

/// Decodes a payload as a message.
pub fn decode_as(kind: MessageKind, payload: &[u8]) -> (r: Result<WireMessage, MessageError>)
    ensures
        outcome(r) == read_as(kind, payload@),
{
    match kind {
        MessageKind::KexInit => match kexinit(payload) {
            Ok(k) => Ok(
                WireMessage::KexInit {
                    cookie: copy_bytes(k.cookie),
                    lists: own_lists(&k.names),
                    first_kex_packet_follows: k.first_kex_packet_follows_byte != 0,
                    reserved: k.reserved,
                },
            ),
            Err(e) => Err(e),
        },
        MessageKind::Disconnect => match disconnect(payload) {
            Ok(m) => Ok(
                WireMessage::Disconnect {
                    reason_code: m.reason_code,
                    description: copy_bytes(m.description),
                    language_tag: copy_bytes(m.language_tag),
                },
            ),
            Err(e) => Err(e),
        },
        MessageKind::Ignore => match ignore(payload) {
            Ok(data) => Ok(WireMessage::Ignore { data: copy_bytes(data) }),
            Err(e) => Err(e),
        },
        MessageKind::Unimplemented => match unimplemented(payload) {
            Ok(sequence_number) => Ok(WireMessage::Unimplemented { sequence_number }),
            Err(e) => Err(e),
        },
        MessageKind::Debug => match debug(payload) {
            Ok(m) => Ok(
                WireMessage::Debug {
                    always_display: m.always_display_byte != 0,
                    message: copy_bytes(m.message),
                    language_tag: copy_bytes(m.language_tag),
                },
            ),
            Err(e) => Err(e),
        },
        MessageKind::ChannelOpen => match channel_open(payload) {
            Ok(m) => Ok(
                WireMessage::ChannelOpen {
                    channel_type: copy_bytes(m.channel_type),
                    sender_channel: m.sender_channel,
                    initial_window_size: m.initial_window_size,
                    maximum_packet_size: m.maximum_packet_size,
                    type_specific: copy_bytes(m.type_specific),
                },
            ),
            Err(e) => Err(e),
        },
        MessageKind::ChannelOpenConfirmation => match channel_open_confirmation(payload) {
            Ok(m) => Ok(
                WireMessage::ChannelOpenConfirmation {
                    recipient_channel: m.recipient_channel,
                    sender_channel: m.sender_channel,
                    initial_window_size: m.initial_window_size,
                    maximum_packet_size: m.maximum_packet_size,
                    type_specific: copy_bytes(m.type_specific),
                },
            ),
            Err(e) => Err(e),
        },
        MessageKind::ChannelOpenFailure => match channel_open_failure(payload) {
            Ok(m) => Ok(
                WireMessage::ChannelOpenFailure {
                    recipient_channel: m.recipient_channel,
                    reason_code: m.reason_code,
                    description: copy_bytes(m.description),
                    language_tag: copy_bytes(m.language_tag),
                },
            ),
            Err(e) => Err(e),
        },
    }
}

fn same_lists(a: &Vec<Vec<Vec<u8>>>, b: &Vec<Vec<Vec<u8>>>) -> (r: bool)
    ensures
        r == (nested(a@) == nested(b@)),
{
    if a.len() != b.len() {
        proof {
            assert(nested(a@).len() != nested(b@).len());
        }
        return false;
    }
    let mut i: usize = 0;
    while i < a.len()
        invariant
            i <= a@.len(),
            a@.len() == b@.len(),
            forall|j: int| 0 <= j < i ==> #[trigger] nested(a@)[j] == nested(b@)[j],
        decreases a@.len() - i,
    {
        if !same_vecs(&a[i], &b[i]) {
            proof {
                assert(nested(a@)[i as int] != nested(b@)[i as int]);
            }
            return false;
        }
        i = i + 1;
    }
    proof {
        assert(nested(a@) =~= nested(b@));
    }
    true
}

impl WireMessage<Vec<u8>, Vec<Vec<Vec<u8>>>> {
    /// Whether two messages are the same.
    pub fn same(&self, other: &Self) -> (r: bool)
        ensures
            r == (self@ == other@),
    {
        match (self, other) {
            (
                WireMessage::KexInit { cookie: a, lists: b, first_kex_packet_follows: c, reserved: d },
                WireMessage::KexInit { cookie: e, lists: f, first_kex_packet_follows: g, reserved: h },
            ) => same_bytes(a.as_slice(), e.as_slice()) && same_lists(b, f) && *c == *g && *d == *h,
            (
                WireMessage::Disconnect { reason_code: a, description: b, language_tag: c },
                WireMessage::Disconnect { reason_code: d, description: e, language_tag: f },
            ) => *a == *d && same_bytes(b.as_slice(), e.as_slice()) && same_bytes(c.as_slice(), f.as_slice()),
            (WireMessage::Ignore { data: a }, WireMessage::Ignore { data: b }) => same_bytes(
                a.as_slice(),
                b.as_slice(),
            ),
            (
                WireMessage::Unimplemented { sequence_number: a },
                WireMessage::Unimplemented { sequence_number: b },
            ) => *a == *b,
            (
                WireMessage::Debug { always_display: a, message: b, language_tag: c },
                WireMessage::Debug { always_display: d, message: e, language_tag: f },
            ) => *a == *d && same_bytes(b.as_slice(), e.as_slice()) && same_bytes(c.as_slice(), f.as_slice()),
            (
                WireMessage::ChannelOpen {
                    channel_type: a,
                    sender_channel: b,
                    initial_window_size: c,
                    maximum_packet_size: d,
                    type_specific: e,
                },
                WireMessage::ChannelOpen {
                    channel_type: f,
                    sender_channel: g,
                    initial_window_size: h,
                    maximum_packet_size: i,
                    type_specific: j,
                },
            ) => same_bytes(a.as_slice(), f.as_slice()) && *b == *g && *c == *h && *d == *i && same_bytes(
                e.as_slice(),
                j.as_slice(),
            ),
            (
                WireMessage::ChannelOpenConfirmation {
                    recipient_channel: a,
                    sender_channel: b,
                    initial_window_size: c,
                    maximum_packet_size: d,
                    type_specific: e,
                },
                WireMessage::ChannelOpenConfirmation {
                    recipient_channel: f,
                    sender_channel: g,
                    initial_window_size: h,
                    maximum_packet_size: i,
                    type_specific: j,
                },
            ) => *a == *f && *b == *g && *c == *h && *d == *i && same_bytes(e.as_slice(), j.as_slice()),
            (
                WireMessage::ChannelOpenFailure { recipient_channel: a, reason_code: b, description: c, language_tag: d },
                WireMessage::ChannelOpenFailure { recipient_channel: e, reason_code: f, description: g, language_tag: h },
            ) => *a == *e && *b == *f && same_bytes(c.as_slice(), g.as_slice()) && same_bytes(
                d.as_slice(),
                h.as_slice(),
            ),
            _ => false,
        }
    }
}

/// Whether a decoder gave what it must for a payload: every field, or the
/// exact error.
pub fn check_raw(kind: MessageKind, payload: &[u8], actual: &Result<WireMessage, MessageError>) -> (r: bool)
    ensures
        r == (outcome(*actual) == read_as(kind, payload@)),
{
    match (decode_as(kind, payload), actual) {
        (Ok(a), Ok(b)) => a.same(b),
        (Err(a), Err(b)) => a == *b,
        _ => false,
    }
}

/// An empty payload is refused as empty, and one of another message with both
/// numbers.
pub proof fn lemma_dispatch(kind: MessageKind, s: Seq<u8>)
    ensures
        s.len() == 0 ==> read_as(kind, s) == Err::<MessageView, MessageError>(MessageError::Empty),
        s.len() > 0 && s[0] != kind.code() ==> read_as(kind, s) == Err::<MessageView, MessageError>(
            MessageError::UnexpectedMessage { expected: kind.code(), found: s[0] },
        ),
{
}

/// The position of the boolean in a payload, for messages that have one.
pub open spec fn bool_offset(kind: MessageKind, s: Seq<u8>) -> Option<int> {
    match kind {
        MessageKind::KexInit => match kexinit_read(s) {
            Ok(f) => Some(f.first_offset),
            Err(e) => None,
        },
        MessageKind::Debug => Some(1),
        _ => None,
    }
}

/// A payload with its boolean byte made 0 or 1.
pub open spec fn canonical(kind: MessageKind, s: Seq<u8>) -> Seq<u8> {
    match bool_offset(kind, s) {
        Some(i) => s.update(i, bool_byte(s[i] != 0)),
        None => s,
    }
}

/// A payload that decodes is written again as it was, but for its boolean
/// byte, which becomes 0 or 1.
pub proof fn lemma_reencode(kind: MessageKind, s: Seq<u8>)
    requires
        read_as(kind, s) is Ok,
    ensures
        message_ok(read_as(kind, s)->Ok_0),
        kind_of(read_as(kind, s)->Ok_0) == kind,
        message_bytes(read_as(kind, s)->Ok_0) == canonical(kind, s),
{
    let m = read_as(kind, s)->Ok_0;
    match kind {
        MessageKind::KexInit => {
            lemma_kexinit_read_write(s);
            let f = kexinit_read(s)->Ok_0;
            let pre = seq![KEXINIT] + f.cookie + lists_bytes(f.names, 0);
            assert(pre.len() == f.first_offset);
            assert(s[f.first_offset] == f.first_byte);
            assert(message_bytes(m) =~= canonical(kind, s));
        },
        MessageKind::Disconnect => {
            lemma_disconnect_read_write(s);
        },
        MessageKind::Ignore => {
            lemma_ignore_read_write(s);
        },
        MessageKind::Unimplemented => {
            lemma_unimplemented_read_write(s);
        },
        MessageKind::Debug => {
            lemma_debug_read_write(s);
            assert(message_bytes(m) =~= canonical(kind, s));
        },
        MessageKind::ChannelOpen => {
            lemma_channel_open_read_write(s);
        },
        MessageKind::ChannelOpenConfirmation => {
            lemma_channel_open_confirmation_read_write(s);
        },
        MessageKind::ChannelOpenFailure => {
            lemma_channel_open_failure_read_write(s);
        },
    }
}

/// The payload of a message.
pub fn assemble(m: &WireMessage) -> (r: Vec<u8>)
    requires
        message_ok(m@),
    ensures
        r@ == message_bytes(m@),
{
    let mut out: Vec<u8> = Vec::new();
    match m {
        WireMessage::KexInit { cookie, lists, first_kex_packet_follows, reserved } => {
            put_u8(&mut out, KEXINIT);
            push_all(&mut out, cookie.as_slice());
            put_lists(&mut out, lists);
            put_bool(&mut out, *first_kex_packet_follows);
            put_u32(&mut out, *reserved);
        },
        WireMessage::Disconnect { reason_code, description, language_tag } => {
            put_u8(&mut out, DISCONNECT);
            put_u32(&mut out, *reason_code);
            put_string(&mut out, description.as_slice());
            put_string(&mut out, language_tag.as_slice());
        },
        WireMessage::Ignore { data } => {
            put_u8(&mut out, IGNORE);
            put_string(&mut out, data.as_slice());
        },
        WireMessage::Unimplemented { sequence_number } => {
            put_u8(&mut out, UNIMPLEMENTED);
            put_u32(&mut out, *sequence_number);
        },
        WireMessage::Debug { always_display, message, language_tag } => {
            put_u8(&mut out, DEBUG);
            put_bool(&mut out, *always_display);
            put_string(&mut out, message.as_slice());
            put_string(&mut out, language_tag.as_slice());
        },
        WireMessage::ChannelOpen {
            channel_type,
            sender_channel,
            initial_window_size,
            maximum_packet_size,
            type_specific,
        } => {
            put_u8(&mut out, CHANNEL_OPEN);
            put_string(&mut out, channel_type.as_slice());
            put_u32(&mut out, *sender_channel);
            put_u32(&mut out, *initial_window_size);
            put_u32(&mut out, *maximum_packet_size);
            push_all(&mut out, type_specific.as_slice());
        },
        WireMessage::ChannelOpenConfirmation {
            recipient_channel,
            sender_channel,
            initial_window_size,
            maximum_packet_size,
            type_specific,
        } => {
            put_u8(&mut out, CHANNEL_OPEN_CONFIRMATION);
            put_u32(&mut out, *recipient_channel);
            put_u32(&mut out, *sender_channel);
            put_u32(&mut out, *initial_window_size);
            put_u32(&mut out, *maximum_packet_size);
            push_all(&mut out, type_specific.as_slice());
        },
        WireMessage::ChannelOpenFailure { recipient_channel, reason_code, description, language_tag } => {
            put_u8(&mut out, CHANNEL_OPEN_FAILURE);
            put_u32(&mut out, *recipient_channel);
            put_u32(&mut out, *reason_code);
            put_string(&mut out, description.as_slice());
            put_string(&mut out, language_tag.as_slice());
        },
    }
    proof {
        assert(out@ =~= message_bytes(m@));
    }
    out
}

fn put_lists(out: &mut Vec<u8>, lists: &Vec<Vec<Vec<u8>>>)
    requires
        forall|i: int| 0 <= i < lists@.len() ==> fits_u32(joined(#[trigger] nested(lists@)[i])),
    ensures
        final(out)@ == old(out)@ + lists_bytes(nested(lists@), 0),
{
    let mut i: usize = 0;
    let ghost all = nested(lists@);
    proof {
        assert(out@ + lists_bytes(all, 0) == old(out)@ + lists_bytes(all, 0));
    }
    while i < lists.len()
        invariant
            i <= lists@.len(),
            all == nested(lists@),
            forall|j: int| 0 <= j < lists@.len() ==> fits_u32(joined(#[trigger] nested(lists@)[j])),
            out@ + lists_bytes(all, i as int) == old(out)@ + lists_bytes(all, 0),
        decreases lists@.len() - i,
    {
        let ghost before = out@;
        proof {
            assert(all[i as int] == vecs(lists@[i as int]@));
        }
        put_name_list(out, lists[i].as_slice());
        proof {
            assert(out@ + lists_bytes(all, i + 1) =~= before + lists_bytes(all, i as int));
        }
        i = i + 1;
    }
    proof {
        assert(out@ + lists_bytes(all, i as int) =~= out@);
    }
}

/// What an encoder did with a decoded payload: what it wrote into a buffer of
/// the payload's size, the size it named, and whether it refused a buffer of
/// one byte less.
pub struct Rewritten {
    pub out: Vec<u8>,
    pub size: Option<usize>,
    pub short_refused: bool,
}

/// A decoded payload was written again as it must be.
pub open spec fn rewrite_right(w: Rewritten, kind: MessageKind, s: Seq<u8>) -> bool {
    &&& w.size == Some(s.len() as usize)
    &&& w.out@ == canonical(kind, s)
    &&& w.short_refused
}

/// Whether a decoded payload was written again as it must be.
pub fn check_reencode(w: &Rewritten, kind: MessageKind, payload: &[u8]) -> (r: bool)
    requires
        read_as(kind, payload@) is Ok,
    ensures
        r == rewrite_right(*w, kind, payload@),
{
    let same_size: bool = match w.size {
        Some(n) => n == payload.len(),
        None => false,
    };
    match decode_as(kind, payload) {
        Ok(m) => {
            proof {
                lemma_reencode(kind, payload@);
            }
            let want = assemble(&m);
            same_size && same_bytes(w.out.as_slice(), want.as_slice()) && w.short_refused
        },
        Err(_) => false,
    }
}

/// The required lists that are empty, in wire order.
pub fn empty_algorithm_lists(lists: &Vec<Vec<Vec<u8>>>) -> (r: Vec<Field>)
    requires
        lists@.len() == LIST_COUNT,
    ensures
        r@ == empty_required(nested(lists@), 0),
{
    let mut out: Vec<Field> = Vec::new();
    let mut i: usize = 0;
    let ghost all = nested(lists@);
    proof {
        assert(Seq::<Field>::empty() + empty_required(all, 0) =~= empty_required(all, 0));
    }
    while i < REQUIRED_LIST_COUNT
        invariant
            i <= REQUIRED_LIST_COUNT,
            lists@.len() == LIST_COUNT,
            all == nested(lists@),
            empty_required(all, 0) == out@ + empty_required(all, i as int),
        decreases REQUIRED_LIST_COUNT - i,
    {
        let ghost before = out@;
        proof {
            assert(all[i as int].len() == lists@[i as int]@.len());
        }
        if lists[i].len() == 0 {
            out.push(kexinit_list_field(i));
            proof {
                assert(out@ + empty_required(all, i + 1) =~= before + empty_required(all, i as int));
            }
        }
        i = i + 1;
    }
    proof {
        assert(out@ + empty_required(all, i as int) =~= out@);
    }
    out
}

} // verus!
