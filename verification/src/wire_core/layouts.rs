//! Where each field of a message stands on the wire, by number and order, and
//! what a payload that ends too early is told.

use vstd::prelude::*;
use crate::wire_core::bytes::{be32, fits_u32, ssh_string, u32_of};
use crate::wire_core::error::{Field, MessageError};
use crate::wire_core::kex_laws::{lemma_reply_write_read, lemma_string_message_write_read};
use crate::wire_core::kex_ref::{
    ecdh_init_read, ecdh_reply_read, newkeys_read, service_accept_read, service_request_read, ReplyFields,
};
use crate::wire_core::laws::{
    lemma_channel_open_confirmation_write_read, lemma_channel_open_failure_write_read, lemma_channel_open_write_read,
    lemma_debug_write_read, lemma_disconnect_write_read, lemma_ignore_write_read, lemma_unimplemented_write_read,
};
use crate::wire_core::messages_ref::{
    channel_open_confirmation_read, channel_open_failure_read, channel_open_read, debug_read, disconnect_read,
    ignore_read, unimplemented_read, ChannelOpenConfirmationFields, ChannelOpenFailureFields, ChannelOpenFields,
    DebugFields, DisconnectFields,
};

verus! {

/// The position behind the `string` at `pos`.
pub open spec fn string_end(s: Seq<u8>, pos: int) -> int {
    pos + 4 + u32_of(s.subrange(pos, pos + 4))
}

/// DISCONNECT is number 1, then reason code, description, language tag and nothing behind.
pub proof fn lemma_disconnect_layout(reason_code: u32, description: Seq<u8>, language_tag: Seq<u8>)
    requires
        fits_u32(description),
        fits_u32(language_tag),
    ensures
        disconnect_read(
            seq![1u8] + be32(reason_code) + ssh_string(description) + ssh_string(language_tag),
        ) == Ok::<DisconnectFields, MessageError>(DisconnectFields { reason_code, description, language_tag }),
{
    lemma_disconnect_write_read(DisconnectFields { reason_code, description, language_tag }, Seq::empty());
}

/// A field of DISCONNECT that does not read is named, with where it starts.
pub proof fn lemma_disconnect_faults(s: Seq<u8>)
    requires
        s.len() <= usize::MAX,
    ensures
        disconnect_read(s) matches Err(MessageError::Field { field, offset, .. }) ==> {
            ||| field is ReasonCode && offset == 1
            ||| field is Description && offset == 5
            ||| field is LanguageTag && offset == string_end(s, 5)
        },
        disconnect_read(s) matches Err(MessageError::UnexpectedMessage { expected, found }) ==> s.len() > 0 && s[0] == found
            && expected == 1 && found != 1,
        disconnect_read(s) is Err && s.len() > 0 && s[0] != 1 ==> disconnect_read(s)->Err_0 is UnexpectedMessage,
        disconnect_read(s) matches Err(MessageError::Empty) ==> s.len() == 0,
        s.len() == 0 ==> disconnect_read(s)->Err_0 is Empty,
{
}

/// DEBUG is number 4, then always display byte, message, language tag and nothing behind.
pub proof fn lemma_debug_layout(always_display_byte: u8, message: Seq<u8>, language_tag: Seq<u8>)
    requires
        fits_u32(message),
        fits_u32(language_tag),
    ensures
        debug_read(
            seq![4u8] + seq![always_display_byte] + ssh_string(message) + ssh_string(language_tag),
        ) == Ok::<DebugFields, MessageError>(DebugFields { always_display_byte, message, language_tag }),
{
    lemma_debug_write_read(DebugFields { always_display_byte, message, language_tag }, Seq::empty());
}

/// A field of DEBUG that does not read is named, with where it starts.
pub proof fn lemma_debug_faults(s: Seq<u8>)
    requires
        s.len() <= usize::MAX,
    ensures
        debug_read(s) matches Err(MessageError::Field { field, offset, .. }) ==> {
            ||| field is AlwaysDisplay && offset == 1
            ||| field is Message && offset == 2
            ||| field is LanguageTag && offset == string_end(s, 2)
        },
        debug_read(s) matches Err(MessageError::UnexpectedMessage { expected, found }) ==> s.len() > 0 && s[0] == found
            && expected == 4 && found != 4,
        debug_read(s) is Err && s.len() > 0 && s[0] != 4 ==> debug_read(s)->Err_0 is UnexpectedMessage,
        debug_read(s) matches Err(MessageError::Empty) ==> s.len() == 0,
        s.len() == 0 ==> debug_read(s)->Err_0 is Empty,
{
}

/// CHANNEL_OPEN is number 90, then channel type, sender channel, initial window size, maximum packet size, then the rest of the payload.
pub proof fn lemma_channel_open_layout(channel_type: Seq<u8>, sender_channel: u32, initial_window_size: u32, maximum_packet_size: u32, type_specific: Seq<u8>)
    requires
        fits_u32(channel_type),
    ensures
        channel_open_read(
            seq![90u8] + ssh_string(channel_type) + be32(sender_channel) + be32(initial_window_size) + be32(maximum_packet_size) + type_specific,
        ) == Ok::<ChannelOpenFields, MessageError>(ChannelOpenFields { channel_type, sender_channel, initial_window_size, maximum_packet_size, type_specific }),
{
    lemma_channel_open_write_read(ChannelOpenFields { channel_type, sender_channel, initial_window_size, maximum_packet_size, type_specific }, Seq::empty());
}

/// A field of CHANNEL_OPEN that does not read is named, with where it starts.
pub proof fn lemma_channel_open_faults(s: Seq<u8>)
    requires
        s.len() <= usize::MAX,
    ensures
        channel_open_read(s) matches Err(MessageError::Field { field, offset, .. }) ==> {
            ||| field is ChannelType && offset == 1
            ||| field is SenderChannel && offset == string_end(s, 1)
            ||| field is InitialWindowSize && offset == string_end(s, 1) + 4
            ||| field is MaximumPacketSize && offset == string_end(s, 1) + 4 + 4
        },
        channel_open_read(s) matches Err(MessageError::UnexpectedMessage { expected, found }) ==> s.len() > 0 && s[0] == found
            && expected == 90 && found != 90,
        channel_open_read(s) is Err && s.len() > 0 && s[0] != 90 ==> channel_open_read(s)->Err_0 is UnexpectedMessage,
        channel_open_read(s) matches Err(MessageError::Empty) ==> s.len() == 0,
        s.len() == 0 ==> channel_open_read(s)->Err_0 is Empty,
{
}

/// CHANNEL_OPEN_CONFIRMATION is number 91, then recipient channel, sender channel, initial window size, maximum packet size, then the rest of the payload.
pub proof fn lemma_channel_open_confirmation_layout(recipient_channel: u32, sender_channel: u32, initial_window_size: u32, maximum_packet_size: u32, type_specific: Seq<u8>)
    ensures
        channel_open_confirmation_read(
            seq![91u8] + be32(recipient_channel) + be32(sender_channel) + be32(initial_window_size) + be32(maximum_packet_size) + type_specific,
        ) == Ok::<ChannelOpenConfirmationFields, MessageError>(ChannelOpenConfirmationFields { recipient_channel, sender_channel, initial_window_size, maximum_packet_size, type_specific }),
{
    lemma_channel_open_confirmation_write_read(ChannelOpenConfirmationFields { recipient_channel, sender_channel, initial_window_size, maximum_packet_size, type_specific }, Seq::empty());
}

/// A field of CHANNEL_OPEN_CONFIRMATION that does not read is named, with where it starts.
pub proof fn lemma_channel_open_confirmation_faults(s: Seq<u8>)
    requires
        s.len() <= usize::MAX,
    ensures
        channel_open_confirmation_read(s) matches Err(MessageError::Field { field, offset, .. }) ==> {
            ||| field is RecipientChannel && offset == 1
            ||| field is SenderChannel && offset == 5
            ||| field is InitialWindowSize && offset == 9
            ||| field is MaximumPacketSize && offset == 13
        },
        channel_open_confirmation_read(s) matches Err(MessageError::UnexpectedMessage { expected, found }) ==> s.len() > 0 && s[0] == found
            && expected == 91 && found != 91,
        channel_open_confirmation_read(s) is Err && s.len() > 0 && s[0] != 91 ==> channel_open_confirmation_read(s)->Err_0 is UnexpectedMessage,
        channel_open_confirmation_read(s) matches Err(MessageError::Empty) ==> s.len() == 0,
        s.len() == 0 ==> channel_open_confirmation_read(s)->Err_0 is Empty,
{
}

/// CHANNEL_OPEN_FAILURE is number 92, then recipient channel, reason code, description, language tag and nothing behind.
pub proof fn lemma_channel_open_failure_layout(recipient_channel: u32, reason_code: u32, description: Seq<u8>, language_tag: Seq<u8>)
    requires
        fits_u32(description),
        fits_u32(language_tag),
    ensures
        channel_open_failure_read(
            seq![92u8] + be32(recipient_channel) + be32(reason_code) + ssh_string(description) + ssh_string(language_tag),
        ) == Ok::<ChannelOpenFailureFields, MessageError>(ChannelOpenFailureFields { recipient_channel, reason_code, description, language_tag }),
{
    lemma_channel_open_failure_write_read(ChannelOpenFailureFields { recipient_channel, reason_code, description, language_tag }, Seq::empty());
}

/// A field of CHANNEL_OPEN_FAILURE that does not read is named, with where it starts.
pub proof fn lemma_channel_open_failure_faults(s: Seq<u8>)
    requires
        s.len() <= usize::MAX,
    ensures
        channel_open_failure_read(s) matches Err(MessageError::Field { field, offset, .. }) ==> {
            ||| field is RecipientChannel && offset == 1
            ||| field is ReasonCode && offset == 5
            ||| field is Description && offset == 9
            ||| field is LanguageTag && offset == string_end(s, 9)
        },
        channel_open_failure_read(s) matches Err(MessageError::UnexpectedMessage { expected, found }) ==> s.len() > 0 && s[0] == found
            && expected == 92 && found != 92,
        channel_open_failure_read(s) is Err && s.len() > 0 && s[0] != 92 ==> channel_open_failure_read(s)->Err_0 is UnexpectedMessage,
        channel_open_failure_read(s) matches Err(MessageError::Empty) ==> s.len() == 0,
        s.len() == 0 ==> channel_open_failure_read(s)->Err_0 is Empty,
{
}

/// KEX_ECDH_REPLY is number 31, then k s, q s, signature and nothing behind.
pub proof fn lemma_ecdh_reply_layout(k_s: Seq<u8>, q_s: Seq<u8>, signature: Seq<u8>)
    requires
        fits_u32(k_s),
        fits_u32(q_s),
        fits_u32(signature),
    ensures
        ecdh_reply_read(
            seq![31u8] + ssh_string(k_s) + ssh_string(q_s) + ssh_string(signature),
        ) == Ok::<ReplyFields, MessageError>(ReplyFields { k_s, q_s, signature }),
{
    lemma_reply_write_read(ReplyFields { k_s, q_s, signature }, Seq::empty());
}

/// A field of KEX_ECDH_REPLY that does not read is named, with where it starts.
pub proof fn lemma_ecdh_reply_faults(s: Seq<u8>)
    requires
        s.len() <= usize::MAX,
    ensures
        ecdh_reply_read(s) matches Err(MessageError::Field { field, offset, .. }) ==> {
            ||| field is HostKey && offset == 1
            ||| field is ServerEphemeral && offset == string_end(s, 1)
            ||| field is Signature && offset == string_end(s, string_end(s, 1))
        },
        ecdh_reply_read(s) matches Err(MessageError::UnexpectedMessage { expected, found }) ==> s.len() > 0 && s[0] == found
            && expected == 31 && found != 31,
        ecdh_reply_read(s) is Err && s.len() > 0 && s[0] != 31 ==> ecdh_reply_read(s)->Err_0 is UnexpectedMessage,
        ecdh_reply_read(s) matches Err(MessageError::Empty) ==> s.len() == 0,
        s.len() == 0 ==> ecdh_reply_read(s)->Err_0 is Empty,
{
}

/// The messages of one field: IGNORE is number 2 and a string, UNIMPLEMENTED 3
/// and a packet number, SERVICE_REQUEST 5, SERVICE_ACCEPT 6 and KEX_ECDH_INIT
/// 30 and a string. NEWKEYS is number 21 alone.
pub proof fn lemma_short_layouts(data: Seq<u8>, sequence: u32)
    requires
        fits_u32(data),
    ensures
        ignore_read(seq![2u8] + ssh_string(data)) == Ok::<Seq<u8>, MessageError>(data),
        unimplemented_read(seq![3u8] + be32(sequence)) == Ok::<u32, MessageError>(sequence),
        service_request_read(seq![5u8] + ssh_string(data)) == Ok::<Seq<u8>, MessageError>(data),
        service_accept_read(seq![6u8] + ssh_string(data)) == Ok::<Seq<u8>, MessageError>(data),
        ecdh_init_read(seq![30u8] + ssh_string(data)) == Ok::<Seq<u8>, MessageError>(data),
        newkeys_read(seq![21u8]) == Ok::<(), MessageError>(()),
{
    lemma_ignore_write_read(data, Seq::empty());
    lemma_unimplemented_write_read(sequence, Seq::empty(), 0);
    lemma_string_message_write_read(5, Field::ServiceName, data, Seq::empty());
    lemma_string_message_write_read(6, Field::ServiceName, data, Seq::empty());
    lemma_string_message_write_read(30, Field::ClientEphemeral, data, Seq::empty());
}

/// A message of one field that does not read names that field, which starts
/// behind the number.
pub proof fn lemma_short_faults(s: Seq<u8>)
    ensures
        ignore_read(s) matches Err(MessageError::Field { field, offset, .. }) ==> field is Data && offset == 1,
        unimplemented_read(s) matches Err(MessageError::Field { field, offset, .. }) ==> field is SequenceNumber
            && offset == 1,
        service_request_read(s) matches Err(MessageError::Field { field, offset, .. }) ==> field is ServiceName
            && offset == 1,
        service_accept_read(s) matches Err(MessageError::Field { field, offset, .. }) ==> field is ServiceName
            && offset == 1,
        ecdh_init_read(s) matches Err(MessageError::Field { field, offset, .. }) ==> field is ClientEphemeral
            && offset == 1,
{
}

} // verus!
