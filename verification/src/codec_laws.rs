//! What the codecs write for each message, and what single reads and writes do.

use vstd::prelude::*;
use crate::kex_codecs::{kex_bytes, read_kex, KexKind, KexMessage, KexView};
use crate::wire_core::bytes::{be32, be64, ssh_string, u32_of, u64_of};
use crate::wire_core::error::DecodeError;
use crate::wire_core::ident_ref::{has_forbidden, version_token, IdentFields};
use crate::wire_core::kex_ref::{
    ecdh_init_read, ecdh_reply_read, newkeys_read, service_accept_read, service_request_read,
};
use crate::wire_core::messages_ref::lists_bytes;
use crate::wire_core::namelist_ref::{joined, valid_name};
use crate::wire_ident::{class_of, encode_outcome, IdentEncodeError};
use crate::wire_messages::{message_bytes, MessageView, WireMessage};
use crate::wire_primitives::{op_gen, read_of, write_of, written_by, EncodeError, Op, OpView, ReadValue, ReadView};
use crate::wire_core::generate::little;
use crate::wire_samples::{mutated, Mutation, MutationView};

verus! {

/// Each message on the wire: its number, then its fields in order.
pub proof fn lemma_message_written(m: MessageView)
    ensures
        m matches WireMessage::KexInit { cookie, lists, first_kex_packet_follows, reserved } ==> message_bytes(m) == seq![
            20u8,
        ] + cookie + lists_bytes(lists, 0) + seq![
            if first_kex_packet_follows {
                1u8
            } else {
                0
            },
        ] + be32(reserved),
        m matches WireMessage::Disconnect { reason_code, description, language_tag } ==> message_bytes(m) == seq![1u8]
            + be32(reason_code) + ssh_string(description) + ssh_string(language_tag),
        m matches WireMessage::Ignore { data } ==> message_bytes(m) == seq![2u8] + ssh_string(data),
        m matches WireMessage::Unimplemented { sequence_number } ==> message_bytes(m) == seq![3u8] + be32(sequence_number),
        m matches WireMessage::Debug { always_display, message, language_tag } ==> message_bytes(m) == seq![4u8] + seq![
            if always_display {
                1u8
            } else {
                0
            },
        ] + ssh_string(message) + ssh_string(language_tag),
        m matches WireMessage::ChannelOpen {
            channel_type,
            sender_channel,
            initial_window_size,
            maximum_packet_size,
            type_specific,
        } ==> message_bytes(m) == seq![90u8] + ssh_string(channel_type) + be32(sender_channel) + be32(initial_window_size)
            + be32(maximum_packet_size) + type_specific,
        m matches WireMessage::ChannelOpenConfirmation {
            recipient_channel,
            sender_channel,
            initial_window_size,
            maximum_packet_size,
            type_specific,
        } ==> message_bytes(m) == seq![91u8] + be32(recipient_channel) + be32(sender_channel) + be32(initial_window_size)
            + be32(maximum_packet_size) + type_specific,
        m matches WireMessage::ChannelOpenFailure { recipient_channel, reason_code, description, language_tag }
            ==> message_bytes(m) == seq![92u8] + be32(recipient_channel) + be32(reason_code) + ssh_string(description)
            + ssh_string(language_tag),
{
}

/// Each message of the key exchange and of services on the wire.
pub proof fn lemma_kex_message_written(m: KexView)
    ensures
        m matches KexMessage::EcdhInit { client_ephemeral } ==> kex_bytes(m) == seq![30u8] + ssh_string(client_ephemeral),
        m matches KexMessage::EcdhReply { host_key_blob, server_ephemeral, signature_blob } ==> kex_bytes(m) == seq![31u8]
            + ssh_string(host_key_blob) + ssh_string(server_ephemeral) + ssh_string(signature_blob),
        m is NewKeys ==> kex_bytes(m) == seq![21u8],
        m matches KexMessage::ServiceRequest { service_name } ==> kex_bytes(m) == seq![5u8] + ssh_string(service_name),
        m matches KexMessage::ServiceAccept { service_name } ==> kex_bytes(m) == seq![6u8] + ssh_string(service_name),
{
}

/// Each decoder of the key exchange and of services hands out its own fields.
pub proof fn lemma_kex_message_read(s: Seq<u8>)
    ensures
        read_kex(KexKind::EcdhReply, s) matches Ok(m) ==> ecdh_reply_read(s) is Ok && (m matches KexMessage::EcdhReply {
            host_key_blob,
            server_ephemeral,
            signature_blob,
        } && host_key_blob == ecdh_reply_read(s)->Ok_0.k_s && server_ephemeral == ecdh_reply_read(s)->Ok_0.q_s
            && signature_blob == ecdh_reply_read(s)->Ok_0.signature),
        read_kex(KexKind::EcdhInit, s) matches Ok(m) ==> ecdh_init_read(s) is Ok && (m matches KexMessage::EcdhInit {
            client_ephemeral,
        } && client_ephemeral == ecdh_init_read(s)->Ok_0),
        read_kex(KexKind::ServiceRequest, s) matches Ok(m) ==> service_request_read(s) is Ok && (
        m matches KexMessage::ServiceRequest { service_name } && service_name == service_request_read(s)->Ok_0),
        read_kex(KexKind::ServiceAccept, s) matches Ok(m) ==> service_accept_read(s) is Ok && (
        m matches KexMessage::ServiceAccept { service_name } && service_name == service_accept_read(s)->Ok_0),
        read_kex(KexKind::NewKeys, s) is Ok <==> newkeys_read(s) is Ok,
{
}

/// A read takes what it reads and nothing else: one, four or eight bytes most
/// significant first, any byte but zero as true, a string by its length.
pub proof fn lemma_reads(s: Seq<u8>, pos: int, n: usize)
    requires
        0 <= pos <= s.len(),
    ensures
        ({
            let ok = |v: ReadView, p: int| Some(Ok::<(ReadView, int), DecodeError>((v, p)));
            &&& pos + 1 <= s.len() ==> read_of(s, pos, Op::ReadU8) == ok(ReadValue::Byte(s[pos]), pos + 1)
            &&& pos + 1 <= s.len() ==> read_of(s, pos, Op::ReadBool) == ok(ReadValue::Bool(s[pos] != 0), pos + 1)
            &&& pos + 4 <= s.len() ==> read_of(s, pos, Op::ReadU32) == ok(
                ReadValue::Word(u32_of(s.subrange(pos, pos + 4))),
                pos + 4,
            )
            &&& pos + 8 <= s.len() ==> read_of(s, pos, Op::ReadU64) == ok(
                ReadValue::Long(u64_of(s.subrange(pos, pos + 8))),
                pos + 8,
            )
            &&& pos + n <= s.len() ==> read_of(s, pos, Op::ReadBytes(n)) == ok(
                ReadValue::Bytes(s.subrange(pos, pos + n)),
                pos + n,
            )
            &&& pos == s.len() ==> read_of(s, pos, Op::Finish) == ok(ReadValue::End, pos)
            &&& pos < s.len() <= usize::MAX ==> read_of(s, pos, Op::Finish) == ok(
                ReadValue::Left((s.len() - pos) as usize),
                pos,
            )
            &&& pos + 1 > s.len() ==> read_of(s, pos, Op::ReadU8)->0 is Err && read_of(s, pos, Op::ReadBool)->0 is Err
            &&& pos + 4 > s.len() ==> read_of(s, pos, Op::ReadU32)->0 is Err && read_of(s, pos, Op::ReadString)->0 is Err
            &&& pos + 8 > s.len() ==> read_of(s, pos, Op::ReadU64)->0 is Err
        }),
{
    if pos < s.len() {
        assert(s.subrange(pos, pos + 1)[0] == s[pos]);
    }
}

/// A write that fits is appended whole; one that does not, or of a list with a
/// bad name, changes nothing and says why.
pub proof fn lemma_writes(held: Seq<u8>, capacity: int, op: OpView)
    requires
        0 <= capacity - held.len() <= usize::MAX,
    ensures
        op matches Op::WriteU8(v) ==> written_by(op) == Some(Ok::<Seq<u8>, EncodeError>(seq![v])),
        op matches Op::WriteBool(v) ==> written_by(op) == Some(
            Ok::<Seq<u8>, EncodeError>(
                seq![
                    if v {
                        1u8
                    } else {
                        0
                    },
                ],
            ),
        ),
        op matches Op::WriteU32(v) ==> written_by(op) == Some(Ok::<Seq<u8>, EncodeError>(be32(v))),
        op matches Op::WriteU64(v) ==> written_by(op) == Some(Ok::<Seq<u8>, EncodeError>(be64(v))),
        op matches Op::WriteString(b) ==> written_by(op) == Some(Ok::<Seq<u8>, EncodeError>(ssh_string(b))),
        op matches Op::WriteBytes(b) ==> written_by(op) == Some(Ok::<Seq<u8>, EncodeError>(b)),
        written_by(op) matches Some(Ok(b)) ==> held.len() + b.len() <= capacity ==> write_of(held, capacity, op) == (
            held + b,
            None::<EncodeError>,
        ),
        written_by(op) matches Some(Ok(b)) ==> held.len() + b.len() > capacity ==> write_of(held, capacity, op).0 == held && (
        write_of(held, capacity, op).1 matches Some(EncodeError::InsufficientCapacity { needed, available }) && needed
            == b.len() as usize && available == capacity - held.len()),
        written_by(op) matches Some(Err(e)) ==> write_of(held, capacity, op) == (held, Some(e)),
{
}

/// A list with a bad name is refused by the first of them, any other is written
/// as its names with commas between.
pub proof fn lemma_list_written(names: Seq<Seq<u8>>, i: int)
    requires
        0 <= i <= names.len(),
        forall|j: int| 0 <= j < i ==> valid_name(#[trigger] names[j]),
        i < names.len() ==> !valid_name(names[i]),
        names.len() <= usize::MAX,
    ensures
        i < names.len() ==> written_by(Op::WriteNameList(names)) == Some(
            Err::<Seq<u8>, EncodeError>(EncodeError::InvalidName { index: i as usize }),
        ),
        i == names.len() ==> written_by(Op::WriteNameList(names)) == Some(
            Ok::<Seq<u8>, EncodeError>(ssh_string(joined(names))),
        ),
{
    lemma_first_bad(names, i, 0);
}

proof fn lemma_first_bad(names: Seq<Seq<u8>>, i: int, from: int)
    requires
        0 <= from <= i <= names.len(),
        forall|j: int| 0 <= j < i ==> valid_name(#[trigger] names[j]),
        i < names.len() ==> !valid_name(names[i]),
    ensures
        crate::wire_primitives::first_bad(names, from) == i,
    decreases i - from,
{
    if from < i {
        assert(valid_name(names[from]));
        lemma_first_bad(names, i, from + 1);
    }
}

/// The operation is drawn by the first byte.
pub proof fn lemma_operation_drawn(s: Seq<u8>)
    ensures
        ({
            let op = op_gen(s).0;
            let k = little(s, 1) % 15;
            &&& k == 0 <==> op is ReadU8
            &&& k == 1 <==> op is ReadBool
            &&& k == 2 <==> op is ReadU32
            &&& k == 3 <==> op is ReadU64
            &&& k == 4 <==> op is ReadString
            &&& k == 5 <==> op is ReadNameList
            &&& k == 6 <==> op is ReadBytes
            &&& k == 7 <==> op is Finish
            &&& k == 8 <==> op is WriteU8
            &&& k == 9 <==> op is WriteBool
            &&& k == 10 <==> op is WriteU32
            &&& k == 11 <==> op is WriteU64
            &&& k == 12 <==> op is WriteString
            &&& k == 13 <==> op is WriteNameList
            &&& k == 14 ==> op is WriteBytes
        }),
{
    reveal(op_gen);
}

/// A change keeps a payload, cuts it, flips bits of one byte, or appends.
pub proof fn lemma_changes(s: Seq<u8>, m: MutationView)
    ensures
        m is Keep ==> mutated(s, m) == s,
        m matches Mutation::Cut(n) ==> n <= s.len() ==> mutated(s, m).len() == n && mutated(s, m).is_prefix_of(s),
        m matches Mutation::Append(b) ==> mutated(s, m).len() == s.len() + b.len() && s.is_prefix_of(mutated(s, m)),
        m matches Mutation::Flip { index, xor } ==> index < s.len() ==> mutated(s, m).len() == s.len() && mutated(
            s,
            m,
        )[index as int] == s[index as int] ^ xor && forall|i: int|
            0 <= i < s.len() && i != index ==> #[trigger] mutated(s, m)[i] == s[i],
{
    if let Mutation::Cut(n) = m {
        if n <= s.len() {
            assert(s.take(n as int) =~= s.subrange(0, n as int));
        }
    }
    if let Mutation::Append(b) = m {
        assert(s =~= (s + b).subrange(0, s.len() as int));
    }
}

/// An identification is refused for its protocol version first, then for its
/// software version, then for its comments, and last for want of room.
pub proof fn lemma_identification_written(f: IdentFields, capacity: usize)
    ensures
        ({
            let r = encode_outcome(f, capacity);
            let pv = version_token(f.protocol_version);
            let sv = version_token(f.software_version);
            let clean = f.comments matches Some(c) ==> !has_forbidden(c);
            let n = 4 + f.protocol_version.len() + 1 + f.software_version.len() + match f.comments {
                Some(c) => 1 + c.len(),
                None => 0,
            };
            &&& !pv <==> r == Err::<usize, IdentEncodeError>(IdentEncodeError::BadProtocolVersion)
            &&& pv && !sv <==> r == Err::<usize, IdentEncodeError>(IdentEncodeError::BadSoftwareVersion)
            &&& pv && sv && !clean <==> r == Err::<usize, IdentEncodeError>(IdentEncodeError::BadComments)
            &&& pv && sv && clean && n <= capacity ==> r == Ok::<usize, IdentEncodeError>(n as usize)
            &&& pv && sv && clean && capacity < n ==> r == Err::<usize, IdentEncodeError>(
                IdentEncodeError::InsufficientCapacity { needed: n as usize, available: capacity },
            )
        }),
{
}

/// Exactly `2.0` and `1.99` are versions that are known.
pub proof fn lemma_version_class(token: Seq<u8>)
    ensures
        class_of(token) is Ssh2 <==> token == seq![50u8, 46, 48],
        class_of(token) is Ssh2Compatibility <==> token == seq![49u8, 46, 57, 57],
{
    if token == seq![49u8, 46, 57, 57] {
        assert(token.len() == 4);
    }
}

} // verus!
