//! What writing and reading say about each other.

use vstd::prelude::*;
use crate::wire_core::bytes::{be32, fits_u32, lemma_u32_read_write, lemma_u32_write_read, ssh_string};
use crate::wire_core::cursor::{read_name_list, read_string, read_u32, read_u8};
use crate::wire_core::error::{InvalidEncoding, MessageError};
use crate::wire_core::ident_ref::{assembled, valid_fields, IdentFields};
use crate::wire_core::messages_ref::{
    at_end, channel_open_bytes, channel_open_confirmation_bytes, channel_open_confirmation_read,
    channel_open_failure_bytes, channel_open_failure_read, channel_open_read, debug_bytes, debug_read,
    disconnect_bytes, disconnect_read, ignore_bytes, ignore_read, kexinit_bytes, kexinit_read, kexinit_valid,
    lists_bytes, lists_read, unimplemented_bytes, unimplemented_read, ChannelOpenConfirmationFields,
    ChannelOpenFailureFields, ChannelOpenFields, DebugFields, DisconnectFields, KexInitFields, CHANNEL_OPEN,
    CHANNEL_OPEN_CONFIRMATION, CHANNEL_OPEN_FAILURE, DEBUG, DISCONNECT, IGNORE, KEXINIT, LIST_COUNT, UNIMPLEMENTED,
};
use crate::wire_core::namelist_ref::{
    first_unprintable, joined, names_from, names_of, printable, segment_end, valid_name, valid_names,
};

verus! {

broadcast use crate::wire_core::bytes::lemma_be32_len;

proof fn lemma_segment_end_range(body: Seq<u8>, from: int)
    requires
        0 <= from <= body.len(),
    ensures
        from <= segment_end(body, from) <= body.len(),
        forall|j: int| from <= j < segment_end(body, from) ==> body[j] != 44u8,
        segment_end(body, from) < body.len() ==> body[segment_end(body, from)] == 44u8,
    decreases body.len() - from,
{
    if from < body.len() && body[from] != 44u8 {
        lemma_segment_end_range(body, from + 1);
    }
}

proof fn lemma_all_printable(body: Seq<u8>, from: int, to: int)
    requires
        0 <= from <= to <= body.len(),
        first_unprintable(body, from, to) is None,
    ensures
        forall|j: int| from <= j < to ==> printable(#[trigger] body[j]),
    decreases to - from,
{
    if from < to {
        lemma_all_printable(body, from + 1, to);
    }
}

/// Joining a list with one more name in front.
pub proof fn lemma_join_front(first: Seq<u8>, rest: Seq<Seq<u8>>)
    requires
        rest.len() > 0,
    ensures
        joined(seq![first] + rest) == first.push(44u8) + joined(rest),
    decreases rest.len(),
{
    let all = seq![first] + rest;
    assert(all.last() == rest.last());
    if rest.len() == 1 {
        assert(all.drop_last() =~= seq![first]);
        assert(joined(all.drop_last()) == first);
        assert(joined(all) =~= first.push(44u8) + joined(rest));
    } else {
        assert(all.drop_last() =~= seq![first] + rest.drop_last());
        lemma_join_front(first, rest.drop_last());
        assert(joined(all) =~= first.push(44u8) + joined(rest));
    }
}

proof fn lemma_names_from(body: Seq<u8>, from: int)
    requires
        0 <= from < body.len() || (from == body.len()),
        names_from(body, from) is Ok,
    ensures
        names_from(body, from)->Ok_0.len() > 0,
        valid_names(names_from(body, from)->Ok_0),
        joined(names_from(body, from)->Ok_0) == body.skip(from),
    decreases body.len() - from,
{
    lemma_segment_end_range(body, from);
    let end = segment_end(body, from);
    lemma_all_printable(body, from, end);
    let seg = body.subrange(from, end);
    assert(valid_name(seg));
    if end == body.len() {
        assert(seg =~= body.skip(from));
    } else {
        lemma_names_from(body, end + 1);
        let rest = names_from(body, end + 1)->Ok_0;
        lemma_join_front(seg, rest);
        let all = seq![seg] + rest;
        assert(seg.push(44u8) + body.skip(end + 1) =~= body.skip(from));
        assert forall|i: int| 0 <= i < all.len() implies valid_name(#[trigger] all[i]) by {
            if i > 0 {
                assert(all[i] == rest[i - 1]);
            }
        }
    }
}

/// A body that parses is the join of its names, and they are valid.
pub proof fn lemma_parse_joins(body: Seq<u8>)
    ensures
        names_of(body) matches Ok(names) ==> joined(names) == body && valid_names(names),
{
    if body.len() > 0 && names_of(body) is Ok {
        lemma_names_from(body, 0);
        assert(body.skip(0) =~= body);
    } else if body.len() == 0 {
        assert(joined(Seq::empty()) =~= body);
    }
}


proof fn lemma_segment_found(body: Seq<u8>, from: int, end: int)
    requires
        0 <= from <= end <= body.len(),
        forall|j: int| from <= j < end ==> body[j] != 44u8,
        end == body.len() || body[end] == 44u8,
    ensures
        segment_end(body, from) == end,
    decreases end - from,
{
    if from < end {
        lemma_segment_found(body, from + 1, end);
    }
}

proof fn lemma_none_unprintable(body: Seq<u8>, from: int, to: int)
    requires
        0 <= from <= to <= body.len(),
        forall|j: int| from <= j < to ==> printable(#[trigger] body[j]),
    ensures
        first_unprintable(body, from, to) is None,
    decreases to - from,
{
    if from < to {
        lemma_none_unprintable(body, from + 1, to);
    }
}

proof fn lemma_names_found(pre: Seq<u8>, names: Seq<Seq<u8>>)
    requires
        names.len() > 0,
        valid_names(names),
    ensures
        names_from(pre + joined(names), pre.len() as int) == Ok::<Seq<Seq<u8>>, InvalidEncoding>(names),
    decreases names.len(),
{
    let body = pre + joined(names);
    let from = pre.len() as int;
    let first = names[0];
    let end = from + first.len();
    assert(valid_name(first));
    if names.len() == 1 {
        assert(forall|j: int| from <= j < end ==> body[j] == first[j - from]);
        lemma_segment_found(body, from, end);
        lemma_none_unprintable(body, from, end);
        assert(body.subrange(from, end) =~= first);
        assert(seq![first] =~= names);
    } else {
        let rest = names.skip(1);
        assert(seq![first] + rest =~= names);
        lemma_join_front(first, rest);
        assert(forall|j: int| from <= j < end ==> body[j] == first[j - from]);
        assert(body[end] == 44u8);
        lemma_segment_found(body, from, end);
        lemma_none_unprintable(body, from, end);
        assert(body.subrange(from, end) =~= first);
        let next = pre + first.push(44u8);
        assert(body =~= next + joined(rest));
        assert forall|i: int| 0 <= i < rest.len() implies valid_name(#[trigger] rest[i]) by {
            assert(rest[i] == names[i + 1]);
        }
        lemma_names_found(next, rest);
    }
}

/// A list of valid names is read back from its body.
pub proof fn lemma_join_parses(names: Seq<Seq<u8>>)
    requires
        valid_names(names),
    ensures
        names_of(joined(names)) == Ok::<Seq<Seq<u8>>, InvalidEncoding>(names),
{
    if names.len() == 0 {
        assert(names =~= Seq::empty());
    } else {
        lemma_names_found(Seq::empty(), names);
        assert(Seq::<u8>::empty() + joined(names) =~= joined(names));
        assert(valid_name(names[0]));
        if names.len() == 1 {
        } else {
            let rest = names.skip(1);
            assert(seq![names[0]] + rest =~= names);
            lemma_join_front(names[0], rest);
        }
    }
}

/// An identification assembled from valid fields has those fields and no
/// others.
pub proof fn lemma_identification_determines_fields(a: IdentFields, b: IdentFields)
    requires
        valid_fields(a),
        valid_fields(b),
    ensures
        assembled(a) == assembled(b) <==> a == b,
{
    if assembled(a) == assembled(b) {
        crate::wire_core::ident_ref::lemma_fields_unique(a, b);
    }
}

/// A `uint32` is read back wherever it stands.
pub proof fn lemma_u32_at(pre: Seq<u8>, v: u32, post: Seq<u8>)
    ensures
        read_u32(pre + be32(v) + post, pre.len() as int) == Ok::<
            (u32, int),
            crate::wire_core::error::DecodeError,
        >((v, pre.len() as int + 4)),
{
    let s = pre + be32(v) + post;
    lemma_u32_write_read(v);
    assert(s.subrange(pre.len() as int, pre.len() as int + 4) =~= be32(v));
}

/// A byte is read back wherever it stands.
pub proof fn lemma_u8_at(pre: Seq<u8>, v: u8, post: Seq<u8>)
    ensures
        read_u8(pre + seq![v] + post, pre.len() as int) == Ok::<
            (u8, int),
            crate::wire_core::error::DecodeError,
        >((v, pre.len() as int + 1)),
{
    let s = pre + seq![v] + post;
    assert(s.subrange(pre.len() as int, pre.len() as int + 1) =~= seq![v]);
}

/// A `string` is read back wherever it stands.
pub proof fn lemma_string_at(pre: Seq<u8>, x: Seq<u8>, post: Seq<u8>)
    requires
        fits_u32(x),
    ensures
        read_string(pre + ssh_string(x) + post, pre.len() as int) == Ok::<
            (Seq<u8>, int),
            crate::wire_core::error::DecodeError,
        >((x, pre.len() as int + 4 + x.len())),
{
    let s = pre + ssh_string(x) + post;
    let n = x.len() as u32;
    assert(s =~= pre + be32(n) + (x + post));
    lemma_u32_at(pre, n, x + post);
    lemma_u32_write_read(n);
    assert(s.subrange(pre.len() as int + 4, pre.len() as int + 4 + x.len()) =~= x);
}

/// A `name-list` of valid names is read back wherever it stands.
pub proof fn lemma_name_list_at(pre: Seq<u8>, names: Seq<Seq<u8>>, post: Seq<u8>)
    requires
        valid_names(names),
        fits_u32(joined(names)),
    ensures
        read_name_list(pre + ssh_string(joined(names)) + post, pre.len() as int) == Ok::<
            (Seq<u8>, Seq<Seq<u8>>, int),
            crate::wire_core::error::DecodeError,
        >((joined(names), names, pre.len() as int + 4 + joined(names).len())),
{
    lemma_string_at(pre, joined(names), post);
    lemma_join_parses(names);
}

/// A `uint32` that was read stands where it was read.
pub proof fn lemma_u32_was_at(s: Seq<u8>, pos: int)
    requires
        0 <= pos <= s.len(),
    ensures
        read_u32(s, pos) matches Ok((v, p)) ==> p == pos + 4 && p <= s.len() && s.subrange(pos, p)
            == be32(v),
{
    if s.len() - pos >= 4 {
        lemma_u32_read_write(s.subrange(pos, pos + 4));
        assert(s.subrange(pos, pos + 4).take(4) =~= s.subrange(pos, pos + 4));
    }
}

/// A `string` that was read stands where it was read.
pub proof fn lemma_string_was_at(s: Seq<u8>, pos: int)
    requires
        0 <= pos <= s.len(),
    ensures
        read_string(s, pos) matches Ok((x, p)) ==> p == pos + 4 + x.len() && p <= s.len() && fits_u32(x)
            && s.subrange(pos, p) == ssh_string(x),
{
    lemma_u32_was_at(s, pos);
    match read_string(s, pos) {
        Ok((x, p)) => {
            assert(s.subrange(pos, p) =~= s.subrange(pos, pos + 4) + x);
        },
        Err(_) => {},
    }
}

/// A sequence in four parts, seen from each of the inner ones.
proof fn lemma_parts4(a: Seq<u8>, b: Seq<u8>, c: Seq<u8>, d: Seq<u8>, x: Seq<u8>)
    ensures
        (a + b + c + d) + x == a + b + (c + d + x),
        (a + b + c + d) + x == (a + b) + c + (d + x),
        (a + b + c + d) + x == (a + b + c) + d + x,
{
    assert((a + b + c + d) + x =~= a + b + (c + d + x));
    assert((a + b + c + d) + x =~= (a + b) + c + (d + x));
}

/// A sequence in five parts, seen from each of the inner ones.
proof fn lemma_parts5(a: Seq<u8>, b: Seq<u8>, c: Seq<u8>, d: Seq<u8>, e: Seq<u8>, x: Seq<u8>)
    ensures
        (a + b + c + d + e) + x == a + b + (c + d + e + x),
        (a + b + c + d + e) + x == (a + b) + c + (d + e + x),
        (a + b + c + d + e) + x == (a + b + c) + d + (e + x),
        (a + b + c + d + e) + x == (a + b + c + d) + e + x,
{
    assert((a + b + c + d + e) + x =~= a + b + (c + d + e + x));
    assert((a + b + c + d + e) + x =~= (a + b) + c + (d + e + x));
    assert((a + b + c + d + e) + x =~= (a + b + c) + d + (e + x));
}

/// Five parts and a tail, seen from each of the inner parts.
proof fn lemma_parts6(a: Seq<u8>, b: Seq<u8>, c: Seq<u8>, d: Seq<u8>, e: Seq<u8>, t: Seq<u8>, x: Seq<u8>)
    ensures
        (a + b + c + d + e + t) + x == a + b + (c + d + e + t + x),
        (a + b + c + d + e + t) + x == (a + b) + c + (d + e + t + x),
        (a + b + c + d + e + t) + x == (a + b + c) + d + (e + t + x),
        (a + b + c + d + e + t) + x == (a + b + c + d) + e + (t + x),
        ((a + b + c + d + e + t) + x).skip((a + b + c + d + e).len() as int) == t + x,
{
    assert((a + b + c + d + e + t) + x =~= a + b + (c + d + e + t + x));
    assert((a + b + c + d + e + t) + x =~= (a + b) + c + (d + e + t + x));
    assert((a + b + c + d + e + t) + x =~= (a + b + c) + d + (e + t + x));
    assert((a + b + c + d + e + t) + x =~= (a + b + c + d) + e + (t + x));
    assert(((a + b + c + d + e + t) + x).skip((a + b + c + d + e).len() as int) =~= t + x);
}

proof fn lemma_disconnect_fields_at(f: DisconnectFields, extra: Seq<u8>)
    requires
        fits_u32(f.description),
        fits_u32(f.language_tag),
    ensures
        disconnect_read(disconnect_bytes(f) + extra) == at_end(disconnect_bytes(f) + extra, disconnect_bytes(f).len() as int, f),
{
    let s = disconnect_bytes(f) + extra;
    lemma_parts4(seq![DISCONNECT], be32(f.reason_code), ssh_string(f.description), ssh_string(f.language_tag), extra);
    let pre0 = seq![DISCONNECT];
    let post0 = ssh_string(f.description) + ssh_string(f.language_tag) + extra;
    lemma_u32_at(pre0, f.reason_code, post0);
    let pre1 = pre0 + be32(f.reason_code);
    let post1 = ssh_string(f.language_tag) + extra;
    lemma_string_at(pre1, f.description, post1);
    let pre2 = pre1 + ssh_string(f.description);
    let post2 = extra;
    lemma_string_at(pre2, f.language_tag, post2);
    let pre3 = pre2 + ssh_string(f.language_tag);
}

/// DISCONNECT: the fields are read back, and bytes behind them are reported
/// as trailing.
pub proof fn lemma_disconnect_write_read(f: DisconnectFields, extra: Seq<u8>)
    requires
        fits_u32(f.description),
        fits_u32(f.language_tag),
    ensures
        disconnect_read(disconnect_bytes(f)) == Ok::<DisconnectFields, MessageError>(f),
        extra.len() > 0 ==> disconnect_read(disconnect_bytes(f) + extra) == Err::<DisconnectFields, MessageError>(
            MessageError::TrailingBytes { count: extra.len() as usize },
        ),
{
    lemma_disconnect_fields_at(f, Seq::empty());
    lemma_disconnect_fields_at(f, extra);
    assert(disconnect_bytes(f) + Seq::<u8>::empty() =~= disconnect_bytes(f));
}

/// DISCONNECT: a payload that decodes is the one its fields are written as.
pub proof fn lemma_disconnect_read_write(s: Seq<u8>)
    ensures
        disconnect_read(s) matches Ok(f) ==> disconnect_bytes(f) == s,
{
    if disconnect_read(s) is Ok {
        let f = disconnect_read(s)->Ok_0;
        let p0 = 1int;
        lemma_u32_was_at(s, p0);
        let p1 = p0 + 4;
        assert(s.subrange(p0, p1) =~= be32(f.reason_code));
        lemma_string_was_at(s, p1);
        let p2 = p1 + 4 + f.description.len();
        assert(s.subrange(p1, p2) =~= ssh_string(f.description));
        lemma_string_was_at(s, p2);
        let p3 = p2 + 4 + f.language_tag.len();
        assert(s.subrange(p2, p3) =~= ssh_string(f.language_tag));
        assert(disconnect_bytes(f) =~= s);
    }
}

/// DISCONNECT: no proper prefix of a message decodes.
pub proof fn lemma_disconnect_truncated(f: DisconnectFields, n: int)
    requires
        fits_u32(f.description),
        fits_u32(f.language_tag),
        0 <= n < disconnect_bytes(f).len(),
    ensures
        disconnect_read(disconnect_bytes(f).take(n)) is Err,
{
    let all = disconnect_bytes(f);
    let cut = all.take(n);
    lemma_disconnect_write_read(f, Seq::empty());
    if disconnect_read(cut) is Ok {
        let g = disconnect_read(cut)->Ok_0;
        lemma_disconnect_read_write(cut);
        lemma_disconnect_fits(cut);
        lemma_disconnect_write_read(g, all.skip(n));
        assert(cut + all.skip(n) =~= all);
    }
}

proof fn lemma_disconnect_fits(s: Seq<u8>)
    ensures
        disconnect_read(s) matches Ok(f) ==> fits_u32(f.description) && fits_u32(f.language_tag),
{
    if disconnect_read(s) is Ok {
        let f = disconnect_read(s)->Ok_0;
        let p0 = 1int;
        lemma_u32_was_at(s, p0);
        let p1 = p0 + 4;
        lemma_string_was_at(s, p1);
        let p2 = p1 + 4 + f.description.len();
        lemma_string_was_at(s, p2);
        let p3 = p2 + 4 + f.language_tag.len();
    }
}

proof fn lemma_debug_fields_at(f: DebugFields, extra: Seq<u8>)
    requires
        fits_u32(f.message),
        fits_u32(f.language_tag),
    ensures
        debug_read(debug_bytes(f) + extra) == at_end(debug_bytes(f) + extra, debug_bytes(f).len() as int, f),
{
    let s = debug_bytes(f) + extra;
    lemma_parts4(seq![DEBUG], seq![f.always_display_byte], ssh_string(f.message), ssh_string(f.language_tag), extra);
    let pre0 = seq![DEBUG];
    let post0 = ssh_string(f.message) + ssh_string(f.language_tag) + extra;
    lemma_u8_at(pre0, f.always_display_byte, post0);
    let pre1 = pre0 + seq![f.always_display_byte];
    let post1 = ssh_string(f.language_tag) + extra;
    lemma_string_at(pre1, f.message, post1);
    let pre2 = pre1 + ssh_string(f.message);
    let post2 = extra;
    lemma_string_at(pre2, f.language_tag, post2);
    let pre3 = pre2 + ssh_string(f.language_tag);
}

/// DEBUG: the fields are read back, and bytes behind them are reported
/// as trailing.
pub proof fn lemma_debug_write_read(f: DebugFields, extra: Seq<u8>)
    requires
        fits_u32(f.message),
        fits_u32(f.language_tag),
    ensures
        debug_read(debug_bytes(f)) == Ok::<DebugFields, MessageError>(f),
        extra.len() > 0 ==> debug_read(debug_bytes(f) + extra) == Err::<DebugFields, MessageError>(
            MessageError::TrailingBytes { count: extra.len() as usize },
        ),
{
    lemma_debug_fields_at(f, Seq::empty());
    lemma_debug_fields_at(f, extra);
    assert(debug_bytes(f) + Seq::<u8>::empty() =~= debug_bytes(f));
}

/// DEBUG: a payload that decodes is the one its fields are written as.
pub proof fn lemma_debug_read_write(s: Seq<u8>)
    ensures
        debug_read(s) matches Ok(f) ==> debug_bytes(f) == s,
{
    if debug_read(s) is Ok {
        let f = debug_read(s)->Ok_0;
        let p0 = 1int;
        let p1 = p0 + 1;
        assert(s.subrange(p0, p1) =~= seq![f.always_display_byte]);
        lemma_string_was_at(s, p1);
        let p2 = p1 + 4 + f.message.len();
        assert(s.subrange(p1, p2) =~= ssh_string(f.message));
        lemma_string_was_at(s, p2);
        let p3 = p2 + 4 + f.language_tag.len();
        assert(s.subrange(p2, p3) =~= ssh_string(f.language_tag));
        assert(debug_bytes(f) =~= s);
    }
}

/// DEBUG: no proper prefix of a message decodes.
pub proof fn lemma_debug_truncated(f: DebugFields, n: int)
    requires
        fits_u32(f.message),
        fits_u32(f.language_tag),
        0 <= n < debug_bytes(f).len(),
    ensures
        debug_read(debug_bytes(f).take(n)) is Err,
{
    let all = debug_bytes(f);
    let cut = all.take(n);
    lemma_debug_write_read(f, Seq::empty());
    if debug_read(cut) is Ok {
        let g = debug_read(cut)->Ok_0;
        lemma_debug_read_write(cut);
        lemma_debug_fits(cut);
        lemma_debug_write_read(g, all.skip(n));
        assert(cut + all.skip(n) =~= all);
    }
}

proof fn lemma_debug_fits(s: Seq<u8>)
    ensures
        debug_read(s) matches Ok(f) ==> fits_u32(f.message) && fits_u32(f.language_tag),
{
    if debug_read(s) is Ok {
        let f = debug_read(s)->Ok_0;
        let p0 = 1int;
        let p1 = p0 + 1;
        lemma_string_was_at(s, p1);
        let p2 = p1 + 4 + f.message.len();
        lemma_string_was_at(s, p2);
        let p3 = p2 + 4 + f.language_tag.len();
    }
}

proof fn lemma_channel_open_fields_at(f: ChannelOpenFields, extra: Seq<u8>)
    requires
        fits_u32(f.channel_type),
    ensures
        channel_open_read(channel_open_bytes(f) + extra) == Ok::<ChannelOpenFields, MessageError>(
            ChannelOpenFields { type_specific: f.type_specific + extra, ..f },
        ),
{
    let s = channel_open_bytes(f) + extra;
    lemma_parts6(seq![CHANNEL_OPEN], ssh_string(f.channel_type), be32(f.sender_channel), be32(f.initial_window_size), be32(f.maximum_packet_size), f.type_specific, extra);
    let pre0 = seq![CHANNEL_OPEN];
    let post0 = be32(f.sender_channel) + be32(f.initial_window_size) + be32(f.maximum_packet_size) + f.type_specific + extra;
    lemma_string_at(pre0, f.channel_type, post0);
    let pre1 = pre0 + ssh_string(f.channel_type);
    let post1 = be32(f.initial_window_size) + be32(f.maximum_packet_size) + f.type_specific + extra;
    lemma_u32_at(pre1, f.sender_channel, post1);
    let pre2 = pre1 + be32(f.sender_channel);
    let post2 = be32(f.maximum_packet_size) + f.type_specific + extra;
    lemma_u32_at(pre2, f.initial_window_size, post2);
    let pre3 = pre2 + be32(f.initial_window_size);
    let post3 = f.type_specific + extra;
    lemma_u32_at(pre3, f.maximum_packet_size, post3);
    let pre4 = pre3 + be32(f.maximum_packet_size);
}

/// CHANNEL OPEN: the fields are read back, with whatever follows them as the tail.
pub proof fn lemma_channel_open_write_read(f: ChannelOpenFields, extra: Seq<u8>)
    requires
        fits_u32(f.channel_type),
    ensures
        channel_open_read(channel_open_bytes(f) + extra) == Ok::<ChannelOpenFields, MessageError>(
            ChannelOpenFields { type_specific: f.type_specific + extra, ..f },
        ),
        channel_open_read(channel_open_bytes(f)) == Ok::<ChannelOpenFields, MessageError>(f),
{
    lemma_channel_open_fields_at(f, Seq::empty());
    lemma_channel_open_fields_at(f, extra);
    assert(channel_open_bytes(f) + Seq::<u8>::empty() =~= channel_open_bytes(f));
    assert(f.type_specific + Seq::<u8>::empty() =~= f.type_specific);
}

/// CHANNEL OPEN: a payload that decodes is the one its fields are written as.
pub proof fn lemma_channel_open_read_write(s: Seq<u8>)
    ensures
        channel_open_read(s) matches Ok(f) ==> channel_open_bytes(f) == s,
{
    if channel_open_read(s) is Ok {
        let f = channel_open_read(s)->Ok_0;
        let p0 = 1int;
        lemma_string_was_at(s, p0);
        let p1 = p0 + 4 + f.channel_type.len();
        assert(s.subrange(p0, p1) =~= ssh_string(f.channel_type));
        lemma_u32_was_at(s, p1);
        let p2 = p1 + 4;
        assert(s.subrange(p1, p2) =~= be32(f.sender_channel));
        lemma_u32_was_at(s, p2);
        let p3 = p2 + 4;
        assert(s.subrange(p2, p3) =~= be32(f.initial_window_size));
        lemma_u32_was_at(s, p3);
        let p4 = p3 + 4;
        assert(s.subrange(p3, p4) =~= be32(f.maximum_packet_size));
        assert(channel_open_bytes(f) =~= s);
    }
}

proof fn lemma_channel_open_confirmation_fields_at(f: ChannelOpenConfirmationFields, extra: Seq<u8>)
    ensures
        channel_open_confirmation_read(channel_open_confirmation_bytes(f) + extra) == Ok::<ChannelOpenConfirmationFields, MessageError>(
            ChannelOpenConfirmationFields { type_specific: f.type_specific + extra, ..f },
        ),
{
    let s = channel_open_confirmation_bytes(f) + extra;
    lemma_parts6(seq![CHANNEL_OPEN_CONFIRMATION], be32(f.recipient_channel), be32(f.sender_channel), be32(f.initial_window_size), be32(f.maximum_packet_size), f.type_specific, extra);
    let pre0 = seq![CHANNEL_OPEN_CONFIRMATION];
    let post0 = be32(f.sender_channel) + be32(f.initial_window_size) + be32(f.maximum_packet_size) + f.type_specific + extra;
    lemma_u32_at(pre0, f.recipient_channel, post0);
    let pre1 = pre0 + be32(f.recipient_channel);
    let post1 = be32(f.initial_window_size) + be32(f.maximum_packet_size) + f.type_specific + extra;
    lemma_u32_at(pre1, f.sender_channel, post1);
    let pre2 = pre1 + be32(f.sender_channel);
    let post2 = be32(f.maximum_packet_size) + f.type_specific + extra;
    lemma_u32_at(pre2, f.initial_window_size, post2);
    let pre3 = pre2 + be32(f.initial_window_size);
    let post3 = f.type_specific + extra;
    lemma_u32_at(pre3, f.maximum_packet_size, post3);
    let pre4 = pre3 + be32(f.maximum_packet_size);
}

/// CHANNEL OPEN CONFIRMATION: the fields are read back, with whatever follows them as the tail.
pub proof fn lemma_channel_open_confirmation_write_read(f: ChannelOpenConfirmationFields, extra: Seq<u8>)
    ensures
        channel_open_confirmation_read(channel_open_confirmation_bytes(f) + extra) == Ok::<ChannelOpenConfirmationFields, MessageError>(
            ChannelOpenConfirmationFields { type_specific: f.type_specific + extra, ..f },
        ),
        channel_open_confirmation_read(channel_open_confirmation_bytes(f)) == Ok::<ChannelOpenConfirmationFields, MessageError>(f),
{
    lemma_channel_open_confirmation_fields_at(f, Seq::empty());
    lemma_channel_open_confirmation_fields_at(f, extra);
    assert(channel_open_confirmation_bytes(f) + Seq::<u8>::empty() =~= channel_open_confirmation_bytes(f));
    assert(f.type_specific + Seq::<u8>::empty() =~= f.type_specific);
}

/// CHANNEL OPEN CONFIRMATION: a payload that decodes is the one its fields are written as.
pub proof fn lemma_channel_open_confirmation_read_write(s: Seq<u8>)
    ensures
        channel_open_confirmation_read(s) matches Ok(f) ==> channel_open_confirmation_bytes(f) == s,
{
    if channel_open_confirmation_read(s) is Ok {
        let f = channel_open_confirmation_read(s)->Ok_0;
        let p0 = 1int;
        lemma_u32_was_at(s, p0);
        let p1 = p0 + 4;
        assert(s.subrange(p0, p1) =~= be32(f.recipient_channel));
        lemma_u32_was_at(s, p1);
        let p2 = p1 + 4;
        assert(s.subrange(p1, p2) =~= be32(f.sender_channel));
        lemma_u32_was_at(s, p2);
        let p3 = p2 + 4;
        assert(s.subrange(p2, p3) =~= be32(f.initial_window_size));
        lemma_u32_was_at(s, p3);
        let p4 = p3 + 4;
        assert(s.subrange(p3, p4) =~= be32(f.maximum_packet_size));
        assert(channel_open_confirmation_bytes(f) =~= s);
    }
}

proof fn lemma_channel_open_failure_fields_at(f: ChannelOpenFailureFields, extra: Seq<u8>)
    requires
        fits_u32(f.description),
        fits_u32(f.language_tag),
    ensures
        channel_open_failure_read(channel_open_failure_bytes(f) + extra) == at_end(channel_open_failure_bytes(f) + extra, channel_open_failure_bytes(f).len() as int, f),
{
    let s = channel_open_failure_bytes(f) + extra;
    lemma_parts5(seq![CHANNEL_OPEN_FAILURE], be32(f.recipient_channel), be32(f.reason_code), ssh_string(f.description), ssh_string(f.language_tag), extra);
    let pre0 = seq![CHANNEL_OPEN_FAILURE];
    let post0 = be32(f.reason_code) + ssh_string(f.description) + ssh_string(f.language_tag) + extra;
    lemma_u32_at(pre0, f.recipient_channel, post0);
    let pre1 = pre0 + be32(f.recipient_channel);
    let post1 = ssh_string(f.description) + ssh_string(f.language_tag) + extra;
    lemma_u32_at(pre1, f.reason_code, post1);
    let pre2 = pre1 + be32(f.reason_code);
    let post2 = ssh_string(f.language_tag) + extra;
    lemma_string_at(pre2, f.description, post2);
    let pre3 = pre2 + ssh_string(f.description);
    let post3 = extra;
    lemma_string_at(pre3, f.language_tag, post3);
    let pre4 = pre3 + ssh_string(f.language_tag);
}

/// CHANNEL OPEN FAILURE: the fields are read back, and bytes behind them are reported
/// as trailing.
pub proof fn lemma_channel_open_failure_write_read(f: ChannelOpenFailureFields, extra: Seq<u8>)
    requires
        fits_u32(f.description),
        fits_u32(f.language_tag),
    ensures
        channel_open_failure_read(channel_open_failure_bytes(f)) == Ok::<ChannelOpenFailureFields, MessageError>(f),
        extra.len() > 0 ==> channel_open_failure_read(channel_open_failure_bytes(f) + extra) == Err::<ChannelOpenFailureFields, MessageError>(
            MessageError::TrailingBytes { count: extra.len() as usize },
        ),
{
    lemma_channel_open_failure_fields_at(f, Seq::empty());
    lemma_channel_open_failure_fields_at(f, extra);
    assert(channel_open_failure_bytes(f) + Seq::<u8>::empty() =~= channel_open_failure_bytes(f));
}

/// CHANNEL OPEN FAILURE: a payload that decodes is the one its fields are written as.
pub proof fn lemma_channel_open_failure_read_write(s: Seq<u8>)
    ensures
        channel_open_failure_read(s) matches Ok(f) ==> channel_open_failure_bytes(f) == s,
{
    if channel_open_failure_read(s) is Ok {
        let f = channel_open_failure_read(s)->Ok_0;
        let p0 = 1int;
        lemma_u32_was_at(s, p0);
        let p1 = p0 + 4;
        assert(s.subrange(p0, p1) =~= be32(f.recipient_channel));
        lemma_u32_was_at(s, p1);
        let p2 = p1 + 4;
        assert(s.subrange(p1, p2) =~= be32(f.reason_code));
        lemma_string_was_at(s, p2);
        let p3 = p2 + 4 + f.description.len();
        assert(s.subrange(p2, p3) =~= ssh_string(f.description));
        lemma_string_was_at(s, p3);
        let p4 = p3 + 4 + f.language_tag.len();
        assert(s.subrange(p3, p4) =~= ssh_string(f.language_tag));
        assert(channel_open_failure_bytes(f) =~= s);
    }
}

/// CHANNEL OPEN FAILURE: no proper prefix of a message decodes.
pub proof fn lemma_channel_open_failure_truncated(f: ChannelOpenFailureFields, n: int)
    requires
        fits_u32(f.description),
        fits_u32(f.language_tag),
        0 <= n < channel_open_failure_bytes(f).len(),
    ensures
        channel_open_failure_read(channel_open_failure_bytes(f).take(n)) is Err,
{
    let all = channel_open_failure_bytes(f);
    let cut = all.take(n);
    lemma_channel_open_failure_write_read(f, Seq::empty());
    if channel_open_failure_read(cut) is Ok {
        let g = channel_open_failure_read(cut)->Ok_0;
        lemma_channel_open_failure_read_write(cut);
        lemma_channel_open_failure_fits(cut);
        lemma_channel_open_failure_write_read(g, all.skip(n));
        assert(cut + all.skip(n) =~= all);
    }
}

proof fn lemma_channel_open_failure_fits(s: Seq<u8>)
    ensures
        channel_open_failure_read(s) matches Ok(f) ==> fits_u32(f.description) && fits_u32(f.language_tag),
{
    if channel_open_failure_read(s) is Ok {
        let f = channel_open_failure_read(s)->Ok_0;
        let p0 = 1int;
        lemma_u32_was_at(s, p0);
        let p1 = p0 + 4;
        lemma_u32_was_at(s, p1);
        let p2 = p1 + 4;
        lemma_string_was_at(s, p2);
        let p3 = p2 + 4 + f.description.len();
        lemma_string_was_at(s, p3);
        let p4 = p3 + 4 + f.language_tag.len();
    }
}

/// IGNORE: the data is read back, and bytes behind it are reported as
/// trailing.
pub proof fn lemma_ignore_write_read(data: Seq<u8>, extra: Seq<u8>)
    requires
        fits_u32(data),
    ensures
        ignore_read(ignore_bytes(data)) == Ok::<Seq<u8>, MessageError>(data),
        extra.len() > 0 ==> ignore_read(ignore_bytes(data) + extra) == Err::<Seq<u8>, MessageError>(
            MessageError::TrailingBytes { count: extra.len() as usize },
        ),
    decreases extra.len(),
{
    if extra.len() > 0 {
        lemma_ignore_write_read(data, Seq::empty());
    } else {
        assert(ignore_bytes(data) + extra =~= ignore_bytes(data));
    }
    let s = ignore_bytes(data) + extra;
    assert(s =~= seq![IGNORE] + ssh_string(data) + extra);
    lemma_string_at(seq![IGNORE], data, extra);
}

/// IGNORE: a payload that decodes is the one its data is written as.
pub proof fn lemma_ignore_read_write(s: Seq<u8>)
    ensures
        ignore_read(s) matches Ok(data) ==> ignore_bytes(data) == s && fits_u32(data),
{
    if ignore_read(s) is Ok {
        lemma_string_was_at(s, 1);
        let data = ignore_read(s)->Ok_0;
        assert(s.subrange(1, s.len() as int) =~= ssh_string(data));
        assert(ignore_bytes(data) =~= s);
    }
}

/// IGNORE: no proper prefix of a message decodes.
pub proof fn lemma_ignore_truncated(data: Seq<u8>, n: int)
    requires
        fits_u32(data),
        0 <= n < ignore_bytes(data).len(),
    ensures
        ignore_read(ignore_bytes(data).take(n)) is Err,
{
    let all = ignore_bytes(data);
    let cut = all.take(n);
    lemma_ignore_write_read(data, Seq::empty());
    lemma_ignore_read_write(cut);
    if ignore_read(cut) is Ok {
        lemma_ignore_write_read(ignore_read(cut)->Ok_0, all.skip(n));
        assert(cut + all.skip(n) =~= all);
    }
}

/// UNIMPLEMENTED: the number is read back, bytes behind it are reported as
/// trailing, and no proper prefix decodes.
pub proof fn lemma_unimplemented_write_read(v: u32, extra: Seq<u8>, n: int)
    requires
        0 <= n < 5,
    ensures
        unimplemented_read(unimplemented_bytes(v)) == Ok::<u32, MessageError>(v),
        extra.len() > 0 ==> unimplemented_read(unimplemented_bytes(v) + extra) == Err::<u32, MessageError>(
            MessageError::TrailingBytes { count: extra.len() as usize },
        ),
        unimplemented_read(unimplemented_bytes(v).take(n)) is Err,
    decreases extra.len(),
{
    if extra.len() > 0 {
        lemma_unimplemented_write_read(v, Seq::empty(), n);
    } else {
        assert(unimplemented_bytes(v) + extra =~= unimplemented_bytes(v));
    }
    let s = unimplemented_bytes(v) + extra;
    assert(s =~= seq![UNIMPLEMENTED] + be32(v) + extra);
    lemma_u32_at(seq![UNIMPLEMENTED], v, extra);
}

/// UNIMPLEMENTED: a payload that decodes is the one its number is written as.
pub proof fn lemma_unimplemented_read_write(s: Seq<u8>)
    ensures
        unimplemented_read(s) matches Ok(v) ==> unimplemented_bytes(v) == s,
{
    if unimplemented_read(s) is Ok {
        lemma_u32_was_at(s, 1);
        assert(unimplemented_bytes(unimplemented_read(s)->Ok_0) =~= s);
    }
}

proof fn lemma_lists_at(pre: Seq<u8>, names: Seq<Seq<Seq<u8>>>, i: int, post: Seq<u8>)
    requires
        0 <= i <= LIST_COUNT,
        names.len() == LIST_COUNT,
        forall|j: int| 0 <= j < LIST_COUNT ==> valid_names(#[trigger] names[j]) && fits_u32(joined(names[j])),
    ensures
        lists_read(pre + lists_bytes(names, i) + post, pre.len() as int, i) == Ok::<
            (Seq<Seq<Seq<u8>>>, int),
            MessageError,
        >((names.skip(i), pre.len() as int + lists_bytes(names, i).len())),
    decreases LIST_COUNT - i,
{
    let s = pre + lists_bytes(names, i) + post;
    if i < LIST_COUNT {
        let one = ssh_string(joined(names[i]));
        let rest = lists_bytes(names, i + 1);
        assert(s =~= pre + one + (rest + post));
        lemma_name_list_at(pre, names[i], rest + post);
        assert(s =~= (pre + one) + rest + post);
        lemma_lists_at(pre + one, names, i + 1, post);
        assert(seq![names[i]] + names.skip(i + 1) =~= names.skip(i));
    } else {
        assert(names.skip(i) =~= Seq::empty());
    }
}

/// KEXINIT: the fields are read back, and bytes behind them are reported as
/// trailing.
pub proof fn lemma_kexinit_write_read(f: KexInitFields, extra: Seq<u8>)
    requires
        kexinit_valid(f),
    ensures
        kexinit_read(kexinit_bytes(f)) == Ok::<KexInitFields, MessageError>(f),
        extra.len() > 0 ==> kexinit_read(kexinit_bytes(f) + extra) == Err::<KexInitFields, MessageError>(
            MessageError::TrailingBytes { count: extra.len() as usize },
        ),
    decreases extra.len(),
{
    if extra.len() > 0 {
        lemma_kexinit_write_read(f, Seq::empty());
    } else {
        assert(kexinit_bytes(f) + extra =~= kexinit_bytes(f));
    }
    let s = kexinit_bytes(f) + extra;
    let pre1 = seq![KEXINIT] + f.cookie;
    assert(s.subrange(1, 17) =~= f.cookie);
    let post1 = seq![f.first_byte] + be32(f.reserved) + extra;
    assert(s =~= pre1 + lists_bytes(f.names, 0) + post1);
    lemma_lists_at(pre1, f.names, 0, post1);
    assert(f.names.skip(0) =~= f.names);
    let pre2 = pre1 + lists_bytes(f.names, 0);
    assert(s =~= pre2 + seq![f.first_byte] + (be32(f.reserved) + extra));
    lemma_u8_at(pre2, f.first_byte, be32(f.reserved) + extra);
    let pre3 = pre2 + seq![f.first_byte];
    assert(s =~= pre3 + be32(f.reserved) + extra);
    lemma_u32_at(pre3, f.reserved, extra);
}

proof fn lemma_lists_were_at(s: Seq<u8>, pos: int, i: int, all: Seq<Seq<Seq<u8>>>)
    requires
        0 <= pos <= s.len(),
        0 <= i <= LIST_COUNT,
        all.len() == LIST_COUNT,
        lists_read(s, pos, i) matches Ok((names, p)) && names == all.skip(i),
    ensures
        lists_read(s, pos, i) matches Ok((names, p)) ==> p <= s.len() && p == pos + lists_bytes(all, i).len()
            && s.subrange(pos, p) == lists_bytes(all, i) && forall|j: int|
            i <= j < LIST_COUNT ==> valid_names(#[trigger] all[j]) && fits_u32(joined(all[j])),
    decreases LIST_COUNT - i,
{
    if i < LIST_COUNT {
        lemma_string_was_at(s, pos);
        let (body, mid) = read_string(s, pos)->Ok_0;
        lemma_parse_joins(body);
        let names = names_of(body)->Ok_0;
        let rest = lists_read(s, mid, i + 1)->Ok_0.0;
        assert(all.skip(i) == seq![names] + rest);
        assert(all[i] == all.skip(i)[0]);
        assert(all[i] == names);
        assert(rest =~= all.skip(i + 1)) by {
            assert forall|j: int| 0 <= j < rest.len() implies rest[j] == all.skip(i + 1)[j] by {
                assert((seq![names] + rest)[j + 1] == rest[j]);
                assert(all.skip(i)[j + 1] == all.skip(i + 1)[j]);
            }
            assert((seq![names] + rest).len() == 1 + rest.len());
        }
        lemma_lists_were_at(s, mid, i + 1, all);
        let p = lists_read(s, pos, i)->Ok_0.1;
        assert(s.subrange(pos, p) =~= s.subrange(pos, mid) + s.subrange(mid, p));
    } else {
        assert(s.subrange(pos, pos) =~= Seq::empty());
    }
}

proof fn lemma_lists_count(s: Seq<u8>, pos: int, i: int)
    requires
        0 <= i <= LIST_COUNT,
    ensures
        lists_read(s, pos, i) matches Ok((names, _)) ==> names.len() == LIST_COUNT - i,
    decreases LIST_COUNT - i,
{
    if i < LIST_COUNT {
        match read_name_list(s, pos) {
            Ok((_, _, p)) => {
                lemma_lists_count(s, p, i + 1);
            },
            Err(_) => {},
        }
    }
}

/// KEXINIT: a payload that decodes is the one its fields are written as, and
/// its fields are valid.
pub proof fn lemma_kexinit_read_write(s: Seq<u8>)
    ensures
        kexinit_read(s) matches Ok(f) ==> kexinit_valid(f) && kexinit_bytes(f) == s,
{
    if kexinit_read(s) is Ok {
        let f = kexinit_read(s)->Ok_0;
        assert(s.subrange(1, 17) =~= f.cookie);
        lemma_lists_count(s, 17, 0);
        assert(f.names.skip(0) =~= f.names);
        lemma_lists_were_at(s, 17, 0, f.names);
        let p2 = f.first_offset;
        lemma_u32_was_at(s, p2 + 1);
        assert(s.subrange(p2 + 1, p2 + 5) =~= be32(f.reserved));
        assert(kexinit_bytes(f) =~= s);
    }
}

/// KEXINIT: no proper prefix of a message decodes.
pub proof fn lemma_kexinit_truncated(f: KexInitFields, n: int)
    requires
        kexinit_valid(f),
        0 <= n < kexinit_bytes(f).len(),
    ensures
        kexinit_read(kexinit_bytes(f).take(n)) is Err,
{
    let all = kexinit_bytes(f);
    let cut = all.take(n);
    lemma_kexinit_write_read(f, Seq::empty());
    lemma_kexinit_read_write(cut);
    if kexinit_read(cut) is Ok {
        lemma_kexinit_write_read(kexinit_read(cut)->Ok_0, all.skip(n));
        assert(cut + all.skip(n) =~= all);
    }
}

} // verus!
