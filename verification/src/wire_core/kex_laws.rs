//! What writing and reading the key-exchange, service and extension messages
//! say about each other.

use vstd::prelude::*;
use crate::text::bytes_of;
use crate::wire_core::bytes::{be32, fits_u32, ssh_string};
use crate::wire_core::cursor::read_string;
use crate::wire_core::error::{DecodeError, Field, MessageError};
use crate::wire_core::kex_ref::{
    ecdh_reply_bytes, ecdh_reply_read, ext_header_read, ext_info_bytes, ext_info_verdict, newkeys_read,
    pair_read, pairs_bytes, pairs_fit, pairs_read, sig_algs_read, string_message_bytes, string_message_read,
    walk_verdict, ExtHeader, ExtInfoError, PairView, ReplyFields, EXT_INFO, KEX_ECDH_REPLY, NEWKEYS,
};
use crate::wire_core::laws::{lemma_string_at, lemma_string_was_at, lemma_u32_at, lemma_u32_was_at};
use crate::wire_core::namelist_ref::names_of;

verus! {

broadcast use crate::wire_core::bytes::lemma_be32_len;

/// A message with one string (KEX_ECDH_INIT, SERVICE_REQUEST, SERVICE_ACCEPT):
/// the string is read back, and bytes behind it are reported as trailing.
pub proof fn lemma_string_message_write_read(number: u8, field: Field, v: Seq<u8>, extra: Seq<u8>)
    requires
        fits_u32(v),
    ensures
        string_message_read(string_message_bytes(number, v), number, field) == Ok::<Seq<u8>, MessageError>(v),
        extra.len() > 0 ==> string_message_read(string_message_bytes(number, v) + extra, number, field) == Err::<
            Seq<u8>,
            MessageError,
        >(MessageError::TrailingBytes { count: extra.len() as usize }),
    decreases extra.len(),
{
    if extra.len() > 0 {
        lemma_string_message_write_read(number, field, v, Seq::empty());
    } else {
        assert(string_message_bytes(number, v) + extra =~= string_message_bytes(number, v));
    }
    let s = string_message_bytes(number, v) + extra;
    assert(s =~= seq![number] + ssh_string(v) + extra);
    lemma_string_at(seq![number], v, extra);
}

/// A message with one string: a payload that decodes is the one its string is
/// written as.
pub proof fn lemma_string_message_read_write(number: u8, field: Field, s: Seq<u8>)
    ensures
        string_message_read(s, number, field) matches Ok(v) ==> string_message_bytes(number, v) == s && fits_u32(v),
{
    if string_message_read(s, number, field) is Ok {
        lemma_string_was_at(s, 1);
        let v = string_message_read(s, number, field)->Ok_0;
        assert(s.subrange(1, s.len() as int) =~= ssh_string(v));
        assert(string_message_bytes(number, v) =~= s);
    }
}

/// A message with one string: no proper prefix decodes.
pub proof fn lemma_string_message_truncated(number: u8, field: Field, v: Seq<u8>, n: int)
    requires
        fits_u32(v),
        0 <= n < string_message_bytes(number, v).len(),
    ensures
        string_message_read(string_message_bytes(number, v).take(n), number, field) is Err,
{
    let all = string_message_bytes(number, v);
    let cut = all.take(n);
    lemma_string_message_write_read(number, field, v, Seq::empty());
    lemma_string_message_read_write(number, field, cut);
    if string_message_read(cut, number, field) is Ok {
        lemma_string_message_write_read(number, field, string_message_read(cut, number, field)->Ok_0, all.skip(n));
        assert(cut + all.skip(n) =~= all);
    }
}

/// NEWKEYS is its number alone: anything behind it is trailing.
pub proof fn lemma_newkeys(extra: Seq<u8>)
    ensures
        newkeys_read(seq![NEWKEYS]) == Ok::<(), MessageError>(()),
        extra.len() > 0 ==> newkeys_read(seq![NEWKEYS] + extra) == Err::<(), MessageError>(
            MessageError::TrailingBytes { count: extra.len() as usize },
        ),
{
}

/// The fields of a KEX_ECDH_REPLY fit their length fields.
pub open spec fn reply_fits(f: ReplyFields) -> bool {
    fits_u32(f.k_s) && fits_u32(f.q_s) && fits_u32(f.signature)
}

proof fn lemma_reply_fields_at(f: ReplyFields, extra: Seq<u8>)
    requires
        reply_fits(f),
    ensures
        ({
            let s = ecdh_reply_bytes(f) + extra;
            let p1 = 5 + f.k_s.len() as int;
            let p2 = p1 + 4 + f.q_s.len() as int;
            let p3 = p2 + 4 + f.signature.len() as int;
            &&& read_string(s, 1) == Ok::<(Seq<u8>, int), DecodeError>((f.k_s, p1))
            &&& read_string(s, p1) == Ok::<(Seq<u8>, int), DecodeError>((f.q_s, p2))
            &&& read_string(s, p2) == Ok::<(Seq<u8>, int), DecodeError>((f.signature, p3))
            &&& s.len() == p3 + extra.len()
        }),
{
    let a = seq![KEX_ECDH_REPLY];
    let b = ssh_string(f.k_s);
    let c = ssh_string(f.q_s);
    let d = ssh_string(f.signature);
    let s = ecdh_reply_bytes(f) + extra;
    assert(s =~= a + b + (c + d + extra));
    lemma_string_at(a, f.k_s, c + d + extra);
    assert(s =~= (a + b) + c + (d + extra));
    lemma_string_at(a + b, f.q_s, d + extra);
    assert(s =~= (a + b + c) + d + extra);
    lemma_string_at(a + b + c, f.signature, extra);
}

/// KEX_ECDH_REPLY: the fields are read back, and bytes behind them are
/// reported as trailing.
pub proof fn lemma_reply_write_read(f: ReplyFields, extra: Seq<u8>)
    requires
        reply_fits(f),
    ensures
        ecdh_reply_read(ecdh_reply_bytes(f)) == Ok::<ReplyFields, MessageError>(f),
        extra.len() > 0 ==> ecdh_reply_read(ecdh_reply_bytes(f) + extra) == Err::<ReplyFields, MessageError>(
            MessageError::TrailingBytes { count: extra.len() as usize },
        ),
{
    lemma_reply_fields_at(f, Seq::empty());
    assert(ecdh_reply_bytes(f) + Seq::<u8>::empty() =~= ecdh_reply_bytes(f));
    lemma_reply_fields_at(f, extra);
}

/// KEX_ECDH_REPLY: a payload that decodes is the one its fields are written
/// as.
pub proof fn lemma_reply_read_write(s: Seq<u8>)
    ensures
        ecdh_reply_read(s) matches Ok(f) ==> ecdh_reply_bytes(f) == s && reply_fits(f),
{
    if ecdh_reply_read(s) is Ok {
        let f = ecdh_reply_read(s)->Ok_0;
        lemma_string_was_at(s, 1);
        let p1 = 5 + f.k_s.len() as int;
        lemma_string_was_at(s, p1);
        let p2 = p1 + 4 + f.q_s.len() as int;
        lemma_string_was_at(s, p2);
        assert(s.subrange(1, p1) =~= ssh_string(f.k_s));
        assert(s.subrange(p1, p2) =~= ssh_string(f.q_s));
        assert(s.subrange(p2, s.len() as int) =~= ssh_string(f.signature));
        assert(ecdh_reply_bytes(f) =~= s);
    }
}

/// KEX_ECDH_REPLY: no proper prefix decodes.
pub proof fn lemma_reply_truncated(f: ReplyFields, n: int)
    requires
        reply_fits(f),
        0 <= n < ecdh_reply_bytes(f).len(),
    ensures
        ecdh_reply_read(ecdh_reply_bytes(f).take(n)) is Err,
{
    let all = ecdh_reply_bytes(f);
    let cut = all.take(n);
    lemma_reply_write_read(f, Seq::empty());
    lemma_reply_read_write(cut);
    if ecdh_reply_read(cut) is Ok {
        lemma_reply_write_read(ecdh_reply_read(cut)->Ok_0, all.skip(n));
        assert(cut + all.skip(n) =~= all);
    }
}

/// The pairs as the walk yields them.
pub open spec fn all_ok(pairs: Seq<PairView>) -> Seq<Result<PairView, MessageError>> {
    Seq::new(pairs.len(), |i: int| Ok(pairs[i]))
}

/// The names in the first `server-sig-algs` from the `i`-th pair on.
pub open spec fn first_sig_algs(pairs: Seq<PairView>, i: int) -> Option<Result<Seq<Seq<u8>>, ExtInfoError>>
    decreases pairs.len() - i,
{
    if i >= pairs.len() {
        None
    } else if pairs[i].0 == bytes_of("server-sig-algs") {
        match names_of(pairs[i].1) {
            Ok(names) => Some(Ok(names)),
            Err(e) => Some(Err(ExtInfoError::InvalidServerSigAlgs(e))),
        }
    } else {
        first_sig_algs(pairs, i + 1)
    }
}

proof fn lemma_pair_at(pre: Seq<u8>, p: PairView, post: Seq<u8>)
    requires
        fits_u32(p.0),
        fits_u32(p.1),
    ensures
        pair_read(pre + ssh_string(p.0) + ssh_string(p.1) + post, pre.len() as int) == Ok::<
            (PairView, int),
            MessageError,
        >((p, pre.len() as int + 8 + p.0.len() + p.1.len())),
{
    let s = pre + ssh_string(p.0) + ssh_string(p.1) + post;
    assert(s =~= pre + ssh_string(p.0) + (ssh_string(p.1) + post));
    lemma_string_at(pre, p.0, ssh_string(p.1) + post);
    lemma_string_at(pre + ssh_string(p.0), p.1, post);
}

proof fn lemma_pairs_len(pairs: Seq<PairView>, i: int)
    requires
        0 <= i <= pairs.len(),
    ensures
        pairs_bytes(pairs, i).len() >= 8 * (pairs.len() - i),
    decreases pairs.len() - i,
{
    if i < pairs.len() {
        lemma_pairs_len(pairs, i + 1);
    }
}

/// What a walk over written pairs finds, with one pair too many claimed or
/// not.
proof fn lemma_walk(pre: Seq<u8>, pairs: Seq<PairView>, i: int, post: Seq<u8>, h: ExtHeader)
    requires
        0 <= i <= pairs.len(),
        pairs_fit(pairs),
        h.count == pairs.len() || (h.count == pairs.len() + 1 && post.len() == 0),
    ensures
        ({
            let s = pre + pairs_bytes(pairs, i) + post;
            let pos = pre.len() as int;
            let n = pairs.len() as int;
            &&& pairs_read(s, pos, n - i) == all_ok(pairs.skip(i))
            &&& h.count == n ==> walk_verdict(s, pos, h, i) == if post.len() == 0 {
                Ok::<usize, ExtInfoError>(h.count)
            } else {
                Err::<usize, ExtInfoError>(
                    ExtInfoError::Message(MessageError::TrailingBytes { count: post.len() as usize }),
                )
            }
            &&& h.count == n ==> sig_algs_read(s, pos, n - i) == first_sig_algs(pairs, i)
            &&& h.count == n + 1 ==> walk_verdict(s, pos, h, i) == Err::<usize, ExtInfoError>(
                ExtInfoError::CountMismatch { claimed: h.claimed, found: n as usize },
            )
            &&& h.count == n + 1 ==> pairs_read(s, pos, n + 1 - i) == all_ok(pairs.skip(i)).push(
                Err(
                    MessageError::Field {
                        field: Field::ExtensionName,
                        offset: s.len() as usize,
                        error: DecodeError::Truncated { needed: 4, available: 0 },
                    },
                ),
            )
        }),
    decreases pairs.len() - i,
{
    let s = pre + pairs_bytes(pairs, i) + post;
    let pos = pre.len() as int;
    let n = pairs.len() as int;
    if i == n {
        assert(s =~= pre + post);
        assert(all_ok(pairs.skip(i)) =~= Seq::empty());
        if h.count == n + 1 {
            let e = MessageError::Field {
                field: Field::ExtensionName,
                offset: s.len() as usize,
                error: DecodeError::Truncated { needed: 4, available: 0 },
            };
            assert(pair_read(s, pos) == Err::<(PairView, int), MessageError>(e));
            assert(pairs_read(s, pos, 1) =~= seq![Err::<PairView, MessageError>(e)]);
            assert(all_ok(pairs.skip(i)).push(Err(e)) =~= seq![Err::<PairView, MessageError>(e)]);
        }
    } else {
        let p = pairs[i];
        assert(fits_u32(p.0) && fits_u32(p.1));
        let front = pre + ssh_string(p.0) + ssh_string(p.1);
        let rest = pairs_bytes(pairs, i + 1);
        assert(s =~= front + rest + post);
        assert(s =~= pre + ssh_string(p.0) + ssh_string(p.1) + (rest + post));
        lemma_pair_at(pre, p, rest + post);
        lemma_walk(front, pairs, i + 1, post, h);
        assert(front.len() == pos + 8 + p.0.len() + p.1.len());
        assert(all_ok(pairs.skip(i)) =~= seq![Ok::<PairView, MessageError>(p)] + all_ok(pairs.skip(i + 1)));
        if h.count == n + 1 {
            let e = MessageError::Field {
                field: Field::ExtensionName,
                offset: s.len() as usize,
                error: DecodeError::Truncated { needed: 4, available: 0 },
            };
            assert(all_ok(pairs.skip(i)).push(Err(e)) =~= seq![Ok::<PairView, MessageError>(p)] + all_ok(
                pairs.skip(i + 1),
            ).push(Err(e)));
        }
    }
}

proof fn lemma_header_at(claimed: u32, body: Seq<u8>)
    ensures
        ({
            let s = seq![EXT_INFO] + be32(claimed) + body;
            ext_header_read(s) == if claimed > body.len() / 8 {
                Err::<ExtHeader, MessageError>(
                    MessageError::Field {
                        field: Field::ExtensionCount,
                        offset: 1,
                        error: DecodeError::LengthOverflow { claimed, available: body.len() as usize },
                    },
                )
            } else {
                Ok::<ExtHeader, MessageError>(ExtHeader { claimed, count: claimed as usize })
            }
        }),
{
    lemma_u32_at(seq![EXT_INFO], claimed, body);
}

/// EXT_INFO: of a written message the header gives the count, the walk gives
/// the pairs in order, whatever follows them; the limit refuses exactly the
/// messages with more pairs; bytes behind the last pair are reported as
/// trailing; and the first `server-sig-algs` decides.
pub proof fn lemma_ext_info_write_read(pairs: Seq<PairView>, extra: Seq<u8>, max: usize)
    requires
        pairs_fit(pairs),
        pairs.len() <= usize::MAX,
    ensures
        ({
            let s = ext_info_bytes(pairs) + extra;
            let n = pairs.len();
            let h = ExtHeader { claimed: n as u32, count: n as usize };
            &&& ext_header_read(s) == Ok::<ExtHeader, MessageError>(h)
            &&& pairs_read(s, 5, n as int) == all_ok(pairs)
            &&& sig_algs_read(s, 5, n as int) == first_sig_algs(pairs, 0)
            &&& ext_info_verdict(s, h, max) == if n > max {
                Err::<usize, ExtInfoError>(ExtInfoError::TooManyExtensions { claimed: n as u32, max })
            } else if extra.len() == 0 {
                Ok::<usize, ExtInfoError>(n as usize)
            } else {
                Err::<usize, ExtInfoError>(
                    ExtInfoError::Message(MessageError::TrailingBytes { count: extra.len() as usize }),
                )
            }
        }),
{
    let n = pairs.len();
    let h = ExtHeader { claimed: n as u32, count: n as usize };
    let s = ext_info_bytes(pairs) + extra;
    let head = seq![EXT_INFO] + be32(n as u32);
    assert(s =~= head + (pairs_bytes(pairs, 0) + extra));
    assert(s =~= head + pairs_bytes(pairs, 0) + extra);
    lemma_pairs_len(pairs, 0);
    lemma_header_at(n as u32, pairs_bytes(pairs, 0) + extra);
    lemma_walk(head, pairs, 0, extra, h);
    assert(pairs.skip(0) =~= pairs);
}

/// EXT_INFO: a count of one more than the pairs that are there is refused by
/// the header where it cannot fit, and otherwise found at the end, after the
/// pairs that are there.
pub proof fn lemma_ext_info_count_over(pairs: Seq<PairView>, max: usize)
    requires
        pairs_fit(pairs),
        pairs.len() < max,
    ensures
        ({
            let body = pairs_bytes(pairs, 0);
            let n = pairs.len();
            let claimed = (n + 1) as u32;
            let s = seq![EXT_INFO] + be32(claimed) + body;
            let h = ExtHeader { claimed, count: claimed as usize };
            &&& claimed > body.len() / 8 ==> ext_header_read(s) == Err::<ExtHeader, MessageError>(
                MessageError::Field {
                    field: Field::ExtensionCount,
                    offset: 1,
                    error: DecodeError::LengthOverflow { claimed, available: body.len() as usize },
                },
            )
            &&& claimed <= body.len() / 8 ==> ext_header_read(s) == Ok::<ExtHeader, MessageError>(h)
            &&& ext_info_verdict(s, h, max) == Err::<usize, ExtInfoError>(
                ExtInfoError::CountMismatch { claimed, found: n as usize },
            )
            &&& pairs_read(s, 5, n as int + 1) == all_ok(pairs).push(
                Err(
                    MessageError::Field {
                        field: Field::ExtensionName,
                        offset: s.len() as usize,
                        error: DecodeError::Truncated { needed: 4, available: 0 },
                    },
                ),
            )
        }),
{
    let body = pairs_bytes(pairs, 0);
    let n = pairs.len();
    let claimed = (n + 1) as u32;
    let head = seq![EXT_INFO] + be32(claimed);
    let h = ExtHeader { claimed, count: claimed as usize };
    lemma_header_at(claimed, body);
    lemma_walk(head, pairs, 0, Seq::empty(), h);
    assert(head + body + Seq::<u8>::empty() =~= head + body);
    assert(pairs.skip(0) =~= pairs);
}

/// EXT_INFO: a count that the bytes behind it cannot hold is refused by the
/// header, before any pair is read.
pub proof fn lemma_ext_info_huge(claimed: u32, body: Seq<u8>)
    requires
        claimed > body.len() / 8,
    ensures
        ext_header_read(seq![EXT_INFO] + be32(claimed) + body) == Err::<ExtHeader, MessageError>(
            MessageError::Field {
                field: Field::ExtensionCount,
                offset: 1,
                error: DecodeError::LengthOverflow { claimed, available: body.len() as usize },
            },
        ),
{
    lemma_header_at(claimed, body);
}

proof fn lemma_pairs_shift(p: PairView, rest: Seq<PairView>, i: int)
    requires
        0 <= i <= rest.len(),
    ensures
        pairs_bytes(seq![p] + rest, i + 1) == pairs_bytes(rest, i),
    decreases rest.len() - i,
{
    if i < rest.len() {
        lemma_pairs_shift(p, rest, i + 1);
    }
}

proof fn lemma_walk_reads(s: Seq<u8>, pos: int, h: ExtHeader, found: int) -> (pairs: Seq<PairView>)
    requires
        0 <= pos <= s.len(),
        0 <= found <= h.count,
        walk_verdict(s, pos, h, found) is Ok,
    ensures
        pairs.len() == h.count - found,
        s.skip(pos) == pairs_bytes(pairs, 0),
        pairs_read(s, pos, h.count - found) == all_ok(pairs),
        forall|i: int| 0 <= i < pairs.len() ==> fits_u32((#[trigger] pairs[i]).0) && fits_u32(pairs[i].1),
    decreases h.count - found,
{
    if found == h.count {
        let none = Seq::<PairView>::empty();
        assert(s.skip(pos) =~= pairs_bytes(none, 0));
        assert(all_ok(none) =~= Seq::empty());
        none
    } else {
        let (p, end) = pair_read(s, pos)->Ok_0;
        let rest = lemma_walk_reads(s, end, h, found + 1);
        lemma_string_was_at(s, pos);
        lemma_string_was_at(s, pos + 4 + p.0.len());
        let pairs = seq![p] + rest;
        lemma_pairs_shift(p, rest, 0);
        assert(s.subrange(pos, pos + 4 + p.0.len()) =~= ssh_string(p.0));
        assert(s.subrange(pos + 4 + p.0.len(), end) =~= ssh_string(p.1));
        assert(s.skip(pos) =~= ssh_string(p.0) + ssh_string(p.1) + s.skip(end));
        assert(all_ok(pairs) =~= seq![Ok::<PairView, MessageError>(p)] + all_ok(rest));
        assert forall|i: int| 0 <= i < pairs.len() implies fits_u32((#[trigger] pairs[i]).0) && fits_u32(
            pairs[i].1,
        ) by {
            if i > 0 {
                assert(pairs[i] == rest[i - 1]);
            }
        }
        pairs
    }
}

/// EXT_INFO: a message that validates is the one its pairs are written as.
pub proof fn lemma_ext_info_read_write(s: Seq<u8>) -> (pairs: Seq<PairView>)
    requires
        ext_header_read(s) is Ok,
        ext_info_verdict(s, ext_header_read(s)->Ok_0, usize::MAX) is Ok,
        ext_header_read(s)->Ok_0.claimed < u32::MAX,
    ensures
        s == ext_info_bytes(pairs),
        pairs_fit(pairs),
        pairs_read(s, 5, pairs.len() as int) == all_ok(pairs),
{
    let h = ext_header_read(s)->Ok_0;
    lemma_u32_was_at(s, 1);
    let pairs = lemma_walk_reads(s, 5, h, 0);
    assert(s.subrange(1, 5) =~= be32(h.claimed));
    assert(s =~= seq![EXT_INFO] + be32(h.claimed) + s.skip(5));
    pairs
}

/// EXT_INFO: a proper prefix of a message does not validate: its header is
/// refused, or its pairs are.
pub proof fn lemma_ext_info_truncated(pairs: Seq<PairView>, n: int)
    requires
        pairs_fit(pairs),
        pairs.len() <= usize::MAX,
        0 <= n < ext_info_bytes(pairs).len(),
    ensures
        ({
            let cut = ext_info_bytes(pairs).take(n);
            ext_header_read(cut) matches Ok(h) ==> ext_info_verdict(cut, h, usize::MAX) is Err
        }),
{
    let all = ext_info_bytes(pairs);
    let cut = all.take(n);
    if ext_header_read(cut) is Ok && ext_info_verdict(cut, ext_header_read(cut)->Ok_0, usize::MAX) is Ok {
        lemma_ext_info_write_read(pairs, Seq::empty(), usize::MAX);
        assert(all + Seq::<u8>::empty() =~= all);
        lemma_u32_at(seq![EXT_INFO], pairs.len() as u32, pairs_bytes(pairs, 0));
        assert(cut.subrange(1, 5) =~= all.subrange(1, 5));
        let fewer = lemma_ext_info_read_write(cut);
        lemma_ext_info_write_read(fewer, all.skip(n), usize::MAX);
        assert(cut + all.skip(n) =~= all);
    }
}

} // verus!
