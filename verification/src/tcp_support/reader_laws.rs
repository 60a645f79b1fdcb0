//! What lines, packets and messages before key exchange are taken for.

use vstd::prelude::*;
use crate::seqs::{first_at, lemma_first_at};
use crate::tcp_support::ident_ref::{content_of, line_end, opening, RefIdent, RefReader, RefStep};
use crate::tcp_support::msg_ref::{
    anomalies_of, classified, kex_class, Model, ModelStep, Observed, ObservedView, RefKexInit, RefMessage, MessageView,
};
use crate::tcp_support::packet_ref::{framed, framing, lemma_framed_decodes, Framing};
use crate::tcp_support::stream_laws::{lemma_plain_line, plain_line};
use crate::tcp_support::types::{
    IdentError, InitialError, InitialLimits, InvalidIdentification, LineTerminator, PacketError,
    ProposalAnomaly, SkippedMessage, VersionSupport,
};
use crate::text::bytes_of;
use crate::wire_core::bytes::{be32, fits_u32, ssh_string, u32_of};
use crate::wire_core::error::Field;
use crate::wire_core::ident_ref::{forbidden_byte, has_forbidden, version_token};
use crate::wire_core::laws::lemma_kexinit_write_read;
use crate::wire_core::layouts::{lemma_debug_layout, lemma_disconnect_layout, lemma_short_layouts};
use crate::wire_core::messages_ref::{
    empty_required, kexinit_bytes, kexinit_valid, KexInitFields,
};

verus! {

/// The transport messages before KEXINIT: DISCONNECT is told with its fields,
/// IGNORE, UNIMPLEMENTED and DEBUG are skipped with what they say.
pub proof fn lemma_transport_classified(code: u32, a: Seq<u8>, b: Seq<u8>, flag: u8)
    requires
        fits_u32(a),
        fits_u32(b),
    ensures
        classified(seq![1u8] + be32(code) + ssh_string(a) + ssh_string(b)) == (MessageView::Disconnect {
            reason_code: code,
            description: a,
            language_tag: b,
        }),
        classified(seq![2u8] + ssh_string(a)) == MessageView::Skipped(
            SkippedMessage::Ignored { data_len: a.len() as usize },
        ),
        classified(seq![3u8] + be32(code)) == MessageView::Skipped(
            SkippedMessage::Unimplemented { sequence_number: code },
        ),
        classified(seq![4u8] + seq![flag] + ssh_string(a) + ssh_string(b)) == MessageView::Skipped(
            SkippedMessage::Debug { always_display: flag != 0, message: a, language_tag: b },
        ),
{
    lemma_disconnect_layout(code, a, b);
    lemma_short_layouts(a, code);
    lemma_debug_layout(flag, a, b);
}

/// KEXINIT is told with its cookie, its lists, its flag and its reserved field.
pub proof fn lemma_kexinit_classified(f: KexInitFields)
    requires
        kexinit_valid(f),
    ensures
        classified(kexinit_bytes(f)) matches RefMessage::KexInit(k) && k.cookie == f.cookie && k.lists == f.names
            && k.first_kex_packet_follows == (f.first_byte != 0) && k.reserved == f.reserved,
{
    lemma_kexinit_write_read(f, Seq::empty());
}

/// What any payload can be taken for: nothing for an empty one, a message of
/// the key exchange for NEWKEYS and for the numbers 30 to 49, and for every
/// other number that is none of DISCONNECT, IGNORE, UNIMPLEMENTED, DEBUG and
/// KEXINIT an unexpected one. Only those five can be malformed.
pub proof fn lemma_classes(p: Seq<u8>)
    ensures
        classified(p) is Empty <==> p.len() == 0,
        p.len() > 0 && (p[0] == 21 || 30 <= p[0] <= 49) <==> p.len() > 0 && classified(p)
            == MessageView::UnsupportedTransition(p[0]),
        p.len() > 0 && (p[0] == 0 || 5 <= p[0] <= 19 || 22 <= p[0] <= 29 || p[0] >= 50) <==> p.len() > 0 && classified(p)
            == MessageView::Unexpected(p[0]),
        classified(p) matches RefMessage::Malformed(n) ==> p[0] == n && (1 <= n <= 4 || n == 20),
        classified(p) is Disconnect ==> p[0] == 1,
        classified(p) matches RefMessage::Skipped(s) ==> (s is Ignored ==> p[0] == 2) && (s is Unimplemented ==> p[0] == 3)
            && (s is Debug ==> p[0] == 4),
        classified(p) is KexInit ==> p[0] == 20,
{
}

/// What an entry of `kex_algorithms` stands for: four markers, two of them
/// under two names, and methods.
pub proof fn lemma_kex_names(name: Seq<u8>)
    ensures
        kex_class(name) is ExtInfoClient <==> name == bytes_of("ext-info-c"),
        kex_class(name) is ExtInfoServer ==> name == bytes_of("ext-info-s"),
        kex_class(name) is StrictKexClient ==> name == bytes_of("kex-strict-c-v00@openssh.com") || name == bytes_of(
            "kex-strict-c",
        ),
        kex_class(name) is StrictKexServer ==> name == bytes_of("kex-strict-s-v00@openssh.com") || name == bytes_of(
            "kex-strict-s",
        ),
        kex_class(name) is Method <==> {
            &&& name != bytes_of("ext-info-c")
            &&& name != bytes_of("ext-info-s")
            &&& name != bytes_of("kex-strict-c-v00@openssh.com")
            &&& name != bytes_of("kex-strict-s-v00@openssh.com")
            &&& name != bytes_of("kex-strict-c")
            &&& name != bytes_of("kex-strict-s")
        },
{
}

/// The rules of the header, in their order: the cap, the least packet, the
/// alignment, then the padding. A packet that keeps to them is waited for, and
/// its payload stands between the fifth byte and the padding.
pub proof fn lemma_framing_rules(buf: Seq<u8>, cap: u32)
    requires
        buf.len() >= 5,
    ensures
        ({
            let n = u32_of(buf);
            let f = framing(buf, cap);
            &&& n > cap <==> f == Err::<Framing, PacketError>(PacketError::TooLarge { packet_length: n, limit: cap })
            &&& n <= cap && n < 12 <==> f == Err::<Framing, PacketError>(PacketError::TooSmall { packet_length: n })
            &&& n <= cap && n >= 12 && n % 8 != 4 <==> f == Err::<Framing, PacketError>(
                PacketError::Misaligned { packet_length: n },
            )
            &&& n <= cap && n >= 12 && n % 8 == 4 && (buf[4] < 4 || buf[4] >= n) <==> f == Err::<Framing, PacketError>(
                PacketError::BadPadding { packet_length: n, padding_length: buf[4] },
            )
            &&& n <= cap && n >= 12 && n % 8 == 4 && 4 <= buf[4] < n ==> f == Ok::<Framing, PacketError>(
                if buf.len() < n + 4 {
                    Framing::NeedMore { claimed: Some(n + 4) }
                } else {
                    Framing::Complete { payload_len: n - 1 - buf[4], total_len: n + 4 }
                },
            )
        }),
{
}

/// A packet at the front: the budget of packets is asked first, then the budget
/// of bytes, and only then what the packet holds. A packet that is counted
/// counts once, with all of its bytes.
pub proof fn lemma_packet_counted(m: Model, payload: Seq<u8>, pad: u8, rest: Seq<u8>, limits: InitialLimits)
    requires
        m.wf(limits),
        payload.len() <= u32::MAX - 16,
        framed(payload, pad).len() <= limits.max_packet_length + 4,
        framed(payload, pad).len() <= usize::MAX,
    ensures
        ({
            let n = framed(payload, pad).len();
            let buf = framed(payload, pad) + rest;
            let step = m.predicts(buf, limits);
            let fault = |e: InitialError| ModelStep::<ObservedView>::Observed(Observed::Error(e));
            if m.packets == limits.max_packets {
                step == fault(InitialError::PacketBudgetExceeded { limit: limits.max_packets }) && m.after(buf, limits) == m
            } else if m.bytes + n > limits.max_bytes {
                step == fault(InitialError::ByteBudgetExceeded { limit: limits.max_bytes }) && m.after(buf, limits) == m
            } else {
                &&& m.after(buf, limits).packets == m.packets + 1
                &&& m.after(buf, limits).bytes == m.bytes + n
                &&& match classified(payload) {
                    RefMessage::Empty => step == fault(InitialError::EmptyPayload),
                    RefMessage::Malformed(k) => step == ModelStep::<ObservedView>::Malformed(k),
                    RefMessage::UnsupportedTransition(number) => step == fault(
                        InitialError::UnsupportedTransition { number },
                    ),
                    RefMessage::Unexpected(number) => step == fault(InitialError::UnexpectedMessage { number }),
                    RefMessage::Skipped(message) => step matches ModelStep::Observed(
                        Observed::Skipped { message: got, consumed },
                    ) && got == message && consumed == n,
                    RefMessage::Disconnect { reason_code, description, language_tag } => step matches ModelStep::Observed(
                        Observed::Disconnect { reason_code: r, description: d, language_tag: l, consumed },
                    ) && r == reason_code && d == description && l == language_tag && consumed == n,
                    RefMessage::KexInit(k) => step matches ModelStep::Observed(
                        Observed::KexInit { kexinit, payload: p, consumed },
                    ) && p == payload && consumed == n && kexinit.cookie == k.cookie && kexinit.first_kex_packet_follows
                        == k.first_kex_packet_follows && kexinit.reserved == k.reserved,
                }
            }
        }),
{
    lemma_framed_decodes(payload, pad, rest, limits.max_packet_length);
    let f = framed(payload, pad);
    assert((f + rest).subrange(5, 5 + payload.len() as int) =~= f.subrange(5, 5 + payload.len() as int));
}

/// A reserved field that is not zero comes first among the anomalies, then each
/// required list without a name; the two lists of languages may be empty.
pub proof fn lemma_anomalies(k: RefKexInit<Seq<u8>, Seq<Seq<Seq<u8>>>>)
    requires
        k.lists.len() == 10,
    ensures
        anomalies_of(k).contains(ProposalAnomaly::NonzeroReserved(k.reserved)) == (k.reserved != 0),
        k.reserved != 0 ==> anomalies_of(k)[0] == ProposalAnomaly::NonzeroReserved(k.reserved),
        anomalies_of(k).contains(ProposalAnomaly::EmptyAlgorithmList(Field::KexAlgorithms)) == (k.lists[0].len() == 0),
        anomalies_of(k).contains(ProposalAnomaly::EmptyAlgorithmList(Field::ServerHostKeyAlgorithms)) == (
        k.lists[1].len() == 0),
        anomalies_of(k).contains(ProposalAnomaly::EmptyAlgorithmList(Field::EncryptionClientToServer)) == (
        k.lists[2].len() == 0),
        anomalies_of(k).contains(ProposalAnomaly::EmptyAlgorithmList(Field::EncryptionServerToClient)) == (
        k.lists[3].len() == 0),
        anomalies_of(k).contains(ProposalAnomaly::EmptyAlgorithmList(Field::MacClientToServer)) == (
        k.lists[4].len() == 0),
        anomalies_of(k).contains(ProposalAnomaly::EmptyAlgorithmList(Field::MacServerToClient)) == (
        k.lists[5].len() == 0),
        anomalies_of(k).contains(ProposalAnomaly::EmptyAlgorithmList(Field::CompressionClientToServer)) == (
        k.lists[6].len() == 0),
        anomalies_of(k).contains(ProposalAnomaly::EmptyAlgorithmList(Field::CompressionServerToClient)) == (
        k.lists[7].len() == 0),
        !anomalies_of(k).contains(ProposalAnomaly::EmptyAlgorithmList(Field::LanguagesClientToServer)),
        !anomalies_of(k).contains(ProposalAnomaly::EmptyAlgorithmList(Field::LanguagesServerToClient)),
{
    let front = if k.reserved != 0 {
        seq![ProposalAnomaly::NonzeroReserved(k.reserved)]
    } else {
        Seq::empty()
    };
    let fields = empty_required(k.lists, 0);
    let back = fields.map_values(|f: Field| ProposalAnomaly::EmptyAlgorithmList(f));
    let all = anomalies_of(k);
    assert(all == front + back);
    if k.reserved != 0 {
        assert(all[0] == ProposalAnomaly::NonzeroReserved(k.reserved));
    }
    assert forall|f: Field| all.contains(ProposalAnomaly::EmptyAlgorithmList(f)) == #[trigger] fields.contains(f) by {
        if fields.contains(f) {
            let i = choose|i: int| 0 <= i < fields.len() && fields[i] == f;
            assert(back[i] == ProposalAnomaly::EmptyAlgorithmList(f));
            assert(all[front.len() + i] == back[i]);
        }
        if all.contains(ProposalAnomaly::EmptyAlgorithmList(f)) {
            let i = choose|i: int| 0 <= i < all.len() && all[i] == ProposalAnomaly::EmptyAlgorithmList(f);
            assert(back[i - front.len()] == ProposalAnomaly::EmptyAlgorithmList(fields[i - front.len()]));
        }
    }
    lemma_empty_lists(k.lists, 0);
    assert(fields.contains(Field::KexAlgorithms) == (k.lists[0].len() == 0));
    assert(fields.contains(Field::ServerHostKeyAlgorithms) == (k.lists[1].len() == 0));
    assert(fields.contains(Field::EncryptionClientToServer) == (k.lists[2].len() == 0));
    assert(fields.contains(Field::EncryptionServerToClient) == (k.lists[3].len() == 0));
    assert(fields.contains(Field::MacClientToServer) == (k.lists[4].len() == 0));
    assert(fields.contains(Field::MacServerToClient) == (k.lists[5].len() == 0));
    assert(fields.contains(Field::CompressionClientToServer) == (k.lists[6].len() == 0));
    assert(fields.contains(Field::CompressionServerToClient) == (k.lists[7].len() == 0));
    assert(!fields.contains(Field::LanguagesClientToServer));
    assert(!fields.contains(Field::LanguagesServerToClient));
}

/// Where a list field of KEXINIT stands among the ten.
pub open spec fn list_index(f: Field) -> int {
    match f {
        Field::KexAlgorithms => 0,
        Field::ServerHostKeyAlgorithms => 1,
        Field::EncryptionClientToServer => 2,
        Field::EncryptionServerToClient => 3,
        Field::MacClientToServer => 4,
        Field::MacServerToClient => 5,
        Field::CompressionClientToServer => 6,
        Field::CompressionServerToClient => 7,
        Field::LanguagesClientToServer => 8,
        Field::LanguagesServerToClient => 9,
        _ => -1,
    }
}

proof fn lemma_empty_lists(lists: Seq<Seq<Seq<u8>>>, from: int)
    requires
        lists.len() == 10,
        0 <= from <= 8,
    ensures
        forall|f: Field| #[trigger]
            empty_required(lists, from).contains(f) == (from <= list_index(f) < 8 && lists[list_index(f)].len() == 0),
    decreases 8 - from,
{
    if from < 8 {
        lemma_empty_lists(lists, from + 1);
        let rest = empty_required(lists, from + 1);
        let all = empty_required(lists, from);
        if lists[from].len() == 0 {
            let one = crate::wire_core::messages_ref::list_field(from);
            assert(all == seq![one] + rest);
            assert(list_index(one) == from);
            assert forall|f: Field| #[trigger] all.contains(f) == (from <= list_index(f) < 8 && lists[list_index(
                f,
            )].len() == 0) by {
                if all.contains(f) {
                    let i = choose|i: int| 0 <= i < all.len() && all[i] == f;
                    if i > 0 {
                        assert(rest[i - 1] == f);
                        assert(rest.contains(f));
                    }
                }
                if rest.contains(f) {
                    let i = choose|i: int| 0 <= i < rest.len() && rest[i] == f;
                    assert(all[i + 1] == f);
                }
                if list_index(f) == from {
                    assert(all[0] == f);
                }
            }
        }
    }
}

/// What a line is taken for. One that starts with `SSH-` is the identification,
/// within its own limit; any other counts toward the prelude, whose limits are
/// asked in order: the length of the line, the number of lines, the bytes of
/// all of them. A counted line counts with its terminator.
pub proof fn lemma_line_taken(r: RefReader, line: Seq<u8>, t: LineTerminator, rest: Seq<u8>)
    requires
        plain_line(line),
        line.len() + 2 <= usize::MAX,
        r.wf(),
        r.bytes + line.len() + 2 <= usize::MAX,
    ensures
        ({
            let buf = line + t.bytes() + rest;
            let used = line.len() + if t is CrLf {
                2int
            } else {
                1
            };
            let got = r.feed_result(buf);
            let next = r.feed_next(buf);
            if line.len() >= 4 && line[0] == 83 && line[1] == 83 && line[2] == 72 && line[3] == 45 {
                &&& next == r
                &&& used > r.limits.max_identification_line <==> got == Err::<RefStep<Seq<u8>>, IdentError>(
                    IdentError::IdentificationTooLong,
                )
                &&& used <= r.limits.max_identification_line ==> match content_of(line, t) {
                    Ok(ident) => got == Ok::<RefStep<Seq<u8>>, IdentError>(
                        RefStep::Identification { ident, consumed: used as usize },
                    ),
                    Err(e) => got == Err::<RefStep<Seq<u8>>, IdentError>(e),
                }
            } else if used > r.limits.max_prelude_line {
                got == Err::<RefStep<Seq<u8>>, IdentError>(IdentError::PreludeLineTooLong) && next == r
            } else if r.lines == r.limits.max_prelude_lines {
                got == Err::<RefStep<Seq<u8>>, IdentError>(IdentError::TooManyPreludeLines) && next == r
            } else if r.bytes + used > r.limits.max_prelude_bytes {
                got == Err::<RefStep<Seq<u8>>, IdentError>(IdentError::PreludeBytesExceeded) && next == r
            } else {
                &&& got == Ok::<RefStep<Seq<u8>>, IdentError>(
                    RefStep::Prelude { line, terminator: t, consumed: used as usize },
                )
                &&& next.lines == r.lines + 1 && next.bytes == r.bytes + used && next.limits == r.limits
            }
        }),
{
    lemma_plain_line(line, t, rest);
    let buf = line + t.bytes() + rest;
    let p = seq![83u8, 83u8, 72u8, 45u8];
    if line.len() >= 4 {
        assert(buf.take(4) =~= line.take(4));
        if line[0] == 83 && line[1] == 83 && line[2] == 72 && line[3] == 45 {
            assert(buf.take(4) =~= p);
        } else {
            assert(buf.take(4)[0] == line[0] && buf.take(4)[1] == line[1] && buf.take(4)[2] == line[2] && buf.take(4)[3]
                == line[3]);
            assert(opening(buf) != Some(true));
        }
    } else {
        if opening(buf) == Some(true) {
            assert(buf.take(4)[line.len() as int] == buf[line.len() as int]);
            assert(buf[line.len() as int] == 13 || buf[line.len() as int] == 10);
        }
    }
    if let Err(e) = content_of(line, t) {
        assert(!(e is IdentificationTooLong));
    }
}

/// A regular identification is told by its parts: between the second and the
/// first dash the protocol version, behind it the software version up to the
/// first space, behind that the comments.
pub proof fn lemma_parts_told(
    pv: Seq<u8>,
    sv: Seq<u8>,
    comments: Option<Seq<u8>>,
    t: LineTerminator,
)
    requires
        version_token(pv),
        version_token(sv),
        comments matches Some(c) ==> !has_forbidden(c),
    ensures
        ({
            let line = seq![83u8, 83u8, 72u8, 45u8] + pv + seq![45u8] + sv + match comments {
                Some(c) => seq![32u8] + c,
                None => Seq::empty(),
            };
            let told = |support: VersionSupport| Ok::<RefIdent<Seq<u8>>, IdentError>(
                RefIdent {
                    line,
                    terminator: t,
                    protocol_version: pv,
                    software_version: sv,
                    comments,
                    support,
                },
            );
            if pv == seq![50u8, 46u8, 48u8] {
                content_of(line, t) == told(VersionSupport::Ssh2)
            } else if pv == seq![49u8, 46u8, 57u8, 57u8] {
                content_of(line, t) == told(VersionSupport::Ssh2Compatibility)
            } else {
                content_of(line, t) == Err::<RefIdent<Seq<u8>>, IdentError>(IdentError::UnsupportedVersion)
            }
        }),
{
    let tail = match comments {
        Some(c) => seq![32u8] + c,
        None => Seq::empty(),
    };
    let line = seq![83u8, 83u8, 72u8, 45u8] + pv + seq![45u8] + sv + tail;
    let rest = line.skip(4);
    assert(rest =~= pv + seq![45u8] + sv + tail);
    let n = pv.len() as int;
    assert forall|j: int| 0 <= j < n implies rest[j] != 45u8 by {
        assert(rest[j] == pv[j]);
        assert(crate::wire_core::ident_ref::token_byte(pv[j]));
    }
    assert(rest[n] == 45u8);
    lemma_first_at(rest, 45u8, 0, n);
    assert(rest.take(n) =~= pv);
    let after = rest.skip(n + 1);
    assert(after =~= sv + tail);
    let k = sv.len() as int;
    assert forall|j: int| 0 <= j < k implies after[j] != 32u8 by {
        assert(after[j] == sv[j]);
        assert(crate::wire_core::ident_ref::token_byte(sv[j]));
    }
    if comments is Some {
        assert(after[k] == 32u8);
        lemma_first_at(after, 32u8, 0, k);
        assert(after.skip(k + 1) =~= comments->0);
    } else {
        lemma_first_at(after, 32u8, 0, k);
    }
    assert(after.take(k) =~= sv);
    if has_forbidden(line) {
        let i = choose|i: int| 0 <= i < line.len() && forbidden_byte(#[trigger] line[i]);
        if 4 <= i < 4 + n {
            assert(line[i] == pv[i - 4]);
            assert(crate::wire_core::ident_ref::token_byte(pv[i - 4]));
        } else if 5 + n <= i < 5 + n + k {
            assert(line[i] == sv[i - 5 - n]);
            assert(crate::wire_core::ident_ref::token_byte(sv[i - 5 - n]));
        } else if i > 5 + n + k {
            assert(line[i] == comments->0[i - 6 - n - k]);
        }
    }
}

/// The rules that a line with the prefix can break, in order: control
/// characters, the separator, the protocol version, the software version, and
/// last which versions are supported.
pub proof fn lemma_line_refused(line: Seq<u8>, t: LineTerminator)
    ensures
        ({
            let rest = line.skip(4);
            let dash = first_at(rest, 45u8, 0);
            let after = rest.skip(dash + 1);
            let refused = |i: InvalidIdentification| content_of(line, t) == Err::<RefIdent<Seq<u8>>, IdentError>(
                IdentError::InvalidIdentification(i),
            );
            &&& has_forbidden(line) <==> refused(InvalidIdentification::ControlCharacter)
            &&& !has_forbidden(line) && dash >= rest.len() <==> refused(InvalidIdentification::MissingSeparator)
            &&& !has_forbidden(line) && dash < rest.len() && !version_token(rest.take(dash)) <==> refused(
                InvalidIdentification::BadProtocolVersion,
            )
            &&& !has_forbidden(line) && dash < rest.len() && version_token(rest.take(dash)) && !version_token(
                after.take(first_at(after, 32u8, 0)),
            ) <==> refused(InvalidIdentification::BadSoftwareVersion)
        }),
{
}

/// A line without an end is refused once it fills its limit, and waited for
/// before.
pub proof fn lemma_line_waited(r: RefReader, buf: Seq<u8>)
    requires
        line_end(buf) is None,
    ensures
        r.feed_next(buf) == r,
        opening(buf) == Some(true) ==> r.feed_result(buf) == if buf.len() >= r.limits.max_identification_line {
            Err::<RefStep<Seq<u8>>, IdentError>(IdentError::IdentificationTooLong)
        } else {
            Ok::<RefStep<Seq<u8>>, IdentError>(RefStep::NeedMore)
        },
        opening(buf) == Some(false) ==> r.feed_result(buf) == if buf.len() >= r.limits.max_prelude_line {
            Err::<RefStep<Seq<u8>>, IdentError>(IdentError::PreludeLineTooLong)
        } else {
            Ok::<RefStep<Seq<u8>>, IdentError>(RefStep::NeedMore)
        },
        opening(buf) is None ==> r.feed_result(buf) == if buf.len() >= r.limits.max_identification_line && buf.len()
            >= r.limits.max_prelude_line {
            Err::<RefStep<Seq<u8>>, IdentError>(IdentError::PreludeLineTooLong)
        } else {
            Ok::<RefStep<Seq<u8>>, IdentError>(RefStep::NeedMore)
        },
{
}

} // verus!
