//! What whole runs come to: which outcome, report and messages of the client a
//! scenario leads to, told from the scenario alone.

use vstd::prelude::*;
use crate::handshake::model::{
    fresh, items_of, modelled, names_text, negotiating, sig_algs_of, Expect, ExpectView, ExtInfoModel, Facts, ItemView,
    Keyword, ModelView, NegotiationView,
};
use crate::handshake::scenario::{Mal, Msg, MsgView, PairsView, Prot, ProtView, Reply, ScenarioView};
use crate::handshake::types::{
    BlobError, BlobField, HandshakeOutcome, KexError, KeyError, LimitKind, OpenError, OutcomeView, Phase, ProtocolViolation,
    TrustDecision,
};
use crate::kex_support::negotiate_ref::{Negotiated, StrictKex};
use crate::tcp_support::types::{IdentError, PacketError, SkippedMessage};
use crate::text::{bytes_of, text_of};
use crate::wire_core::error::{DecodeError, Field, InvalidEncoding, MessageError};
use crate::wire_core::kex_ref::ExtInfoError;
use crate::wire_core::namelist_ref::names_of;

verus! {

/// Messages without a protocol meaning: IGNORE, DEBUG and UNIMPLEMENTED.
pub open spec fn meaningless(v: Seq<MsgView>) -> bool {
    forall|i: int| 0 <= i < v.len() ==> (#[trigger] v[i]) is Ignore || v[i] is Debug || v[i] is Unimplemented
}

/// What a report says of a message without a meaning.
pub open spec fn record_of(m: MsgView) -> SkippedMessage<Seq<u8>> {
    match m {
        Msg::Ignore(d) => SkippedMessage::Ignored { data_len: d.len() as usize },
        Msg::Debug { always_display, message, language_tag } => SkippedMessage::Debug {
            always_display,
            message,
            language_tag,
        },
        Msg::Unimplemented(s) => SkippedMessage::Unimplemented { sequence_number: s },
        _ => arbitrary(),
    }
}

/// What a report says of messages without a meaning, in order.
pub open spec fn records(v: Seq<MsgView>) -> Seq<SkippedMessage<Seq<u8>>> {
    Seq::new(v.len(), |i: int| record_of(v[i]))
}

/// The number of guessed packets.
pub open spec fn guesses(sc: ScenarioView) -> nat {
    if sc.guess is Some {
        1
    } else {
        0
    }
}

/// Up to the reply nothing is out of place: a version that is supported,
/// nothing but messages without a meaning, and not even those under strict
/// kex, no guess but a wrong one, and no more packets than a small budget
/// allows.
pub open spec fn calm_to_reply(sc: ScenarioView, n: Negotiated<Seq<char>>) -> bool {
    &&& !(sc.ident is V15)
    &&& meaningless(sc.pre_kexinit)
    &&& meaningless(sc.before_reply)
    &&& match sc.guess {
        None => !n.server_guess_wrong,
        Some(g) => n.server_guess_wrong && 30 <= g <= 49,
    }
    &&& n.strict_kex.negotiated ==> sc.pre_kexinit.len() == 0 && sc.before_reply.len() == 0
    &&& sc.tiny_budget ==> sc.pre_kexinit.len() + guesses(sc) + sc.before_reply.len() <= 1
    &&& sc.pre_kexinit.len() + sc.before_reply.len() + sc.before_newkeys.len() < u32::MAX - 4
}

/// Nor up to the server's NEWKEYS, with a valid reply of a trusted host.
pub open spec fn calm_to_newkeys(sc: ScenarioView, n: Negotiated<Seq<char>>) -> bool {
    &&& calm_to_reply(sc, n)
    &&& sc.reply is Valid
    &&& sc.trust is Trusted
    &&& meaningless(sc.before_newkeys)
    &&& n.strict_kex.negotiated ==> sc.before_newkeys.len() == 0
    &&& sc.tiny_budget ==> sc.pre_kexinit.len() + guesses(sc) + sc.before_reply.len() + sc.before_newkeys.len() == 0
}

/// The model that awaits the reply, with `k` packets and some messages
/// recorded.
spec fn awaiting(sc: ScenarioView, n: Negotiated<Seq<char>>, k: int, skipped: Seq<SkippedMessage<Seq<u8>>>) -> ModelView {
    let m = fresh(sc);
    ModelView {
        facts: Facts {
            phase_at_end: Phase::EcdhReply,
            kexinit_was_first: Some(sc.pre_kexinit.len() == 0),
            strict: n.strict_kex,
            strict_active: n.strict_kex.negotiated,
            server_seen: true,
            unprotected_received: k as u32,
            guess_discarded: sc.guess is Some,
            ..m.facts
        },
        selected: Some(n),
        skipped,
        client_messages: seq![20u8, 30],
        ..m
    }
}

proof fn lemma_before(m: ModelView, v: Seq<MsgView>, i: int)
    requires
        m.outcome is None,
        meaningless(v),
        0 <= i <= v.len(),
        m.facts.tiny_budget ==> m.facts.unprotected_received + v.len() - i <= 3,
        m.facts.unprotected_received + v.len() - i <= u32::MAX,
    ensures
        m.before_kexinit(v, i) == (ModelView {
            facts: Facts {
                unprotected_received: (m.facts.unprotected_received + v.len() - i) as u32,
                ..m.facts
            },
            skipped: m.skipped + records(v).skip(i),
            ..m
        }),
    decreases v.len() - i,
{
    reveal(ModelView::counted);
    reveal(ModelView::skipping);
    if i < v.len() {
        let c = m.counted().skipping(record_of(v[i]));
        lemma_before(c, v, i + 1);
        assert(m.skipped + records(v).skip(i) =~= m.skipped.push(record_of(v[i])) + records(v).skip(i + 1));
    } else {
        assert(m.skipped + records(v).skip(i) =~= m.skipped);
    }
}

proof fn lemma_meanwhile(
    m: ModelView,
    sc: ScenarioView,
    items: Seq<ItemView>,
    v: Seq<MsgView>,
    off: int,
    i: int,
    aw: bool,
    wrong: bool,
)
    requires
        m.outcome is None,
        meaningless(v),
        m.facts.strict_active ==> v.len() == 0,
        0 <= i <= v.len(),
        0 <= off,
        off + v.len() <= items.len(),
        forall|j: int| 0 <= j < v.len() ==> items[off + j] == ItemView::Msg(#[trigger] v[j]),
        m.facts.tiny_budget ==> m.facts.unprotected_received + v.len() - i <= 3,
        m.facts.unprotected_received + v.len() - i <= u32::MAX,
    ensures
        m.after_kexinit(sc, items, off + i, aw, wrong) == (ModelView {
            facts: Facts {
                unprotected_received: (m.facts.unprotected_received + v.len() - i) as u32,
                ..m.facts
            },
            skipped: m.skipped + records(v).skip(i),
            ..m
        }).after_kexinit(sc, items, off + v.len(), aw, wrong),
    decreases v.len() - i,
{
    if i < v.len() {
        reveal(ModelView::counted);
        reveal(ModelView::skipping);
        reveal(ModelView::item_step);
        let c = m.counted().skipping(record_of(v[i]));
        assert(items[off + i] == ItemView::Msg(v[i]));
        assert(m.item_step(sc, items[off + i], aw, wrong) == (c, Some(aw)));
        lemma_meanwhile(c, sc, items, v, off, i + 1, aw, wrong);
        assert(m.skipped + records(v).skip(i) =~= m.skipped.push(record_of(v[i])) + records(v).skip(i + 1));
    } else {
        assert(m.skipped + records(v).skip(i) =~= m.skipped);
    }
}

proof fn lemma_to_reply(sc: ScenarioView, n: Negotiated<Seq<char>>, strict_eval: StrictKex)
    requires
        calm_to_reply(sc, n),
    ensures
        ({
            let k = 1 + sc.pre_kexinit.len() + guesses(sc) + sc.before_reply.len();
            let seen = records(sc.pre_kexinit) + records(sc.before_reply);
            let at = guesses(sc) + sc.before_reply.len();
            &&& items_of(sc)[at as int] is Reply
            &&& at < items_of(sc).len()
            &&& modelled(sc, Ok(n), strict_eval) == awaiting(sc, n, k as int, seen).after_kexinit(
                sc,
                items_of(sc),
                at as int,
                true,
                n.server_guess_wrong,
            )
        }),
{
    let m0 = fresh(sc);
    let a = ModelView { facts: Facts { phase_at_end: Phase::ServerKexInit, ..m0.facts }, ..m0 };
    lemma_before(a, sc.pre_kexinit, 0);
    assert(records(sc.pre_kexinit).skip(0) =~= records(sc.pre_kexinit));
    let m1 = a.before_kexinit(sc.pre_kexinit, 0);
    let m3 = negotiating(m1.counted(), sc, Ok(n), strict_eval);
    let first = awaiting(sc, n, 1 + sc.pre_kexinit.len() as int, records(sc.pre_kexinit));
    let unguessed = ModelView { facts: Facts { guess_discarded: false, ..first.facts }, ..first };
    assert(m3 == unguessed) by {
        reveal(ModelView::counted);
        reveal(negotiating);
        reveal(ModelView::chosen);
        reveal(ModelView::sending);
        reveal(ModelView::violated);
        assert(seq![20u8].push(30) =~= seq![20u8, 30]);
        assert(Seq::<SkippedMessage<Seq<u8>>>::empty() + records(sc.pre_kexinit) =~= records(sc.pre_kexinit));
    }
    assert(m1.counted().outcome is None) by {
        reveal(ModelView::counted);
    }
    let items = items_of(sc);
    let wrong = n.server_guess_wrong;
    let off = guesses(sc) as int;
    let m4 = awaiting(sc, n, 1 + sc.pre_kexinit.len() + off, records(sc.pre_kexinit));
    assert(m3.after_kexinit(sc, items, 0, true, wrong) == m4.after_kexinit(sc, items, off, true, wrong)) by {
        if let Some(g) = sc.guess {
            assert(items[0] == ItemView::Guess(g));
            reveal(ModelView::item_step);
            reveal(ModelView::exchanged);
            reveal(ModelView::counted);
            assert(m3.item_step(sc, items[0], true, wrong) == (m4, Some(true)));
        }
    }
    assert forall|j: int| 0 <= j < sc.before_reply.len() implies items[off + j] == ItemView::Msg(
        #[trigger] sc.before_reply[j],
    ) by {}
    lemma_meanwhile(m4, sc, items, sc.before_reply, off, 0, true, wrong);
    assert(records(sc.before_reply).skip(0) =~= records(sc.before_reply));
}

/// What comes of a reply that is not valid: the signature does not verify, or
/// the first thing that is wrong with the message, the host key or the
/// ephemeral key.
pub open spec fn reply_verdict(reply: Reply) -> OutcomeView {
    match reply {
        Reply::Valid => arbitrary(),
        Reply::WrongSig(_) => HandshakeOutcome::SignatureInvalid,
        Reply::SigOverWrongHash => HandshakeOutcome::SignatureInvalid,
        Reply::SigAlgRsa => HandshakeOutcome::SignatureInvalid,
        Reply::SigTrailing => HandshakeOutcome::SignatureInvalid,
        Reply::SigShort => HandshakeOutcome::SignatureInvalid,
        Reply::KsAlgRsa => HandshakeOutcome::ProtocolError(
            ProtocolViolation::HostKey(KeyError::UnsupportedAlgorithm(bytes_of("ssh-rsa"))),
        ),
        Reply::KsKey31 => HandshakeOutcome::ProtocolError(
            ProtocolViolation::HostKey(KeyError::WrongLength { field: BlobField::Key, expected: 32, found: 31 }),
        ),
        Reply::KsMalformed => HandshakeOutcome::ProtocolError(
            ProtocolViolation::HostKey(
                KeyError::Blob(
                    BlobError::Field {
                        field: BlobField::Algorithm,
                        offset: 0,
                        error: DecodeError::LengthOverflow { claimed: 9, available: 1 },
                    },
                ),
            ),
        ),
        Reply::QsZero => HandshakeOutcome::ProtocolError(ProtocolViolation::Kex(KexError::AllZeroSharedSecret)),
        Reply::QsShort => HandshakeOutcome::ProtocolError(
            ProtocolViolation::Kex(KexError::ServerEphemeralLength { found: 31 }),
        ),
        Reply::Trailing => HandshakeOutcome::ProtocolError(
            ProtocolViolation::Message { number: 31, error: MessageError::TrailingBytes { count: 1 } },
        ),
        Reply::Truncated => HandshakeOutcome::ProtocolError(
            ProtocolViolation::Message {
                number: 31,
                error: MessageError::Field {
                    field: Field::HostKey,
                    offset: 1,
                    error: DecodeError::Truncated { needed: 4, available: 2 },
                },
            },
        ),
    }
}

/// The reply decides a run that is calm up to it. A reply that is not valid
/// ends it, as does a host that is not trusted; in neither case does the client
/// send more than KEXINIT and KEX_ECDH_INIT. The report says whether the
/// signature verified and what was decided, and every message without a
/// meaning.
pub proof fn lemma_reply_decides(sc: ScenarioView, n: Negotiated<Seq<char>>, strict_eval: StrictKex)
    requires
        calm_to_reply(sc, n),
        !(sc.reply is Valid && sc.trust is Trusted),
    ensures
        ({
            let m = modelled(sc, Ok(n), strict_eval);
            &&& m.client_messages == seq![20u8, 30]
            &&& m.selected == Some(n)
            &&& m.skipped == records(sc.pre_kexinit) + records(sc.before_reply)
            &&& m.ext_info is None
            &&& m.server_disconnect is None
            &&& m.facts.phase_at_end == Phase::EcdhReply
            &&& m.facts.kexinit_was_first == Some(sc.pre_kexinit.len() == 0)
            &&& m.facts.strict == n.strict_kex
            &&& m.facts.unprotected_received == sc.pre_kexinit.len() + guesses(sc) + sc.before_reply.len() + 2
            &&& m.facts.guess_discarded == sc.guess is Some
            &&& !m.facts.newkeys_sent && !m.facts.newkeys_received && !m.facts.service_accepted
            &&& m.facts.protected_sent == 0 && m.facts.protected_received == 0
            &&& if sc.reply is Valid {
                &&& sc.trust matches TrustDecision::Untrusted { reason }
                &&& m.outcome == Some(Expect::<OutcomeView>::Exact(HandshakeOutcome::HostNotTrusted { reason }))
                &&& m.facts.trust == Some(sc.trust)
                &&& m.facts.signature_valid == Some(true)
                &&& m.facts.host_key_seen
            } else {
                let verdict = reply_verdict(sc.reply);
                &&& m.outcome == Some(Expect::<OutcomeView>::Exact(verdict))
                &&& m.facts.trust is None
                &&& m.facts.signature_valid == if verdict is SignatureInvalid {
                    Some(false)
                } else {
                    None
                }
                &&& m.facts.host_key_seen <==> verdict is SignatureInvalid || sc.reply is QsShort || sc.reply is QsZero
            }
        }),
{
    lemma_to_reply(sc, n, strict_eval);
    let k = 1 + sc.pre_kexinit.len() + guesses(sc) + sc.before_reply.len();
    let m = awaiting(sc, n, k as int, records(sc.pre_kexinit) + records(sc.before_reply));
    let items = items_of(sc);
    let at = guesses(sc) + sc.before_reply.len() as int;
    let wrong = n.server_guess_wrong;
    reveal(ModelView::item_step);
    reveal(ModelView::exchanged);
    reveal(ModelView::counted);
    reveal(ModelView::refused);
    reveal(ModelView::unsigned);
    reveal(ModelView::decided);
    reveal(ModelView::with_host_key);
    reveal(ModelView::ended);
    let (w, next) = m.item_step(sc, items[at], true, wrong);
    assert(next == Some(false) && w.outcome is Some);
    assert(w.after_kexinit(sc, items, at + 1, false, wrong) == w);
}

/// The model in the protected phase, before any packet of it.
spec fn serving(sc: ScenarioView, n: Negotiated<Seq<char>>) -> ModelView {
    let k = 3 + sc.pre_kexinit.len() + guesses(sc) + sc.before_reply.len() + sc.before_newkeys.len();
    let m = awaiting(
        sc,
        n,
        k as int,
        records(sc.pre_kexinit) + records(sc.before_reply) + records(sc.before_newkeys),
    );
    ModelView {
        facts: Facts {
            phase_at_end: Phase::Service,
            host_key_seen: true,
            signature_valid: Some(true),
            trust: Some(sc.trust),
            newkeys_sent: true,
            newkeys_received: true,
            protected_sent: 1,
            ..m.facts
        },
        ext_info: Some(ExtInfoModel { received: false, server_sig_algs: None, extension_names: Seq::empty() }),
        client_messages: seq![20u8, 30, 21, 5],
        ..m
    }
}

/// The model that awaits the server's NEWKEYS.
spec fn keyed(sc: ScenarioView, n: Negotiated<Seq<char>>, k: int, skipped: Seq<SkippedMessage<Seq<u8>>>) -> ModelView {
    let m = awaiting(sc, n, k, skipped);
    ModelView {
        facts: Facts {
            phase_at_end: Phase::ServerNewKeys,
            host_key_seen: true,
            signature_valid: Some(true),
            trust: Some(sc.trust),
            newkeys_sent: true,
            ..m.facts
        },
        client_messages: seq![20u8, 30, 21],
        ..m
    }
}

proof fn lemma_to_newkeys(sc: ScenarioView, n: Negotiated<Seq<char>>, strict_eval: StrictKex)
    requires
        calm_to_newkeys(sc, n),
    ensures
        ({
            let k = 2 + sc.pre_kexinit.len() + guesses(sc) + sc.before_reply.len() + sc.before_newkeys.len();
            let seen = records(sc.pre_kexinit) + records(sc.before_reply) + records(sc.before_newkeys);
            let at = guesses(sc) + sc.before_reply.len() + 1 + sc.before_newkeys.len();
            &&& items_of(sc).len() == (if sc.send_newkeys {
                at + 1
            } else {
                at
            })
            &&& sc.send_newkeys ==> items_of(sc)[at as int] is NewKeys
            &&& modelled(sc, Ok(n), strict_eval) == keyed(sc, n, k as int, seen).after_kexinit(
                sc,
                items_of(sc),
                at as int,
                false,
                n.server_guess_wrong,
            )
        }),
{
    lemma_to_reply(sc, n, strict_eval);
    let k = 1 + sc.pre_kexinit.len() + guesses(sc) + sc.before_reply.len();
    let seen = records(sc.pre_kexinit) + records(sc.before_reply);
    let m = awaiting(sc, n, k as int, seen);
    let items = items_of(sc);
    let at = guesses(sc) + sc.before_reply.len() as int;
    let wrong = n.server_guess_wrong;
    let w = keyed(sc, n, k as int + 1, seen);
    assert(m.item_step(sc, items[at], true, wrong) == (w, Some(false))) by {
        reveal(ModelView::item_step);
        reveal(ModelView::exchanged);
        reveal(ModelView::counted);
        reveal(ModelView::decided);
        reveal(ModelView::sending);
        assert(seq![20u8, 30].push(21) =~= seq![20u8, 30, 21]);
    }
    assert(m.after_kexinit(sc, items, at, true, wrong) == w.after_kexinit(sc, items, at + 1, false, wrong));
    assert forall|j: int| 0 <= j < sc.before_newkeys.len() implies items[at + 1 + j] == ItemView::Msg(
        #[trigger] sc.before_newkeys[j],
    ) by {}
    lemma_meanwhile(w, sc, items, sc.before_newkeys, at + 1, 0, false, wrong);
    assert(records(sc.before_newkeys).skip(0) =~= records(sc.before_newkeys));
}

/// Without the server's NEWKEYS a run that was calm so far has no outcome: the
/// client has sent its own NEWKEYS and waits.
pub proof fn lemma_newkeys_awaited(sc: ScenarioView, n: Negotiated<Seq<char>>, strict_eval: StrictKex)
    requires
        calm_to_newkeys(sc, n),
        !sc.send_newkeys,
    ensures
        ({
            let m = modelled(sc, Ok(n), strict_eval);
            &&& m.outcome is None
            &&& m.client_messages == seq![20u8, 30, 21]
            &&& m.facts.phase_at_end == Phase::ServerNewKeys
            &&& m.facts.newkeys_sent && !m.facts.newkeys_received
            &&& m.facts.signature_valid == Some(true)
            &&& m.facts.trust == Some(sc.trust)
            &&& m.facts.protected_sent == 0
            &&& m.ext_info is None
            &&& m.skipped == records(sc.pre_kexinit) + records(sc.before_reply) + records(sc.before_newkeys)
        }),
{
    lemma_to_newkeys(sc, n, strict_eval);
}

proof fn lemma_to_service(sc: ScenarioView, n: Negotiated<Seq<char>>, strict_eval: StrictKex)
    requires
        calm_to_newkeys(sc, n),
        sc.send_newkeys,
    ensures
        modelled(sc, Ok(n), strict_eval) == serving(sc, n).protected_run(sc, 0),
{
    lemma_to_newkeys(sc, n, strict_eval);
    let k = 2 + sc.pre_kexinit.len() + guesses(sc) + sc.before_reply.len() + sc.before_newkeys.len();
    let seen = records(sc.pre_kexinit) + records(sc.before_reply) + records(sc.before_newkeys);
    let m = keyed(sc, n, k as int, seen);
    let items = items_of(sc);
    let at = guesses(sc) + sc.before_reply.len() + 1 + sc.before_newkeys.len();
    let wrong = n.server_guess_wrong;
    assert(m.item_step(sc, items[at as int], false, wrong) == (serving(sc, n).protected_run(sc, 0), None::<bool>)) by {
        reveal(ModelView::item_step);
        reveal(ModelView::exchanged);
        reveal(ModelView::counted);
        reveal(ModelView::protected_begun);
        reveal(ModelView::sending);
        assert(seq![20u8, 30, 21].push(5) =~= seq![20u8, 30, 21, 5]);
    }
}

/// The first pair with the name `server-sig-algs`.
pub open spec fn names_sig_algs(pairs: PairsView, i: int) -> bool {
    &&& 0 <= i < pairs.len()
    &&& pairs[i].0 == bytes_of("server-sig-algs")
    &&& forall|j: int| 0 <= j < i ==> (#[trigger] pairs[j]).0 != bytes_of("server-sig-algs")
}

/// No pair has the name `server-sig-algs`, or the first that has it holds a
/// name-list.
pub open spec fn extensions_valid(pairs: PairsView) -> bool {
    forall|i: int| #[trigger] names_sig_algs(pairs, i) ==> names_of(pairs[i].1) is Ok
}

/// What the report says of the extensions of a server: the name of every pair,
/// and the names in the first `server-sig-algs`, where there is one.
pub open spec fn reports_extensions(pairs: PairsView, x: ExtInfoModel<Seq<Seq<char>>>) -> bool {
    &&& x.received
    &&& x.extension_names.len() == pairs.len()
    &&& forall|i: int| 0 <= i < pairs.len() ==> #[trigger] x.extension_names[i] == text_of(pairs[i].0)
    &&& x.server_sig_algs is Some <==> exists|i: int| #[trigger] names_sig_algs(pairs, i)
    &&& forall|i: int| #[trigger]
        names_sig_algs(pairs, i) ==> {
            let names = names_of(pairs[i].1)->Ok_0;
            &&& x.server_sig_algs matches Some(v)
            &&& v.len() == names.len()
            &&& forall|j: int| 0 <= j < v.len() ==> #[trigger] v[j] == text_of(names[j])
        }
}

proof fn lemma_sig_algs(pairs: PairsView, i: int)
    requires
        0 <= i <= pairs.len(),
        forall|j: int| 0 <= j < i ==> (#[trigger] pairs[j]).0 != bytes_of("server-sig-algs"),
    ensures
        match sig_algs_of(pairs, i) {
            Ok(None) => forall|k: int| !(#[trigger] names_sig_algs(pairs, k)),
            Ok(Some(v)) => exists|k: int| #[trigger] names_sig_algs(pairs, k) && names_text(pairs[k].1) == Ok::<
                Seq<Seq<char>>,
                InvalidEncoding,
            >(v),
            Err(e) => exists|k: int| #[trigger] names_sig_algs(pairs, k) && names_of(pairs[k].1) == Err::<
                Seq<Seq<u8>>,
                InvalidEncoding,
            >(e),
        },
    decreases pairs.len() - i,
{
    if i < pairs.len() {
        if pairs[i].0 == bytes_of("server-sig-algs") {
            assert(names_sig_algs(pairs, i));
        } else {
            lemma_sig_algs(pairs, i + 1);
        }
    }
}

proof fn lemma_one_sig_algs(pairs: PairsView, i: int, j: int)
    requires
        names_sig_algs(pairs, i),
        names_sig_algs(pairs, j),
    ensures
        i == j,
{
    if i < j {
        assert(pairs[i].0 != bytes_of("server-sig-algs"));
    }
    if j < i {
        assert(pairs[j].0 != bytes_of("server-sig-algs"));
    }
}

/// A protected packet that lets the run go on: an IGNORE or a DEBUG, or, as the
/// very first, an EXT_INFO with valid extensions.
pub open spec fn quiet(p: ProtView, i: int) -> bool {
    match p {
        Prot::Ignore(_) => true,
        Prot::Debug { .. } => true,
        Prot::ExtInfo(pairs) => i == 0 && extensions_valid(pairs),
        _ => false,
    }
}

/// What the report says of the IGNOREs and DEBUGs among the first `n` packets.
pub open spec fn noted(v: Seq<ProtView>, n: int) -> Seq<SkippedMessage<Seq<u8>>>
    decreases n,
{
    if n <= 0 || n > v.len() {
        Seq::empty()
    } else {
        match v[n - 1] {
            Prot::Ignore(d) => noted(v, n - 1).push(SkippedMessage::Ignored { data_len: d.len() as usize }),
            Prot::Debug { always_display, message, language_tag } => noted(v, n - 1).push(
                SkippedMessage::Debug { always_display, message, language_tag },
            ),
            _ => noted(v, n - 1),
        }
    }
}

spec fn extensions_after(sc: ScenarioView, i: int) -> ExtInfoModel<Seq<Seq<char>>> {
    if i > 0 && sc.protected[0] is ExtInfo {
        let pairs = sc.protected[0]->ExtInfo_0;
        ExtInfoModel {
            received: true,
            server_sig_algs: sig_algs_of(pairs, 0)->Ok_0,
            extension_names: crate::handshake::scenario::pair_texts(pairs),
        }
    } else {
        ExtInfoModel { received: false, server_sig_algs: None, extension_names: Seq::empty() }
    }
}

spec fn serving_after(sc: ScenarioView, n: Negotiated<Seq<char>>, i: int) -> ModelView {
    let m = serving(sc, n);
    ModelView {
        facts: Facts { protected_received: i as u32, ..m.facts },
        skipped: m.skipped + noted(sc.protected, i),
        ext_info: Some(extensions_after(sc, i)),
        ..m
    }
}

proof fn lemma_extensions_after(sc: ScenarioView, i: int)
    requires
        i > 0 && sc.protected[0] is ExtInfo ==> extensions_valid(sc.protected[0]->ExtInfo_0),
    ensures
        ({
            let x = extensions_after(sc, i);
            if i > 0 && sc.protected[0] is ExtInfo {
                reports_extensions(sc.protected[0]->ExtInfo_0, x)
            } else {
                !x.received && x.server_sig_algs is None && x.extension_names.len() == 0
            }
        }),
{
    if i > 0 && sc.protected[0] is ExtInfo {
        let pairs = sc.protected[0]->ExtInfo_0;
        lemma_sig_algs(pairs, 0);
        assert forall|k: int| #[trigger] names_sig_algs(pairs, k) implies sig_algs_of(pairs, 0) matches Ok(Some(v))
            && names_text(pairs[k].1) == Ok::<Seq<Seq<char>>, InvalidEncoding>(v) by {
            match sig_algs_of(pairs, 0) {
                Ok(Some(v)) => {
                    let j = choose|j: int| #[trigger] names_sig_algs(pairs, j) && names_text(pairs[j].1) == Ok::<
                        Seq<Seq<char>>,
                        InvalidEncoding,
                    >(v);
                    lemma_one_sig_algs(pairs, k, j);
                },
                Ok(None) => {},
                Err(e) => {
                    let j = choose|j: int| #[trigger] names_sig_algs(pairs, j) && names_of(pairs[j].1) == Err::<
                        Seq<Seq<u8>>,
                        InvalidEncoding,
                    >(e);
                    lemma_one_sig_algs(pairs, k, j);
                },
            }
        }
    }
}

proof fn lemma_quiet_run(sc: ScenarioView, n: Negotiated<Seq<char>>, i: int)
    requires
        0 <= i <= sc.protected.len() < u32::MAX,
        forall|j: int| 0 <= j < i ==> quiet(#[trigger] sc.protected[j], j),
        sc.tamper matches Some(t) ==> t.0 >= i,
    ensures
        serving(sc, n).protected_run(sc, 0) == serving_after(sc, n, i).protected_run(sc, i),
    decreases i,
{
    if i == 0 {
        let a = serving(sc, n);
        assert(a.skipped + noted(sc.protected, 0) =~= a.skipped);
        assert(serving_after(sc, n, 0) == a);
    } else {
        lemma_quiet_run(sc, n, i - 1);
        let a = serving_after(sc, n, i - 1);
        let p = sc.protected[i - 1];
        assert(quiet(p, i - 1));
        let base = serving(sc, n).skipped;
        assert(a.protected_step(p, false) == serving_after(sc, n, i)) by {
            reveal(ModelView::protected_step);
            reveal(ModelView::opened);
            reveal(ModelView::skipping);
            match p {
                Prot::ExtInfo(pairs) => {
                    reveal(ModelView::extended);
                    lemma_sig_algs(pairs, 0);
                },
                Prot::Ignore(d) => {
                    let r = SkippedMessage::Ignored { data_len: d.len() as usize };
                    assert((base + noted(sc.protected, i - 1)).push(r) =~= base + noted(sc.protected, i));
                },
                Prot::Debug { always_display, message, language_tag } => {
                    let r = SkippedMessage::Debug { always_display, message, language_tag };
                    assert((base + noted(sc.protected, i - 1)).push(r) =~= base + noted(sc.protected, i));
                },
                _ => {},
            }
        }
    }
}

/// A message that the service phase does not expect.
pub open spec fn unexpected(number: u8) -> OutcomeView {
    HandshakeOutcome::UnexpectedMessage { number, phase: Phase::Service }
}

/// What ends the run at packet `i`, where it is not quiet.
pub open spec fn packet_verdict(p: ProtView, i: int, o: OutcomeView) -> bool {
    match p {
        Prot::Ignore(_) => false,
        Prot::Debug { .. } => false,
        Prot::ExtInfo(pairs) => if i > 0 {
            o == unexpected(7)
        } else {
            exists|k: int| #[trigger]
                names_sig_algs(pairs, k) && (names_of(pairs[k].1) matches Err(e) && o
                    == HandshakeOutcome::<Seq<u8>, Seq<char>>::ProtocolError(
                    ProtocolViolation::ExtInfo(ExtInfoError::InvalidServerSigAlgs(e)),
                ))
        },
        Prot::ExtInfoTooMany => o == if i > 0 {
            unexpected(7)
        } else {
            HandshakeOutcome::ProtocolError(
                ProtocolViolation::ExtInfo(ExtInfoError::TooManyExtensions { claimed: 65, max: 64 }),
            )
        },
        Prot::ServiceAccept(name) => o == if name == bytes_of("ssh-userauth") {
            HandshakeOutcome::<Seq<u8>, Seq<char>>::Completed
        } else {
            HandshakeOutcome::ProtocolError(
                ProtocolViolation::ServiceMismatch { requested: bytes_of("ssh-userauth"), accepted: name },
            )
        },
        Prot::Disconnect { reason_code, description } => o == (HandshakeOutcome::<
            Seq<u8>,
            Seq<char>,
        >::ServerDisconnected { reason_code, description }),
        Prot::KexInit => o is RekeyNotSupported,
        Prot::Unimplemented(_) => o == unexpected(3),
        Prot::Other(number) => o == unexpected(number),
        Prot::Empty => o == HandshakeOutcome::<Seq<u8>, Seq<char>>::ProtocolError(ProtocolViolation::EmptyPayload),
        Prot::Malformed(mal) => o == if mal is ExtInfo && i > 0 {
            unexpected(7)
        } else {
            HandshakeOutcome::ProtocolError(
                ProtocolViolation::Message { number: mal.bytes()[0], error: mal.fault() },
            )
        },
        Prot::BadLength => o == HandshakeOutcome::<Seq<u8>, Seq<char>>::ProtocolError(
            ProtocolViolation::Protected(OpenError::Misaligned { packet_length: 17 }),
        ),
    }
}

/// What holds of every run that reaches the protected phase: both sides have
/// new keys, the signature verified for a trusted host, and the client asked
/// for its service. The report has the messages without a meaning up to packet
/// `i` and the extensions of a first EXT_INFO.
pub open spec fn served(sc: ScenarioView, n: Negotiated<Seq<char>>, m: ModelView, i: int) -> bool {
    &&& m.selected == Some(n)
    &&& m.skipped == records(sc.pre_kexinit) + records(sc.before_reply) + records(sc.before_newkeys) + noted(
        sc.protected,
        i,
    )
    &&& m.facts.phase_at_end == Phase::Service
    &&& m.facts.signature_valid == Some(true)
    &&& m.facts.trust == Some(sc.trust)
    &&& m.facts.host_key_seen && m.facts.newkeys_sent && m.facts.newkeys_received
    &&& m.facts.unprotected_received == 3 + sc.pre_kexinit.len() + guesses(sc) + sc.before_reply.len()
        + sc.before_newkeys.len()
    &&& m.facts.guess_discarded == sc.guess is Some
    &&& m.ext_info matches Some(x) && if i > 0 && sc.protected[0] is ExtInfo {
        reports_extensions(sc.protected[0]->ExtInfo_0, x)
    } else {
        !x.received && x.server_sig_algs is None && x.extension_names.len() == 0
    }
}

/// A run whose protected packets are all quiet has no outcome; the client has
/// asked for its service and waits.
pub proof fn lemma_service_awaited(sc: ScenarioView, n: Negotiated<Seq<char>>, strict_eval: StrictKex)
    requires
        calm_to_newkeys(sc, n),
        sc.send_newkeys,
        sc.protected.len() < u32::MAX,
        forall|j: int| 0 <= j < sc.protected.len() ==> quiet(#[trigger] sc.protected[j], j),
        sc.tamper matches Some(t) ==> t.0 >= sc.protected.len(),
    ensures
        ({
            let m = modelled(sc, Ok(n), strict_eval);
            let i = sc.protected.len() as int;
            &&& served(sc, n, m, i)
            &&& m.outcome is None
            &&& m.client_messages == seq![20u8, 30, 21, 5]
            &&& m.facts.protected_received == i
            &&& m.facts.protected_sent == 1
            &&& !m.facts.service_accepted
            &&& m.server_disconnect is None
        }),
{
    lemma_to_service(sc, n, strict_eval);
    lemma_quiet_run(sc, n, sc.protected.len() as int);
    lemma_extensions_after(sc, sc.protected.len() as int);
    if sc.protected.len() > 0 {
        assert(quiet(sc.protected[0], 0));
    }
}

proof fn lemma_packet_ends(a: ModelView, p: ProtView, i: int, tampered: bool)
    requires
        a.outcome is None,
        a.client_messages == seq![20u8, 30, 21, 5],
        a.facts.protected_sent == 1,
        a.facts.protected_received == i,
        !a.facts.service_accepted,
        a.server_disconnect is None,
        0 <= i < u32::MAX,
        !quiet(p, i) || tampered,
    ensures
        ({
            let m = a.protected_step(p, tampered);
            let accepted = !tampered && p == Prot::<Seq<u8>, PairsView>::ServiceAccept(bytes_of("ssh-userauth"));
            let said = if accepted || (!tampered && p is KexInit) {
                seq![20u8, 30, 21, 5, 1]
            } else {
                seq![20u8, 30, 21, 5]
            };
            &&& m.outcome matches Some(Expect::Exact(o)) && if tampered && !(p is BadLength) {
                o is TagMismatch
            } else {
                packet_verdict(p, i, o)
            }
            &&& m.selected == a.selected
            &&& m.skipped == a.skipped
            &&& m.ext_info == a.ext_info
            &&& m.client_messages == said
            &&& m.facts == (Facts {
                service_accepted: accepted,
                protected_sent: (said.len() - 3) as u32,
                protected_received: (if tampered || p is BadLength {
                    i
                } else {
                    i + 1
                }) as u32,
                ..a.facts
            })
            &&& m.server_disconnect == match p {
                Prot::Disconnect { reason_code, description } if !tampered => Some((reason_code, description)),
                _ => None,
            }
        }),
{
    reveal(ModelView::protected_step);
    reveal(ModelView::ended);
    assert(seq![20u8, 30, 21, 5].push(1) =~= seq![20u8, 30, 21, 5, 1]);
    if !(p is BadLength) && !tampered {
        reveal(ModelView::opened);
        match p {
            Prot::ExtInfo(pairs) => {
                if i == 0 {
                    lemma_invalid_extensions(pairs);
                    reveal(ModelView::extended);
                }
            },
            Prot::ServiceAccept(name) => {
                reveal(ModelView::accepted);
                reveal(ModelView::sending_protected);
                reveal(ModelView::sending);
            },
            Prot::KexInit => {
                reveal(ModelView::sending_protected);
                reveal(ModelView::sending);
            },
            Prot::Disconnect { reason_code, description } => {
                reveal(ModelView::disconnecting);
            },
            _ => {},
        }
    }
}

proof fn lemma_invalid_extensions(pairs: PairsView)
    requires
        !extensions_valid(pairs),
    ensures
        sig_algs_of(pairs, 0) matches Err(e) && exists|k: int| #[trigger]
            names_sig_algs(pairs, k) && names_of(pairs[k].1) == Err::<
                Seq<Seq<u8>>,
                InvalidEncoding,
            >(e),
{
    lemma_sig_algs(pairs, 0);
    let k = choose|k: int| #[trigger] names_sig_algs(pairs, k) && !(names_of(pairs[k].1) is Ok);
    match sig_algs_of(pairs, 0) {
        Ok(Some(v)) => {
            let j = choose|j: int| #[trigger] names_sig_algs(pairs, j) && names_text(pairs[j].1) == Ok::<
                Seq<Seq<char>>,
                InvalidEncoding,
            >(v);
            lemma_one_sig_algs(pairs, k, j);
        },
        _ => {},
    }
}

/// The first protected packet that is not quiet, or was tampered with, decides
/// the run. SERVICE_ACCEPT of `ssh-userauth` completes it: the client says so
/// with a DISCONNECT, and nothing else completes it. A packet whose length is
/// wrong or whose tag does not verify is not counted; every other one is.
pub proof fn lemma_packet_decides(sc: ScenarioView, n: Negotiated<Seq<char>>, strict_eval: StrictKex, i: int)
    requires
        calm_to_newkeys(sc, n),
        sc.send_newkeys,
        0 <= i < sc.protected.len() < u32::MAX,
        forall|j: int| 0 <= j < i ==> quiet(#[trigger] sc.protected[j], j),
        sc.tamper matches Some(t) ==> t.0 >= i,
        !quiet(sc.protected[i], i) || (sc.tamper matches Some(t) && t.0 == i),
    ensures
        ({
            let m = modelled(sc, Ok(n), strict_eval);
            let p = sc.protected[i];
            let tampered = sc.tamper matches Some(t) && t.0 == i;
            let accepted = !tampered && p == Prot::<Seq<u8>, PairsView>::ServiceAccept(bytes_of("ssh-userauth"));
            &&& served(sc, n, m, i)
            &&& m.outcome matches Some(Expect::Exact(o)) && if tampered && !(p is BadLength) {
                o is TagMismatch
            } else {
                packet_verdict(p, i, o)
            }
            &&& m.facts.service_accepted == accepted
            &&& m.client_messages == if accepted || (!tampered && p is KexInit) {
                seq![20u8, 30, 21, 5, 1]
            } else {
                seq![20u8, 30, 21, 5]
            }
            &&& m.facts.protected_sent == m.client_messages.len() - 3
            &&& m.facts.protected_received == if tampered || p is BadLength {
                i
            } else {
                i + 1
            }
            &&& m.server_disconnect == match p {
                Prot::Disconnect { reason_code, description } if !tampered => Some((reason_code, description)),
                _ => None,
            }
        }),
{
    lemma_to_service(sc, n, strict_eval);
    lemma_quiet_run(sc, n, i);
    lemma_extensions_after(sc, i);
    if i > 0 {
        assert(quiet(sc.protected[0], 0));
    }
    let a = serving_after(sc, n, i);
    let p = sc.protected[i];
    let tampered = sc.tamper matches Some(t) && t.0 == i;
    lemma_packet_ends(a, p, i, tampered);
    let w = a.protected_step(p, tampered);
    assert(w.protected_run(sc, i + 1) == w);
}

/// A handshake that goes as it should completes: a valid reply of a trusted
/// host, new keys on both sides, and SERVICE_ACCEPT of `ssh-userauth` behind
/// nothing but quiet packets, such as a first EXT_INFO with valid extensions.
/// The client sends KEXINIT, KEX_ECDH_INIT, NEWKEYS, SERVICE_REQUEST and
/// DISCONNECT, and the extensions are reported.
pub proof fn lemma_handshake_completes(sc: ScenarioView, n: Negotiated<Seq<char>>, strict_eval: StrictKex, i: int)
    requires
        calm_to_newkeys(sc, n),
        sc.send_newkeys,
        0 <= i < sc.protected.len() < u32::MAX,
        forall|j: int| 0 <= j < i ==> quiet(#[trigger] sc.protected[j], j),
        sc.protected[i] == Prot::<Seq<u8>, PairsView>::ServiceAccept(bytes_of("ssh-userauth")),
        sc.tamper matches Some(t) ==> t.0 > i,
    ensures
        ({
            let m = modelled(sc, Ok(n), strict_eval);
            &&& m.outcome == Some(Expect::<OutcomeView>::Exact(HandshakeOutcome::Completed))
            &&& m.facts.service_accepted
            &&& m.client_messages == seq![20u8, 30, 21, 5, 1]
            &&& i > 0 && sc.protected[0] is ExtInfo ==> (m.ext_info matches Some(x) && reports_extensions(
                sc.protected[0]->ExtInfo_0,
                x,
            ))
        }),
{
    lemma_packet_decides(sc, n, strict_eval, i);
}

/// A server that speaks an older version is refused before anything else.
pub proof fn lemma_version_refused(sc: ScenarioView, negotiated: NegotiationView, strict_eval: StrictKex)
    requires
        sc.ident is V15,
    ensures
        ({
            let m = modelled(sc, negotiated, strict_eval);
            &&& m.outcome == Some(
                Expect::<OutcomeView>::Exact(
                    HandshakeOutcome::ProtocolError(ProtocolViolation::Ident(IdentError::UnsupportedVersion)),
                ),
            )
            &&& m.client_messages == seq![20u8]
            &&& m.facts.phase_at_end == Phase::ServerIdentification
            &&& m.facts.unprotected_received == 0
            &&& m.selected is None
            &&& m.skipped.len() == 0
        }),
{
    reveal(ModelView::ended);
}

/// A payload that does not decode.
pub open spec fn undecodable(mal: Mal) -> OutcomeView {
    HandshakeOutcome::ProtocolError(ProtocolViolation::Message { number: mal.bytes()[0], error: mal.fault() })
}

/// An unframeable length.
pub open spec fn unframeable() -> OutcomeView {
    HandshakeOutcome::ProtocolError(
        ProtocolViolation::Packet(PacketError::TooLarge { packet_length: 0xffff_ffff, limit: 65536 }),
    )
}

/// What ends the run before KEXINIT: a message that has a meaning.
pub open spec fn early_verdict(x: MsgView) -> OutcomeView {
    let other = |number: u8| HandshakeOutcome::UnexpectedMessage { number, phase: Phase::ServerKexInit };
    match x {
        Msg::BadFrame => unframeable(),
        Msg::Empty => HandshakeOutcome::ProtocolError(ProtocolViolation::EmptyPayload),
        Msg::Disconnect { reason_code, description } => HandshakeOutcome::ServerDisconnected {
            reason_code,
            description,
        },
        Msg::Malformed(Mal::NewKeys) => other(21),
        Msg::Malformed(mal) => undecodable(mal),
        Msg::KexInitAgain => other(20),
        Msg::NewKeys => other(21),
        Msg::ReplyAgain => other(31),
        Msg::Other(number) => other(number),
        _ => arbitrary(),
    }
}

/// The first message before KEXINIT that has a meaning ends the run; those
/// before it are in the report.
pub proof fn lemma_early_message(sc: ScenarioView, negotiated: NegotiationView, strict_eval: StrictKex, i: int)
    requires
        !(sc.ident is V15),
        0 <= i < sc.pre_kexinit.len() < u32::MAX,
        meaningless(sc.pre_kexinit.take(i)),
        !(sc.pre_kexinit[i] is Ignore || sc.pre_kexinit[i] is Debug || sc.pre_kexinit[i] is Unimplemented),
        sc.tiny_budget ==> i <= 2,
    ensures
        ({
            let m = modelled(sc, negotiated, strict_eval);
            let x = sc.pre_kexinit[i];
            &&& m.outcome == Some(Expect::<OutcomeView>::Exact(early_verdict(x)))
            &&& m.client_messages == seq![20u8]
            &&& m.facts.phase_at_end == Phase::ServerKexInit
            &&& m.skipped == records(sc.pre_kexinit.take(i))
            &&& m.selected is None
            &&& !m.facts.server_seen
            &&& m.facts.unprotected_received == if x is BadFrame {
                i
            } else {
                i + 1
            }
            &&& m.server_disconnect == match x {
                Msg::Disconnect { reason_code, description } => Some((reason_code, description)),
                _ => None,
            }
            &&& m.facts.kexinit_was_first == if x == Msg::<Seq<u8>>::Malformed(Mal::KexInit) {
                Some(i == 0)
            } else {
                None
            }
        }),
{
    let m0 = fresh(sc);
    let a = ModelView { facts: Facts { phase_at_end: Phase::ServerKexInit, ..m0.facts }, ..m0 };
    lemma_before_until(a, sc.pre_kexinit, i, 0);
    assert(records(sc.pre_kexinit.take(i)).skip(0) =~= records(sc.pre_kexinit.take(i)));
    assert(a.skipped + records(sc.pre_kexinit.take(i)) =~= records(sc.pre_kexinit.take(i)));
    reveal(ModelView::counted);
    reveal(ModelView::ended);
    reveal(ModelView::disconnecting);
}

/// The state behind `k` more messages without a meaning.
pub open spec fn passed(m: ModelView, k: int, seen: Seq<SkippedMessage<Seq<u8>>>) -> ModelView {
    ModelView {
        facts: Facts { unprotected_received: (m.facts.unprotected_received + k) as u32, ..m.facts },
        skipped: m.skipped + seen,
        ..m
    }
}

proof fn lemma_before_step(m: ModelView, v: Seq<MsgView>, i: int)
    requires
        m.outcome is None,
        0 <= i < v.len(),
        v[i] is Ignore || v[i] is Debug || v[i] is Unimplemented,
        m.facts.tiny_budget ==> m.facts.unprotected_received < 3,
        m.facts.unprotected_received < u32::MAX,
    ensures
        m.before_kexinit(v, i) == passed(m, 1, seq![record_of(v[i])]).before_kexinit(v, i + 1),
{
    reveal(ModelView::counted);
    reveal(ModelView::skipping);
    assert(m.skipped.push(record_of(v[i])) =~= m.skipped + seq![record_of(v[i])]);
    assert(m.counted().skipping(record_of(v[i])) == passed(m, 1, seq![record_of(v[i])]));
}

proof fn lemma_before_until(m: ModelView, v: Seq<MsgView>, n: int, i: int)
    requires
        m.outcome is None,
        0 <= i <= n <= v.len(),
        meaningless(v.take(n)),
        m.facts.tiny_budget ==> m.facts.unprotected_received + n - i <= 3,
        m.facts.unprotected_received + n - i <= u32::MAX,
    ensures
        m.before_kexinit(v, i) == passed(m, n - i, records(v.take(n)).skip(i)).before_kexinit(v, n),
    decreases n - i,
{
    let rs = records(v.take(n));
    if i < n {
        assert(v.take(n)[i] == v[i]);
        let one = seq![record_of(v[i])];
        let c = passed(m, 1, one);
        lemma_before_step(m, v, i);
        lemma_before_until(c, v, n, i + 1);
        assert(m.skipped + rs.skip(i) =~= m.skipped + one + rs.skip(i + 1));
        assert(passed(c, n - i - 1, rs.skip(i + 1)) == passed(m, n - i, rs.skip(i)));
    } else {
        assert(m.skipped + rs.skip(i) =~= m.skipped);
        assert(passed(m, 0, rs.skip(i)) == m);
    }
}

/// A small budget allows three packets: with three messages before KEXINIT the
/// next packet ends the run, unless it cannot be framed.
pub proof fn lemma_budget_spent(sc: ScenarioView, negotiated: NegotiationView, strict_eval: StrictKex)
    requires
        !(sc.ident is V15),
        sc.tiny_budget,
        3 <= sc.pre_kexinit.len(),
        meaningless(sc.pre_kexinit.take(3)),
        sc.pre_kexinit.len() > 3 ==> !(sc.pre_kexinit[3] is BadFrame),
    ensures
        ({
            let m = modelled(sc, negotiated, strict_eval);
            &&& m.outcome == Some(
                Expect::<OutcomeView>::Exact(HandshakeOutcome::Limit(LimitKind::PreKexPackets { limit: 3 })),
            )
            &&& m.client_messages == seq![20u8]
            &&& m.facts.unprotected_received == 3
            &&& m.skipped == records(sc.pre_kexinit.take(3))
            &&& m.selected is None
        }),
{
    let m0 = fresh(sc);
    let a = ModelView { facts: Facts { phase_at_end: Phase::ServerKexInit, ..m0.facts }, ..m0 };
    lemma_before_until(a, sc.pre_kexinit, 3, 0);
    assert(records(sc.pre_kexinit.take(3)).skip(0) =~= records(sc.pre_kexinit.take(3)));
    assert(a.skipped + records(sc.pre_kexinit.take(3)) =~= records(sc.pre_kexinit.take(3)));
    reveal(ModelView::counted);
    reveal(ModelView::ended);
}

/// What KEXINIT decides behind nothing but messages without a meaning: without
/// a common algorithm the negotiation fails, with the strict kex evaluation in
/// the report; under strict kex it must have been the first packet. In both
/// cases the client has sent nothing but its own KEXINIT.
pub proof fn lemma_kexinit_decides(sc: ScenarioView, negotiated: NegotiationView, strict_eval: StrictKex)
    requires
        !(sc.ident is V15),
        meaningless(sc.pre_kexinit),
        sc.pre_kexinit.len() < u32::MAX - 4,
        sc.tiny_budget ==> sc.pre_kexinit.len() <= 2,
        match negotiated {
            Ok(n) => n.strict_kex.negotiated && sc.pre_kexinit.len() > 0,
            Err(_) => true,
        },
    ensures
        ({
            let m = modelled(sc, negotiated, strict_eval);
            &&& match negotiated {
                Err(e) => m.outcome == Some(
                    Expect::<OutcomeView>::Exact(HandshakeOutcome::NegotiationFailed(e)),
                ) && m.facts.strict == strict_eval && m.selected is None,
                Ok(n) => m.outcome == Some(Expect::<OutcomeView>::Strict(Keyword::NotFirstPacket)) && m.facts.strict
                    == n.strict_kex && m.selected == Some(n),
            }
            &&& m.client_messages == seq![20u8]
            &&& m.facts.server_seen
            &&& m.facts.phase_at_end == Phase::ServerKexInit
            &&& m.facts.kexinit_was_first == Some(sc.pre_kexinit.len() == 0)
            &&& m.facts.unprotected_received == sc.pre_kexinit.len() + 1
            &&& m.skipped == records(sc.pre_kexinit)
        }),
{
    let m0 = fresh(sc);
    let a = ModelView { facts: Facts { phase_at_end: Phase::ServerKexInit, ..m0.facts }, ..m0 };
    lemma_before(a, sc.pre_kexinit, 0);
    assert(records(sc.pre_kexinit).skip(0) =~= records(sc.pre_kexinit));
    assert(a.skipped + records(sc.pre_kexinit) =~= records(sc.pre_kexinit));
    reveal(ModelView::counted);
    reveal(negotiating);
    reveal(ModelView::chosen);
    reveal(ModelView::violated);
    reveal(ModelView::ended);
}

/// A number that ends the run in the key exchange. Under strict kex a second
/// KEXINIT, a second reply, NEWKEYS before the reply, any other key-exchange
/// message, a transport message and DISCONNECT are violations; every other
/// message is unexpected, as each is without strict kex.
pub open spec fn number_verdict(number: u8, strict: bool, replied: bool) -> ExpectView {
    if strict && number == 20 {
        Expect::Strict(Keyword::SecondKexInit)
    } else if strict && number == 31 {
        Expect::Strict(Keyword::SecondReply)
    } else if strict && number == 21 {
        Expect::Strict(Keyword::NewKeysBeforeReply)
    } else if strict && 30 <= number <= 49 {
        Expect::Strict(Keyword::KexMessage(number))
    } else if strict && (number == 2 || number == 3 || number == 4) {
        Expect::Strict(Keyword::Transport(number))
    } else if strict && number == 1 {
        Expect::Strict(Keyword::Disconnect)
    } else {
        Expect::Exact(
            HandshakeOutcome::UnexpectedMessage {
                number,
                phase: if replied {
                    Phase::ServerNewKeys
                } else {
                    Phase::EcdhReply
                },
            },
        )
    }
}

/// What ends the run in the key exchange, before or after the reply. What does
/// not decode is refused as such where it is looked at before the rule of
/// strict kex: DISCONNECT always, transport messages without strict kex,
/// NEWKEYS where it is due.
pub open spec fn exchange_verdict(x: MsgView, strict: bool, replied: bool) -> ExpectView {
    match x {
        Msg::BadFrame => Expect::Exact(unframeable()),
        Msg::Empty => Expect::Exact(HandshakeOutcome::ProtocolError(ProtocolViolation::EmptyPayload)),
        Msg::Disconnect { reason_code, description } => if strict {
            Expect::Strict(Keyword::Disconnect)
        } else {
            Expect::Exact(HandshakeOutcome::ServerDisconnected { reason_code, description })
        },
        Msg::Malformed(Mal::Disconnect) => Expect::Exact(undecodable(Mal::Disconnect)),
        Msg::Malformed(Mal::Ignore) => if strict {
            Expect::Strict(Keyword::Transport(2))
        } else {
            Expect::Exact(undecodable(Mal::Ignore))
        },
        Msg::Malformed(Mal::Debug) => if strict {
            Expect::Strict(Keyword::Transport(4))
        } else {
            Expect::Exact(undecodable(Mal::Debug))
        },
        Msg::Malformed(Mal::Unimplemented) => if strict {
            Expect::Strict(Keyword::Transport(3))
        } else {
            Expect::Exact(undecodable(Mal::Unimplemented))
        },
        Msg::Malformed(Mal::NewKeys) => if replied {
            Expect::Exact(undecodable(Mal::NewKeys))
        } else {
            number_verdict(21, strict, replied)
        },
        Msg::Malformed(Mal::KexInit) => number_verdict(20, strict, replied),
        Msg::Malformed(Mal::ExtInfo) => number_verdict(7, strict, replied),
        Msg::Malformed(Mal::ServiceAccept) => number_verdict(6, strict, replied),
        Msg::Ignore(_) => number_verdict(2, strict, replied),
        Msg::Unimplemented(_) => number_verdict(3, strict, replied),
        Msg::Debug { .. } => number_verdict(4, strict, replied),
        Msg::KexInitAgain => number_verdict(20, strict, replied),
        Msg::NewKeys => number_verdict(21, strict, replied),
        Msg::ReplyAgain => if replied {
            number_verdict(31, strict, replied)
        } else {
            Expect::Exact(reply_verdict(Reply::Truncated))
        },
        Msg::Other(number) => if number == 31 && !replied {
            Expect::Exact(reply_verdict(Reply::Truncated))
        } else {
            number_verdict(number, strict, replied)
        },
    }
}

/// A message that ends the run in the key exchange: not one without a meaning,
/// except under strict kex, not NEWKEYS where it is due, and not what a wrong
/// guess has still to answer for.
pub open spec fn stops(x: MsgView, strict: bool, replied: bool) -> bool {
    &&& x is Ignore || x is Debug || x is Unimplemented ==> strict
    &&& replied ==> !(x is NewKeys) && x != Msg::<Seq<u8>>::Other(21)
}

proof fn lemma_stopped(m: ModelView, sc: ScenarioView, x: MsgView, replied: bool, wrong: bool)
    requires
        m.outcome is None,
        m.server_disconnect is None,
        stops(x, m.facts.strict_active, replied),
        wrong ==> m.facts.guess_discarded,
        m.facts.tiny_budget ==> m.facts.unprotected_received < 3,
        m.facts.unprotected_received < u32::MAX,
    ensures
        ({
            let (w, next) = m.item_step(sc, ItemView::Msg(x), !replied, wrong);
            &&& next is None
            &&& w.outcome == Some(exchange_verdict(x, m.facts.strict_active, replied))
            &&& w.client_messages == m.client_messages
            &&& w.skipped == m.skipped
            &&& w.selected == m.selected
            &&& w.ext_info == m.ext_info
            &&& w.facts == (Facts {
                unprotected_received: (m.facts.unprotected_received + if x is BadFrame {
                    0int
                } else {
                    1
                }) as u32,
                ..m.facts
            })
            &&& w.server_disconnect == match x {
                Msg::Disconnect { reason_code, description } => Some((reason_code, description)),
                _ => None,
            }
        }),
{
    reveal(ModelView::item_step);
    reveal(ModelView::exchanged);
    reveal(ModelView::counted);
    reveal(ModelView::malformed);
    reveal(ModelView::disconnected);
    reveal(ModelView::disconnecting);
    reveal(ModelView::ruled);
    reveal(ModelView::ended);
    reveal(ModelView::violated);
}

/// Before the reply, the first message that stops ends the run. The client has
/// sent KEXINIT and KEX_ECDH_INIT, and never NEWKEYS.
pub proof fn lemma_message_before_reply(sc: ScenarioView, n: Negotiated<Seq<char>>, strict_eval: StrictKex, i: int)
    requires
        0 <= i < sc.before_reply.len(),
        calm_to_reply((ScenarioView { before_reply: sc.before_reply.take(i), ..sc }), n),
        stops(sc.before_reply[i], n.strict_kex.negotiated, false),
    ensures
        ({
            let m = modelled(sc, Ok(n), strict_eval);
            &&& m.outcome == Some(exchange_verdict(sc.before_reply[i], n.strict_kex.negotiated, false))
            &&& m.client_messages == seq![20u8, 30]
            &&& m.facts.phase_at_end == Phase::EcdhReply
            &&& !m.facts.newkeys_sent && m.facts.signature_valid is None && m.facts.trust is None
            &&& m.skipped == records(sc.pre_kexinit) + records(sc.before_reply.take(i))
            &&& m.server_disconnect == match sc.before_reply[i] {
                Msg::Disconnect { reason_code, description } => Some((reason_code, description)),
                _ => None,
            }
        }),
{
    let cut = ScenarioView { before_reply: sc.before_reply.take(i), ..sc };
    let wrong = n.server_guess_wrong;
    let off = guesses(sc) as int;
    let m0 = fresh(sc);
    let a = ModelView { facts: Facts { phase_at_end: Phase::ServerKexInit, ..m0.facts }, ..m0 };
    lemma_before(a, sc.pre_kexinit, 0);
    assert(records(sc.pre_kexinit).skip(0) =~= records(sc.pre_kexinit));
    let m1 = a.before_kexinit(sc.pre_kexinit, 0);
    let m3 = negotiating(m1.counted(), sc, Ok(n), strict_eval);
    let first = awaiting(sc, n, 1 + sc.pre_kexinit.len() as int, records(sc.pre_kexinit));
    let unguessed = ModelView { facts: Facts { guess_discarded: false, ..first.facts }, ..first };
    assert(m3 == unguessed && m1.counted().outcome is None) by {
        reveal(ModelView::counted);
        reveal(negotiating);
        reveal(ModelView::chosen);
        reveal(ModelView::sending);
        reveal(ModelView::violated);
        assert(seq![20u8].push(30) =~= seq![20u8, 30]);
        assert(Seq::<SkippedMessage<Seq<u8>>>::empty() + records(sc.pre_kexinit) =~= records(sc.pre_kexinit));
    }
    let items = items_of(sc);
    let m4 = awaiting(sc, n, 1 + sc.pre_kexinit.len() + off, records(sc.pre_kexinit));
    assert(m3.after_kexinit(sc, items, 0, true, wrong) == m4.after_kexinit(sc, items, off, true, wrong)) by {
        if let Some(g) = sc.guess {
            assert(items[0] == ItemView::Guess(g));
            reveal(ModelView::item_step);
            reveal(ModelView::exchanged);
            reveal(ModelView::counted);
            assert(m3.item_step(sc, items[0], true, wrong) == (m4, Some(true)));
        }
    }
    let v = sc.before_reply.take(i);
    assert forall|j: int| 0 <= j < v.len() implies items[off + j] == ItemView::Msg(#[trigger] v[j]) by {}
    lemma_meanwhile(m4, sc, items, v, off, 0, true, wrong);
    assert(records(v).skip(0) =~= records(v));
    let m5 = awaiting(sc, n, 1 + sc.pre_kexinit.len() + off + i, records(sc.pre_kexinit) + records(v));
    assert(items[off + i] == ItemView::Msg(sc.before_reply[i]));
    lemma_stopped(m5, sc, sc.before_reply[i], false, wrong);
}

/// Behind a valid reply of a trusted host, the first message that stops ends
/// the run. The client has sent its NEWKEYS, and nothing under protection.
pub proof fn lemma_message_before_newkeys(sc: ScenarioView, n: Negotiated<Seq<char>>, strict_eval: StrictKex, i: int)
    requires
        0 <= i < sc.before_newkeys.len(),
        calm_to_reply(sc, n),
        sc.reply is Valid,
        sc.trust is Trusted,
        meaningless(sc.before_newkeys.take(i)),
        n.strict_kex.negotiated ==> i == 0,
        sc.tiny_budget ==> sc.pre_kexinit.len() + guesses(sc) + sc.before_reply.len() + i == 0,
        stops(sc.before_newkeys[i], n.strict_kex.negotiated, true),
    ensures
        ({
            let m = modelled(sc, Ok(n), strict_eval);
            &&& m.outcome == Some(exchange_verdict(sc.before_newkeys[i], n.strict_kex.negotiated, true))
            &&& m.client_messages == seq![20u8, 30, 21]
            &&& m.facts.phase_at_end == Phase::ServerNewKeys
            &&& m.facts.newkeys_sent && !m.facts.newkeys_received
            &&& m.facts.signature_valid == Some(true)
            &&& m.facts.trust == Some(sc.trust)
            &&& m.facts.protected_sent == 0
            &&& m.skipped == records(sc.pre_kexinit) + records(sc.before_reply) + records(sc.before_newkeys.take(i))
            &&& m.server_disconnect == match sc.before_newkeys[i] {
                Msg::Disconnect { reason_code, description } => Some((reason_code, description)),
                _ => None,
            }
        }),
{
    lemma_to_reply(sc, n, strict_eval);
    let k = 1 + sc.pre_kexinit.len() + guesses(sc) + sc.before_reply.len();
    let seen = records(sc.pre_kexinit) + records(sc.before_reply);
    let m = awaiting(sc, n, k as int, seen);
    let items = items_of(sc);
    let at = guesses(sc) + sc.before_reply.len() as int;
    let wrong = n.server_guess_wrong;
    let w = keyed(sc, n, k as int + 1, seen);
    assert(m.item_step(sc, items[at], true, wrong) == (w, Some(false))) by {
        reveal(ModelView::item_step);
        reveal(ModelView::exchanged);
        reveal(ModelView::counted);
        reveal(ModelView::decided);
        reveal(ModelView::sending);
        assert(seq![20u8, 30].push(21) =~= seq![20u8, 30, 21]);
    }
    let v = sc.before_newkeys.take(i);
    assert forall|j: int| 0 <= j < v.len() implies items[at + 1 + j] == ItemView::Msg(#[trigger] v[j]) by {}
    lemma_meanwhile(w, sc, items, v, at + 1, 0, false, wrong);
    assert(records(v).skip(0) =~= records(v));
    let m5 = keyed(sc, n, k as int + 1 + i, seen + records(v));
    assert(items[at + 1 + i] == ItemView::Msg(sc.before_newkeys[i]));
    lemma_stopped(m5, sc, sc.before_newkeys[i], true, wrong);
}

/// A guess that was right is no longer a guess: where it is a reply it is
/// looked at as one, and otherwise it is out of place.
pub proof fn lemma_right_guess(sc: ScenarioView, n: Negotiated<Seq<char>>, strict_eval: StrictKex)
    requires
        !(sc.ident is V15),
        sc.pre_kexinit.len() == 0,
        sc.guess is Some,
        !n.server_guess_wrong,
    ensures
        ({
            let m = modelled(sc, Ok(n), strict_eval);
            let g = sc.guess->0;
            &&& m.outcome == Some(
                if g == 31 {
                    Expect::<OutcomeView>::Exact(reply_verdict(Reply::Truncated))
                } else {
                    number_verdict(g, n.strict_kex.negotiated, false)
                },
            )
            &&& m.client_messages == seq![20u8, 30]
            &&& !m.facts.guess_discarded
        }),
{
    let m0 = fresh(sc);
    let a = ModelView { facts: Facts { phase_at_end: Phase::ServerKexInit, ..m0.facts }, ..m0 };
    assert(a.before_kexinit(sc.pre_kexinit, 0) == a);
    let items = items_of(sc);
    assert(items[0] == ItemView::Guess(sc.guess->0));
    assert(seq![20u8].push(30) =~= seq![20u8, 30]);
    reveal(ModelView::counted);
    reveal(negotiating);
    reveal(ModelView::chosen);
    reveal(ModelView::sending);
    reveal(ModelView::item_step);
    reveal(ModelView::exchanged);
    reveal(ModelView::ruled);
    reveal(ModelView::ended);
    reveal(ModelView::violated);
}

/// A wrong guess that was announced and not sent: the reply is taken for it and
/// discarded, and so the server's NEWKEYS comes before any reply.
pub proof fn lemma_unsent_guess(sc: ScenarioView, n: Negotiated<Seq<char>>, strict_eval: StrictKex)
    requires
        !(sc.ident is V15),
        sc.pre_kexinit.len() == 0,
        sc.guess is None,
        n.server_guess_wrong,
        sc.before_reply.len() == 0,
        sc.before_newkeys.len() == 0,
    ensures
        ({
            let m = modelled(sc, Ok(n), strict_eval);
            &&& m.outcome == if sc.send_newkeys {
                Some(number_verdict(21, n.strict_kex.negotiated, false))
            } else {
                None
            }
            &&& m.client_messages == seq![20u8, 30]
            &&& m.facts.guess_discarded
            &&& m.facts.signature_valid is None && !m.facts.host_key_seen
        }),
{
    let m0 = fresh(sc);
    let a = ModelView { facts: Facts { phase_at_end: Phase::ServerKexInit, ..m0.facts }, ..m0 };
    assert(a.before_kexinit(sc.pre_kexinit, 0) == a);
    let items = items_of(sc);
    assert(items[0] is Reply);
    assert(seq![20u8].push(30) =~= seq![20u8, 30]);
    reveal(ModelView::counted);
    reveal(negotiating);
    reveal(ModelView::chosen);
    reveal(ModelView::sending);
    reveal(ModelView::item_step);
    reveal(ModelView::exchanged);
    reveal(ModelView::ruled);
    reveal(ModelView::ended);
    reveal(ModelView::violated);
    reveal_with_fuel(ModelView::after_kexinit, 4);
}

} // verus!
