//! What holds of the model in every scenario.

use vstd::prelude::*;
use crate::handshake::model::{
    bad_frame, fresh, item_number, items_of, junk_reply, mal_outcome, modelled, negotiating, skip_record,
    skippable, Expect, Facts, ItemView, Keyword, ModelView, NegotiationView,
};
use crate::handshake::scenario::{Mal, Msg, MsgView, Prot, ProtView, Reply, ScenarioView};
use crate::handshake::types::{HandshakeOutcome, OutcomeView, Phase, TrustDecision};
use crate::kex_support::negotiate_ref::StrictKex;
use crate::handshake::types::ProtocolViolation;
use crate::handshake::wire::{msg_payload, msg_wire};
use crate::tcp_support::packet_ref::framing;
use crate::text::bytes_of;
use crate::wire_core::bytes::u32_of;
use crate::wire_core::error::MessageError;
use crate::wire_core::kex_ref::{ecdh_reply_read, ext_header_read, newkeys_read, service_accept_read, ExtHeader};
use crate::wire_core::messages_ref::{
    debug_read, disconnect_read, ignore_read, kexinit_read, unimplemented_read, DebugFields, DisconnectFields,
    KexInitFields,
};

verus! {

/// The messages that this client ever sends: KEXINIT, KEX_ECDH_INIT, NEWKEYS,
/// SERVICE_REQUEST and DISCONNECT, and never a request to authenticate.
pub open spec fn client_number(n: u8) -> bool {
    n == 20 || n == 30 || n == 21 || n == 5 || n == 1
}

/// What the client has sent fits what it knows.
pub open spec fn sent_coherently(m: ModelView) -> bool {
    &&& m.client_messages.len() > 0 && m.client_messages[0] == 20
    &&& forall|i: int| 0 <= i < m.client_messages.len() ==> client_number(#[trigger] m.client_messages[i])
    &&& m.facts.newkeys_sent == m.client_messages.contains(21)
    &&& m.facts.newkeys_sent ==> m.facts.signature_valid == Some(true) && (m.facts.trust matches Some(t)
        && t is Trusted)
    &&& m.facts.newkeys_received ==> m.facts.newkeys_sent
    &&& (m.facts.protected_sent > 0) == m.facts.newkeys_received
    &&& m.facts.protected_received > 0 ==> m.facts.newkeys_received
    &&& m.facts.trust is Some ==> m.facts.signature_valid == Some(true)
    &&& m.facts.signature_valid is Some ==> m.facts.host_key_seen
    &&& m.facts.host_key_seen ==> m.selected is Some
}

/// Nothing has gone wrong with signature, trust or service so far.
pub open spec fn clean(m: ModelView) -> bool {
    !m.facts.service_accepted && m.facts.signature_valid != Some(false) && !(m.facts.trust matches Some(t)
        && t is Untrusted) && (m.facts.signature_valid is Some ==> m.facts.newkeys_sent)
}

/// The outcome fits what was established.
pub open spec fn ends_coherently(m: ModelView) -> bool {
    match m.outcome {
        None => clean(m),
        Some(Expect::Strict(k)) => clean(m) && m.facts.strict_active && !m.facts.newkeys_received,
        Some(Expect::Exact(o)) => match o {
            HandshakeOutcome::Completed => m.facts.service_accepted && m.facts.newkeys_received,
            HandshakeOutcome::SignatureInvalid => m.facts.signature_valid == Some(false) && m.facts.trust is None
                && !m.facts.service_accepted,
            HandshakeOutcome::HostNotTrusted { reason } => m.facts.trust == Some(
                TrustDecision::Untrusted { reason },
            ) && !m.facts.service_accepted,
            HandshakeOutcome::TagMismatch => clean(m) && m.facts.newkeys_received,
            HandshakeOutcome::RekeyNotSupported => clean(m) && m.facts.newkeys_received,
            _ => clean(m),
        },
    }
}

/// The model so far is coherent.
pub open spec fn coherent(m: ModelView) -> bool {
    sent_coherently(m) && ends_coherently(m)
}

/// Coherent, not ended, and before the server's NEWKEYS.
pub open spec fn exchanging(m: ModelView) -> bool {
    coherent(m) && m.outcome is None && !m.facts.newkeys_received
}

/// An outcome that says nothing of signature, trust, service or protection.
pub open spec fn plain(o: OutcomeView) -> bool {
    !(o is Completed) && !(o is SignatureInvalid) && !(o is HostNotTrusted) && !(o is TagMismatch) && !(
    o is RekeyNotSupported)
}

proof fn lemma_ended(m: ModelView, o: OutcomeView)
    requires
        coherent(m),
        m.outcome is None,
        plain(o),
    ensures
        coherent(m.ended(o)),
        m.ended(o).outcome == Some(Expect::Exact(o)),
        m.ended(o).facts == m.facts,
{
    reveal(ModelView::ended);
}

proof fn lemma_violated(m: ModelView, k: Keyword)
    requires
        exchanging(m),
        m.facts.strict_active,
    ensures
        coherent(m.violated(k)),
        m.violated(k).outcome is Some,
{
    reveal(ModelView::violated);
}

proof fn lemma_sending(m: ModelView, n: u8)
    requires
        coherent(m),
        client_number(n),
        n != 21,
    ensures
        coherent(m.sending(n)),
        m.sending(n).facts == m.facts,
        m.sending(n).outcome == m.outcome,
{
    reveal(ModelView::sending);
    let a = m.client_messages;
    let b = a.push(n);
    if a.contains(21) {
        let i = choose|i: int| 0 <= i < a.len() && a[i] == 21;
        assert(b[i] == 21);
    }
    if b.contains(21) {
        let i = choose|i: int| 0 <= i < b.len() && b[i] == 21;
        assert(a[i] == 21);
    }
}

proof fn lemma_counted(m: ModelView)
    requires
        exchanging(m),
        m.facts.protected_received == 0,
    ensures
        coherent(m.counted()),
        m.counted().outcome is None ==> exchanging(m.counted()),
        m.counted().facts.strict_active == m.facts.strict_active,
        m.counted().facts.protected_received == 0,
        m.counted().facts.newkeys_sent == m.facts.newkeys_sent,
        m.counted().selected == m.selected,
{
    reveal(ModelView::counted);
    reveal(ModelView::ended);
}

proof fn lemma_recording(m: ModelView, reason_code: u32, description: Seq<u8>, msg: MsgView)
    requires
        coherent(m),
        m.outcome is None,
    ensures
        coherent(m.disconnecting(reason_code, description)),
        m.disconnecting(reason_code, description).outcome is None,
        m.disconnecting(reason_code, description).facts == m.facts,
        coherent(m.skipping(skip_record(msg))),
        m.skipping(skip_record(msg)).outcome is None,
        m.skipping(skip_record(msg)).facts == m.facts,
        m.skipping(skip_record(msg)).selected == m.selected,
{
    reveal(ModelView::disconnecting);
    reveal(ModelView::skipping);
}

proof fn lemma_ruled(m: ModelView, n: u8, awaiting: bool)
    requires
        exchanging(m),
    ensures
        coherent(m.ruled(n, awaiting)),
        m.ruled(n, awaiting).outcome is Some,
{
    reveal(ModelView::ruled);
    let phase = if awaiting {
        Phase::EcdhReply
    } else {
        Phase::ServerNewKeys
    };
    lemma_ended(m, HandshakeOutcome::UnexpectedMessage { number: n, phase });
    if m.facts.strict_active {
        lemma_violated(m, Keyword::SecondKexInit);
        lemma_violated(m, Keyword::SecondReply);
        lemma_violated(m, Keyword::NewKeysBeforeReply);
        lemma_violated(m, Keyword::KexMessage(n));
        lemma_violated(m, Keyword::Transport(n));
        lemma_violated(m, Keyword::Disconnect);
    }
}

proof fn lemma_malformed(m: ModelView, mal: Mal, awaiting: bool)
    requires
        exchanging(m),
    ensures
        coherent(m.malformed(mal, awaiting)),
        m.malformed(mal, awaiting).outcome is Some,
{
    reveal(ModelView::malformed);
    lemma_ended(m, mal_outcome(mal));
    lemma_ruled(m, mal.bytes()[0], awaiting);
}

proof fn lemma_disconnected(m: ModelView, reason_code: u32, description: Seq<u8>, awaiting: bool)
    requires
        exchanging(m),
    ensures
        coherent(m.disconnected(reason_code, description, awaiting)),
{
    reveal(ModelView::disconnected);
    lemma_recording(m, reason_code, description, Msg::Empty);
    let d = m.disconnecting(reason_code, description);
    lemma_ruled(d, 1, awaiting);
    lemma_ended(d, HandshakeOutcome::ServerDisconnected { reason_code, description });
}

proof fn lemma_replied(m: ModelView, sc: ScenarioView)
    requires
        exchanging(m),
        m.selected is Some,
        m.facts.protected_received == 0,
        !m.facts.newkeys_sent,
    ensures
        coherent(m.replied(sc)),
        m.replied(sc).outcome is None ==> exchanging(m.replied(sc)) && m.replied(sc).facts.newkeys_sent,
        m.replied(sc).facts.protected_received == 0,
        m.replied(sc).selected == m.selected,
        sc.reply is Valid && sc.trust is Trusted <==> m.replied(sc).outcome is None,
        (m.replied(sc).outcome == Some(Expect::<OutcomeView>::Exact(HandshakeOutcome::SignatureInvalid))) == (
        sc.reply is WrongSig || sc.reply is SigOverWrongHash || sc.reply is SigAlgRsa || sc.reply is SigTrailing
            || sc.reply is SigShort),
{
    reveal(ModelView::refused);
    reveal(ModelView::unsigned);
    reveal(ModelView::decided);
    reveal(ModelView::with_host_key);
    reveal(ModelView::ended);
    reveal(ModelView::sending);
    if sc.reply is Valid && sc.trust is Trusted {
        let b = m.client_messages.push(21);
        assert(b[b.len() - 1] == 21);
        assert(m.replied(sc).client_messages == b);
        assert(b.contains(21));
        assert forall|i: int| 0 <= i < b.len() implies client_number(#[trigger] b[i]) by {
            if i < m.client_messages.len() {
                assert(client_number(m.client_messages[i]));
            }
        }
    }
}

proof fn lemma_sending_protected(m: ModelView, n: u8)
    requires
        coherent(m),
        m.outcome is None,
        m.facts.newkeys_received,
        client_number(n),
        n != 21,
        m.facts.protected_sent < u32::MAX,
    ensures
        coherent(m.sending_protected(n)),
        m.sending_protected(n).outcome is None,
        m.sending_protected(n).facts.newkeys_received,
        m.sending_protected(n).facts.service_accepted == m.facts.service_accepted,
{
    reveal(ModelView::sending_protected);
    let a = ModelView {
        facts: Facts {
            protected_sent: (m.facts.protected_sent + 1) as u32,
            ..m.facts
        },
        ..m
    };
    lemma_sending(a, n);
}

/// Coherent, not ended, in the protected phase with one message sent.
pub open spec fn served(m: ModelView) -> bool {
    coherent(m) && m.outcome is None && m.facts.newkeys_received && m.facts.protected_sent == 1
}

proof fn lemma_accepted(m: ModelView, name: Seq<u8>)
    requires
        served(m),
    ensures
        coherent(m.accepted(name)),
        m.accepted(name).outcome is Some,
        !(m.accepted(name).outcome matches Some(Expect::Exact(o)) && o is TagMismatch),
        (m.accepted(name).outcome == Some(Expect::<OutcomeView>::Exact(HandshakeOutcome::Completed))) == (name
            == bytes_of("ssh-userauth")),
{
    reveal(ModelView::accepted);
    if name == bytes_of("ssh-userauth") {
        lemma_sending_protected(m, 1);
        reveal(ModelView::sending_protected);
        reveal(ModelView::sending);
        reveal(ModelView::ended);
    } else {
        reveal(ModelView::ended);
    }
}

proof fn lemma_opened(m: ModelView, p: ProtView, first: bool)
    requires
        served(m),
        !(p is BadLength),
    ensures
        coherent(m.opened(p, first)),
        m.opened(p, first).outcome is None ==> served(m.opened(p, first)),
        !(m.opened(p, first).outcome matches Some(Expect::Exact(o)) && o is TagMismatch),
{
    reveal(ModelView::opened);
    match p {
        Prot::Empty => {
            lemma_ended(
                m,
                HandshakeOutcome::ProtocolError(ProtocolViolation::EmptyPayload),
            );
        },
        Prot::Malformed(mal) => {
            lemma_ended(m, mal_outcome(mal));
            lemma_ended(m, HandshakeOutcome::UnexpectedMessage { number: 7, phase: Phase::Service });
        },
        Prot::BadLength => {},
        Prot::ExtInfo(pairs) => {
            lemma_ended(m, HandshakeOutcome::UnexpectedMessage { number: 7, phase: Phase::Service });
            reveal(ModelView::extended);
            reveal(ModelView::ended);
        },
        Prot::ExtInfoTooMany => {
            reveal(ModelView::ended);
        },
        Prot::ServiceAccept(name) => {
            lemma_accepted(m, name);
        },
        Prot::Disconnect { reason_code, description } => {
            lemma_recording(m, reason_code, description, Msg::Empty);
            lemma_ended(
                m.disconnecting(reason_code, description),
                HandshakeOutcome::ServerDisconnected { reason_code, description },
            );
        },
        Prot::KexInit => {
            lemma_sending_protected(m, 1);
            reveal(ModelView::ended);
        },
        Prot::Ignore(d) => {
            reveal(ModelView::skipping);
        },
        Prot::Debug { always_display, message, language_tag } => {
            reveal(ModelView::skipping);
        },
        Prot::Unimplemented(s) => {
            lemma_ended(m, HandshakeOutcome::UnexpectedMessage { number: 3, phase: Phase::Service });
        },
        Prot::Other(n) => {
            lemma_ended(m, HandshakeOutcome::UnexpectedMessage { number: n, phase: Phase::Service });
        },
    }
}

/// A tag mismatch is only found where the scenario tampers.
pub open spec fn mismatch_explained(m: ModelView, sc: ScenarioView) -> bool {
    (m.outcome matches Some(Expect::Exact(o)) && o is TagMismatch) ==> sc.tamper is Some
}

proof fn lemma_protected_run(m: ModelView, sc: ScenarioView, i: int)
    requires
        coherent(m),
        m.outcome is None ==> served(m),
        mismatch_explained(m, sc),
        0 <= i,
    ensures
        coherent(m.protected_run(sc, i)),
        mismatch_explained(m.protected_run(sc, i), sc),
    decreases sc.protected.len() - i,
{
    if i < sc.protected.len() && m.outcome is None {
        let p = sc.protected[i];
        let tampered = sc.tamper matches Some(t) && t.0 == i;
        let next = m.protected_step(p, tampered);
        reveal(ModelView::protected_step);
        if p is BadLength || tampered {
            reveal(ModelView::ended);
        } else {
            let c = ModelView {
                facts: Facts {
                    protected_received: (m.facts.protected_received + 1) as u32,
                    ..m.facts
                },
                ..m
            };
            lemma_opened(c, p, c.facts.protected_received == 1);
        }
        lemma_protected_run(next, sc, i + 1);
    }
}

proof fn lemma_protected_begun(m: ModelView)
    requires
        exchanging(m),
        m.facts.newkeys_sent,
    ensures
        served(m.protected_begun()),
{
    reveal(ModelView::protected_begun);
    let a = ModelView {
        facts: Facts {
            newkeys_received: true,
            phase_at_end: Phase::Service,
            protected_sent: 1,
            ..m.facts
        },
        ext_info: m.protected_begun().ext_info,
        ..m
    };
    reveal(ModelView::sending);
    lemma_sending(a, 5);
    assert(m.protected_begun() == a.sending(5));
}

proof fn lemma_exchanged(m: ModelView, sc: ScenarioView, item: ItemView, awaiting: bool, guess_wrong: bool)
    requires
        exchanging(m),
        m.selected is Some,
        m.facts.protected_received == 0,
        awaiting == !m.facts.newkeys_sent,
    ensures
        ({
            let r = m.exchanged(sc, item, awaiting, guess_wrong);
            &&& coherent(r.0)
            &&& mismatch_explained(r.0, sc)
            &&& r.1 matches Some(a) ==> (r.0.outcome is None ==> exchanging(r.0) && r.0.selected is Some
                && r.0.facts.protected_received == 0 && a == !r.0.facts.newkeys_sent)
        }),
{
    reveal(ModelView::exchanged);
    let n = item_number(item);
    if !awaiting {
        if n == 21 {
            lemma_protected_begun(m);
            lemma_protected_run(m.protected_begun(), sc, 0);
        } else {
            lemma_ruled(m, n, false);
            lemma_no_mismatch_ruled(m, n, false);
        }
    } else if 30 <= n <= 49 && guess_wrong && !m.facts.guess_discarded {
    } else if n == 31 {
        if item is Reply {
            lemma_replied(m, sc);
            lemma_no_mismatch_replied(m, sc);
        } else {
            lemma_ended(m, junk_reply());
        }
    } else {
        lemma_ruled(m, n, true);
        lemma_no_mismatch_ruled(m, n, true);
    }
}

proof fn lemma_no_mismatch_ruled(m: ModelView, n: u8, awaiting: bool)
    requires
        m.outcome is None,
    ensures
        !(m.ruled(n, awaiting).outcome matches Some(Expect::Exact(o)) && o is TagMismatch),
{
    reveal(ModelView::ruled);
    reveal(ModelView::ended);
    reveal(ModelView::violated);
}

proof fn lemma_no_mismatch_replied(m: ModelView, sc: ScenarioView)
    requires
        m.outcome is None,
    ensures
        !(m.replied(sc).outcome matches Some(Expect::Exact(o)) && o is TagMismatch),
{
    reveal(ModelView::refused);
    reveal(ModelView::unsigned);
    reveal(ModelView::decided);
    reveal(ModelView::with_host_key);
    reveal(ModelView::ended);
    reveal(ModelView::sending);
}

proof fn lemma_item_step(m: ModelView, sc: ScenarioView, item: ItemView, awaiting: bool, guess_wrong: bool)
    requires
        exchanging(m),
        m.selected is Some,
        m.facts.protected_received == 0,
        awaiting == !m.facts.newkeys_sent,
    ensures
        ({
            let r = m.item_step(sc, item, awaiting, guess_wrong);
            &&& coherent(r.0)
            &&& mismatch_explained(r.0, sc)
            &&& r.1 matches Some(a) ==> (r.0.outcome is None ==> exchanging(r.0) && r.0.selected is Some
                && r.0.facts.protected_received == 0 && a == !r.0.facts.newkeys_sent)
        }),
{
    reveal(ModelView::item_step);
    lemma_ended(m, bad_frame());
    lemma_counted(m);
    let c = m.counted();
    assert(c.facts.newkeys_sent == m.facts.newkeys_sent && !(c.outcome matches Some(Expect::Exact(o)) && o is TagMismatch))
        by {
        reveal(ModelView::counted);
        reveal(ModelView::ended);
    }
    if c.outcome is None {
        match item {
            ItemView::Msg(Msg::Empty) => {
                lemma_ended(
                    c,
                    HandshakeOutcome::ProtocolError(ProtocolViolation::EmptyPayload),
                );
            },
            ItemView::Msg(Msg::Malformed(mal)) => {
                lemma_malformed(c, mal, awaiting);
                reveal(ModelView::malformed);
                lemma_ended(c, mal_outcome(mal));
                lemma_no_mismatch_ruled(c, mal.bytes()[0], awaiting);
            },
            ItemView::Msg(Msg::Disconnect { reason_code, description }) => {
                lemma_disconnected(c, reason_code, description, awaiting);
                reveal(ModelView::disconnected);
                lemma_recording(c, reason_code, description, Msg::Empty);
                let d = c.disconnecting(reason_code, description);
                lemma_no_mismatch_ruled(d, 1, awaiting);
                lemma_ended(d, HandshakeOutcome::ServerDisconnected { reason_code, description });
            },
            ItemView::Msg(mm) => {
                lemma_recording(c, 0, Seq::empty(), mm);
                lemma_exchanged(c, sc, item, awaiting, guess_wrong);
            },
            _ => {
                lemma_exchanged(c, sc, item, awaiting, guess_wrong);
            },
        }
    }
}

proof fn lemma_after_kexinit(
    m: ModelView,
    sc: ScenarioView,
    items: Seq<ItemView>,
    i: int,
    awaiting: bool,
    guess_wrong: bool,
)
    requires
        coherent(m),
        mismatch_explained(m, sc),
        m.outcome is None ==> exchanging(m) && m.selected is Some && m.facts.protected_received == 0
            && awaiting == !m.facts.newkeys_sent,
        0 <= i,
    ensures
        coherent(m.after_kexinit(sc, items, i, awaiting, guess_wrong)),
        mismatch_explained(m.after_kexinit(sc, items, i, awaiting, guess_wrong), sc),
    decreases items.len() - i,
{
    if i < items.len() && m.outcome is None {
        lemma_item_step(m, sc, items[i], awaiting, guess_wrong);
        if let (next, Some(a)) = m.item_step(sc, items[i], awaiting, guess_wrong) {
            lemma_after_kexinit(next, sc, items, i + 1, a, guess_wrong);
        }
    }
}

proof fn lemma_before_kexinit(m: ModelView, v: Seq<MsgView>, i: int)
    requires
        exchanging(m),
        m.facts.protected_received == 0,
        !m.facts.newkeys_sent,
        0 <= i,
    ensures
        ({
            let r = m.before_kexinit(v, i);
            &&& coherent(r)
            &&& !(r.outcome matches Some(Expect::Exact(o)) && o is TagMismatch)
            &&& r.outcome is None ==> exchanging(r) && r.facts.protected_received == 0 && !r.facts.newkeys_sent
        }),
    decreases v.len() - i,
{
    if i < v.len() {
        lemma_ended(m, bad_frame());
        lemma_counted(m);
        let c = m.counted();
        assert(!(c.outcome matches Some(Expect::Exact(o)) && o is TagMismatch)) by {
            reveal(ModelView::counted);
            reveal(ModelView::ended);
        }
        if !(v[i] is BadFrame) && c.outcome is None {
            lemma_ended(
                c,
                HandshakeOutcome::ProtocolError(ProtocolViolation::EmptyPayload),
            );
            match v[i] {
                Msg::Disconnect { reason_code, description } => {
                    lemma_recording(c, reason_code, description, Msg::Empty);
                    lemma_ended(
                        c.disconnecting(reason_code, description),
                        HandshakeOutcome::ServerDisconnected { reason_code, description },
                    );
                },
                Msg::Malformed(mal) => {
                    lemma_ended(c, HandshakeOutcome::UnexpectedMessage { number: 21, phase: Phase::ServerKexInit });
                    lemma_ended(c, mal_outcome(mal));
                    let k = ModelView {
                        facts: Facts {
                            kexinit_was_first: Some(c.facts.unprotected_received == 1),
                            ..c.facts
                        },
                        ..c
                    };
                    lemma_ended(k, mal_outcome(mal));
                },
                _ => {
                    if skippable(v[i]) {
                        lemma_recording(c, 0, Seq::empty(), v[i]);
                        lemma_before_kexinit(c.skipping(skip_record(v[i])), v, i + 1);
                    } else {
                        lemma_ended(
                            c,
                            HandshakeOutcome::UnexpectedMessage {
                                number: crate::handshake::model::number_of(v[i]),
                                phase: Phase::ServerKexInit,
                            },
                        );
                    }
                },
            }
        }
    }
}

proof fn lemma_negotiating(m: ModelView, sc: ScenarioView, negotiated: NegotiationView, strict_eval: StrictKex)
    requires
        exchanging(m),
        m.facts.protected_received == 0,
        !m.facts.newkeys_sent,
    ensures
        ({
            let r = negotiating(m, sc, negotiated, strict_eval);
            &&& coherent(r)
            &&& mismatch_explained(r, sc)
            &&& r.outcome is None ==> exchanging(r) && r.selected is Some && r.facts.protected_received == 0
                && !r.facts.newkeys_sent
        }),
{
    reveal(negotiating);
    reveal(ModelView::ended);
    reveal(ModelView::violated);
    reveal(ModelView::chosen);
    if let Ok(n) = negotiated {
        let was_first = sc.pre_kexinit.len() == 0;
        let a = ModelView {
            facts: Facts {
                server_seen: true,
                kexinit_was_first: Some(was_first),
                strict: n.strict_kex,
                strict_active: n.strict_kex.negotiated,
                phase_at_end: Phase::EcdhReply,
                ..m.facts
            },
            selected: Some(n),
            ..m
        };
        lemma_sending(a, 30);
        reveal(ModelView::sending);
    }
}

/// In every scenario the client sends nothing but KEXINIT first and then
/// KEX_ECDH_INIT, NEWKEYS, SERVICE_REQUEST and DISCONNECT, and never a request
/// to authenticate. It sends NEWKEYS only after a signature that verifies and
/// a host key that is trusted, and so never for an untrusted host. The
/// handshake completes only with the service accepted under protection. A
/// strict kex violation needs strict kex, and comes before the server's
/// NEWKEYS. A signature is refused exactly where the outcome says so. A tag
/// mismatch needs a packet that was tampered with.
pub proof fn lemma_model_coherent(sc: ScenarioView, negotiated: NegotiationView, strict_eval: StrictKex)
    ensures
        ({
            let m = modelled(sc, negotiated, strict_eval);
            coherent(m) && mismatch_explained(m, sc)
        }),
{
    let m0 = fresh(sc);
    assert(coherent(m0)) by {
        assert(m0.client_messages[0] == 20);
        assert(!m0.client_messages.contains(21));
    }
    lemma_ended(
        m0,
        HandshakeOutcome::ProtocolError(
            ProtocolViolation::Ident(
                crate::tcp_support::types::IdentError::UnsupportedVersion,
            ),
        ),
    );
    if !(sc.ident is V15) {
        let a = ModelView {
            facts: Facts { phase_at_end: Phase::ServerKexInit, ..m0.facts },
            ..m0
        };
        lemma_before_kexinit(a, sc.pre_kexinit, 0);
        let m1 = a.before_kexinit(sc.pre_kexinit, 0);
        if m1.outcome is None {
            lemma_counted(m1);
            let m2 = m1.counted();
            assert(!(m2.outcome matches Some(Expect::Exact(o)) && o is TagMismatch)) by {
                reveal(ModelView::counted);
                reveal(ModelView::ended);
            }
            if m2.outcome is None {
                lemma_negotiating(m2, sc, negotiated, strict_eval);
                let m3 = negotiating(m2, sc, negotiated, strict_eval);
                lemma_after_kexinit(
                    m3,
                    sc,
                    items_of(sc),
                    0,
                    true,
                    negotiated matches Ok(n) && n.server_guess_wrong,
                );
            }
        }
    }
}

/// A completed handshake has accepted `ssh-userauth` under protection, for a
/// trusted host whose signature verified.
pub proof fn lemma_completed_is_earned(sc: ScenarioView, negotiated: NegotiationView, strict_eval: StrictKex)
    ensures
        ({
            let m = modelled(sc, negotiated, strict_eval);
            m.outcome == Some(Expect::<OutcomeView>::Exact(HandshakeOutcome::Completed)) ==> {
                &&& m.facts.service_accepted
                &&& m.facts.newkeys_sent && m.facts.newkeys_received
                &&& m.facts.signature_valid == Some(true)
                &&& m.facts.trust matches Some(t) && t is Trusted
                &&& m.selected is Some
            }
        }),
{
    lemma_model_coherent(sc, negotiated, strict_eval);
}

/// For an untrusted host the client never sends NEWKEYS.
pub proof fn lemma_untrusted_stops(sc: ScenarioView, negotiated: NegotiationView, strict_eval: StrictKex)
    ensures
        ({
            let m = modelled(sc, negotiated, strict_eval);
            (m.facts.trust matches Some(t) && t is Untrusted) ==> !m.client_messages.contains(21)
        }),
{
    lemma_model_coherent(sc, negotiated, strict_eval);
}

/// Every malformed message is refused by the decoder of its number, with the
/// fault that the model names.
pub proof fn lemma_malformed_refused(mal: Mal)
    ensures
        match mal {
            Mal::Ignore => ignore_read(mal.bytes()) == Err::<Seq<u8>, MessageError>(mal.fault()),
            Mal::Debug => debug_read(mal.bytes()) == Err::<DebugFields, MessageError>(mal.fault()),
            Mal::Unimplemented => unimplemented_read(mal.bytes()) == Err::<u32, MessageError>(mal.fault()),
            Mal::Disconnect => disconnect_read(mal.bytes()) == Err::<DisconnectFields, MessageError>(mal.fault()),
            Mal::NewKeys => newkeys_read(mal.bytes()) == Err::<(), MessageError>(mal.fault()),
            Mal::KexInit => kexinit_read(mal.bytes()) == Err::<KexInitFields, MessageError>(mal.fault()),
            Mal::ExtInfo => ext_header_read(mal.bytes()) == Err::<ExtHeader, MessageError>(mal.fault()),
            Mal::ServiceAccept => service_accept_read(mal.bytes()) == Err::<Seq<u8>, MessageError>(mal.fault()),
        },
{
    reveal(u32_of);
}

/// A junk reply is refused by the decoder of KEX_ECDH_REPLY, and an
/// unframeable length by the framing rules, as the model says.
pub proof fn lemma_junk_refused()
    ensures
        junk_reply() == HandshakeOutcome::<Seq<u8>, Seq<char>>::ProtocolError(
            ProtocolViolation::Message {
                number: 31,
                error: ecdh_reply_read(msg_payload(Msg::ReplyAgain, Seq::empty()))->Err_0,
            },
        ),
        bad_frame() == HandshakeOutcome::<Seq<u8>, Seq<char>>::ProtocolError(
            ProtocolViolation::Packet(framing(msg_wire(Msg::BadFrame, Seq::empty()), 0x1_0000)->Err_0),
        ),
{
    reveal(u32_of);
    let s = msg_payload(Msg::ReplyAgain, Seq::empty());
    assert(s =~= seq![31u8, 0xde, 0xad]);
    assert(ecdh_reply_read(s) is Err);
    let f = msg_wire(Msg::BadFrame, Seq::empty());
    assert(f =~= seq![0xffu8, 0xff, 0xff, 0xff]);
    assert(u32_of(f) == 0xffff_ffff);
}

} // verus!
