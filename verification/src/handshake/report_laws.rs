//! What an accepted report says, key by key, and what an accepted output holds.

use vstd::prelude::*;
use vstd::utf8::encode_utf8;
use crate::digits::decimal;
use crate::handshake::model::{
    digits, disconnect_view, extensions_view, selected_view, skipped_views, Expect, ExpectView, Keyword, ModelView,
};
use crate::handshake::report::{
    outcome_agrees, outcome_view, plain_message, plain_numbers, protected_message, protected_numbers,
    report_agrees, unprotected_count, HandshakeReport, Run,
};
use crate::handshake::scenario::ScenarioView;
use crate::handshake::types::{HandshakeOutcome, OutcomeView};
use crate::kex_support::crypto::{gcm_opened, sha256_of};
use crate::seqs::{occurs, vecs};
use crate::text::bytes_of;
use crate::wire_core::bytes::{be64, ssh_string, u32_of};

verus! {

/// Whether a message number is one that is never under protection.
pub open spec fn sent_in_clear(number: u8) -> bool {
    number == 20 || number == 21 || number == 30
}

proof fn lemma_clear_count(v: Seq<u8>, i: int)
    requires
        0 <= i <= v.len(),
    ensures
        unprotected_count(v, i) == v.skip(i).filter(|n: u8| sent_in_clear(n)).len(),
    decreases v.len() - i,
{
    let clear = |n: u8| sent_in_clear(n);
    if i < v.len() {
        lemma_clear_count(v, i + 1);
        let one = seq![v[i]];
        assert(v.skip(i) =~= one + v.skip(i + 1));
        Seq::filter_distributes_over_add(one, v.skip(i + 1), clear);
        reveal_with_fuel(Seq::filter, 2);
        assert(one.drop_last() =~= Seq::<u8>::empty());
    } else {
        reveal(Seq::filter);
        assert(v.skip(i) =~= Seq::<u8>::empty());
    }
}

/// What the report says of how it ended, of what the server sent first and of
/// the session.
pub open spec fn ending_told(r: HandshakeReport, m: ModelView, sc: ScenarioView, run: Run) -> bool {
    &&& !r.user_authenticated
    &&& r.client_identification@ == bytes_of("SSH-2.0-") + bytes_of(crate::handshake::wire::SOFTWARE)
    &&& r.phase is Finished
    &&& run.outcome is Some ==> outcome_view(r.outcome) == outcome_view(run.outcome)
    &&& run.outcome is None ==> outcome_view(r.outcome) == Some(
        HandshakeOutcome::<Seq<u8>, Seq<char>>::Eof { phase: m.facts.phase_at_end },
    )
    &&& sc.ident is V15 || vecs(r.server_prelude_lines@) == sc.prelude
    &&& sc.ident is V15 || (r.server_identification matches Some(l) && l@ == bytes_of("SSH-") + bytes_of(
        if sc.ident is V199 {
            "1.99"
        } else {
            "2.0"
        },
    ) + seq![45u8] + sc.software)
    &&& run.session_id is Some <==> m.facts.signature_valid == Some(true)
    &&& run.session_id is Some && run.h is Some ==> run.session_id->0@ == run.h->0@
}

/// What the report says of the exchange.
pub open spec fn exchange_told(r: HandshakeReport, m: ModelView, sc: ScenarioView, run: Run) -> bool {
    let clear = m.client_messages.filter(|n: u8| sent_in_clear(n)).len();
    &&& r.kexinit_was_first_packet == m.facts.kexinit_was_first
    &&& r.strict_kex == m.facts.strict
    &&& r.server_advertised == m.facts.server_seen
    &&& r.server_guess_discarded == m.facts.guess_discarded
    &&& r.signature_valid == m.facts.signature_valid
    &&& r.trust == m.facts.trust
    &&& r.newkeys_sent == m.facts.newkeys_sent
    &&& r.newkeys_received == m.facts.newkeys_received
    &&& r.protected_packets_sent == m.facts.protected_sent
    &&& r.protected_packets_received == m.facts.protected_received
    &&& !m.facts.strict_active ==> r.send_sequence == clear + m.facts.protected_sent && r.receive_sequence
        == m.facts.unprotected_received + m.facts.protected_received
    &&& m.facts.strict_active && m.facts.newkeys_sent ==> r.send_sequence == m.facts.protected_sent
    &&& m.facts.strict_active && !m.facts.newkeys_sent ==> r.send_sequence == clear
    &&& m.facts.strict_active && m.facts.newkeys_received ==> r.receive_sequence == m.facts.protected_received
    &&& m.facts.strict_active && !m.facts.newkeys_received ==> r.receive_sequence == m.facts.unprotected_received
    &&& r.signature_error is Some <==> m.facts.signature_valid == Some(false)
    &&& r.signature_error matches Some(e) ==> occurs(
        bytes_of(
            if sc.reply is SigAlgRsa {
                "does not match key algorithm"
            } else if sc.reply is SigTrailing {
                "trailing byte"
            } else if sc.reply is SigShort {
                "expected 64"
            } else {
                "does not verify"
            },
        ),
        encode_utf8(e@),
    )
    &&& r.host_key is Some <==> m.facts.host_key_seen
    &&& r.host_key matches Some(k) ==> k.algorithm@ == "ssh-ed25519"@ && k.blob_len == 51 && k.fingerprint@
        == sha256_of(run.k_s@)
    &&& selected_view(r.selected) == m.selected
    &&& skipped_views(r.skipped_messages@) == m.skipped
    &&& extensions_view(r.ext_info) == m.ext_info
    &&& r.service_accepted is Some <==> m.facts.service_accepted
    &&& r.service_accepted matches Some(s) ==> s@ == "ssh-userauth"@
    &&& disconnect_view(r.server_disconnect) == m.server_disconnect
}

/// A report is accepted exactly where it says all of this: how the run ended,
/// that nobody is authenticated, both identifications, and of the exchange
/// every flag, every counter and every list. Sequence numbers go on over
/// NEWKEYS, and start again behind it under strict kex, for each direction at
/// its own NEWKEYS.
pub proof fn lemma_report_accepted(r: HandshakeReport, m: ModelView, sc: ScenarioView, run: Run)
    ensures
        report_agrees(r, m, sc, run) <==> ending_told(r, m, sc, run) && exchange_told(r, m, sc, run),
{
    lemma_clear_count(m.client_messages, 0);
    assert(m.client_messages.skip(0) =~= m.client_messages);
}

/// The outcome is accepted exactly where both end and the outcomes are the
/// same; of a strict kex violation only the words are compared.
pub proof fn lemma_outcome_accepted(got: Option<OutcomeView>, want: Option<ExpectView>)
    ensures
        want is None ==> outcome_agrees(got, want) == got is None,
        want is Some && got is None ==> !outcome_agrees(got, want),
        want matches Some(Expect::Exact(w)) ==> outcome_agrees(got, want) == (got == Some(w)),
        want matches Some(Expect::Strict(k)) ==> got matches Some(g) ==> outcome_agrees(got, want) == (g is StrictKexViolation
            && occurs(k.words(), encode_utf8(g->detail))),
{
}

/// The words of each violation of strict kex.
pub proof fn lemma_violation_words(n: u8)
    ensures
        Keyword::NotFirstPacket.words() == bytes_of("not the first packet"),
        Keyword::SecondKexInit.words() == bytes_of("second KEXINIT"),
        Keyword::SecondReply.words() == bytes_of("second KEX_ECDH_REPLY"),
        Keyword::NewKeysBeforeReply.words() == bytes_of("NEWKEYS before KEX_ECDH_REPLY"),
        Keyword::Disconnect.words() == bytes_of("SSH_MSG_DISCONNECT (reason code"),
        Keyword::KexMessage(n).words() == bytes_of("key-exchange message ") + decimal(n as int) + bytes_of(" during"),
        Keyword::Transport(2).words() == bytes_of("SSH_MSG_IGNORE (2)") + bytes_of(" during the initial key exchange"),
        Keyword::Transport(3).words() == bytes_of("SSH_MSG_UNIMPLEMENTED (3)") + bytes_of(
            " during the initial key exchange",
        ),
        Keyword::Transport(4).words() == bytes_of("SSH_MSG_DEBUG (4)") + bytes_of(" during the initial key exchange"),
{
    reveal_with_fuel(decimal, 3);
    assert(digits(n) =~= decimal(n as int));
}

/// What the client may send in clear: KEXINIT that is longer than its cookie,
/// KEX_ECDH_INIT with a string of 32 bytes, or NEWKEYS alone.
pub proof fn lemma_clear_message(p: Seq<u8>)
    ensures
        plain_message(p) <==> p.len() >= 1 && {
            ||| p[0] == 20 && p.len() >= 18
            ||| p[0] == 30 && p.len() == 37
            ||| p == seq![21u8]
        },
{
    if p.len() == 1 && p[0] == 21 {
        assert(p =~= seq![21u8]);
    }
}

/// What the client may send under protection: a request for `ssh-userauth`, or
/// DISCONNECT with the reason of an application that ends.
pub proof fn lemma_protected_message(p: Seq<u8>)
    ensures
        protected_message(p) <==> {
            ||| p == seq![5u8] + ssh_string(bytes_of("ssh-userauth"))
            ||| p.len() >= 5 && p.take(5) == seq![1u8, 0, 0, 0, 11]
        },
{
    if p.len() >= 5 {
        assert(p.take(5) == seq![1u8, 0, 0, 0, 11] <==> p[0] == 1 && p.subrange(1, 5) == seq![0u8, 0, 0, 11]) by {
            if p.take(5) == seq![1u8, 0, 0, 0, 11] {
                assert(p.take(5)[0] == p[0]);
                assert(p.subrange(1, 5) =~= p.take(5).subrange(1, 5));
                assert(seq![1u8, 0, 0, 0, 11].subrange(1, 5) =~= seq![0u8, 0, 0, 11]);
            }
            if p[0] == 1 && p.subrange(1, 5) == seq![0u8, 0, 0, 11] {
                assert forall|i: int| 0 <= i < 5 implies p.take(5)[i] == seq![1u8, 0, 0, 0, 11][i] by {
                    if i > 0 {
                        assert(p.subrange(1, 5)[i - 1] == p[i]);
                    }
                }
                assert(p.take(5) =~= seq![1u8, 0, 0, 0, 11]);
            }
        }
    }
}

/// Protected packets are read one behind the other: the first under the nonce
/// of the counter, those behind it under the next.
pub proof fn lemma_protected_read(key: Seq<u8>, fixed: Seq<u8>, count: u64, rest: Seq<u8>)
    ensures
        rest.len() == 0 ==> protected_numbers(rest, key, fixed, count) == Some(Seq::<u8>::empty()),
        protected_numbers(rest, key, fixed, count) matches Some(v) ==> rest.len() > 0 ==> {
            let n = u32_of(rest) as int;
            let body = gcm_opened(
                key,
                fixed + be64(count),
                rest.take(4),
                rest.subrange(4, 4 + n),
                rest.subrange(4 + n, 20 + n),
            );
            &&& rest.len() >= 20 + n
            &&& body is Some
            &&& v.len() > 0
            &&& 4 <= body->0[0] < n
            &&& v[0] == body->0.subrange(1, n - body->0[0])[0]
            &&& protected_message(body->0.subrange(1, n - body->0[0]))
            &&& protected_numbers(rest.skip(20 + n), key, fixed, count.wrapping_add(1)) == Some(v.skip(1))
        },
{
    if rest.len() > 0 && protected_numbers(rest, key, fixed, count) is Some {
        let v = protected_numbers(rest, key, fixed, count)->0;
        let n = u32_of(rest) as int;
        let more = protected_numbers(rest.skip(20 + n), key, fixed, count.wrapping_add(1));
        assert(v.skip(1) =~= more->0);
    }
}

/// The messages in clear are read in order, and all of them are regular.
pub proof fn lemma_clear_read(v: Seq<Seq<u8>>, i: int)
    requires
        0 <= i <= v.len(),
    ensures
        plain_numbers(v, i) is Some <==> forall|j: int| i <= j < v.len() ==> plain_message(#[trigger] v[j]),
        plain_numbers(v, i) matches Some(n) ==> n.len() == v.len() - i && forall|j: int|
            0 <= j < n.len() ==> #[trigger] n[j] == v[i + j][0],
    decreases v.len() - i,
{
    if i < v.len() {
        lemma_clear_read(v, i + 1);
        if plain_numbers(v, i) is Some {
            let n = plain_numbers(v, i)->0;
            let rest = plain_numbers(v, i + 1)->0;
            assert forall|j: int| 0 <= j < n.len() implies #[trigger] n[j] == v[i + j][0] by {
                if j > 0 {
                    assert(n[j] == rest[j - 1]);
                }
            }
        }
    }
}

} // verus!
