//! Verdicts on what the client reports and sends.

use vstd::prelude::*;
use vstd::utf8::encode_utf8;
use crate::handshake::model::{
    disconnect_view, expect_view, extensions_view, selected_view, skipped_views, Expect, ExpectView,
    ExtInfoModel, Model, ModelView,
};
use crate::handshake::scenario::{IdentKind, Reply, Scenario, ScenarioView};
use crate::handshake::types::{HandshakeOutcome, OutcomeView, Phase, TrustDecision};
use crate::handshake::wire::{
    client_line, ident_content, ident_line, parse_unprotected, unprotected_read, SOFTWARE,
};
use crate::kex_support::crypto::{packet_opened, sha256, sha256_of, DirKeys, Gcm};
use crate::kex_support::negotiate_ref::{Negotiated, StrictKex};
use crate::seqs::{
    copy_bytes, find_byte, first_at, head, contains_bytes, occurs, push_all, same_bytes, same_texts, same_vecs,
    tail, vecs,
};
use crate::tcp_support::types::SkippedMessage;
use crate::text::{bytes_of, same_text};
use crate::wire_core::bytes::{put_string, ssh_string};

verus! {

/// The host key as the client reports it.
#[derive(Clone, Debug, PartialEq, Eq)]
pub struct HostKeySummary {
    pub algorithm: String,
    pub blob_len: usize,
    pub fingerprint: [u8; 32],
}

/// What the client reports of a handshake.
#[derive(Clone, Debug, PartialEq, Eq)]
pub struct HandshakeReport {
    pub user_authenticated: bool,
    pub client_identification: Vec<u8>,
    pub phase: Phase,
    pub outcome: Option<HandshakeOutcome>,
    pub server_prelude_lines: Vec<Vec<u8>>,
    pub server_identification: Option<Vec<u8>>,
    pub kexinit_was_first_packet: Option<bool>,
    pub strict_kex: StrictKex,
    pub selected: Option<Negotiated>,
    pub server_advertised: bool,
    pub server_guess_discarded: bool,
    pub skipped_messages: Vec<SkippedMessage>,
    pub signature_valid: Option<bool>,
    pub signature_error: Option<String>,
    pub trust: Option<TrustDecision>,
    pub newkeys_sent: bool,
    pub newkeys_received: bool,
    pub protected_packets_sent: u32,
    pub protected_packets_received: u32,
    pub send_sequence: u32,
    pub receive_sequence: u32,
    pub host_key: Option<HostKeySummary>,
    pub ext_info: Option<ExtInfoModel>,
    pub service_accepted: Option<String>,
    pub server_disconnect: Option<(u32, Vec<u8>)>,
}

/// One run of the client against a scenario.
#[derive(Clone, Debug)]
pub struct Run {
    pub outcome: Option<HandshakeOutcome>,
    pub report: HandshakeReport,
    /// Everything the client sent.
    pub output: Vec<u8>,
    pub session_id: Option<[u8; 32]>,
    /// The exchange hash when the reply was valid.
    pub h: Option<[u8; 32]>,
    /// The host key blob.
    pub k_s: Vec<u8>,
    /// The keys of the client's direction.
    pub c2s: Option<DirKeys>,
}

/// An optional outcome over sequences.
pub open spec fn outcome_view(o: Option<HandshakeOutcome>) -> Option<OutcomeView> {
    match o {
        Some(x) => Some(x@),
        None => None,
    }
}

/// The client's outcome is the expected one.
pub open spec fn outcome_agrees(got: Option<OutcomeView>, want: Option<ExpectView>) -> bool {
    match (want, got) {
        (None, None) => true,
        (Some(Expect::Exact(w)), Some(g)) => g == w,
        (Some(Expect::Strict(k)), Some(HandshakeOutcome::StrictKexViolation { detail })) => occurs(
            k.words(),
            encode_utf8(detail),
        ),
        _ => false,
    }
}

/// Whether the client's outcome is the expected one.
pub fn check_outcome(got: &Option<HandshakeOutcome>, m: &Model) -> (r: bool)
    ensures
        r == outcome_agrees(outcome_view(*got), m@.outcome),
{
    proof {
        reveal(expect_view);
    }
    match (&m.outcome, got) {
        (None, None) => true,
        (Some(Expect::Exact(w)), Some(g)) => g.same(w),
        (Some(Expect::Strict(k)), Some(HandshakeOutcome::StrictKexViolation { detail })) => contains_bytes(
            detail.as_str().as_bytes(),
            k.text().as_slice(),
        ),
        _ => false,
    }
}

/// The words that an invalid signature is reported with.
pub open spec fn signature_words(reply: Reply) -> &'static str {
    match reply {
        Reply::SigAlgRsa => "does not match key algorithm",
        Reply::SigTrailing => "trailing byte",
        Reply::SigShort => "expected 64",
        _ => "does not verify",
    }
}

/// How many of the messages are sent unprotected, from the `i`-th on.
pub open spec fn unprotected_count(v: Seq<u8>, i: int) -> int
    decreases v.len() - i,
{
    if i >= v.len() {
        0
    } else {
        unprotected_count(v, i + 1) + if v[i] == 20 || v[i] == 30 || v[i] == 21 {
            1int
        } else {
            0int
        }
    }
}

/// The sequence number of the next packet sent: under strict kex it is reset
/// at NEWKEYS, else it is cumulative.
pub open spec fn expected_send_sequence(m: ModelView) -> int {
    let plain = unprotected_count(m.client_messages, 0);
    if !m.facts.strict_active {
        plain + m.facts.protected_sent
    } else if m.facts.newkeys_sent {
        m.facts.protected_sent as int
    } else {
        plain
    }
}

/// The sequence number of the next packet received.
pub open spec fn expected_receive_sequence(m: ModelView) -> int {
    if !m.facts.strict_active {
        m.facts.unprotected_received + m.facts.protected_received
    } else if m.facts.newkeys_received {
        m.facts.protected_received as int
    } else {
        m.facts.unprotected_received as int
    }
}

/// The report says how the handshake ended, and that nobody authenticated.
pub open spec fn end_agrees(r: HandshakeReport, m: ModelView, outcome: Option<OutcomeView>) -> bool {
    &&& !r.user_authenticated
    &&& r.client_identification@ == client_line()
    &&& r.phase == Phase::Finished
    &&& outcome_view(r.outcome) == match outcome {
        Some(o) => Some(o),
        None => Some(HandshakeOutcome::Eof { phase: m.facts.phase_at_end }),
    }
}

/// The report says what the server sent before its KEXINIT.
pub open spec fn opening_agrees(r: HandshakeReport, sc: ScenarioView) -> bool {
    !(sc.ident is V15) ==> vecs(r.server_prelude_lines@) == sc.prelude && (r.server_identification matches Some(l)
        && l@ == ident_content(sc))
}

/// The flags and counters of the report are those of the model.
pub open spec fn facts_agree(r: HandshakeReport, m: ModelView) -> bool {
    &&& r.kexinit_was_first_packet == m.facts.kexinit_was_first
    &&& r.strict_kex == m.facts.strict
    &&& r.server_advertised == m.facts.server_seen
    &&& r.server_guess_discarded == m.facts.guess_discarded
    &&& r.signature_valid == m.facts.signature_valid
    &&& r.trust == m.facts.trust
    &&& r.newkeys_sent == m.facts.newkeys_sent
    &&& r.newkeys_received == m.facts.newkeys_received
    &&& r.protected_packets_sent == m.facts.protected_sent
    &&& r.protected_packets_received == m.facts.protected_received
    &&& r.send_sequence == expected_send_sequence(m)
    &&& r.receive_sequence == expected_receive_sequence(m)
}

/// An invalid signature is explained, and only that.
pub open spec fn signature_agrees(r: HandshakeReport, m: ModelView, reply: Reply) -> bool {
    match r.signature_error {
        Some(e) => m.facts.signature_valid == Some(false) && occurs(
            bytes_of(signature_words(reply)),
            encode_utf8(e@),
        ),
        None => m.facts.signature_valid != Some(false),
    }
}

/// The host key is reported where it was read, with the hash of its blob.
pub open spec fn host_key_agrees(r: HandshakeReport, m: ModelView, k_s: Seq<u8>) -> bool {
    match r.host_key {
        Some(k) => m.facts.host_key_seen && k.algorithm@ == "ssh-ed25519"@ && k.blob_len == 51 && k.fingerprint@
            == sha256_of(k_s),
        None => !m.facts.host_key_seen,
    }
}

/// The lists of the report are those of the model.
pub open spec fn lists_agree(r: HandshakeReport, m: ModelView) -> bool {
    &&& selected_view(r.selected) == m.selected
    &&& skipped_views(r.skipped_messages@) == m.skipped
    &&& extensions_view(r.ext_info) == m.ext_info
    &&& (match r.service_accepted {
        Some(s) => m.facts.service_accepted && s@ == "ssh-userauth"@,
        None => !m.facts.service_accepted,
    })
    &&& disconnect_view(r.server_disconnect) == m.server_disconnect
}

/// There is a session identifier exactly where the signature verified, and
/// then it is the exchange hash.
pub open spec fn session_agrees(m: ModelView, session_id: Option<[u8; 32]>, h: Option<[u8; 32]>) -> bool {
    (session_id is Some) == (m.facts.signature_valid == Some(true)) && match (session_id, h) {
        (Some(a), Some(b)) => a@ == b@,
        _ => true,
    }
}

/// The report of a run is the one that the model gives.
pub open spec fn report_agrees(r: HandshakeReport, m: ModelView, sc: ScenarioView, run: Run) -> bool {
    end_agrees(r, m, outcome_view(run.outcome)) && opening_agrees(r, sc) && facts_agree(r, m)
        && signature_agrees(r, m, sc.reply) && host_key_agrees(r, m, run.k_s@) && lists_agree(r, m)
        && session_agrees(m, run.session_id, run.h)
}

fn check_end(r: &HandshakeReport, m: &Model, outcome: &Option<HandshakeOutcome>) -> (b: bool)
    ensures
        b == end_agrees(*r, m@, outcome_view(*outcome)),
{
    let mut line = copy_bytes("SSH-2.0-".as_bytes());
    push_all(&mut line, SOFTWARE.as_bytes());
    if r.user_authenticated || !same_bytes(r.client_identification.as_slice(), line.as_slice()) {
        return false;
    }
    match r.phase {
        Phase::Finished => {},
        _ => {
            return false;
        },
    }
    match (&r.outcome, outcome) {
        (Some(a), Some(b)) => a.same(b),
        (Some(HandshakeOutcome::Eof { phase }), None) => *phase == m.facts.phase_at_end,
        _ => false,
    }
}

fn check_opening(r: &HandshakeReport, sc: &Scenario) -> (b: bool)
    ensures
        b == opening_agrees(*r, sc@),
{
    match sc.ident {
        IdentKind::V15 => true,
        _ => {
            if !same_vecs(&r.server_prelude_lines, &sc.prelude) {
                return false;
            }
            let (content, wire) = ident_line(sc);
            match &r.server_identification {
                Some(l) => same_bytes(l.as_slice(), content.as_slice()),
                None => false,
            }
        },
    }
}

/// How many of the messages are sent unprotected.
fn count_unprotected(v: &Vec<u8>) -> (r: u64)
    ensures
        r == unprotected_count(v@, 0),
        r <= v@.len(),
{
    let mut i: usize = v.len();
    let mut n: u64 = 0;
    proof {
        assert(v@.len() == v.len());
    }
    while i > 0
        invariant
            i <= v@.len(),
            n == unprotected_count(v@, i as int),
            n <= v@.len() - i,
            v@.len() <= usize::MAX,
        decreases i,
    {
        i = i - 1;
        if v[i] == 20 || v[i] == 30 || v[i] == 21 {
            n = n + 1;
        }
    }
    n
}

fn check_facts(r: &HandshakeReport, m: &Model) -> (b: bool)
    requires
        m@.client_messages.len() <= u32::MAX,
    ensures
        b == facts_agree(*r, m@),
{
    let plain: u64 = count_unprotected(&m.client_messages);
    let f = &m.facts;
    let want_send: u64 = if !f.strict_active {
        plain + f.protected_sent as u64
    } else if f.newkeys_sent {
        f.protected_sent as u64
    } else {
        plain
    };
    let want_receive: u64 = if !f.strict_active {
        f.unprotected_received as u64 + f.protected_received as u64
    } else if f.newkeys_received {
        f.protected_received as u64
    } else {
        f.unprotected_received as u64
    };
    same_flag(r.kexinit_was_first_packet, f.kexinit_was_first) && r.strict_kex == f.strict && r.server_advertised
        == f.server_seen && r.server_guess_discarded == f.guess_discarded && same_flag(
        r.signature_valid,
        f.signature_valid,
    ) && same_trust(r.trust, f.trust) && r.newkeys_sent == f.newkeys_sent && r.newkeys_received
        == f.newkeys_received && r.protected_packets_sent == f.protected_sent && r.protected_packets_received
        == f.protected_received && r.send_sequence as u64 == want_send && r.receive_sequence as u64
        == want_receive
}

fn same_flag(a: Option<bool>, b: Option<bool>) -> (r: bool)
    ensures
        r == (a == b),
{
    match (a, b) {
        (Some(x), Some(y)) => x == y,
        (None, None) => true,
        _ => false,
    }
}

fn same_trust(a: Option<TrustDecision>, b: Option<TrustDecision>) -> (r: bool)
    ensures
        r == (a == b),
{
    match (a, b) {
        (Some(x), Some(y)) => x == y,
        (None, None) => true,
        _ => false,
    }
}

fn check_signature(r: &HandshakeReport, m: &Model, reply: Reply) -> (b: bool)
    ensures
        b == signature_agrees(*r, m@, reply),
{
    let refused: bool = match m.facts.signature_valid {
        Some(v) => !v,
        None => false,
    };
    match &r.signature_error {
        Some(e) => {
            let words: &'static str = match reply {
                Reply::SigAlgRsa => "does not match key algorithm",
                Reply::SigTrailing => "trailing byte",
                Reply::SigShort => "expected 64",
                _ => "does not verify",
            };
            refused && contains_bytes(e.as_str().as_bytes(), words.as_bytes())
        },
        None => !refused,
    }
}

fn check_host_key(r: &HandshakeReport, m: &Model, k_s: &Vec<u8>) -> (b: bool)
    ensures
        b == host_key_agrees(*r, m@, k_s@),
{
    match &r.host_key {
        Some(k) => {
            let digest = sha256(k_s.as_slice());
            m.facts.host_key_seen && same_text(k.algorithm.as_str(), "ssh-ed25519") && k.blob_len == 51
                && same_bytes(k.fingerprint.as_slice(), digest.as_slice())
        },
        None => !m.facts.host_key_seen,
    }
}

impl Negotiated<String> {
    /// Whether both hold the same.
    pub fn same(&self, other: &Self) -> (r: bool)
        ensures
            r == (self@ == other@),
    {
        self.kex == other.kex && self.host_key == other.host_key && self.encryption_client_to_server
            == other.encryption_client_to_server && self.encryption_server_to_client
            == other.encryption_server_to_client && self.mac_client_to_server == other.mac_client_to_server
            && self.mac_server_to_client == other.mac_server_to_client && self.compression_client_to_server
            == other.compression_client_to_server && self.compression_server_to_client
            == other.compression_server_to_client && self.strict_kex == other.strict_kex && self.ext_info
            == other.ext_info && self.server_guess_wrong == other.server_guess_wrong
    }
}

fn same_selected(a: &Option<Negotiated>, b: &Option<Negotiated>) -> (r: bool)
    ensures
        r == (selected_view(*a) == selected_view(*b)),
{
    proof {
        reveal(selected_view);
    }
    match (a, b) {
        (Some(x), Some(y)) => x.same(y),
        (None, None) => true,
        _ => false,
    }
}

fn same_skipped(a: &Vec<SkippedMessage>, b: &Vec<SkippedMessage>) -> (r: bool)
    ensures
        r == (skipped_views(a@) == skipped_views(b@)),
{
    if a.len() != b.len() {
        proof {
            assert(skipped_views(a@).len() != skipped_views(b@).len());
        }
        return false;
    }
    let mut i: usize = 0;
    while i < a.len()
        invariant
            i <= a@.len(),
            a@.len() == b@.len(),
            forall|j: int| 0 <= j < i ==> (#[trigger] a@[j])@ == b@[j]@,
        decreases a@.len() - i,
    {
        if !a[i].same(&b[i]) {
            proof {
                assert(skipped_views(a@)[i as int] != skipped_views(b@)[i as int]);
            }
            return false;
        }
        i = i + 1;
    }
    proof {
        assert(skipped_views(a@) =~= skipped_views(b@));
    }
    true
}

impl ExtInfoModel<Vec<String>> {
    /// Whether both hold the same.
    pub fn same(&self, other: &Self) -> (r: bool)
        ensures
            r == (self@ == other@),
    {
        self.received == other.received && (match (&self.server_sig_algs, &other.server_sig_algs) {
            (Some(a), Some(b)) => same_texts(a, b),
            (None, None) => true,
            _ => false,
        }) && same_texts(&self.extension_names, &other.extension_names)
    }
}

fn same_extensions(a: &Option<ExtInfoModel>, b: &Option<ExtInfoModel>) -> (r: bool)
    ensures
        r == (extensions_view(*a) == extensions_view(*b)),
{
    proof {
        reveal(extensions_view);
    }
    match (a, b) {
        (Some(x), Some(y)) => x.same(y),
        (None, None) => true,
        _ => false,
    }
}

fn same_disconnect(a: &Option<(u32, Vec<u8>)>, b: &Option<(u32, Vec<u8>)>) -> (r: bool)
    ensures
        r == (disconnect_view(*a) == disconnect_view(*b)),
{
    proof {
        reveal(disconnect_view);
    }
    match (a, b) {
        (Some(x), Some(y)) => x.0 == y.0 && same_bytes(x.1.as_slice(), y.1.as_slice()),
        (None, None) => true,
        _ => false,
    }
}

fn check_lists(r: &HandshakeReport, m: &Model) -> (b: bool)
    ensures
        b == lists_agree(*r, m@),
{
    let service: bool = match &r.service_accepted {
        Some(s) => m.facts.service_accepted && same_text(s.as_str(), "ssh-userauth"),
        None => !m.facts.service_accepted,
    };
    same_selected(&r.selected, &m.selected) && same_skipped(&r.skipped_messages, &m.skipped) && same_extensions(
        &r.ext_info,
        &m.ext_info,
    ) && service && same_disconnect(&r.server_disconnect, &m.server_disconnect)
}

fn check_session(m: &Model, session_id: Option<[u8; 32]>, h: Option<[u8; 32]>) -> (b: bool)
    ensures
        b == session_agrees(m@, session_id, h),
{
    let valid: bool = match m.facts.signature_valid {
        Some(v) => v,
        None => false,
    };
    if session_id.is_some() != valid {
        return false;
    }
    match (session_id, h) {
        (Some(a), Some(b)) => same_bytes(a.as_slice(), b.as_slice()),
        _ => true,
    }
}

/// Whether the report of a run is the one that the model gives.
pub fn check_report(r: &HandshakeReport, m: &Model, sc: &Scenario, run: &Run) -> (b: bool)
    requires
        m@.client_messages.len() <= u32::MAX,
    ensures
        b == report_agrees(*r, m@, sc@, *run),
{
    check_end(r, m, &run.outcome) && check_opening(r, sc) && check_facts(r, m) && check_signature(r, m, sc.reply)
        && check_host_key(r, m, &run.k_s) && check_lists(r, m) && check_session(m, run.session_id, run.h)
}

/// An unprotected client message is KEXINIT with its cookie, KEX_ECDH_INIT
/// with 32 bytes, or NEWKEYS.
pub open spec fn plain_message(p: Seq<u8>) -> bool {
    p.len() > 0 && (p[0] == 20 ==> p.len() > 17) && (p[0] == 30 ==> p.len() == 37) && (p[0] == 21 ==> p.len() == 1)
        && (p[0] == 20 || p[0] == 30 || p[0] == 21)
}

/// A protected client message requests `ssh-userauth` or disconnects by
/// application.
pub open spec fn protected_message(p: Seq<u8>) -> bool {
    p.len() > 0 && (p[0] == 5 || p[0] == 1) && (p[0] == 5 ==> p == seq![5u8] + ssh_string(
        bytes_of("ssh-userauth"),
    )) && (p[0] == 1 ==> p.len() >= 5 && p.subrange(1, 5) == seq![0u8, 0, 0, 11])
}

/// The numbers of the unprotected messages, where all are regular.
pub open spec fn plain_numbers(v: Seq<Seq<u8>>, i: int) -> Option<Seq<u8>>
    decreases v.len() - i,
{
    if i >= v.len() {
        Some(Seq::empty())
    } else if !plain_message(v[i]) {
        None
    } else {
        match plain_numbers(v, i + 1) {
            Some(rest) => Some(seq![v[i][0]] + rest),
            None => None,
        }
    }
}

/// The numbers of the protected messages in `rest`, where every packet opens
/// under consecutive nonces and every message is regular.
pub open spec fn protected_numbers(rest: Seq<u8>, key: Seq<u8>, fixed: Seq<u8>, count: u64) -> Option<Seq<u8>>
    decreases rest.len(),
{
    if rest.len() == 0 {
        Some(Seq::empty())
    } else {
        match packet_opened(key, crate::kex_support::crypto::nonce_of(fixed, count), rest) {
            None => None,
            Some((payload, total)) => if !protected_message(payload) || total <= 0 || total > rest.len() {
                None
            } else {
                match protected_numbers(rest.skip(total), key, fixed, count.wrapping_add(1)) {
                    Some(more) => Some(seq![payload[0]] + more),
                    None => None,
                }
            },
        }
    }
}

/// The numbers of everything the client sent: identification line, unprotected
/// packets, and then protected packets, which need keys.
pub open spec fn sent_numbers(out: Seq<u8>, c2s: Option<DirKeys>) -> Option<Seq<u8>> {
    let end = first_at(out, 10, 0) + 1;
    if end > out.len() || out.take(end) != client_line() + seq![13u8, 10u8] {
        None
    } else {
        match unprotected_read(out.skip(end), 0) {
            Err(e) => None,
            Ok((payloads, used)) => match plain_numbers(payloads, 0) {
                None => None,
                Some(plain) => {
                    let rest = out.skip(end + used);
                    match c2s {
                        None => if rest.len() == 0 {
                            Some(plain)
                        } else {
                            None
                        },
                        Some(keys) => match protected_numbers(
                            rest,
                            keys.key@,
                            keys.iv@.take(4),
                            crate::wire_core::bytes::u64_of(keys.iv@.skip(4)),
                        ) {
                            Some(more) => Some(plain + more),
                            None => None,
                        },
                    }
                },
            },
        }
    }
}

fn regular_plain(p: &Vec<u8>) -> (r: bool)
    ensures
        r == plain_message(p@),
{
    if p.len() == 0 {
        return false;
    }
    if p[0] == 20 {
        p.len() > 17
    } else if p[0] == 30 {
        p.len() == 37
    } else {
        p[0] == 21 && p.len() == 1
    }
}

fn regular_protected(p: &Vec<u8>) -> (r: bool)
    ensures
        r == protected_message(p@),
{
    if p.len() == 0 {
        return false;
    }
    if p[0] == 5 {
        let mut want: Vec<u8> = Vec::new();
        want.push(5);
        proof {
            reveal_strlit("ssh-userauth");
            crate::text::lemma_ascii_len("ssh-userauth");
        }
        put_string(&mut want, "ssh-userauth".as_bytes());
        proof {
            assert(want@ =~= seq![5u8] + ssh_string(bytes_of("ssh-userauth")));
        }
        same_bytes(p.as_slice(), want.as_slice())
    } else if p[0] == 1 {
        if p.len() < 5 {
            return false;
        }
        let reason: [u8; 4] = [0, 0, 0, 11];
        proof {
            assert(reason@ =~= seq![0u8, 0, 0, 11]);
        }
        same_bytes(vstd::slice::slice_subrange(p.as_slice(), 1, 5), reason.as_slice())
    } else {
        false
    }
}

fn number_plain(v: &Vec<Vec<u8>>) -> (r: Option<Vec<u8>>)
    ensures
        match plain_numbers(vecs(v@), 0) {
            Some(n) => r matches Some(w) && w@ == n,
            None => r is None,
        },
{
    let ghost all = vecs(v@);
    let ghost goal = plain_numbers(all, 0);
    let mut out: Vec<u8> = Vec::new();
    let mut i: usize = 0;
    proof {
        if let Some(n) = goal {
            assert(out@ + n =~= n);
        }
    }
    while i < v.len()
        invariant
            i <= v@.len(),
            all == vecs(v@),
            goal == plain_numbers(all, 0),
            match plain_numbers(all, i as int) {
                Some(n) => goal == Some(out@ + n),
                None => goal is None,
            },
        decreases v@.len() - i,
    {
        proof {
            assert(all[i as int] == v@[i as int]@);
        }
        if !regular_plain(&v[i]) {
            return None;
        }
        let ghost before = out@;
        out.push(v[i][0]);
        proof {
            if let Some(n) = plain_numbers(all, i + 1) {
                assert(out@ + n =~= before + (seq![all[i as int][0]] + n));
            }
        }
        i = i + 1;
    }
    proof {
        assert(out@ + Seq::<u8>::empty() =~= out@);
    }
    Some(out)
}

fn number_protected(rest: &[u8], keys: &DirKeys) -> (r: Option<Vec<u8>>)
    ensures
        match protected_numbers(
            rest@,
            keys.key@,
            keys.iv@.take(4),
            crate::wire_core::bytes::u64_of(keys.iv@.skip(4)),
        ) {
            Some(n) => r matches Some(w) && w@ == n,
            None => r is None,
        },
{
    let mut opener = Gcm::new(&keys.key, &keys.iv);
    let ghost key = opener.key_bytes();
    let ghost fixed = opener.fixed_bytes();
    let ghost goal = protected_numbers(rest@, key, fixed, opener.count());
    let mut out: Vec<u8> = Vec::new();
    let mut pos: usize = 0;
    proof {
        assert(rest@.skip(0) =~= rest@);
        if let Some(n) = goal {
            assert(out@ + n =~= n);
        }
    }
    while pos < rest.len()
        invariant
            pos <= rest@.len(),
            opener.key_bytes() == key,
            opener.fixed_bytes() == fixed,
            goal == protected_numbers(
                rest@,
                keys.key@,
                keys.iv@.take(4),
                crate::wire_core::bytes::u64_of(keys.iv@.skip(4)),
            ),
            match protected_numbers(rest@.skip(pos as int), key, fixed, opener.count()) {
                Some(n) => goal == Some(out@ + n),
                None => goal is None,
            },
        decreases rest@.len() - pos,
    {
        let ghost count = opener.count();
        let here = tail(rest, pos);
        match opener.open(here) {
            None => {
                return None;
            },
            Some((payload, total)) => {
                if !regular_protected(&payload) || total == 0 || total > here.len() {
                    return None;
                }
                let ghost before = out@;
                out.push(payload[0]);
                proof {
                    assert(rest@.skip(pos as int).skip(total as int) =~= rest@.skip(pos + total));
                    if let Some(n) = protected_numbers(rest@.skip(pos + total), key, fixed, opener.count()) {
                        assert(out@ + n =~= before + (seq![payload@[0]] + n));
                    }
                }
                pos = pos + total;
            },
        }
    }
    proof {
        assert(out@ + Seq::<u8>::empty() =~= out@);
    }
    Some(out)
}

/// Reads the numbers of everything the client sent.
pub fn read_numbers(out: &[u8], c2s: &Option<DirKeys>) -> (r: Option<Vec<u8>>)
    ensures
        match sent_numbers(out@, *c2s) {
            Some(n) => r matches Some(w) && w@ == n,
            None => r is None,
        },
{
    let line: usize = find_byte(out, 10);
    if line >= out.len() {
        return None;
    }
    let end: usize = line + 1;
    let mut want = copy_bytes("SSH-2.0-".as_bytes());
    push_all(&mut want, SOFTWARE.as_bytes());
    want.push(13);
    want.push(10);
    proof {
        assert(want@ =~= client_line() + seq![13u8, 10u8]);
    }
    if !same_bytes(head(out, end), want.as_slice()) {
        return None;
    }
    let (payloads, used) = match parse_unprotected(tail(out, end)) {
        Ok(v) => v,
        Err(e) => {
            return None;
        },
    };
    let mut numbers = match number_plain(&payloads) {
        Some(v) => v,
        None => {
            return None;
        },
    };
    let rest = tail(out, end + used);
    match c2s {
        None => if rest.len() == 0 {
            Some(numbers)
        } else {
            None
        },
        Some(keys) => match number_protected(rest, keys) {
            Some(more) => {
                push_all(&mut numbers, more.as_slice());
                Some(numbers)
            },
            None => None,
        },
    }
}

/// What the client sent is what the model says, in order.
pub open spec fn output_agrees(run: Run, m: ModelView) -> bool {
    sent_numbers(run.output@, run.c2s) == Some(m.client_messages)
}

/// Whether the client sent exactly the modelled messages.
pub fn check_client_output(run: &Run, m: &Model) -> (b: bool)
    ensures
        b == output_agrees(*run, m@),
{
    match read_numbers(run.output.as_slice(), &run.c2s) {
        Some(n) => same_bytes(n.as_slice(), m.client_messages.as_slice()),
        None => false,
    }
}

} // verus!
