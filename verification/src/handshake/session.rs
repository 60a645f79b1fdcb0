//! One run of the client: what the server sends next, and how the client's
//! steps are answered.

use vstd::prelude::*;
use crate::handshake::scenario::{scenario_wf, Reply, Scenario, ScenarioView};
use crate::handshake::types::{HandshakeOutcome, Phase, TrustDecision};
use crate::handshake::wire::{
    client_opening, first_bytes, first_flight, hash_of, opening_read, protected_flight, reply_bytes,
    second_bytes, second_flight, server_reply, third_bytes, ClientFault,
};
use crate::kex_support::crypto::{ed25519_blob, ed25519_key_blob, keys_are, sha256, sha256_of, DirKeys};
use crate::kex_support::keys::{ed25519_public, ed25519_public_of, x25519_shared_of};
use crate::seqs::{min_int, push_all, same_bytes};
use crate::tcp_support::types::InputOverflow;
use crate::tcp_support::ChunkMode;
use crate::text::same_text;

verus! {

/// Which flight the server sends next.
#[derive(Clone, Copy, Debug, PartialEq, Eq, Structural)]
pub enum Stage {
    Opening,
    Reply,
    Protected,
    Over,
}

/// The server's side of one run.
#[derive(Clone, Debug)]
pub struct Session {
    pub stage: Stage,
    /// The shared secret and the exchange hash, once the reply was built.
    pub exchange: Option<([u8; 32], [u8; 32])>,
    /// The keys of the client's direction, once the protected phase began.
    pub c2s: Option<DirKeys>,
}

impl Session {
    /// A session before anything was sent.
    pub fn new() -> (r: Self)
        ensures
            r.stage == Stage::Opening,
            r.exchange is None,
            r.c2s is None,
    {
        Session { stage: Stage::Opening, exchange: None, c2s: None }
    }

    /// The exchange is the one that the client's output so far leads to.
    pub open spec fn exchange_is(self, sc: ScenarioView, i_c: Seq<u8>, q_c: Seq<u8>) -> bool {
        self.exchange matches Some((k, h)) && k@ == x25519_shared_of(sc.server_secret, q_c) && h@ == hash_of(
            sc,
            i_c,
            q_c,
        )
    }

    /// The next flight, or nothing where the run is over: the opening, then
    /// the reply built from the client's opening, then, where the client has
    /// reached the service phase, the protected messages. `finished` says that
    /// the client has ended, `output` is everything it sent.
    pub fn next_flight(&mut self, sc: &Scenario, finished: bool, phase: Phase, output: &[u8]) -> (r: Result<
        Option<Vec<u8>>,
        ClientFault,
    >)
        requires
            scenario_wf(sc@),
            output@.len() <= u32::MAX,
            old(self).stage == Stage::Protected ==> old(self).exchange is Some,
        ensures
            match old(self).stage {
                Stage::Opening => {
                    &&& r matches Ok(Some(w)) && w@ == first_bytes(sc@)
                    &&& final(self).stage == Stage::Reply
                    &&& final(self).exchange == old(self).exchange && final(self).c2s == old(self).c2s
                },
                Stage::Reply => if finished {
                    r matches Ok(None) && final(self).stage == Stage::Over && final(self).exchange
                        == old(self).exchange && final(self).c2s == old(self).c2s
                } else {
                    match opening_read(output@) {
                        Err(e) => r matches Err(f) && f == e && *final(self) == *old(self),
                        Ok((i_c, q_c)) => {
                            &&& r matches Ok(Some(w)) && w@ == second_bytes(sc@, reply_bytes(sc@, i_c, q_c))
                            &&& final(self).stage == Stage::Protected
                            &&& final(self).exchange_is(sc@, i_c, q_c)
                            &&& final(self).c2s == old(self).c2s
                        },
                    }
                },
                Stage::Protected => {
                    &&& final(self).stage == Stage::Over
                    &&& final(self).exchange == old(self).exchange
                    &&& if finished || phase != Phase::Service {
                        r matches Ok(None) && final(self).c2s == old(self).c2s
                    } else {
                        old(self).exchange matches Some((k, h)) && (r matches Ok(Some(w)) && w@ == third_bytes(
                            sc@,
                            k@,
                            h@,
                        )) && (final(self).c2s matches Some(d) && keys_are(d, k@, h@, h@, 65, 67))
                    }
                },
                Stage::Over => r matches Ok(None) && *final(self) == *old(self),
            },
            final(self).stage == Stage::Protected ==> final(self).exchange is Some,
    {
        match self.stage {
            Stage::Opening => {
                self.stage = Stage::Reply;
                Ok(Some(first_flight(sc)))
            },
            Stage::Reply => {
                if finished {
                    self.stage = Stage::Over;
                    return Ok(None);
                }
                let (i_c, q_c) = match client_opening(output) {
                    Ok(v) => v,
                    Err(e) => {
                        return Err(e);
                    },
                };
                proof {
                    crate::handshake::session::lemma_opening_short(output@);
                }
                let x = server_reply(sc, i_c.as_slice(), &q_c);
                let wire = second_flight(sc, x.payload.as_slice());
                self.stage = Stage::Protected;
                self.exchange = Some((x.k, x.h));
                Ok(Some(wire))
            },
            Stage::Protected => {
                self.stage = Stage::Over;
                let serving: bool = match phase {
                    Phase::Service => !finished,
                    _ => false,
                };
                if !serving {
                    return Ok(None);
                }
                match self.exchange {
                    Some((k, h)) => {
                        let (c2s, wire) = protected_flight(sc, &k, &h);
                        self.c2s = Some(c2s);
                        Ok(Some(wire))
                    },
                    None => Ok(None),
                }
            },
            Stage::Over => Ok(None),
        }
    }

    /// The exchange hash of a reply that is valid.
    pub fn valid_hash(&self, sc: &Scenario) -> (r: Option<[u8; 32]>)
        ensures
            match (self.exchange, sc.reply) {
                (Some((k, h)), Reply::Valid) => r == Some(h),
                _ => r is None,
            },
    {
        match (self.exchange, sc.reply) {
            (Some((k, h)), Reply::Valid) => Some(h),
            _ => None,
        }
    }
}

proof fn lemma_payload_short(out: Seq<u8>, pos: int)
    requires
        0 <= pos <= out.len(),
    ensures
        crate::handshake::wire::unprotected_read(out, pos) matches Ok((v, end)) ==> forall|i: int|
            0 <= i < v.len() ==> (#[trigger] v[i]).len() <= out.len(),
    decreases out.len() - pos,
{
    if out.len() - pos >= 5 {
        let len = crate::wire_core::bytes::u32_of(out.subrange(pos, pos + 4)) as int;
        let pad = out[pos + 4] as int;
        if pad >= 4 && (4 + len) % 8 == 0 && pos + 4 + len <= out.len() && len >= pad + 1 {
            lemma_payload_short(out, pos + 4 + len);
            if let Ok((more, end)) = crate::handshake::wire::unprotected_read(out, pos + 4 + len) {
                let payload = out.subrange(pos + 5, pos + 4 + len - pad);
                let all = seq![payload] + more;
                assert forall|i: int| 0 <= i < all.len() implies (#[trigger] all[i]).len() <= out.len() by {
                    if i > 0 {
                        assert(all[i] == more[i - 1]);
                    }
                }
            }
        }
    }
}

/// The client's KEXINIT is no longer than what it sent.
pub proof fn lemma_opening_short(out: Seq<u8>)
    ensures
        opening_read(out) matches Ok((i_c, q_c)) ==> i_c.len() <= out.len(),
{
    let line = crate::seqs::first_at(out, 10, 0);
    crate::seqs::lemma_first_at_range(out, 10, 0);
    if line < out.len() {
        lemma_payload_short(out.skip(line + 1), 0);
    }
}

/// The host key blob that the server presents.
pub fn presented_blob(sc: &Scenario) -> (r: Vec<u8>)
    ensures
        r@ == ed25519_blob(ed25519_public_of(sc@.host_seed)),
{
    let pk = ed25519_public(&sc.host_seed);
    ed25519_key_blob(&pk)
}

/// A step that the client took.
#[derive(Clone, Debug)]
pub enum Event {
    NeedMore,
    /// It has bytes to send.
    Send(Vec<u8>),
    /// It asks for a decision on the host key, in the given phase.
    TrustRequired { phase: Phase, blob: Vec<u8>, algorithm: String, sha256: [u8; 32] },
    /// It ended, in the given phase.
    Finished { phase: Phase, outcome: HandshakeOutcome },
}

/// How a step is answered.
#[derive(Clone, Copy, Debug, PartialEq, Eq, Structural)]
pub enum Answer {
    /// Feed more input.
    Feed,
    /// Take the next step.
    Step,
    /// Provide the decision, then take the next step.
    Decide(TrustDecision),
    /// The run has ended.
    Stop,
}

/// What a step got wrong.
#[derive(Clone, Copy, Debug, PartialEq, Eq, Structural)]
pub enum StepFault {
    EmptySend,
    TrustAskedTwice,
    WrongPhase,
    WrongIdentity,
}

/// What is known of the client while it is driven.
#[derive(Clone, Debug)]
pub struct Driver {
    pub output: Vec<u8>,
    pub outcome: Option<HandshakeOutcome>,
    pub k_s: Vec<u8>,
    pub trust_asked: bool,
}

/// The identity that the client asks about is the presented key: its blob, its
/// algorithm and the hash of the blob.
pub open spec fn identity_is(blob: Seq<u8>, algorithm: Seq<char>, digest: Seq<u8>, k_s: Seq<u8>) -> bool {
    blob == k_s && algorithm == "ssh-ed25519"@ && digest == sha256_of(k_s)
}

impl Driver {
    /// A driver before the first step.
    pub fn new(k_s: Vec<u8>) -> (r: Self)
        ensures
            r.output@ == Seq::<u8>::empty(),
            r.outcome is None,
            r.k_s@ == k_s@,
            !r.trust_asked,
    {
        Driver { output: Vec::new(), outcome: None, k_s, trust_asked: false }
    }

    /// Takes note of a step and answers it. What the client sends is
    /// collected; the decision is asked for once, about the presented key; the
    /// end is kept.
    pub fn answer(&mut self, event: Event, trust: TrustDecision) -> (r: Result<Answer, StepFault>)
        ensures
            final(self).k_s == old(self).k_s,
            match event {
                Event::NeedMore => r == Ok::<Answer, StepFault>(Answer::Feed) && *final(self) == *old(self),
                Event::Send(b) => if b@.len() == 0 {
                    r == Err::<Answer, StepFault>(StepFault::EmptySend) && *final(self) == *old(self)
                } else {
                    &&& r == Ok::<Answer, StepFault>(Answer::Step)
                    &&& final(self).output@ == old(self).output@ + b@
                    &&& final(self).outcome == old(self).outcome && final(self).trust_asked
                        == old(self).trust_asked
                },
                Event::TrustRequired { phase, blob, algorithm, sha256 } => if old(self).trust_asked {
                    r == Err::<Answer, StepFault>(StepFault::TrustAskedTwice) && *final(self) == *old(self)
                } else if phase != Phase::TrustDecision {
                    r == Err::<Answer, StepFault>(StepFault::WrongPhase) && *final(self) == *old(self)
                } else if !identity_is(blob@, algorithm@, sha256@, old(self).k_s@) {
                    r == Err::<Answer, StepFault>(StepFault::WrongIdentity) && *final(self) == *old(self)
                } else {
                    &&& r == Ok::<Answer, StepFault>(Answer::Decide(trust))
                    &&& final(self).trust_asked
                    &&& final(self).output == old(self).output && final(self).outcome == old(self).outcome
                },
                Event::Finished { phase, outcome } => if phase != Phase::Finished {
                    r == Err::<Answer, StepFault>(StepFault::WrongPhase) && *final(self) == *old(self)
                } else {
                    &&& r == Ok::<Answer, StepFault>(Answer::Stop)
                    &&& final(self).outcome == Some(outcome)
                    &&& final(self).output == old(self).output && final(self).trust_asked
                        == old(self).trust_asked
                },
            },
    {
        match event {
            Event::NeedMore => Ok(Answer::Feed),
            Event::Send(b) => {
                if b.len() == 0 {
                    return Err(StepFault::EmptySend);
                }
                push_all(&mut self.output, b.as_slice());
                Ok(Answer::Step)
            },
            Event::TrustRequired { phase, blob, algorithm, sha256: digest } => {
                if self.trust_asked {
                    return Err(StepFault::TrustAskedTwice);
                }
                if phase != Phase::TrustDecision {
                    return Err(StepFault::WrongPhase);
                }
                let want = sha256(self.k_s.as_slice());
                if !same_bytes(blob.as_slice(), self.k_s.as_slice()) || !same_text(
                    algorithm.as_str(),
                    "ssh-ed25519",
                ) || !same_bytes(digest.as_slice(), want.as_slice()) {
                    return Err(StepFault::WrongIdentity);
                }
                self.trust_asked = true;
                Ok(Answer::Decide(trust))
            },
            Event::Finished { phase, outcome } => {
                if phase != Phase::Finished {
                    return Err(StepFault::WrongPhase);
                }
                self.outcome = Some(outcome);
                Ok(Answer::Stop)
            },
        }
    }
}

/// How many bytes are fed next: the schedule's wish, within the client's room
/// and what is left; nothing where there is no room.
pub fn feed_len(chunk: &ChunkMode, turn: usize, room: usize, left: usize) -> (r: Option<usize>)
    ensures
        room == 0 ==> r is None,
        room > 0 ==> (r matches Some(n) && n == min_int(min_int(chunk.size(turn as int), room as int), left as int)),
        room > 0 && left > 0 ==> (r matches Some(n) && n > 0),
{
    if room == 0 {
        return None;
    }
    let want: usize = chunk.desired(turn);
    let clipped: usize = if want <= room { want } else { room };
    Some(if clipped <= left { clipped } else { left })
}

/// After how many bytes the failing entropy source fails.
pub fn entropy_limit(sc: &Scenario) -> (r: usize)
    ensures
        r == sc@.host_seed[0] % 80,
{
    (sc.host_seed[0] % 80) as usize
}

/// How many bytes beyond the room are offered to overflow the client.
pub fn overflow_extra(sc: &Scenario) -> (r: usize)
    ensures
        r == sc@.host_seed[1] % 3 + 1,
{
    (sc.host_seed[1] % 3) as usize + 1
}

/// What a client with an empty buffer makes of more than its room: nothing is
/// copied, and the handshake ends.
pub fn overflow_outcome(room: usize, extra: usize) -> (r: HandshakeOutcome)
    requires
        room + extra <= usize::MAX,
    ensures
        r@ == HandshakeOutcome::<Seq<u8>, Seq<char>>::InputOverflow(
            InputOverflow { capacity: room, pending: 0, offered: (room + extra) as usize },
        ),
{
    HandshakeOutcome::InputOverflow(InputOverflow { capacity: room, pending: 0, offered: room + extra })
}

} // verus!
