//! A common driver for stream machines: it enforces the progress,
//! buffer-bound and stable-terminal contracts, and compares runs.

use vstd::prelude::*;
use vstd::slice::slice_subrange;
use vstd::utf8::encode_utf8;
use crate::seqs::{min_int, same_bytes};
use crate::tcp_support::ident_ref::{
    lemma_run_accounts, prelude_len, prelude_lines, run, run_of, RefIdent, RefOutcome,
};
use crate::tcp_support::types::{
    same_anomalies, IdentLimits, InitialError, LineTerminator, OwnedIdentification, OwnedKexInit,
    ProposalAnomaly, SkippedMessage,
};
use crate::tcp_support::ChunkMode;
use crate::text::bytes_of;

verus! {

/// Stage ordinal: identification.
pub const STAGE_IDENT: u8 = 0;

/// Stage ordinal: initial packets.
pub const STAGE_PACKETS: u8 = 1;

/// Stage ordinal: finished.
pub const STAGE_FINISHED: u8 = 2;

/// Maximum steps per drain before the driver declares a livelock.
pub const MAX_STEPS: usize = 4096;

/// Role-independent event.
#[derive(Clone, Debug, PartialEq, Eq)]
pub enum Ev<B = Vec<u8>, T = String> {
    Prelude { line: B, terminator: LineTerminator },
    Ident(OwnedIdentification<B, T>),
    Skipped(SkippedMessage<B>),
}

/// An event over sequences.
pub type EvView = Ev<Seq<u8>, Seq<char>>;

impl View for Ev<Vec<u8>, String> {
    type V = EvView;

    open spec fn view(&self) -> EvView {
        match self {
            Ev::Prelude { line, terminator } => Ev::Prelude { line: line@, terminator: *terminator },
            Ev::Ident(i) => Ev::Ident(i@),
            Ev::Skipped(m) => Ev::Skipped(m@),
        }
    }
}

/// The event of a prelude line.
pub open spec fn prelude_ev(line: (Seq<u8>, LineTerminator)) -> EvView {
    Ev::Prelude { line: line.0, terminator: line.1 }
}

/// Events over sequences.
pub open spec fn evs(v: Seq<Ev>) -> Seq<EvView> {
    Seq::new(v.len(), |i: int| v[i]@)
}

/// Proposal fields; `unexamined_bytes` depends on the chunking by design.
#[derive(Clone, Debug, PartialEq, Eq)]
pub struct EndProposal<B = Vec<u8>, K = OwnedKexInit, A = Vec<ProposalAnomaly>> {
    pub kexinit: K,
    pub raw_payload: B,
    pub anomalies: A,
    pub unexamined_bytes: usize,
}

/// A proposal over sequences.
pub type ProposalView = EndProposal<
    Seq<u8>,
    OwnedKexInit<Seq<u8>, Seq<Seq<char>>>,
    Seq<ProposalAnomaly>,
>;

impl View for EndProposal<Vec<u8>, OwnedKexInit, Vec<ProposalAnomaly>> {
    type V = ProposalView;

    open spec fn view(&self) -> ProposalView {
        EndProposal {
            kexinit: self.kexinit@,
            raw_payload: self.raw_payload@,
            anomalies: self.anomalies@,
            unexamined_bytes: self.unexamined_bytes,
        }
    }
}

/// Role-independent terminal outcome.
#[derive(Clone, Debug, PartialEq, Eq)]
pub enum End<B = Vec<u8>, P = EndProposal> {
    Proposal(Box<P>),
    Disconnected { reason_code: u32, description: B, language_tag: B },
    Eof { stage: u8, pending_bytes: usize },
    Error(InitialError),
    BannerOnly,
    UnexpectedInput { sample: B, truncated: bool },
}

/// An outcome over sequences.
pub type EndView = End<Seq<u8>, ProposalView>;

impl View for End<Vec<u8>, EndProposal> {
    type V = EndView;

    open spec fn view(&self) -> EndView {
        match self {
            End::Proposal(p) => End::Proposal(Box::new((**p)@)),
            End::Disconnected { reason_code, description, language_tag } => End::Disconnected {
                reason_code: *reason_code,
                description: description@,
                language_tag: language_tag@,
            },
            End::Eof { stage, pending_bytes } => End::Eof { stage: *stage, pending_bytes: *pending_bytes },
            End::Error(e) => End::Error(*e),
            End::BannerOnly => End::BannerOnly,
            End::UnexpectedInput { sample, truncated } => End::UnexpectedInput {
                sample: sample@,
                truncated: *truncated,
            },
        }
    }
}

/// An optional outcome over sequences.
pub open spec fn opt_end(o: Option<End>) -> Option<EndView> {
    match o {
        Some(e) => Some(e@),
        None => None,
    }
}

/// Role-independent step.
#[derive(Clone, Debug, PartialEq, Eq)]
pub enum MStep<V = Ev, F = End> {
    NeedMore,
    Event(V),
    Finished(F),
}

/// A step over sequences.
pub type StepView = MStep<EvView, EndView>;

impl View for MStep<Ev, End> {
    type V = StepView;

    open spec fn view(&self) -> StepView {
        match self {
            MStep::NeedMore => MStep::NeedMore,
            MStep::Event(ev) => MStep::Event(ev@),
            MStep::Finished(end) => MStep::Finished(end@),
        }
    }
}

impl Ev<Vec<u8>, String> {
    /// Whether both hold the same.
    pub fn same(&self, other: &Self) -> (r: bool)
        ensures
            r == (self@ == other@),
    {
        match (self, other) {
            (Ev::Prelude { line: a, terminator: s }, Ev::Prelude { line: b, terminator: t }) => same_bytes(
                a.as_slice(),
                b.as_slice(),
            ) && *s == *t,
            (Ev::Ident(a), Ev::Ident(b)) => a.same(b),
            (Ev::Skipped(a), Ev::Skipped(b)) => a.same(b),
            _ => false,
        }
    }
}

/// Whether two event sequences are the same.
pub fn same_events(a: &Vec<Ev>, b: &Vec<Ev>) -> (r: bool)
    ensures
        r == (evs(a@) == evs(b@)),
{
    if a.len() != b.len() {
        proof {
            assert(evs(a@).len() != evs(b@).len());
        }
        return false;
    }
    let mut i: usize = 0;
    while i < a.len()
        invariant
            i <= a@.len(),
            a@.len() == b@.len(),
            forall|j: int| 0 <= j < i ==> #[trigger] a@[j]@ == b@[j]@,
        decreases a@.len() - i,
    {
        if !a[i].same(&b[i]) {
            proof {
                assert(evs(a@)[i as int] != evs(b@)[i as int]);
            }
            return false;
        }
        i = i + 1;
    }
    proof {
        assert(evs(a@) =~= evs(b@));
    }
    true
}

impl End<Vec<u8>, EndProposal> {
    /// Whether both hold the same.
    pub fn same(&self, other: &Self) -> (r: bool)
        ensures
            r == (self@ == other@),
    {
        match (self, other) {
            (End::Proposal(a), End::Proposal(b)) => a.kexinit.same(&b.kexinit) && same_bytes(
                a.raw_payload.as_slice(),
                b.raw_payload.as_slice(),
            ) && same_anomalies(&a.anomalies, &b.anomalies) && a.unexamined_bytes == b.unexamined_bytes,
            (
                End::Disconnected { reason_code: a, description: d, language_tag: l },
                End::Disconnected { reason_code: b, description: e, language_tag: m },
            ) => *a == *b && same_bytes(d.as_slice(), e.as_slice()) && same_bytes(l.as_slice(), m.as_slice()),
            (
                End::Eof { stage: a, pending_bytes: p },
                End::Eof { stage: b, pending_bytes: q },
            ) => *a == *b && *p == *q,
            (End::Error(a), End::Error(b)) => *a == *b,
            (End::BannerOnly, End::BannerOnly) => true,
            (
                End::UnexpectedInput { sample: a, truncated: p },
                End::UnexpectedInput { sample: b, truncated: q },
            ) => same_bytes(a.as_slice(), b.as_slice()) && *p == *q,
            _ => false,
        }
    }
}

/// Two outcomes of the same stream under different chunkings agree: all but
/// the unexamined bytes of a proposal and the sample of unexpected input.
pub open spec fn ends_agree(a: EndView, b: EndView) -> bool {
    match (a, b) {
        (End::Proposal(x), End::Proposal(y)) => x.kexinit == y.kexinit && x.raw_payload == y.raw_payload
            && x.anomalies == y.anomalies,
        (
            End::UnexpectedInput { sample: x, truncated: p },
            End::UnexpectedInput { sample: y, truncated: q },
        ) => true,
        _ => a == b,
    }
}

/// Whether two outcomes from different chunkings agree.
pub fn assert_same_end(a: &End, b: &End) -> (r: bool)
    ensures
        r == ends_agree(a@, b@),
{
    match (a, b) {
        (End::Proposal(x), End::Proposal(y)) => x.kexinit.same(&y.kexinit) && same_bytes(
            x.raw_payload.as_slice(),
            y.raw_payload.as_slice(),
        ) && same_anomalies(&x.anomalies, &y.anomalies),
        (
            End::UnexpectedInput { sample: x, truncated: p },
            End::UnexpectedInput { sample: y, truncated: q },
        ) => true,
        _ => a.same(b),
    }
}

/// The code each outcome reports. The outcome set is closed and contains no
/// negotiated or authenticated state.
pub open spec fn outcome_code(o: EndView) -> &'static str {
    match o {
        End::BannerOnly => "banner_only",
        End::Proposal(p) => if p.anomalies.len() == 0 {
            "proposal"
        } else {
            "proposal_with_anomalies"
        },
        End::Disconnected { reason_code, description, language_tag } => "disconnected",
        End::UnexpectedInput { sample, truncated } => "unexpected_input",
        End::Eof { stage, pending_bytes } => "eof",
        End::Error(e) => "protocol_error",
    }
}

/// The code each outcome must report.
pub fn expected_outcome_code(o: &End) -> (r: &'static str)
    ensures
        r == outcome_code(o@),
{
    match o {
        End::BannerOnly => "banner_only",
        End::Proposal(p) => if p.anomalies.len() == 0 {
            "proposal"
        } else {
            "proposal_with_anomalies"
        },
        End::Disconnected { reason_code, description, language_tag } => "disconnected",
        End::UnexpectedInput { sample, truncated } => "unexpected_input",
        End::Eof { stage, pending_bytes } => "eof",
        End::Error(e) => "protocol_error",
    }
}

/// The surface of a stream machine. Each spec function names the answer of a
/// method, or the machine behind a call; nothing is said of what the answers
/// are. The default names are constants and meet no contract: a verified
/// implementation has to give every name itself.
pub trait Machine: Sized {
    /// The machine after `data` was offered.
    closed spec fn fed(self, data: Seq<u8>) -> Self {
        arbitrary()
    }

    /// The answer of the next step.
    closed spec fn next_step(self) -> StepView {
        arbitrary()
    }

    /// The machine after the next step.
    closed spec fn stepped(self) -> Self {
        arbitrary()
    }

    /// The answer to the end of input.
    closed spec fn last_answer(self) -> EndView {
        arbitrary()
    }

    /// The machine after the end of input.
    closed spec fn ended(self) -> Self {
        arbitrary()
    }

    /// The number of buffered bytes.
    closed spec fn held(self) -> usize {
        arbitrary()
    }

    /// The number of bytes that can still be buffered.
    closed spec fn space(self) -> usize {
        arbitrary()
    }

    /// The stage ordinal.
    closed spec fn at_stage(self) -> u8 {
        arbitrary()
    }

    /// Buffers `data`.
    fn feed(&mut self, data: &[u8])
        ensures
            *final(self) == old(self).fed(data@),
    ;

    /// Takes one step over the buffered bytes.
    fn step(&mut self) -> (r: MStep)
        ensures
            r@ == old(self).next_step(),
            *final(self) == old(self).stepped(),
    ;

    /// Signals the end of input.
    fn input_ended(&mut self) -> (r: End)
        ensures
            r@ == old(self).last_answer(),
            *final(self) == old(self).ended(),
    ;

    /// Buffered bytes.
    fn pending(&self) -> (r: usize)
        ensures
            r == self.held(),
    ;

    /// Bytes that can still be buffered.
    fn room(&self) -> (r: usize)
        ensures
            r == self.space(),
    ;

    /// Stage ordinal.
    fn stage(&self) -> (r: u8)
        ensures
            r == self.at_stage(),
    ;
}

/// A contract that a machine broke.
#[derive(Clone, Copy, Debug, PartialEq, Eq, Structural)]
pub enum Fault {
    /// A fresh machine held bytes.
    NotEmpty,
    /// The stage went backwards.
    StageBackwards,
    /// A request for input consumed bytes.
    NeedMoreConsumed,
    /// A request for input after the end.
    NeedMoreFinished,
    /// An event neither consumed bytes nor advanced the stage.
    NoProgress,
    /// An end without the finished stage.
    StageNotFinished,
    /// Unexpected input left bytes in the buffer.
    BufferNotCleared,
    /// Too many steps without a request for input.
    Livelock,
    /// A full buffer, and neither progress nor an error.
    NoRoom,
    /// A feed within the room was not buffered whole.
    FeedNotBuffered,
    /// A finished machine changed its answer.
    UnstableEnd,
    /// A feed after the end was buffered.
    FeedAfterFinish,
    /// The end of input after the end changed the answer.
    EndNotRepeated,
    /// The finished stage without an end.
    FinishedWithoutEnd,
}

/// The contract that one step breaks, if any.
pub open spec fn step_fault(
    pending_before: usize,
    stage_before: u8,
    step: StepView,
    pending_after: usize,
    stage_after: u8,
) -> Option<Fault> {
    if stage_after < stage_before {
        Some(Fault::StageBackwards)
    } else {
        match step {
            MStep::NeedMore => if pending_after != pending_before {
                Some(Fault::NeedMoreConsumed)
            } else if stage_after >= STAGE_FINISHED {
                Some(Fault::NeedMoreFinished)
            } else {
                None
            },
            MStep::Event(_) => if pending_after >= pending_before && stage_after == stage_before {
                Some(Fault::NoProgress)
            } else {
                None
            },
            MStep::Finished(end) => if stage_after != STAGE_FINISHED {
                Some(Fault::StageNotFinished)
            } else if end is UnexpectedInput && pending_after != 0 {
                Some(Fault::BufferNotCleared)
            } else {
                None
            },
        }
    }
}

/// Judges one step of a machine.
pub fn judge_step(pending_before: usize, stage_before: u8, step: &MStep, pending_after: usize, stage_after: u8)
    -> (r: Option<Fault>)
    ensures
        r == step_fault(pending_before, stage_before, step@, pending_after, stage_after),
{
    if stage_after < stage_before {
        return Some(Fault::StageBackwards);
    }
    match step {
        MStep::NeedMore => if pending_after != pending_before {
            Some(Fault::NeedMoreConsumed)
        } else if stage_after >= STAGE_FINISHED {
            Some(Fault::NeedMoreFinished)
        } else {
            None
        },
        MStep::Event(_) => if pending_after >= pending_before && stage_after == stage_before {
            Some(Fault::NoProgress)
        } else {
            None
        },
        MStep::Finished(end) => if stage_after != STAGE_FINISHED {
            Some(Fault::StageNotFinished)
        } else {
            match end {
                End::UnexpectedInput { sample, truncated } => if pending_after != 0 {
                    Some(Fault::BufferNotCleared)
                } else {
                    None
                },
                _ => None,
            }
        },
    }
}

/// Result of one driver run.
#[derive(Clone, Debug, PartialEq, Eq)]
pub struct Run {
    pub events: Vec<Ev>,
    /// `None` when the stream ended with the machine still waiting.
    pub end: Option<End>,
    /// Bytes fed when the run stopped feeding.
    pub fed: usize,
    /// Pending bytes when the run stopped.
    pub pending_at_end: usize,
    /// For unexpected input: pending bytes just before the deciding step.
    pub decision_pending: Option<usize>,
}

/// A run over sequences.
pub ghost struct RunView {
    pub events: Seq<EvView>,
    pub end: Option<EndView>,
    pub fed: usize,
    pub pending_at_end: usize,
    pub decision_pending: Option<usize>,
}

impl View for Run {
    type V = RunView;

    open spec fn view(&self) -> RunView {
        RunView {
            events: evs(self.events@),
            end: opt_end(self.end),
            fed: self.fed,
            pending_at_end: self.pending_at_end,
            decision_pending: self.decision_pending,
        }
    }
}

/// What a driver has of a machine so far.
pub ghost struct Progress<M> {
    /// The machine as it is now.
    pub machine: M,
    /// Its stage, as far as it was judged.
    pub stage: u8,
    /// The events that it gave.
    pub events: Seq<EvView>,
    /// Its end, nothing while it waits, or the contract that it broke.
    pub outcome: Result<Option<EndView>, Fault>,
    /// For unexpected input: the bytes held just before the deciding step.
    pub decided_at: Option<usize>,
}

/// What up to `steps` steps make of a machine that was last seen at `stage`:
/// it is stepped until it asks for input, ends or breaks a contract.
pub open spec fn drained<M: Machine>(m: M, stage: u8, steps: nat) -> Progress<M>
    decreases steps,
{
    let next = m.stepped();
    if steps == 0 {
        Progress { machine: m, stage, events: Seq::empty(), outcome: Err(Fault::Livelock), decided_at: None }
    } else if let Some(f) = step_fault(m.held(), stage, m.next_step(), next.held(), next.at_stage()) {
        Progress { machine: next, stage, events: Seq::empty(), outcome: Err(f), decided_at: None }
    } else {
        match m.next_step() {
            MStep::NeedMore => Progress {
                machine: next,
                stage: next.at_stage(),
                events: Seq::empty(),
                outcome: Ok(None),
                decided_at: None,
            },
            MStep::Event(ev) => {
                let rest = drained(next, next.at_stage(), (steps - 1) as nat);
                Progress { events: seq![ev] + rest.events, ..rest }
            },
            MStep::Finished(end) => Progress {
                machine: next,
                stage: next.at_stage(),
                events: Seq::empty(),
                outcome: Ok(Some(end)),
                decided_at: if end is UnexpectedInput {
                    Some(m.held())
                } else {
                    None
                },
            },
        }
    }
}

/// The outcome of a drain over sequences.
pub open spec fn outcome_of(r: Result<Option<End>, Fault>) -> Result<Option<EndView>, Fault> {
    match r {
        Ok(o) => Ok(opt_end(o)),
        Err(f) => Err(f),
    }
}

/// Steps a machine until it asks for input or ends. Every step is judged,
/// events are appended to `run` in order, and at most [`MAX_STEPS`] steps are
/// taken.
fn drain<M: Machine>(m: &mut M, run: &mut Run, stage: &mut u8) -> (r: Result<Option<End>, Fault>)
    ensures
        ({
            let d = drained(*old(m), *old(stage), MAX_STEPS as nat);
            &&& outcome_of(r) == d.outcome
            &&& *final(m) == d.machine
            &&& *final(stage) == d.stage
            &&& final(run)@ == (RunView {
                events: old(run)@.events + d.events,
                decision_pending: if d.decided_at is Some {
                    d.decided_at
                } else {
                    old(run)@.decision_pending
                },
                ..old(run)@
            })
        }),
        r is Ok ==> *final(stage) >= *old(stage),
        r matches Ok(Some(end)) ==> *final(stage) == STAGE_FINISHED,
        r matches Ok(None) ==> *final(stage) < STAGE_FINISHED,
        final(run).end == old(run).end,
        final(run).events@.len() <= old(run).events@.len() + MAX_STEPS,
{
    let ghost goal = drained(*m, *stage, MAX_STEPS as nat);
    let ghost start = run@;
    proof {
        assert(evs(run.events@) + goal.events =~= start.events + goal.events);
    }
    let mut n: usize = 0;
    while n < MAX_STEPS
        invariant
            n <= MAX_STEPS,
            *stage >= *old(stage),
            start == old(run)@,
            goal == drained(*old(m), *old(stage), MAX_STEPS as nat),
            run.fed == old(run).fed,
            run.pending_at_end == old(run).pending_at_end,
            run.end == old(run).end,
            run.decision_pending == old(run).decision_pending,
            run.events@.len() <= old(run).events@.len() + n,
            ({
                let d = drained(*m, *stage, (MAX_STEPS - n) as nat);
                &&& goal.machine == d.machine
                &&& goal.stage == d.stage
                &&& goal.outcome == d.outcome
                &&& goal.decided_at == d.decided_at
                &&& evs(run.events@) + d.events == start.events + goal.events
            }),
        decreases MAX_STEPS - n,
    {
        let ghost left = drained(*m, *stage, (MAX_STEPS - n) as nat);
        let ghost seen = evs(run.events@);
        n = n + 1;
        let pending_before: usize = m.pending();
        let stage_before: u8 = *stage;
        let step = m.step();
        let stage_after: u8 = m.stage();
        let pending_after: usize = m.pending();
        if let Some(fault) = judge_step(pending_before, stage_before, &step, pending_after, stage_after) {
            proof {
                assert(left.events.len() == 0);
                assert(seen + left.events =~= seen);
            }
            return Err(fault);
        }
        *stage = stage_after;
        match step {
            MStep::NeedMore => {
                proof {
                    assert(seen + left.events =~= seen);
                }
                return Ok(None);
            },
            MStep::Event(ev) => {
                let ghost v = ev@;
                run.events.push(ev);
                proof {
                    let rest = drained(*m, *stage, (MAX_STEPS - n) as nat);
                    assert(evs(run.events@) =~= seen.push(v));
                    assert(evs(run.events@) + rest.events =~= seen + left.events);
                }
            },
            MStep::Finished(end) => {
                if let End::UnexpectedInput { sample, truncated } = &end {
                    run.decision_pending = Some(pending_before);
                }
                proof {
                    assert(seen + left.events =~= seen);
                }
                return Ok(Some(end));
            },
        }
    }
    proof {
        assert(evs(run.events@) + Seq::<EvView>::empty() =~= evs(run.events@));
    }
    Err(Fault::Livelock)
}

/// Whether a step repeats an end.
fn repeats(step: &MStep, end: &End) -> (r: bool)
    ensures
        r == (step@ == MStep::<EvView, EndView>::Finished(end@)),
{
    match step {
        MStep::Finished(e) => e.same(end),
        _ => false,
    }
}

/// What is offered to a machine that has finished.
pub open spec fn late_input() -> Seq<u8> {
    bytes_of("ignored after finish")
}

/// A finished machine under inspection: stepped twice, fed once and told of the
/// end of input, until it changes its answer or takes the feed.
pub open spec fn inspected<M: Machine>(m: M, end: EndView) -> (M, Option<Fault>) {
    let answer = MStep::<EvView, EndView>::Finished(end);
    let once = m.stepped();
    let twice = once.stepped();
    let fed = twice.fed(late_input());
    if m.at_stage() != STAGE_FINISHED {
        (m, Some(Fault::StageNotFinished))
    } else if m.next_step() != answer {
        (once, Some(Fault::UnstableEnd))
    } else if once.next_step() != answer {
        (twice, Some(Fault::UnstableEnd))
    } else if fed.held() != twice.held() {
        (fed, Some(Fault::FeedAfterFinish))
    } else if fed.last_answer() != end {
        (fed.ended(), Some(Fault::EndNotRepeated))
    } else {
        (fed.ended(), None)
    }
}

/// Checks that a finished machine keeps its answer, ignores feeds and repeats
/// the end at the end of input.
fn check_terminal<M: Machine>(m: &mut M, end: &End) -> (r: Option<Fault>)
    ensures
        (*final(m), r) == inspected(*old(m), end@),
{
    if m.stage() != STAGE_FINISHED {
        return Some(Fault::StageNotFinished);
    }
    let first = m.step();
    if !repeats(&first, end) {
        return Some(Fault::UnstableEnd);
    }
    let second = m.step();
    if !repeats(&second, end) {
        return Some(Fault::UnstableEnd);
    }
    let pending: usize = m.pending();
    m.feed("ignored after finish".as_bytes());
    if m.pending() != pending {
        return Some(Fault::FeedAfterFinish);
    }
    let again = m.input_ended();
    if !again.same(end) {
        return Some(Fault::EndNotRepeated);
    }
    None
}

/// The size of the `turn`-th feed at an offset: what the mode asks for, within
/// the machine's room and what is left of the stream.
pub open spec fn feed_size(mode: ChunkMode, turn: int, space: int, left: int) -> int {
    min_int(min_int(mode.size(turn), space), left)
}

/// What feeding a stream from an offset on makes of a machine that waits: feeds
/// and drains in turn, until the stream is all fed, the machine ends or breaks
/// a contract; and the offset behind the last feed.
pub open spec fn fed_from<M: Machine>(m: M, stage: u8, stream: Seq<u8>, mode: ChunkMode, off: int, turn: int) -> (
    Progress<M>,
    int,
)
    decreases stream.len() - off,
{
    let n = feed_size(mode, turn, m.space() as int, stream.len() - off);
    let next = m.fed(stream.subrange(off, off + n));
    let stopped = Progress { machine: m, stage, events: Seq::empty(), outcome: Ok(None), decided_at: None };
    if off >= stream.len() {
        (stopped, off)
    } else if m.space() == 0 {
        (Progress { outcome: Err(Fault::NoRoom), ..stopped }, off)
    } else if next.held() != m.held() + n {
        (Progress { machine: next, outcome: Err(Fault::FeedNotBuffered), ..stopped }, off)
    } else {
        let d = drained(next, stage, MAX_STEPS as nat);
        if d.outcome == Ok::<Option<EndView>, Fault>(None) {
            let (rest, end_off) = fed_from(d.machine, d.stage, stream, mode, off + n, turn + 1);
            (Progress { events: d.events + rest.events, ..rest }, end_off)
        } else {
            (d, off + n)
        }
    }
}

/// What driving makes of a fresh machine before any end of input is signalled:
/// a drain, then the feeds; and the number of bytes fed.
pub open spec fn streamed<M: Machine>(m: M, stream: Seq<u8>, mode: ChunkMode) -> (Progress<M>, int) {
    let d = drained(m, m.at_stage(), MAX_STEPS as nat);
    if d.outcome == Ok::<Option<EndView>, Fault>(None) {
        let (rest, off) = fed_from(d.machine, d.stage, stream, mode, 0, 0);
        (Progress { events: d.events + rest.events, ..rest }, off)
    } else {
        (d, 0)
    }
}

/// What is left to do with a machine that was streamed: the end of input, where
/// it is asked for and the machine still waits; then a machine with an end is
/// inspected, and one without may not claim to have finished.
pub open spec fn concluded<M: Machine>(m: M, end: Option<EndView>, eof: bool) -> (M, Result<Option<EndView>, Fault>) {
    match end {
        Some(e) => match inspected(m, e) {
            (w, None) => (w, Ok(Some(e))),
            (w, Some(f)) => (w, Err(f)),
        },
        None => if eof {
            let w = m.ended();
            match inspected(w, m.last_answer()) {
                (x, None) => (x, Ok(Some(m.last_answer()))),
                (x, Some(f)) => (x, Err(f)),
            }
        } else if m.at_stage() >= STAGE_FINISHED {
            (m, Err(Fault::FinishedWithoutEnd))
        } else {
            (m, Ok(None))
        },
    }
}

/// The machine after a whole run, and the run, or the first contract that the
/// machine broke.
pub open spec fn driven<M: Machine>(m: M, stream: Seq<u8>, mode: ChunkMode, eof: bool) -> (M, Result<RunView, Fault>) {
    let (p, off) = streamed(m, stream, mode);
    if m.held() != 0 {
        (m, Err(Fault::NotEmpty))
    } else {
        match p.outcome {
            Err(f) => (p.machine, Err(f)),
            Ok(end) => match concluded(p.machine, end, eof) {
                (w, Err(f)) => (w, Err(f)),
                (w, Ok(last)) => (
                    w,
                    Ok(
                        RunView {
                            events: p.events,
                            end: last,
                            fed: off as usize,
                            pending_at_end: w.held(),
                            decision_pending: p.decided_at,
                        },
                    ),
                ),
            },
        }
    }
}

/// A drain decides on unexpected input alone.
proof fn lemma_decided<M: Machine>(m: M, stage: u8, steps: nat)
    ensures
        ({
            let d = drained(m, stage, steps);
            (d.decided_at is Some) == (d.outcome matches Ok(Some(e)) && e is UnexpectedInput)
        }),
    decreases steps,
{
    if steps > 0 && m.next_step() is Event {
        lemma_decided(m.stepped(), m.stepped().at_stage(), (steps - 1) as nat);
    }
}

/// A result of driving over sequences.
pub open spec fn run_result(r: Result<Run, Fault>) -> Result<RunView, Fault> {
    match r {
        Ok(run) => Ok(run@),
        Err(f) => Err(f),
    }
}

/// Feeds `stream` according to `mode`, never exceeding the machine's room,
/// draining after every feed; signals the end of input afterwards when `eof`
/// is set and the machine has not finished. What a run says of the stream
/// holds whatever the machine does: without an end, all of it was fed.
pub fn drive<M: Machine>(m: &mut M, stream: &[u8], mode: &ChunkMode, eof: bool) -> (r: Result<Run, Fault>)
    ensures
        (*final(m), run_result(r)) == driven(*old(m), stream@, *mode, eof),
        r matches Ok(run) ==> run.fed <= stream@.len(),
        r matches Ok(run) ==> (run.end is None ==> run.fed == stream@.len() && !eof),
        r matches Ok(run) ==> (run.decision_pending is Some ==> (run.end matches Some(e) && e is UnexpectedInput)),
{
    if m.pending() != 0 {
        return Err(Fault::NotEmpty);
    }
    let mut run = Run {
        events: Vec::new(),
        end: None,
        fed: 0,
        pending_at_end: 0,
        decision_pending: None,
    };
    let ghost goal = streamed(*m, stream@, *mode);
    proof {
        assert(evs(run.events@) =~= Seq::empty());
    }
    let mut stage: u8 = m.stage();
    let mut end: Option<End> = match drain(m, &mut run, &mut stage) {
        Ok(e) => e,
        Err(f) => {
            return Err(f);
        },
    };
    let mut off: usize = 0;
    let mut turn: usize = 0;
    proof {
        let d = drained(*old(m), old(m).at_stage(), MAX_STEPS as nat);
        lemma_decided(*old(m), old(m).at_stage(), MAX_STEPS as nat);
        assert(Seq::<EvView>::empty() + d.events =~= d.events);
    }
    while end.is_none() && off < stream.len()
        invariant
            off <= stream@.len(),
            turn <= off,
            run.fed == off,
            run.end is None,
            run.pending_at_end == 0,
            run.decision_pending is Some ==> (end matches Some(e) && e is UnexpectedInput),
            old(m).held() == 0,
            goal == streamed(*old(m), stream@, *mode),
            match end {
                Some(e) => {
                    &&& goal.0.outcome == Ok::<Option<EndView>, Fault>(Some(e@))
                    &&& goal.0.machine == *m
                    &&& goal.0.events == evs(run.events@)
                    &&& goal.0.decided_at == run.decision_pending
                    &&& goal.1 == off
                },
                None => {
                    let (rest, o) = fed_from(*m, stage, stream@, *mode, off as int, turn as int);
                    &&& goal.0 == (Progress { events: evs(run.events@) + rest.events, ..rest })
                    &&& goal.1 == o
                },
            },
        decreases stream@.len() - off,
    {
        let ghost here = fed_from(*m, stage, stream@, *mode, off as int, turn as int).0;
        let ghost seen = evs(run.events@);
        let room: usize = m.room();
        if room == 0 {
            return Err(Fault::NoRoom);
        }
        let want: usize = mode.desired(turn);
        turn = turn + 1;
        let left: usize = stream.len() - off;
        let clipped: usize = if want <= room { want } else { room };
        let n: usize = if clipped <= left { clipped } else { left };
        let before: usize = m.pending();
        m.feed(slice_subrange(stream, off, off + n));
        let after: usize = m.pending();
        if after < before || after - before != n {
            return Err(Fault::FeedNotBuffered);
        }
        off = off + n;
        run.fed = off;
        let ghost d = drained(*m, stage, MAX_STEPS as nat);
        proof {
            lemma_decided(*m, stage, MAX_STEPS as nat);
        }
        end = match drain(m, &mut run, &mut stage) {
            Ok(e) => e,
            Err(f) => {
                return Err(f);
            },
        };
        proof {
            let rest = fed_from(*m, stage, stream@, *mode, off as int, turn as int).0;
            assert((seen + d.events) + rest.events =~= seen + (d.events + rest.events));
        }
    }
    proof {
        if end is None {
            assert(evs(run.events@) + Seq::<EvView>::empty() =~= evs(run.events@));
        }
    }
    if end.is_none() && eof {
        let e = m.input_ended();
        if m.stage() != STAGE_FINISHED {
            return Err(Fault::StageNotFinished);
        }
        end = Some(e);
    }
    match &end {
        Some(e) => {
            if let Some(f) = check_terminal(m, e) {
                return Err(f);
            }
        },
        None => {
            if m.stage() >= STAGE_FINISHED {
                return Err(Fault::FinishedWithoutEnd);
            }
        },
    }
    run.pending_at_end = m.pending();
    run.end = end;
    Ok(run)
}

/// Two runs of the same stream agree: the same events, and both without an
/// end or with agreeing ends.
pub open spec fn runs_agree(a: Run, b: Run) -> bool {
    evs(a.events@) == evs(b.events@) && match (a.end, b.end) {
        (Some(x), Some(y)) => ends_agree(x@, y@),
        (None, None) => true,
        _ => false,
    }
}

/// Whether two full runs agree.
pub fn assert_same_run(a: &Run, b: &Run) -> (r: bool)
    ensures
        r == runs_agree(*a, *b),
{
    if !same_events(&a.events, &b.events) {
        return false;
    }
    match (&a.end, &b.end) {
        (Some(x), Some(y)) => assert_same_end(x, y),
        (None, None) => true,
        _ => false,
    }
}

/// An owned identification holds what the line reader read.
pub open spec fn owns(o: OwnedIdentification<Seq<u8>, Seq<char>>, i: RefIdent<Seq<u8>>) -> bool {
    &&& o.line == i.line
    &&& o.terminator == i.terminator
    &&& encode_utf8(o.protocol_version) == i.protocol_version
    &&& encode_utf8(o.software_version) == i.software_version
    &&& o.comments == i.comments
    &&& o.support == i.support
}

/// The identification phase of a run is what the line reader makes of the
/// stream: the same prelude lines, then the same identification, the same
/// error, or nothing while the stream ends inside a line.
pub open spec fn ident_phase_agrees(
    events: Seq<EvView>,
    end: Option<EndView>,
    stream: Seq<u8>,
    limits: IdentLimits,
    eof: bool,
) -> bool {
    let (lines, outcome) = run_of(stream, limits);
    let n = lines.len() as int;
    &&& events.len() >= n
    &&& forall|i: int|
        0 <= i < n ==> #[trigger] events[i] == prelude_ev(lines[i])
    &&& match outcome {
        RefOutcome::Identification { ident, consumed_total } => events.len() > n && (events[n] matches Ev::Ident(
            o,
        ) && owns(o, ident)),
        RefOutcome::Error(e) => events.len() == n && end == Some(
            End::<Seq<u8>, ProposalView>::Error(InitialError::Ident(e)),
        ),
        RefOutcome::Incomplete => events.len() == n && (if eof {
            end == Some(
                End::<Seq<u8>, ProposalView>::Eof {
                    stage: STAGE_IDENT,
                    pending_bytes: (stream.len() - prelude_len(lines)) as usize,
                },
            )
        } else {
            end is None
        }),
    }
}

proof fn lemma_prelude_suffix(lines: Seq<(Seq<u8>, LineTerminator)>, i: int)
    requires
        0 <= i <= lines.len(),
    ensures
        0 <= prelude_len(lines.skip(i)) <= prelude_len(lines),
    decreases i,
{
    if i == 0 {
        assert(lines.skip(0) =~= lines);
        lemma_prelude_positive(lines);
    } else {
        lemma_prelude_suffix(lines, i - 1);
        assert(lines.skip(i - 1).skip(1) =~= lines.skip(i));
        lemma_prelude_positive(lines.skip(i));
    }
}

proof fn lemma_prelude_positive(lines: Seq<(Seq<u8>, LineTerminator)>)
    ensures
        prelude_len(lines) >= 0,
    decreases lines.len(),
{
    if lines.len() > 0 {
        lemma_prelude_positive(lines.skip(1));
    }
}

fn prelude_total(lines: &Vec<(&[u8], LineTerminator)>) -> (r: usize)
    requires
        prelude_len(prelude_lines(lines@)) <= usize::MAX,
    ensures
        r == prelude_len(prelude_lines(lines@)),
{
    let ghost all = prelude_lines(lines@);
    let mut total: usize = 0;
    let mut i: usize = lines.len();
    proof {
        assert(all.skip(i as int) =~= Seq::empty());
    }
    while i > 0
        invariant
            i <= lines@.len(),
            all == prelude_lines(lines@),
            prelude_len(all) <= usize::MAX,
            total == prelude_len(all.skip(i as int)),
        decreases i,
    {
        proof {
            lemma_prelude_suffix(all, i - 1);
            assert(all.skip(i - 1).skip(1) =~= all.skip(i as int));
            assert(all.skip(i - 1)[0] == all[i - 1]);
            lemma_prelude_positive(all.skip(i as int));
        }
        i = i - 1;
        let line = lines[i].0;
        let t = lines[i].1;
        total = total + (line.len() + t.byte_len());
    }
    proof {
        assert(all.skip(0) =~= all);
    }
    total
}

/// Whether the identification phase of a run is what the line reader makes
/// of the stream. Not for machines that intercept input before the reader.
pub fn assert_ident_phase(run_: &Run, stream: &[u8], limits: IdentLimits, eof: bool) -> (r: bool)
    ensures
        r == ident_phase_agrees(evs(run_.events@), opt_end(run_.end), stream@, limits, eof),
{
    let (lines, outcome) = run(stream, limits);
    let n: usize = lines.len();
    proof {
        assert(stream@.len() == stream.len());
        lemma_run_accounts(stream@, limits);
    }
    let ghost all = prelude_lines(lines@);
    let ghost events = evs(run_.events@);
    if run_.events.len() < n {
        return false;
    }
    let mut i: usize = 0;
    while i < n
        invariant
            i <= n,
            n == lines@.len(),
            n <= run_.events@.len(),
            all == prelude_lines(lines@),
            events == evs(run_.events@),
            forall|j: int|
                0 <= j < i ==> #[trigger] events[j] == prelude_ev(all[j]),
            (all, outcome@) == run_of(stream@, limits),
        decreases n - i,
    {
        proof {
            assert(events[i as int] == run_.events@[i as int]@);
        }
        match &run_.events[i] {
            Ev::Prelude { line, terminator } => {
                if !same_bytes(line.as_slice(), lines[i].0) || *terminator != lines[i].1 {
                    return false;
                }
            },
            _ => {
                return false;
            },
        }
        i = i + 1;
    }
    match outcome {
        RefOutcome::Identification { ident, consumed_total } => {
            if run_.events.len() <= n {
                return false;
            }
            proof {
                assert(events[n as int] == run_.events@[n as int]@);
            }
            match &run_.events[n] {
                Ev::Ident(o) => {
                    let comments_agree: bool = match (&o.comments, ident.comments) {
                        (Some(a), Some(b)) => same_bytes(a.as_slice(), b),
                        (None, None) => true,
                        _ => false,
                    };
                    same_bytes(o.line.as_slice(), ident.line) && o.terminator == ident.terminator && same_bytes(
                        o.protocol_version.as_str().as_bytes(),
                        ident.protocol_version,
                    ) && same_bytes(o.software_version.as_str().as_bytes(), ident.software_version)
                        && comments_agree && o.support == ident.support
                },
                _ => false,
            }
        },
        RefOutcome::Error(e) => {
            if run_.events.len() != n {
                return false;
            }
            match &run_.end {
                Some(End::Error(InitialError::Ident(f))) => *f == e,
                _ => false,
            }
        },
        RefOutcome::Incomplete => {
            if run_.events.len() != n {
                return false;
            }
            if eof {
                let pending: usize = stream.len() - prelude_total(&lines);
                match &run_.end {
                    Some(End::Eof { stage, pending_bytes }) => *stage == STAGE_IDENT && *pending_bytes
                        == pending,
                    _ => false,
                }
            } else {
                run_.end.is_none()
            }
        },
    }
}

} // verus!
