//! What a driven machine is held to, and what two runs have to share.

use vstd::prelude::*;
use crate::tcp_support::drive::{
    drained, driven, ends_agree, evs, fed_from, feed_size, ident_phase_agrees, inspected, late_input,
    opt_end, outcome_code, runs_agree, step_fault, streamed, End, EndView, Ev, EvView, Fault, MStep, Machine,
    Run, StepView,
};
use crate::tcp_support::ident_ref::{prelude_len, run_of, RefOutcome};
use crate::tcp_support::types::{IdentLimits, InitialError};
use crate::tcp_support::ChunkMode;

verus! {

/// What a step may not do: send the stage back; ask for input after taking
/// some or after the end; give an event without taking input or moving on; end
/// anywhere but in the last stage, or with input left that was unexpected.
pub proof fn lemma_step_judged(held: usize, stage: u8, step: StepView, left: usize, next: u8)
    ensures
        ({
            let f = step_fault(held, stage, step, left, next);
            &&& f == Some(Fault::StageBackwards) <==> next < stage
            &&& f == Some(Fault::NeedMoreConsumed) <==> next >= stage && step is NeedMore && left != held
            &&& f == Some(Fault::NeedMoreFinished) <==> next >= stage && step is NeedMore && left == held && next >= 2
            &&& f == Some(Fault::NoProgress) <==> next == stage && step is Event && left >= held
            &&& f == Some(Fault::StageNotFinished) <==> next >= stage && step is Finished && next != 2
            &&& f == Some(Fault::BufferNotCleared) <==> next >= stage && (step matches MStep::Finished(e)
                && e is UnexpectedInput) && next == 2 && left > 0
            &&& f is None <==> next >= stage && match step {
                MStep::NeedMore => left == held && next < 2,
                MStep::Event(_) => left < held || next > stage,
                MStep::Finished(e) => next == 2 && (e is UnexpectedInput ==> left == 0),
            }
        }),
{
}

/// A drain stops at the first step that is no event, and keeps the events in
/// order; 4096 events without a stop are too many.
pub proof fn lemma_drain_step<M: Machine>(m: M, stage: u8, steps: nat)
    ensures
        steps == 0 ==> drained(m, stage, steps).outcome == Err::<Option<EndView>, Fault>(Fault::Livelock),
        steps > 0 && step_fault(m.held(), stage, m.next_step(), m.stepped().held(), m.stepped().at_stage()) is Some
            ==> drained(m, stage, steps).outcome is Err && drained(m, stage, steps).events.len() == 0,
        steps > 0 && step_fault(m.held(), stage, m.next_step(), m.stepped().held(), m.stepped().at_stage()) is None ==> {
            let d = drained(m, stage, steps);
            match m.next_step() {
                MStep::NeedMore => d.outcome == Ok::<Option<EndView>, Fault>(None) && d.events.len() == 0 && d.machine
                    == m.stepped() && d.stage == m.stepped().at_stage(),
                MStep::Finished(e) => d.outcome == Ok::<Option<EndView>, Fault>(Some(e)) && d.events.len() == 0
                    && d.machine == m.stepped() && d.decided_at == (if e is UnexpectedInput {
                    Some(m.held())
                } else {
                    None
                }),
                MStep::Event(v) => {
                    let rest = drained(m.stepped(), m.stepped().at_stage(), (steps - 1) as nat);
                    &&& d.events.len() == rest.events.len() + 1
                    &&& d.events[0] == v
                    &&& d.events.skip(1) == rest.events
                    &&& d.outcome == rest.outcome
                    &&& d.machine == rest.machine
                },
            }
        },
{
    if steps > 0 && m.next_step() is Event {
        let d = drained(m, stage, steps);
        let rest = drained(m.stepped(), m.stepped().at_stage(), (steps - 1) as nat);
        assert(d.events == seq![m.next_step()->Event_0] + rest.events ==> d.events.skip(1) =~= rest.events);
    }
}

/// A finished machine is in its last stage, gives its end at every step, takes
/// no more input, and gives its end again where the input ends.
pub proof fn lemma_end_stable<M: Machine>(m: M, end: EndView)
    ensures
        inspected(m, end).1 is None <==> {
            let fed = m.stepped().stepped().fed(late_input());
            &&& m.at_stage() == 2
            &&& m.next_step() == StepView::Finished(end)
            &&& m.stepped().next_step() == StepView::Finished(end)
            &&& fed.held() == m.stepped().stepped().held()
            &&& fed.last_answer() == end
        },
{
}

/// A feed is the most that the schedule, the room and the input allow.
pub proof fn lemma_feed_size(mode: ChunkMode, turn: int, space: int, left: int)
    ensures
        feed_size(mode, turn, space, left) <= mode.size(turn),
        feed_size(mode, turn, space, left) <= space,
        feed_size(mode, turn, space, left) <= left,
        ({
            let n = feed_size(mode, turn, space, left);
            n == mode.size(turn) || n == space || n == left
        }),
        mode is ByteAtATime ==> mode.size(turn) == 1,
        mode is All ==> mode.size(turn) == usize::MAX,
        mode matches ChunkMode::Fixed(n) ==> mode.size(turn) == (if n == 0 {
            1int
        } else {
            n as int
        }),
        mode matches ChunkMode::List(l) ==> l@.len() > 0 && 0 <= turn < l@.len() ==> mode.size(turn) == (if l@[turn] == 0 {
            1int
        } else {
            l@[turn] as int
        }),
{
    if let ChunkMode::List(l) = mode {
        if l@.len() > 0 && 0 <= turn < l@.len() {
            assert(turn % l@.len() as int == turn) by (nonlinear_arith)
                requires
                    0 <= turn < l@.len(),
            ;
        }
    }
}

proof fn lemma_fed_whole<M: Machine>(m: M, stage: u8, stream: Seq<u8>, mode: ChunkMode, off: int, turn: int)
    requires
        0 <= off <= stream.len(),
    ensures
        ({
            let (p, end) = fed_from(m, stage, stream, mode, off, turn);
            &&& off <= end <= stream.len() || mode.size(turn) < 0
            &&& p.outcome == Ok::<Option<EndView>, Fault>(None) ==> end >= stream.len()
        }),
    decreases stream.len() - off,
{
    let n = feed_size(mode, turn, m.space() as int, stream.len() - off);
    if off < stream.len() && m.space() != 0 {
        lemma_sizes(mode, turn);
        let next = m.fed(stream.subrange(off, off + n));
        if next.held() == m.held() + n {
            let d = drained(next, stage, crate::tcp_support::drive::MAX_STEPS as nat);
            if d.outcome == Ok::<Option<EndView>, Fault>(None) {
                lemma_sizes(mode, turn + 1);
                lemma_fed_whole(d.machine, d.stage, stream, mode, off + n, turn + 1);
            }
        }
    }
}

proof fn lemma_sizes(mode: ChunkMode, turn: int)
    ensures
        mode.size(turn) >= 1,
{
}

/// A run that the driver accepts: the machine held nothing at first; without an
/// end all input was fed; where the input ended there is an end; and without
/// one the machine is not in its last stage.
pub proof fn lemma_run_sound<M: Machine>(m: M, stream: Seq<u8>, mode: ChunkMode, eof: bool)
    requires
        stream.len() <= usize::MAX,
        driven(m, stream, mode, eof).1 is Ok,
    ensures
        ({
            let (w, r) = driven(m, stream, mode, eof);
            let run = r->Ok_0;
            &&& m.held() == 0
            &&& eof ==> run.end is Some
            &&& run.end is None ==> run.fed == stream.len() && w.at_stage() < 2
            &&& run.fed <= stream.len()
            &&& run.pending_at_end == w.held()
        }),
{
    let d = drained(m, m.at_stage(), crate::tcp_support::drive::MAX_STEPS as nat);
    if d.outcome == Ok::<Option<EndView>, Fault>(None) {
        lemma_sizes(mode, 0);
        lemma_fed_whole(d.machine, d.stage, stream, mode, 0, 0);
    }
}

/// A run that holds bytes at first, or breaks off, is refused.
pub proof fn lemma_run_refused<M: Machine>(m: M, stream: Seq<u8>, mode: ChunkMode, eof: bool)
    ensures
        m.held() != 0 ==> driven(m, stream, mode, eof).1 is Err && driven(m, stream, mode, eof).1->Err_0
            == Fault::NotEmpty,
        m.held() == 0 && streamed(m, stream, mode).0.outcome is Err ==> driven(m, stream, mode, eof).1 is Err && driven(
            m,
            stream,
            mode,
            eof,
        ).1->Err_0 == streamed(m, stream, mode).0.outcome->Err_0,
{
}

/// Ends of runs in different pieces are the same, but for what a proposal left
/// unexamined and for the sample of unexpected input.
pub proof fn lemma_ends_compared(a: EndView, b: EndView)
    ensures
        a == b ==> ends_agree(a, b),
        ends_agree(a, b) == ends_agree(b, a),
        a is UnexpectedInput && b is UnexpectedInput ==> ends_agree(a, b),
        a is UnexpectedInput != b is UnexpectedInput ==> !ends_agree(a, b),
        a is Proposal != b is Proposal ==> !ends_agree(a, b),
        !(a is Proposal) && !(a is UnexpectedInput) ==> ends_agree(a, b) == (a == b),
        a matches End::Proposal(x) ==> b matches End::Proposal(y) ==> ends_agree(a, b) == (x.kexinit == y.kexinit
            && x.raw_payload == y.raw_payload && x.anomalies == y.anomalies),
{
}

/// Runs in different pieces have the same events, and ends that agree.
pub proof fn lemma_runs_compared(a: Run, b: Run)
    ensures
        runs_agree(a, b) <==> {
            &&& evs(a.events@) == evs(b.events@)
            &&& a.end is Some <==> b.end is Some
            &&& a.end is Some && b.end is Some ==> ends_agree(opt_end(a.end)->0, opt_end(b.end)->0)
        },
{
}

/// The code of each end.
pub proof fn lemma_outcome_codes(e: EndView)
    ensures
        e is BannerOnly ==> outcome_code(e) == "banner_only",
        e is Disconnected ==> outcome_code(e) == "disconnected",
        e is UnexpectedInput ==> outcome_code(e) == "unexpected_input",
        e is Eof ==> outcome_code(e) == "eof",
        e is Error ==> outcome_code(e) == "protocol_error",
        e matches End::Proposal(p) ==> outcome_code(e) == if p.anomalies.len() > 0 {
            "proposal_with_anomalies"
        } else {
            "proposal"
        },
{
}

/// Before the packets, a run gives the prelude line by line as the reader
/// reads it, then the identification, or the reader's fault as its end, or,
/// where the input ends first, an end in the first stage with what is left.
pub proof fn lemma_lines_given(events: Seq<EvView>, end: Option<EndView>, stream: Seq<u8>, limits: IdentLimits, eof: bool)
    requires
        ident_phase_agrees(events, end, stream, limits, eof),
    ensures
        ({
            let (lines, outcome) = run_of(stream, limits);
            &&& forall|i: int|
                0 <= i < lines.len() ==> (#[trigger] events[i] matches Ev::Prelude { line, terminator } && line
                    == lines[i].0 && terminator == lines[i].1)
            &&& outcome matches RefOutcome::Identification { ident, .. } ==> events.len() > lines.len() && (
            events[lines.len() as int] matches Ev::Ident(o) && o.line == ident.line && o.terminator == ident.terminator
                && o.comments == ident.comments && o.support == ident.support)
            &&& outcome matches RefOutcome::Error(e) ==> events.len() == lines.len() && end == Some(
                EndView::Error(InitialError::Ident(e)),
            )
            &&& outcome is Incomplete && !eof ==> events.len() == lines.len() && end is None
            &&& outcome is Incomplete && eof ==> events.len() == lines.len() && (end matches Some(
                End::Eof { stage, pending_bytes },
            ) && stage == 0 && pending_bytes == (stream.len() - prelude_len(lines)) as usize)
        }),
{
    let (lines, outcome) = run_of(stream, limits);
    assert forall|i: int| 0 <= i < lines.len() implies (#[trigger] events[i] matches Ev::Prelude { line, terminator }
        && line == lines[i].0 && terminator == lines[i].1) by {
        assert(events[i] == crate::tcp_support::drive::prelude_ev(lines[i]));
    }
}

} // verus!
