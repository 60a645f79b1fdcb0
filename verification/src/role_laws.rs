//! What the two roles on a stream are held to.

use vstd::prelude::*;
use crate::observer::{first_ident, ident_policy, policy_kept, sample_right, ObserverConfig};
use crate::probe::{
    deliveries_agree, fresh_right, names_right, overflow_right, Fresh, Overflowed, ProbeConfig,
};
use crate::tcp_support::drive::{evs, opt_end, runs_agree, End, EndView, Run};
use crate::tcp_support::ident_ref::opening;
use crate::tcp_support::msg_ref::kex_class;
use crate::tcp_support::types::{
    IdentLimits, InitialError, InitialLimits, InputOverflow, KexName, OwnedIdentification,
};
use crate::text::bytes_of;
use vstd::utf8::encode_utf8;

verus! {

/// Which limits of an observer each selector changes, and to what.
pub proof fn lemma_observer_settings(sel: u8, base: ObserverConfig, initial: InitialLimits)
    ensures
        ({
            let c = crate::observer::config_for(sel, base, initial);
            let k = sel % 8;
            &&& c.banner_only == (k == 1 || base.banner_only)
            &&& c.max_identification_line == if k == 5 {
                32
            } else if k == 7 {
                512
            } else {
                base.max_identification_line
            }
            &&& c.unexpected_sample == if k == 5 {
                4
            } else if k == 6 {
                0
            } else {
                base.unexpected_sample
            }
            &&& k == 0 || k == 1 || k == 5 ==> c.initial == base.initial
            &&& k == 2 || k == 7 ==> c.initial.max_packets == 1
            &&& k == 3 ==> c.initial.max_packets == 2
            &&& k == 4 || k == 6 ==> c.initial.max_packets == initial.max_packets
            &&& k == 3 ==> c.initial.max_bytes == 64
            &&& k == 6 ==> c.initial.max_bytes == 20
            &&& k == 2 || k == 4 || k == 7 ==> c.initial.max_bytes == initial.max_bytes
            &&& k == 4 ==> c.initial.max_packet_length == 64
            &&& k == 7 ==> c.initial.max_packet_length == 16
            &&& k == 2 || k == 3 || k == 6 ==> c.initial.max_packet_length == initial.max_packet_length
        }),
{
}

/// Which limits of a probe each selector changes, and to what.
pub proof fn lemma_probe_settings(sel: u8, base: ProbeConfig, ident: IdentLimits)
    ensures
        ({
            let c = crate::probe::config_for(sel, base, ident);
            let k = sel % 8;
            &&& c.max_packets_before_kexinit == if k == 1 || k == 7 {
                1
            } else if k == 2 {
                2
            } else if k == 3 {
                3
            } else {
                base.max_packets_before_kexinit
            }
            &&& c.max_bytes_before_kexinit == if k == 2 {
                64
            } else if k == 6 {
                20
            } else {
                base.max_bytes_before_kexinit
            }
            &&& c.max_packet_length == if k == 4 {
                64
            } else if k == 7 {
                16
            } else {
                base.max_packet_length
            }
            &&& k == 3 ==> c.ident.max_identification_line == 512 && c.ident.max_prelude_line == ident.max_prelude_line
                && c.ident.max_prelude_lines == ident.max_prelude_lines && c.ident.max_prelude_bytes
                == ident.max_prelude_bytes
            &&& k == 5 ==> c.ident.max_identification_line == 32 && c.ident.max_prelude_line == 20
                && c.ident.max_prelude_lines == 1 && c.ident.max_prelude_bytes == 40
            &&& k == 7 ==> c.ident.max_identification_line == ident.max_identification_line && c.ident.max_prelude_line
                == ident.max_prelude_line && c.ident.max_prelude_lines == 0 && c.ident.max_prelude_bytes == 0
            &&& k != 3 && k != 5 && k != 7 ==> c.ident == base.ident
        }),
{
}

/// What an accepted identification is: it starts with `SSH-`, its version is
/// 1.99 exactly where it is the compatible one, a line feed alone and that
/// version are its anomalies, and no fault in it is reported later.
pub proof fn lemma_identification_kept(
    o: OwnedIdentification<Seq<u8>, Seq<char>>,
    end: Option<EndView>,
    anomalies: int,
)
    ensures
        ident_policy(Some(o), end, anomalies) <==> {
            &&& o.line.len() >= 4 && o.line[0] == 83 && o.line[1] == 83 && o.line[2] == 72 && o.line[3] == 45
            &&& o.support is Ssh2Compatibility <==> o.protocol_version == "1.99"@
            &&& o.terminator is Lf && o.support is Ssh2Compatibility ==> anomalies == 2
            &&& o.terminator is Lf && !(o.support is Ssh2Compatibility) ==> anomalies == 1
            &&& o.terminator is CrLf && o.support is Ssh2Compatibility ==> anomalies == 1
            &&& o.terminator is CrLf && !(o.support is Ssh2Compatibility) ==> anomalies == 0
            &&& !(end matches Some(End::Error(e)) && e is Ident)
        },
{
    let p = crate::wire_core::ident_ref::ssh_prefix();
    assert(p.is_prefix_of(o.line) <==> o.line.len() >= 4 && o.line[0] == 83 && o.line[1] == 83 && o.line[2] == 72
        && o.line[3] == 45) by {
        if o.line.len() >= 4 {
            let s = o.line.subrange(0, 4);
            assert(s[0] == o.line[0] && s[1] == o.line[1] && s[2] == o.line[2] && s[3] == o.line[3]);
            if o.line[0] == 83 && o.line[1] == 83 && o.line[2] == 72 && o.line[3] == 45 {
                assert(s =~= p);
            }
        }
    }
}

/// Without an identification nothing that needs one is an end.
pub proof fn lemma_nothing_identified(end: Option<EndView>, anomalies: int)
    ensures
        ident_policy(None, end, anomalies) <==> !(end matches Some(e) && (e is Proposal || e is BannerOnly
            || e is Disconnected)),
{
}

/// The policy of the server's side: it reads no prelude; it stops after the
/// identification where it is told to; input that is no identification is told
/// as such, with a sample of what was fed when that was clear, and nothing
/// before it; each name of a proposal has its class.
pub proof fn lemma_policy(run: Run, stream: Seq<u8>, config: ObserverConfig, anomalies: int, classes: Seq<KexName>)
    ensures
        ({
            let events = evs(run.events@);
            let end = opt_end(run.end);
            let ident = first_ident(events, 0);
            policy_kept(run, stream, config, anomalies, classes) <==> {
                &&& forall|i: int| 0 <= i < events.len() ==> (#[trigger] events[i] is Ident || events[i] is Skipped)
                &&& ident_policy(ident, end, anomalies)
                &&& config.banner_only ==> !(end matches Some(e) && e is Proposal)
                &&& config.banner_only ==> forall|i: int| 0 <= i < events.len() ==> !(#[trigger] events[i] is Skipped)
                &&& config.banner_only && ident is Some ==> events.len() == 1 && (end matches Some(e)
                    && e is BannerOnly)
                &&& (end matches Some(e) && e is UnexpectedInput) ==> events.len() == 0 && run.decision_pending is Some
                    && sample_right(
                    stream,
                    run.decision_pending->0 as int,
                    config.unexpected_sample as int,
                    end->0->sample,
                    end->0->truncated,
                )
                &&& stream.len() >= 4 && opening(stream) == Some(false) ==> (end matches Some(e)
                    && e is UnexpectedInput)
                &&& names_right(run.end, classes)
            }
        }),
{
    let events = evs(run.events@);
    let plain = crate::observer::no_prelude(events);
    if plain {
        assert forall|i: int| 0 <= i < events.len() implies (#[trigger] events[i] is Ident || events[i] is Skipped) by {
            assert(!(events[i] is Prelude));
        }
    }
    if forall|i: int| 0 <= i < events.len() ==> (#[trigger] events[i] is Ident || events[i] is Skipped) {
        assert forall|i: int| 0 <= i < events.len() implies !(#[trigger] events[i] is Prelude) by {}
    }
}

/// A sample is the front of the stream, as much as was fed and as may be kept,
/// cut where more was fed than may be kept.
pub proof fn lemma_sample(stream: Seq<u8>, fed: int, limit: int, sample: Seq<u8>, truncated: bool)
    requires
        0 <= limit,
        0 <= fed <= stream.len(),
    ensures
        sample_right(stream, fed, limit, sample, truncated) ==> {
            &&& sample.is_prefix_of(stream)
            &&& fed <= limit ==> sample.len() == fed && !truncated
            &&& fed > limit ==> sample.len() == limit && truncated
            &&& opening(stream.take(fed)) == Some(false)
        },
{
    let n = if fed < limit {
        fed
    } else {
        limit
    };
    assert(stream.take(n) =~= stream.subrange(0, n));
}

/// Each key exchange name of a proposal has its class, and its payload is a
/// KEXINIT.
pub proof fn lemma_proposal_classes(run: Run, classes: Seq<KexName>, i: int)
    requires
        names_right(run.end, classes),
        run.end matches Some(End::Proposal(p)) && 0 <= i < p.kexinit.kex_algorithms@.len(),
    ensures
        run.end matches Some(End::Proposal(p)) && classes.len() == p.kexinit.kex_algorithms@.len() && classes[i]
            == kex_class(encode_utf8(p.kexinit.kex_algorithms@[i]@)) && p.raw_payload@.len() > 0 && p.raw_payload@[0]
            == 20,
{
    let p = run.end->0->Proposal_0;
    assert(classes[i] == kex_class(encode_utf8(p.kexinit.kex_algorithms@[i]@)));
}

/// Runs of one stream agree however it comes in; byte by byte nothing is left
/// unexamined, and in pieces no more than all at once.
pub proof fn lemma_deliveries(bytewise: Run, chunked: Run, whole: Option<Run>)
    ensures
        deliveries_agree(bytewise, chunked, whole) <==> {
            &&& runs_agree(bytewise, chunked)
            &&& whole matches Some(w) ==> runs_agree(w, bytewise)
            &&& bytewise.end matches Some(End::Proposal(p)) ==> p.unexamined_bytes == 0
            &&& whole matches Some(w) ==> w.end matches Some(End::Proposal(a)) ==> chunked.end matches Some(
                End::Proposal(c),
            ) ==> c.unexamined_bytes <= a.unexamined_bytes
        },
{
}

/// A feed of one byte more than there is room for is refused whole and ends the
/// machine, with what it could hold, what it held and what was offered.
pub proof fn lemma_overflow(o: Overflowed)
    requires
        o.room < usize::MAX,
    ensures
        overflow_right(o) <==> {
            let end = EndView::Error(
                InitialError::InputOverflow(
                    InputOverflow { capacity: o.capacity, pending: o.pending_before, offered: (o.room + 1) as usize },
                ),
            );
            &&& o.pending_after == o.pending_before
            &&& o.stage_after == 2
            &&& o.step is Some && o.step->0@ == end
            &&& o.at_input_end@ == end
        },
{
}

/// A fresh machine shows its line, with its end and without, holds nothing, is
/// in its first stage, and has room for a line and the largest packet.
pub proof fn lemma_fresh(f: Fresh, software: Seq<char>, capacity: int, cap: int, header_len: int, ident_line: int)
    ensures
        fresh_right(f, software, capacity, cap, header_len, ident_line) <==> {
            &&& f.line_without_end@ == bytes_of("SSH-2.0-") + encode_utf8(software)
            &&& f.line@ == f.line_without_end@.push(13).push(10)
            &&& f.line@.len() <= 255
            &&& f.pending == 0
            &&& f.stage == 0
            &&& f.room == capacity
            &&& capacity >= cap + header_len + ident_line
        },
{
    let b = bytes_of("SSH-2.0-") + encode_utf8(software);
    assert(b + seq![13u8, 10u8] =~= b.push(13).push(10));
}

} // verus!
