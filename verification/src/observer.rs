//! A server-side stream machine under test: its configurations, and verdicts
//! on the policy of its role.

use vstd::prelude::*;
use crate::probe::{check_proposal_names, names_right};
use crate::seqs::{head, same_bytes, starts_with};
use crate::tcp_support::drive::{evs, opt_end, End, EndView, Ev, EvView, ProposalView, Run};
use crate::tcp_support::ident_ref::{opening, starts_ident, PREFIX_LEN};
use crate::tcp_support::stream_gen::ModelLimits;
use crate::tcp_support::types::{
    IdentLimits, InitialError, InitialLimits, KexName, LineTerminator, OwnedIdentification, VersionSupport,
};
use crate::text::same_text;
use crate::wire_core::ident_ref::ssh_prefix;

verus! {

/// The limits of a server-side machine.
#[derive(Clone, Copy, Debug, PartialEq, Eq, Structural)]
pub struct ObserverConfig {
    /// Stop after the identification.
    pub banner_only: bool,
    pub initial: InitialLimits,
    pub max_identification_line: usize,
    /// Bytes of unexpected input to keep.
    pub unexpected_sample: usize,
}

/// The configuration that a selector picks, as a change of a base
/// configuration; `initial` are the usual packet limits.
pub open spec fn config_for(sel: u8, base: ObserverConfig, initial: InitialLimits) -> ObserverConfig {
    let k = sel % 8;
    if k == 0 {
        base
    } else if k == 1 {
        ObserverConfig { banner_only: true, ..base }
    } else if k == 2 {
        ObserverConfig { initial: InitialLimits { max_packets: 1, ..initial }, ..base }
    } else if k == 3 {
        ObserverConfig { initial: InitialLimits { max_packets: 2, max_bytes: 64, ..initial }, ..base }
    } else if k == 4 {
        ObserverConfig { initial: InitialLimits { max_packet_length: 64, ..initial }, ..base }
    } else if k == 5 {
        ObserverConfig { max_identification_line: 32, unexpected_sample: 4, ..base }
    } else if k == 6 {
        ObserverConfig { unexpected_sample: 0, initial: InitialLimits { max_bytes: 20, ..initial }, ..base }
    } else {
        ObserverConfig {
            initial: InitialLimits { max_packet_length: 16, max_packets: 1, ..initial },
            max_identification_line: 512,
            ..base
        }
    }
}

/// Picks a configuration.
pub fn observer_config(sel: u8, base: ObserverConfig, initial: InitialLimits) -> (r: ObserverConfig)
    ensures
        r == config_for(sel, base, initial),
{
    let mut c = base;
    let k: u8 = sel % 8;
    if k == 1 {
        c.banner_only = true;
    } else if k == 2 {
        c.initial = initial;
        c.initial.max_packets = 1;
    } else if k == 3 {
        c.initial = initial;
        c.initial.max_packets = 2;
        c.initial.max_bytes = 64;
    } else if k == 4 {
        c.initial = initial;
        c.initial.max_packet_length = 64;
    } else if k == 5 {
        c.max_identification_line = 32;
        c.unexpected_sample = 4;
    } else if k == 6 {
        c.unexpected_sample = 0;
        c.initial = initial;
        c.initial.max_bytes = 20;
    } else if k == 7 {
        c.initial = initial;
        c.initial.max_packet_length = 16;
        c.initial.max_packets = 1;
        c.max_identification_line = 512;
    }
    c
}

/// The limits of the model of a server-side machine: no prelude.
pub fn model_limits(c: &ObserverConfig) -> (r: ModelLimits)
    ensures
        r == (ModelLimits {
            ident: IdentLimits {
                max_prelude_lines: 0,
                max_prelude_bytes: 0,
                max_prelude_line: c.max_identification_line,
                max_identification_line: c.max_identification_line,
            },
            cap: c.initial.max_packet_length,
            max_packets: c.initial.max_packets,
            max_bytes: c.initial.max_bytes,
            banner_only: c.banner_only,
        }),
{
    ModelLimits {
        ident: IdentLimits {
            max_prelude_lines: 0,
            max_prelude_bytes: 0,
            max_prelude_line: c.max_identification_line,
            max_identification_line: c.max_identification_line,
        },
        cap: c.initial.max_packet_length,
        max_packets: c.initial.max_packets,
        max_bytes: c.initial.max_bytes,
        banner_only: c.banner_only,
    }
}

/// The first identification among events, from the `i`-th on.
pub open spec fn first_ident(events: Seq<EvView>, i: int) -> Option<OwnedIdentification<Seq<u8>, Seq<char>>>
    decreases events.len() - i,
{
    if i < 0 || i >= events.len() {
        None
    } else {
        match events[i] {
            Ev::Ident(o) => Some(o),
            _ => first_ident(events, i + 1),
        }
    }
}

fn find_ident(events: &Vec<Ev>) -> (r: Option<&OwnedIdentification>)
    ensures
        match first_ident(evs(events@), 0) {
            Some(o) => r matches Some(v) && v@ == o,
            None => r is None,
        },
{
    let mut i: usize = 0;
    while i < events.len()
        invariant
            i <= events@.len(),
            first_ident(evs(events@), 0) == first_ident(evs(events@), i as int),
        decreases events@.len() - i,
    {
        proof {
            assert(evs(events@)[i as int] == events@[i as int]@);
        }
        match &events[i] {
            Ev::Ident(o) => {
                return Some(o);
            },
            _ => {},
        }
        i = i + 1;
    }
    None
}

/// No event is a prelude line.
pub open spec fn no_prelude(events: Seq<EvView>) -> bool {
    forall|i: int| 0 <= i < events.len() ==> !((#[trigger] events[i]) is Prelude)
}

/// No event is a skipped packet.
pub open spec fn no_packet(events: Seq<EvView>) -> bool {
    forall|i: int| 0 <= i < events.len() ==> !((#[trigger] events[i]) is Skipped)
}

fn has_no_prelude(events: &Vec<Ev>) -> (r: bool)
    ensures
        r == no_prelude(evs(events@)),
{
    let mut i: usize = 0;
    while i < events.len()
        invariant
            i <= events@.len(),
            forall|j: int| 0 <= j < i ==> !((#[trigger] evs(events@)[j]) is Prelude),
        decreases events@.len() - i,
    {
        proof {
            assert(evs(events@)[i as int] == events@[i as int]@);
        }
        match &events[i] {
            Ev::Prelude { line, terminator } => {
                return false;
            },
            _ => {},
        }
        i = i + 1;
    }
    true
}

fn has_no_packet(events: &Vec<Ev>) -> (r: bool)
    ensures
        r == no_packet(evs(events@)),
{
    let mut i: usize = 0;
    while i < events.len()
        invariant
            i <= events@.len(),
            forall|j: int| 0 <= j < i ==> !((#[trigger] evs(events@)[j]) is Skipped),
        decreases events@.len() - i,
    {
        proof {
            assert(evs(events@)[i as int] == events@[i as int]@);
        }
        match &events[i] {
            Ev::Skipped(m) => {
                return false;
            },
            _ => {},
        }
        i = i + 1;
    }
    true
}

/// What holds of the identification of a run: it opens as one, the
/// compatibility version is 1.99, it has its anomalies and is not rejected
/// afterwards. Without one no packet is reported.
pub open spec fn ident_policy(
    ident: Option<OwnedIdentification<Seq<u8>, Seq<char>>>,
    end: Option<EndView>,
    anomalies: int,
) -> bool {
    match ident {
        Some(o) => {
            &&& ssh_prefix().is_prefix_of(o.line)
            &&& (o.support == VersionSupport::Ssh2Compatibility) == (o.protocol_version == "1.99"@)
            &&& anomalies == (if o.terminator == LineTerminator::Lf {
                1int
            } else {
                0int
            }) + (if o.support == VersionSupport::Ssh2Compatibility {
                1int
            } else {
                0int
            })
            &&& !(end matches Some(End::Error(InitialError::Ident(e))))
        },
        None => match end {
            Some(End::Proposal(_)) => false,
            Some(End::BannerOnly) => false,
            Some(End::Disconnected { reason_code, description, language_tag }) => false,
            _ => true,
        },
    }
}

fn check_ident_policy(ident: Option<&OwnedIdentification>, end: &Option<End>, anomalies: usize) -> (r: bool)
    ensures
        r == ident_policy(
            match ident {
                Some(o) => Some(o@),
                None => None,
            },
            opt_end(*end),
            anomalies as int,
        ),
{
    match ident {
        Some(o) => {
            let prefix: [u8; 4] = [83, 83, 72, 45];
            proof {
                assert(prefix@ =~= ssh_prefix());
            }
            let lf: usize = if o.terminator == LineTerminator::Lf { 1 } else { 0 };
            let compat: bool = o.support == VersionSupport::Ssh2Compatibility;
            let count: usize = lf + (if compat { 1usize } else { 0 });
            let rejected: bool = match end {
                Some(End::Error(InitialError::Ident(e))) => true,
                _ => false,
            };
            starts_with(o.line.as_slice(), prefix.as_slice()) && compat == same_text(
                o.protocol_version.as_str(),
                "1.99",
            ) && anomalies == count && !rejected
        },
        None => match end {
            Some(End::Proposal(_)) => false,
            Some(End::BannerOnly) => false,
            Some(End::Disconnected { reason_code, description, language_tag }) => false,
            _ => true,
        },
    }
}

/// A machine that stops after the identification decodes no packet.
pub open spec fn banner_policy(
    events: Seq<EvView>,
    end: Option<EndView>,
    identified: bool,
) -> bool {
    &&& !(end matches Some(End::Proposal(p)))
    &&& no_packet(events)
    &&& identified ==> end == Some(End::<Seq<u8>, ProposalView>::BannerOnly) && events.len() == 1
}

/// Unexpected input is decided as soon as the input cannot be an
/// identification; the sample is what was fed by then, up to its bound.
pub open spec fn sample_right(stream: Seq<u8>, fed: int, limit: int, sample: Seq<u8>, truncated: bool) -> bool {
    let n = if fed < limit {
        fed
    } else {
        limit
    };
    &&& 0 <= fed <= stream.len()
    &&& sample == stream.take(n)
    &&& truncated == (fed > n)
    &&& opening(stream.take(fed)) == Some(false)
}

/// Whether a sample of unexpected input is right.
pub fn check_sample(stream: &[u8], fed: usize, limit: usize, sample: &[u8], truncated: bool) -> (r: bool)
    ensures
        r == sample_right(stream@, fed as int, limit as int, sample@, truncated),
{
    if fed > stream.len() {
        return false;
    }
    let n: usize = if fed < limit { fed } else { limit };
    let decided: bool = match starts_ident(head(stream, fed)) {
        Some(b) => !b,
        None => false,
    };
    same_bytes(sample, head(stream, n)) && truncated == (fed > n) && decided
}

/// The policy of the server role on one run.
pub open spec fn policy_kept(
    run: Run,
    stream: Seq<u8>,
    config: ObserverConfig,
    anomalies: int,
    classes: Seq<KexName>,
) -> bool {
    let events = evs(run.events@);
    let end = opt_end(run.end);
    let ident = first_ident(events, 0);
    &&& no_prelude(events)
    &&& ident_policy(ident, end, anomalies)
    &&& config.banner_only ==> banner_policy(events, end, ident is Some)
    &&& end matches Some(End::UnexpectedInput { sample, truncated }) ==> {
        &&& events.len() == 0
        &&& run.decision_pending matches Some(fed) && sample_right(
            stream,
            fed as int,
            config.unexpected_sample as int,
            sample,
            truncated,
        )
    }
    &&& names_right(run.end, classes)
    &&& stream.len() >= 4 && opening(stream) == Some(false) ==> (end matches Some(
        End::UnexpectedInput { sample, truncated },
    ))
}

/// Whether a run keeps the policy of the server role; `anomalies` counts those
/// of its identification, `classes` are those given to the names of its
/// proposal.
pub fn check_role_policy(
    run: &Run,
    stream: &[u8],
    config: &ObserverConfig,
    anomalies: usize,
    classes: &Vec<KexName>,
) -> (r: bool)
    ensures
        r == policy_kept(*run, stream@, *config, anomalies as int, classes@),
{
    let ident = find_ident(&run.events);
    let identified: bool = ident.is_some();
    let plain: bool = has_no_prelude(&run.events);
    let sound: bool = check_ident_policy(ident, &run.end, anomalies);
    let banner: bool = if config.banner_only {
        let proposal: bool = match &run.end {
            Some(End::Proposal(_)) => true,
            _ => false,
        };
        let stopped: bool = match &run.end {
            Some(End::BannerOnly) => run.events.len() == 1,
            _ => false,
        };
        !proposal && has_no_packet(&run.events) && (!identified || stopped)
    } else {
        true
    };
    let foreign: bool = stream.len() >= PREFIX_LEN && (match starts_ident(stream) {
        Some(b) => !b,
        None => false,
    });
    let sampled: bool = match &run.end {
        Some(End::UnexpectedInput { sample, truncated }) => run.events.len() == 0 && (match run.decision_pending {
            Some(fed) => check_sample(stream, fed, config.unexpected_sample, sample.as_slice(), *truncated),
            None => false,
        }),
        _ => !foreign,
    };
    plain && sound && banner && sampled && check_proposal_names(&run.end, classes)
}

/// Policy and driver fit together: input that is foreign from its fourth byte
/// on is reported with nothing before it.
pub proof fn lemma_foreign_input(
    run: Run,
    stream: Seq<u8>,
    config: ObserverConfig,
    anomalies: int,
    classes: Seq<KexName>,
)
    requires
        policy_kept(run, stream, config, anomalies, classes),
        stream.len() >= 4,
        opening(stream) == Some(false),
    ensures
        evs(run.events@).len() == 0,
        opt_end(run.end) matches Some(End::UnexpectedInput { sample, truncated }) && sample.is_prefix_of(stream)
            && sample.len() <= config.unexpected_sample,
{
    match opt_end(run.end) {
        Some(End::UnexpectedInput { sample, truncated }) => {
            let fed = run.decision_pending->0 as int;
            let n = if fed < config.unexpected_sample {
                fed
            } else {
                config.unexpected_sample as int
            };
            assert(sample =~= stream.subrange(0, n));
        },
        _ => {},
    }
}

} // verus!
