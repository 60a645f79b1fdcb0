//! A client-side stream machine under test: its configurations, the settings
//! of a test, and verdicts on its runs.

use vstd::prelude::*;
use crate::initial_packets::schedule_holds;
use crate::seqs::{bit, copy_bytes, has_bit, push_all, same_bytes};
use crate::tcp_support::drive::{assert_same_run, ends_agree, runs_agree, End, EndView, Run, STAGE_FINISHED};
use crate::tcp_support::ident_ref::{MAX_LOCAL_LINE, PREFIX_LEN};
use crate::tcp_support::msg_ref::{kex_class, kex_name};
use crate::tcp_support::stream_gen::ModelLimits;
use crate::tcp_support::types::{IdentLimits, InitialError, InputOverflow, KexName};
use crate::tcp_support::{byte_at, dropped, taken, u16_at, ChunkMode, Cursor};
use crate::text::{bytes_of, lemma_ascii_len, lossy_string, text_of};
use crate::wire_core::ident_ref::version_token;
use vstd::utf8::encode_utf8;

verus! {

/// The limits of a client-side machine.
#[derive(Clone, Copy, Debug, PartialEq, Eq, Structural)]
pub struct ProbeConfig {
    pub ident: IdentLimits,
    pub max_packet_length: u32,
    pub max_packets_before_kexinit: usize,
    pub max_bytes_before_kexinit: usize,
}

/// The configuration that a selector picks, as a change of a base
/// configuration; `ident` are the usual line limits.
pub open spec fn config_for(sel: u8, base: ProbeConfig, ident: IdentLimits) -> ProbeConfig {
    let k = sel % 8;
    if k == 0 {
        base
    } else if k == 1 {
        ProbeConfig { max_packets_before_kexinit: 1, ..base }
    } else if k == 2 {
        ProbeConfig { max_packets_before_kexinit: 2, max_bytes_before_kexinit: 64, ..base }
    } else if k == 3 {
        ProbeConfig {
            max_packets_before_kexinit: 3,
            ident: IdentLimits { max_identification_line: 512, ..ident },
            ..base
        }
    } else if k == 4 {
        ProbeConfig { max_packet_length: 64, ..base }
    } else if k == 5 {
        ProbeConfig {
            ident: IdentLimits {
                max_prelude_lines: 1,
                max_prelude_bytes: 40,
                max_prelude_line: 20,
                max_identification_line: 32,
            },
            ..base
        }
    } else if k == 6 {
        ProbeConfig { max_bytes_before_kexinit: 20, ..base }
    } else {
        ProbeConfig {
            max_packet_length: 16,
            ident: IdentLimits { max_prelude_lines: 0, max_prelude_bytes: 0, ..ident },
            max_packets_before_kexinit: 1,
            ..base
        }
    }
}

/// Picks a configuration.
pub fn probe_config(sel: u8, base: ProbeConfig, ident: IdentLimits) -> (r: ProbeConfig)
    ensures
        r == config_for(sel, base, ident),
{
    let mut c = base;
    let k: u8 = sel % 8;
    if k == 1 {
        c.max_packets_before_kexinit = 1;
    } else if k == 2 {
        c.max_packets_before_kexinit = 2;
        c.max_bytes_before_kexinit = 64;
    } else if k == 3 {
        c.max_packets_before_kexinit = 3;
        c.ident = ident;
        c.ident.max_identification_line = 512;
    } else if k == 4 {
        c.max_packet_length = 64;
    } else if k == 5 {
        c.ident = IdentLimits {
            max_prelude_lines: 1,
            max_prelude_bytes: 40,
            max_prelude_line: 20,
            max_identification_line: 32,
        };
    } else if k == 6 {
        c.max_bytes_before_kexinit = 20;
    } else if k == 7 {
        c.max_packet_length = 16;
        c.ident = ident;
        c.ident.max_prelude_lines = 0;
        c.ident.max_prelude_bytes = 0;
        c.max_packets_before_kexinit = 1;
    }
    c
}

/// The limits of the model of a client-side machine.
pub fn model_limits(c: &ProbeConfig) -> (r: ModelLimits)
    ensures
        r == (ModelLimits {
            ident: c.ident,
            cap: c.max_packet_length,
            max_packets: c.max_packets_before_kexinit,
            max_bytes: c.max_bytes_before_kexinit,
            banner_only: false,
        }),
{
    ModelLimits {
        ident: c.ident,
        cap: c.max_packet_length,
        max_packets: c.max_packets_before_kexinit,
        max_bytes: c.max_bytes_before_kexinit,
        banner_only: false,
    }
}

/// The settings of a test of a stream machine.
#[derive(Debug)]
pub struct SessionCase {
    pub sel: u8,
    /// A software version to try, where the input has one.
    pub software: Option<String>,
    pub mode: ChunkMode,
    pub eof: bool,
    /// The rest describes a stream.
    pub structured: bool,
    /// Bytes to feed before a feed that is too large.
    pub overflow_prefix: usize,
    pub rest: Vec<u8>,
}

/// A case is what the input says.
pub open spec fn session_holds(s: Seq<u8>, c: SessionCase) -> bool {
    let b0 = byte_at(s, 0);
    let s1 = dropped(s, 1);
    let n = byte_at(s1, 0) as int;
    let s2 = dropped(s1, 1);
    let s3 = if bit(b0, 8) {
        dropped(s2, n)
    } else {
        s1
    };
    let m = (byte_at(s3, 0) % 16) as int;
    let s4 = dropped(s3, 1);
    let s5 = dropped(s4, m);
    &&& c.sel == b0 % 8
    &&& match c.software {
        Some(t) => bit(b0, 8) && t@ == text_of(taken(s2, n)),
        None => !bit(b0, 8),
    }
    &&& schedule_holds(c.mode, b0 / 16 % 4, taken(s4, m))
    &&& c.eof == bit(b0, 64)
    &&& c.structured == bit(b0, 128)
    &&& c.overflow_prefix == u16_at(s5)
    &&& c.rest@ == dropped(s5, 2)
}

/// Reads the settings of a test.
pub fn gen_session(data: &[u8]) -> (r: SessionCase)
    ensures
        session_holds(data@, r),
{
    let mut cur = Cursor::new(data);
    let b0: u8 = cur.u8();
    let mut software: Option<String> = None;
    if has_bit(b0, 8) {
        let n: usize = cur.u8() as usize;
        software = Some(lossy_string(cur.take(n)));
    }
    let m: usize = (cur.u8() % 16) as usize;
    let mode = ChunkMode::from_selector(b0 / 16 % 4, cur.take(m));
    let overflow_prefix: usize = cur.u16() as usize;
    let rest = copy_bytes(cur.rest());
    SessionCase {
        sel: b0 % 8,
        software,
        mode,
        eof: has_bit(b0, 64),
        structured: has_bit(b0, 128),
        overflow_prefix,
        rest,
    }
}

/// The identification line of a software version, without its end.
pub open spec fn bare_line(sw: Seq<u8>) -> Seq<u8> {
    bytes_of("SSH-2.0-") + sw
}

/// The identification line of a software version.
pub fn local_line(sw: &[u8]) -> (r: Vec<u8>)
    ensures
        r@ == bare_line(sw@) + seq![13u8, 10u8],
{
    let mut out = copy_bytes("SSH-2.0-".as_bytes());
    push_all(&mut out, sw);
    out.push(13);
    out.push(10);
    proof {
        assert(out@ =~= bare_line(sw@) + seq![13u8, 10u8]);
    }
    out
}

/// A software version that may stand in a local line makes one of at most 255
/// bytes.
pub proof fn lemma_local_line_fits(sw: Seq<u8>)
    requires
        version_token(sw),
        PREFIX_LEN + 3 + 1 + sw.len() + 2 <= MAX_LOCAL_LINE,
    ensures
        (bare_line(sw) + seq![13u8, 10u8]).len() <= 255,
{
    reveal_strlit("SSH-2.0-");
    lemma_ascii_len("SSH-2.0-");
}

/// What a machine says before it has seen anything.
pub struct Fresh {
    pub line: Vec<u8>,
    pub line_without_end: Vec<u8>,
    pub room: usize,
    pub pending: usize,
    pub stage: u8,
}

/// A fresh machine shows its line, holds nothing, and has the room that its
/// configuration names, enough for a line and the largest packet with its
/// header.
pub open spec fn fresh_right(
    f: Fresh,
    software: Seq<char>,
    capacity: int,
    cap: int,
    header_len: int,
    ident_line: int,
) -> bool {
    &&& f.line@ == bare_line(encode_utf8(software)) + seq![13u8, 10u8]
    &&& f.line@.len() <= 255
    &&& f.line_without_end@ == bare_line(encode_utf8(software))
    &&& f.room == capacity
    &&& f.room >= cap + header_len + ident_line
    &&& f.pending == 0
    &&& f.stage == 0
}

/// Whether a fresh machine is as it must be.
pub fn check_fresh(
    f: &Fresh,
    software: &str,
    capacity: usize,
    cap: u32,
    header_len: usize,
    ident_line: usize,
) -> (r: bool)
    ensures
        r == fresh_right(*f, software@, capacity as int, cap as int, header_len as int, ident_line as int),
{
    let want = local_line(software.as_bytes());
    let mut bare = copy_bytes("SSH-2.0-".as_bytes());
    push_all(&mut bare, software.as_bytes());
    let needed: u128 = cap as u128 + header_len as u128 + ident_line as u128;
    same_bytes(f.line.as_slice(), want.as_slice()) && f.line.len() <= 255 && same_bytes(
        f.line_without_end.as_slice(),
        bare.as_slice(),
    ) && f.room == capacity && f.room as u128 >= needed && f.pending == 0 && f.stage == 0
}

/// A proposal is a KEXINIT, and the marker table was applied to each of its
/// key exchange names.
pub open spec fn names_right(end: Option<End>, classes: Seq<KexName>) -> bool {
    end matches Some(End::Proposal(p)) ==> {
        let names = p.kexinit.kex_algorithms@;
        &&& classes.len() == names.len()
        &&& forall|i: int| 0 <= i < names.len() ==> #[trigger] classes[i] == kex_class(encode_utf8(names[i]@))
        &&& p.raw_payload@.len() > 0
        &&& p.raw_payload@[0] == 20
    }
}

fn classes_right(names: &Vec<String>, classes: &Vec<KexName>) -> (r: bool)
    ensures
        r == (classes@.len() == names@.len() && forall|i: int|
            0 <= i < names@.len() ==> #[trigger] classes@[i] == kex_class(encode_utf8(names@[i]@))),
{
    if classes.len() != names.len() {
        return false;
    }
    let mut i: usize = 0;
    while i < names.len()
        invariant
            i <= names@.len(),
            classes@.len() == names@.len(),
            forall|j: int| 0 <= j < i ==> #[trigger] classes@[j] == kex_class(encode_utf8(names@[j]@)),
        decreases names@.len() - i,
    {
        if classes[i] != kex_name(names[i].as_str().as_bytes()) {
            return false;
        }
        i = i + 1;
    }
    true
}

/// Whether the classes that were given to the names of a proposal are right.
pub fn check_proposal_names(end: &Option<End>, classes: &Vec<KexName>) -> (r: bool)
    ensures
        r == names_right(*end, classes@),
{
    match end {
        Some(End::Proposal(p)) => classes_right(&p.kexinit.kex_algorithms, classes) && p.raw_payload.len() > 0
            && p.raw_payload[0] == 20,
        _ => true,
    }
}

/// The bytes that a proposal left unexamined.
pub open spec fn unexamined(run: Run) -> Option<int> {
    match run.end {
        Some(End::Proposal(p)) => Some(p.unexamined_bytes as int),
        _ => None,
    }
}

/// Runs of one stream in pieces agree, byte by byte nothing is left
/// unexamined, and pieces leave no more than all at once.
pub open spec fn deliveries_agree(bytewise: Run, chunked: Run, whole: Option<Run>) -> bool {
    &&& runs_agree(bytewise, chunked)
    &&& unexamined(bytewise) matches Some(n) ==> n == 0
    &&& whole matches Some(w) ==> {
        &&& runs_agree(w, bytewise)
        &&& unexamined(w) matches Some(a) ==> unexamined(chunked) matches Some(c) ==> c <= a
    }
}

fn unexamined_bytes(run: &Run) -> (r: Option<usize>)
    ensures
        match unexamined(*run) {
            Some(n) => r matches Some(m) && m == n,
            None => r is None,
        },
{
    match &run.end {
        Some(End::Proposal(p)) => Some(p.unexamined_bytes),
        _ => None,
    }
}

/// Whether the runs of one stream agree.
pub fn check_deliveries(bytewise: &Run, chunked: &Run, whole: Option<&Run>) -> (r: bool)
    ensures
        r == deliveries_agree(
            *bytewise,
            *chunked,
            match whole {
                Some(w) => Some(*w),
                None => None,
            },
        ),
{
    if !assert_same_run(bytewise, chunked) {
        return false;
    }
    match unexamined_bytes(bytewise) {
        Some(n) => {
            if n != 0 {
                return false;
            }
        },
        None => {},
    }
    match whole {
        Some(w) => {
            if !assert_same_run(w, bytewise) {
                return false;
            }
            match (unexamined_bytes(w), unexamined_bytes(chunked)) {
                (Some(a), Some(c)) => c <= a,
                _ => true,
            }
        },
        None => true,
    }
}

/// Runs that agree end in the same variant: none has a proposal where another
/// has none.
pub proof fn lemma_agreeing_ends(a: Run, b: Run)
    requires
        runs_agree(a, b),
    ensures
        unexamined(a) is Some <==> unexamined(b) is Some,
{
    match (a.end, b.end) {
        (Some(x), Some(y)) => {
            assert(ends_agree(x@, y@));
        },
        _ => {},
    }
}

/// All at once, something of the stream is examined.
pub fn check_examined(whole: &Run, stream_len: usize) -> (r: bool)
    ensures
        r == (unexamined(*whole) matches Some(n) ==> n < stream_len),
{
    match unexamined_bytes(whole) {
        Some(n) => n < stream_len,
        None => true,
    }
}

/// How many bytes to feed before a feed that is too large.
pub fn overflow_feed(prefix: usize, stream_len: usize, room: usize) -> (r: usize)
    ensures
        r <= prefix && r <= stream_len && r <= room,
        r == prefix || r == stream_len || r == room,
{
    let a: usize = if prefix <= stream_len { prefix } else { stream_len };
    if a <= room {
        a
    } else {
        room
    }
}

/// What a machine did with a feed of one byte more than its room.
pub struct Overflowed {
    pub capacity: usize,
    pub room: usize,
    pub pending_before: usize,
    pub pending_after: usize,
    pub stage_after: u8,
    /// The end of the next step, if it was one.
    pub step: Option<End>,
    pub at_input_end: End,
}

/// The end that a feed of one byte too many leads to.
pub open spec fn overflow_end(capacity: usize, pending: usize, room: usize) -> EndView {
    End::Error(InitialError::InputOverflow(InputOverflow { capacity, pending, offered: (room + 1) as usize }))
}

/// A feed that is too large is refused before anything is copied, and ends
/// the machine.
pub open spec fn overflow_right(o: Overflowed) -> bool {
    let end = overflow_end(o.capacity, o.pending_before, o.room);
    &&& o.room < usize::MAX
    &&& o.pending_after == o.pending_before
    &&& o.stage_after == STAGE_FINISHED
    &&& o.step matches Some(e) && e@ == end
    &&& o.at_input_end@ == end
}

/// Whether a feed that is too large was refused.
pub fn check_overflow(o: &Overflowed) -> (r: bool)
    ensures
        r == overflow_right(*o),
{
    if o.room == usize::MAX {
        return false;
    }
    let want = End::Error(
        InitialError::InputOverflow(
            InputOverflow { capacity: o.capacity, pending: o.pending_before, offered: o.room + 1 },
        ),
    );
    let stepped: bool = match &o.step {
        Some(e) => e.same(&want),
        None => false,
    };
    o.pending_after == o.pending_before && o.stage_after == STAGE_FINISHED && stepped && o.at_input_end.same(&want)
}

} // verus!
