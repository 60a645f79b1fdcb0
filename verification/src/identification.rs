//! Readers of identification lines under test: the settings of a test, and
//! verdicts on what a reader gave out of a stream.

use vstd::prelude::*;
use crate::initial_packets::schedule_holds;
use crate::seqs::{copy_bytes, opt_vec, same_bytes, same_opt, starts_with};
use crate::tcp_support::drive::owns;
use crate::tcp_support::ident_ref::{
    self, lemma_decision_stable, prelude_lines, run_from, run_of, RefIdent, RefOutcome, RefReader, RefStep,
    PREFIX_LEN,
};
use crate::tcp_support::types::{IdentError, IdentLimits, LineTerminator, OwnedIdentification, VersionSupport};
use crate::tcp_support::{byte_at, dropped, taken, u16_at, ChunkMode, Cursor};
use crate::wire_core::ident_ref::ssh_prefix;

verus! {

/// A bare line feed becomes carriage return and line feed.
pub open spec fn with_returns(s: Seq<u8>) -> Seq<u8>
    decreases s.len(),
{
    if s.len() == 0 {
        Seq::empty()
    } else {
        let front = with_returns(s.drop_last());
        if s.last() == 10 && (s.len() == 1 || s[s.len() - 2] != 13) {
            front + seq![13u8, 10u8]
        } else {
            front + seq![s.last()]
        }
    }
}

/// A carriage return right before a line feed is left out.
pub open spec fn without_returns(s: Seq<u8>) -> Seq<u8>
    decreases s.len(),
{
    if s.len() == 0 {
        Seq::empty()
    } else if s.last() == 10 && s.len() >= 2 && s[s.len() - 2] == 13 {
        without_returns(s.take(s.len() - 2)) + seq![10u8]
    } else {
        without_returns(s.drop_last()) + seq![s.last()]
    }
}

/// A stream with its line ends changed as `kind` says.
pub open spec fn transformed(s: Seq<u8>, kind: u8) -> Seq<u8> {
    if kind == 1 {
        with_returns(s)
    } else if kind == 2 {
        without_returns(s)
    } else if kind == 3 && !(s.len() > 0 && s.last() == 10) {
        s + seq![13u8, 10u8]
    } else {
        s
    }
}

fn add_returns(stream: &[u8]) -> (r: Vec<u8>)
    ensures
        r@ == with_returns(stream@),
{
    let mut out: Vec<u8> = Vec::new();
    let mut i: usize = 0;
    while i < stream.len()
        invariant
            i <= stream@.len(),
            out@ == with_returns(stream@.take(i as int)),
        decreases stream@.len() - i,
    {
        let ghost before = out@;
        let b: u8 = stream[i];
        if b == 10 && (i == 0 || stream[i - 1] != 13) {
            out.push(13);
        }
        out.push(b);
        proof {
            let t = stream@.take(i + 1);
            assert(t.drop_last() =~= stream@.take(i as int));
            assert(t.last() == b);
            assert(out@ =~= with_returns(t));
        }
        i = i + 1;
    }
    proof {
        assert(stream@.take(i as int) =~= stream@);
    }
    out
}

proof fn lemma_keep_one(s: Seq<u8>)
    requires
        s.len() > 0,
        s.last() != 10 || s.len() == 1 || s[s.len() - 2] != 13,
    ensures
        without_returns(s) == without_returns(s.drop_last()) + seq![s.last()],
{
}

fn drop_returns(stream: &[u8]) -> (r: Vec<u8>)
    ensures
        r@ == without_returns(stream@),
{
    let mut out: Vec<u8> = Vec::new();
    let mut i: usize = 0;
    // A carriage return is pending until the byte behind it is known.
    let mut pending: bool = false;
    while i < stream.len()
        invariant
            i <= stream@.len(),
            pending ==> i > 0 && stream@[i - 1] == 13 && out@ == without_returns(stream@.take(i - 1)),
            !pending ==> out@ == without_returns(stream@.take(i as int)) && (i == 0 || stream@[i - 1] != 13),
        decreases stream@.len() - i,
    {
        let b: u8 = stream[i];
        let ghost t = stream@.take(i + 1);
        proof {
            assert(t.drop_last() =~= stream@.take(i as int));
            assert(t.last() == b);
            if i > 0 {
                assert(t.take(t.len() - 2) =~= stream@.take(i - 1));
                assert(stream@.take(i as int).drop_last() =~= stream@.take(i - 1));
                assert(stream@.take(i as int).last() == stream@[i - 1]);
            }
        }
        if pending && b != 10 {
            out.push(13);
            proof {
                lemma_keep_one(stream@.take(i as int));
                assert(out@ =~= without_returns(stream@.take(i as int)));
            }
        }
        if b == 13 {
            proof {
                assert(out@ =~= without_returns(stream@.take(i as int)));
            }
            pending = true;
        } else {
            out.push(b);
            pending = false;
            proof {
                assert(out@ =~= without_returns(t));
            }
        }
        i = i + 1;
    }
    proof {
        assert(stream@.take(i as int) =~= stream@);
        if pending {
            assert(stream@.drop_last() =~= stream@.take(i - 1));
        }
    }
    if pending {
        out.push(13);
        proof {
            lemma_keep_one(stream@);
            assert(out@ =~= without_returns(stream@));
        }
    }
    out
}

/// Changes line ends: 1 bare LF to CR LF, 2 CR LF to LF, 3 appends CR LF
/// unless the stream ends with LF; others leave the stream.
pub fn transform_terminators(stream: &[u8], kind: u8) -> (r: Vec<u8>)
    ensures
        r@ == transformed(stream@, kind),
{
    if kind == 1 {
        return add_returns(stream);
    }
    if kind == 2 {
        return drop_returns(stream);
    }
    let mut out = copy_bytes(stream);
    if kind == 3 && !(stream.len() > 0 && stream[stream.len() - 1] == 10) {
        out.push(13);
        out.push(10);
        proof {
            assert(out@ =~= transformed(stream@, kind));
        }
    }
    out
}

/// With returns added, every line feed has a carriage return before it.
pub proof fn lemma_returns_added(s: Seq<u8>)
    ensures
        forall|i: int|
            0 <= i < with_returns(s).len() && #[trigger] with_returns(s)[i] == 10 ==> i > 0 && with_returns(s)[i - 1]
                == 13,
        s.len() > 0 ==> with_returns(s).len() > 0 && with_returns(s).last() == s.last(),
    decreases s.len(),
{
    if s.len() > 0 {
        let t = s.drop_last();
        lemma_returns_added(t);
        if s.last() == 10 && s.len() >= 2 && s[s.len() - 2] == 13 {
            assert(t.last() == 13);
        }
    }
}

/// Adding returns and leaving them out again gives what leaving them out
/// gives: the two line ends of a text are told apart by nothing else.
pub proof fn lemma_returns_undone(s: Seq<u8>)
    ensures
        without_returns(with_returns(s)) == without_returns(s),
    decreases s.len(),
{
    if s.len() > 0 {
        let t = s.drop_last();
        let w = with_returns(s);
        lemma_returns_undone(t);
        if s.last() == 10 && (s.len() == 1 || s[s.len() - 2] != 13) {
            assert(w.take(w.len() - 2) =~= with_returns(t));
            assert(w.last() == 10 && w[w.len() - 2] == 13);
        } else if s.last() == 10 {
            let u = s.take(s.len() - 2);
            lemma_returns_undone(u);
            assert(t.drop_last() =~= u);
            assert(t.last() == 13);
            assert(with_returns(t) =~= with_returns(u) + seq![13u8]);
            assert(w =~= with_returns(u) + seq![13u8, 10u8]);
            assert(w.take(w.len() - 2) =~= with_returns(u));
        } else {
            assert(w.drop_last() =~= with_returns(t));
            lemma_keep_one(w);
        }
    }
}

/// Whatever a reader makes of the first part of a stream it makes of the
/// whole: once it has decided, more bytes change nothing, and until then the
/// lines it gave out stay. So delivery in pieces gives what delivery at once
/// gives, for line limits that admit four bytes.
pub proof fn lemma_run_prefix(a: Seq<u8>, b: Seq<u8>, limits: IdentLimits)
    requires
        limits.max_prelude_line >= PREFIX_LEN,
        limits.max_identification_line >= PREFIX_LEN,
        (a + b).len() <= usize::MAX,
    ensures
        !(run_of(a, limits).1 is Incomplete) ==> run_of(a + b, limits) == run_of(a, limits),
        run_of(a, limits).0.is_prefix_of(run_of(a + b, limits).0),
{
    lemma_run_from_prefix(a, b, 0, RefReader { limits, lines: 0, bytes: 0 });
}

proof fn lemma_run_from_prefix(a: Seq<u8>, b: Seq<u8>, off: int, reader: RefReader)
    requires
        0 <= off <= a.len(),
        reader.limits.max_prelude_line >= PREFIX_LEN,
        reader.limits.max_identification_line >= PREFIX_LEN,
        (a + b).len() <= usize::MAX,
    ensures
        !(run_from(a, off, reader).1 is Incomplete) ==> run_from(a + b, off, reader) == run_from(a, off, reader),
        run_from(a, off, reader).0.is_prefix_of(run_from(a + b, off, reader).0),
    decreases a.len() - off,
{
    let rest = a.skip(off);
    assert((a + b).skip(off) =~= rest + b);
    crate::seqs::lemma_first_at_range(rest, 10u8, 0);
    if reader.feed_result(rest) != Ok::<RefStep<Seq<u8>>, IdentError>(RefStep::NeedMore) {
        lemma_decision_stable(reader, rest, b);
        match reader.feed_result(rest) {
            Ok(RefStep::Prelude { line, terminator, consumed }) => {
                let next = reader.feed_next(rest);
                lemma_run_from_prefix(a, b, off + consumed, next);
                let (l1, o1) = run_from(a, off + consumed, next);
                let (l2, o2) = run_from(a + b, off + consumed, next);
                let h = seq![(line, terminator)];
                assert(l1 =~= l2.subrange(0, l1.len() as int));
                assert(h + l1 =~= (h + l2).subrange(0, (h + l1).len() as int));
            },
            _ => {},
        }
    }
}

/// An identification that a reader gave out.
#[derive(Clone, Debug, PartialEq, Eq)]
pub struct IdentRec {
    pub line: Vec<u8>,
    pub terminator: LineTerminator,
    pub protocol_version: Vec<u8>,
    pub software_version: Vec<u8>,
    pub comments: Option<Vec<u8>>,
    pub support: VersionSupport,
}

impl View for IdentRec {
    type V = RefIdent<Seq<u8>>;

    open spec fn view(&self) -> RefIdent<Seq<u8>> {
        RefIdent {
            line: self.line@,
            terminator: self.terminator,
            protocol_version: self.protocol_version@,
            software_version: self.software_version@,
            comments: opt_vec(self.comments),
            support: self.support,
        }
    }
}

impl IdentRec {
    /// The record of a parsed identification.
    pub fn from_ref(i: &RefIdent<&[u8]>) -> (r: Self)
        ensures
            r@ == i@,
    {
        IdentRec {
            line: copy_bytes(i.line),
            terminator: i.terminator,
            protocol_version: copy_bytes(i.protocol_version),
            software_version: copy_bytes(i.software_version),
            comments: match i.comments {
                Some(c) => Some(copy_bytes(c)),
                None => None,
            },
            support: i.support,
        }
    }

    fn same(&self, other: &Self) -> (r: bool)
        ensures
            r == (self@ == other@),
    {
        same_bytes(self.line.as_slice(), other.line.as_slice()) && self.terminator == other.terminator && same_bytes(
            self.protocol_version.as_slice(),
            other.protocol_version.as_slice(),
        ) && same_bytes(self.software_version.as_slice(), other.software_version.as_slice()) && same_opt(
            &self.comments,
            &other.comments,
        ) && self.support == other.support
    }
}

/// How a reader ended.
#[derive(Clone, Debug, PartialEq, Eq)]
pub enum Outcome {
    Identification {
        ident: IdentRec,
        /// Offset just past the line.
        consumed_total: usize,
    },
    Error(IdentError),
    Incomplete,
}

impl View for Outcome {
    type V = RefOutcome<Seq<u8>>;

    open spec fn view(&self) -> RefOutcome<Seq<u8>> {
        match self {
            Outcome::Identification { ident, consumed_total } => RefOutcome::Identification {
                ident: ident@,
                consumed_total: *consumed_total,
            },
            Outcome::Error(e) => RefOutcome::Error(*e),
            Outcome::Incomplete => RefOutcome::Incomplete,
        }
    }
}

/// The lines that a reader gave out.
pub open spec fn given_lines(v: Seq<(Vec<u8>, LineTerminator)>) -> Seq<(Seq<u8>, LineTerminator)> {
    Seq::new(v.len(), |i: int| (v[i].0@, v[i].1))
}

/// Whether the lines and the outcome that a reader gave out of a stream are
/// right. Every way to deliver the stream is held to the same.
pub fn check_configuration(
    stream: &[u8],
    limits: IdentLimits,
    prelude: &Vec<(Vec<u8>, LineTerminator)>,
    outcome: &Outcome,
) -> (r: bool)
    ensures
        r == ((given_lines(prelude@), outcome@) == run_of(stream@, limits)),
{
    let (lines, want) = ident_ref::run(stream, limits);
    if lines.len() != prelude.len() {
        proof {
            assert(given_lines(prelude@).len() != prelude_lines(lines@).len());
        }
        return false;
    }
    let mut i: usize = 0;
    while i < lines.len()
        invariant
            i <= lines@.len(),
            lines@.len() == prelude@.len(),
            (prelude_lines(lines@), want@) == run_of(stream@, limits),
            forall|j: int| 0 <= j < i ==> #[trigger] given_lines(prelude@)[j] == prelude_lines(lines@)[j],
        decreases lines@.len() - i,
    {
        if !same_bytes(lines[i].0, prelude[i].0.as_slice()) || lines[i].1 != prelude[i].1 {
            proof {
                assert(given_lines(prelude@)[i as int] != prelude_lines(lines@)[i as int]);
            }
            return false;
        }
        i = i + 1;
    }
    proof {
        assert(given_lines(prelude@) =~= prelude_lines(lines@));
    }
    match (outcome, &want) {
        (
            Outcome::Identification { ident, consumed_total },
            RefOutcome::Identification { ident: i2, consumed_total: c2 },
        ) => ident.same(&IdentRec::from_ref(i2)) && *consumed_total == *c2,
        (Outcome::Error(a), RefOutcome::Error(b)) => *a == *b,
        (Outcome::Incomplete, RefOutcome::Incomplete) => true,
        _ => false,
    }
}

/// An identification is the front of its buffer, its owned copy says the
/// same, and it has one anomaly for a bare line feed and one for the
/// compatibility version.
pub open spec fn ident_sound(
    buf: Seq<u8>,
    ident: IdentRec,
    owned: OwnedIdentification<Seq<u8>, Seq<char>>,
    anomalies: int,
    consumed: int,
) -> bool {
    &&& consumed == ident.line@.len() + ident.terminator.bytes().len()
    &&& ident.line@.is_prefix_of(buf)
    &&& ssh_prefix().is_prefix_of(ident.line@)
    &&& owns(owned, ident@)
    &&& anomalies == (if ident.terminator == LineTerminator::Lf {
        1int
    } else {
        0int
    }) + (if ident.support == VersionSupport::Ssh2Compatibility {
        1int
    } else {
        0int
    })
}

/// Whether an identification is sound.
pub fn check_ident(
    buf: &[u8],
    ident: &IdentRec,
    owned: &OwnedIdentification,
    anomalies: usize,
    consumed: usize,
) -> (r: bool)
    ensures
        r == ident_sound(buf@, *ident, owned@, anomalies as int, consumed as int),
{
    let lf: usize = if ident.terminator == LineTerminator::Lf { 1 } else { 0 };
    let compat: usize = if ident.support == VersionSupport::Ssh2Compatibility { 1 } else { 0 };
    let t: usize = ident.terminator.byte_len();
    let prefix: [u8; 4] = [83, 83, 72, 45];
    proof {
        assert(prefix@ =~= ssh_prefix());
    }
    consumed >= t && consumed - t == ident.line.len() && starts_with(buf, ident.line.as_slice()) && starts_with(
        ident.line.as_slice(),
        prefix.as_slice(),
    ) && owned_same(owned, ident) && anomalies == lf + compat
}

fn owned_same(o: &OwnedIdentification, i: &IdentRec) -> (r: bool)
    ensures
        r == owns(o@, i@),
{
    same_bytes(o.line.as_slice(), i.line.as_slice()) && o.terminator == i.terminator && same_bytes(
        o.protocol_version.as_str().as_bytes(),
        i.protocol_version.as_slice(),
    ) && same_bytes(o.software_version.as_str().as_bytes(), i.software_version.as_slice()) && same_opt(
        &o.comments,
        &i.comments,
    ) && o.support == i.support
}

/// The settings of a test.
#[derive(Debug)]
pub struct IdentCase {
    pub limits: IdentLimits,
    pub mode: ChunkMode,
    pub stream: Vec<u8>,
}

/// The limits that a selector picks, and the input behind them.
pub open spec fn limits_gen(k: u8, s: Seq<u8>) -> (IdentLimits, Seq<u8>) {
    if k == 0 {
        let s1 = dropped(s, 1);
        let s2 = dropped(s1, 2);
        let s3 = dropped(s2, 1);
        (
            IdentLimits {
                max_prelude_lines: (byte_at(s, 0) as int % 5) as usize,
                max_prelude_bytes: (u16_at(s1) as int % 300) as usize,
                max_prelude_line: (4 + byte_at(s2, 0) as int % 60) as usize,
                max_identification_line: (4 + u16_at(s3) as int % 600) as usize,
            },
            dropped(s3, 2),
        )
    } else if k == 1 {
        (
            IdentLimits {
                max_prelude_lines: 0,
                max_prelude_bytes: 0,
                max_prelude_line: 255,
                max_identification_line: 255,
            },
            s,
        )
    } else if k == 2 {
        (
            IdentLimits {
                max_prelude_lines: 1,
                max_prelude_bytes: 40,
                max_prelude_line: 20,
                max_identification_line: 32,
            },
            s,
        )
    } else {
        (
            IdentLimits {
                max_prelude_lines: 1000,
                max_prelude_bytes: 65535,
                max_prelude_line: 4096,
                max_identification_line: 4096,
            },
            s,
        )
    }
}

/// Draws the limits of a reader; every line limit admits four bytes.
pub fn gen_limits(k: u8, cur: &mut Cursor<'_>) -> (r: IdentLimits)
    ensures
        (r, final(cur)@) == limits_gen(k, old(cur)@),
        r.max_prelude_line >= PREFIX_LEN,
        r.max_identification_line >= PREFIX_LEN,
{
    if k == 0 {
        let max_prelude_lines: usize = cur.u8() as usize % 5;
        let max_prelude_bytes: usize = cur.u16() as usize % 300;
        let max_prelude_line: usize = 4 + cur.u8() as usize % 60;
        let max_identification_line: usize = 4 + cur.u16() as usize % 600;
        IdentLimits { max_prelude_lines, max_prelude_bytes, max_prelude_line, max_identification_line }
    } else if k == 1 {
        IdentLimits {
            max_prelude_lines: 0,
            max_prelude_bytes: 0,
            max_prelude_line: 255,
            max_identification_line: 255,
        }
    } else if k == 2 {
        IdentLimits {
            max_prelude_lines: 1,
            max_prelude_bytes: 40,
            max_prelude_line: 20,
            max_identification_line: 32,
        }
    } else {
        IdentLimits {
            max_prelude_lines: 1000,
            max_prelude_bytes: 65535,
            max_prelude_line: 4096,
            max_identification_line: 4096,
        }
    }
}

/// A case is what the input says.
pub open spec fn case_holds(s: Seq<u8>, c: IdentCase) -> bool {
    let b0 = byte_at(s, 0);
    let (limits, s1) = limits_gen(b0 % 4, dropped(s, 1));
    let n = (byte_at(s1, 0) % 16) as int;
    let s2 = dropped(s1, 1);
    &&& c.limits == limits
    &&& schedule_holds(c.mode, b0 / 4 % 4, taken(s2, n))
    &&& c.stream@ == transformed(dropped(s2, n), b0 / 16 % 4)
}

/// Reads the settings of a test.
pub fn gen_case(data: &[u8]) -> (r: IdentCase)
    ensures
        case_holds(data@, r),
{
    let mut cur = Cursor::new(data);
    let b0: u8 = cur.u8();
    let limits = gen_limits(b0 % 4, &mut cur);
    let n: usize = (cur.u8() % 16) as usize;
    let mode = ChunkMode::from_selector(b0 / 4 % 4, cur.take(n));
    let stream = transform_terminators(cur.rest(), b0 / 16 % 4);
    IdentCase { limits, mode, stream }
}

} // verus!
