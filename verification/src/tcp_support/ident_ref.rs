//! The identification exchange over TCP: line splitting, the prelude
//! budgets, the length rule counted with the observed terminator, the content
//! grammar and the version policy.

use vstd::prelude::*;
use vstd::slice::slice_subrange;
use crate::seqs::{find_byte, first_at, lemma_first_at, lemma_first_at_range, opt_slice, same_bytes, tail};
use crate::tcp_support::types::{
    IdentError, IdentLimits, InvalidIdentification, LineTerminator, VersionSupport,
};
use crate::wire_core::ident_ref::{
    contains_forbidden, forbidden_byte, has_forbidden, ssh_prefix, token_byte, version_token,
};

verus! {

/// Length of the prefix of an identification line.
pub const PREFIX_LEN: usize = 4;

/// The longest identification line this side may send, with its terminator.
pub const MAX_LOCAL_LINE: usize = 255;

/// Fields of a valid identification.
#[derive(Clone, Copy, Debug, PartialEq, Eq)]
pub struct RefIdent<B> {
    pub line: B,
    pub terminator: LineTerminator,
    pub protocol_version: B,
    pub software_version: B,
    pub comments: Option<B>,
    pub support: VersionSupport,
}

impl<'a> View for RefIdent<&'a [u8]> {
    type V = RefIdent<Seq<u8>>;

    open spec fn view(&self) -> RefIdent<Seq<u8>> {
        RefIdent {
            line: self.line@,
            terminator: self.terminator,
            protocol_version: self.protocol_version@,
            software_version: self.software_version@,
            comments: opt_slice(self.comments),
            support: self.support,
        }
    }
}

/// One step of the line reader.
#[derive(Clone, Copy, Debug, PartialEq, Eq)]
#[allow(inconsistent_fields)]
pub enum RefStep<B> {
    NeedMore,
    Prelude { line: B, terminator: LineTerminator, consumed: usize },
    Identification { ident: RefIdent<B>, consumed: usize },
}

impl<'a> View for RefStep<&'a [u8]> {
    type V = RefStep<Seq<u8>>;

    open spec fn view(&self) -> RefStep<Seq<u8>> {
        match self {
            RefStep::NeedMore => RefStep::NeedMore,
            RefStep::Prelude { line, terminator, consumed } => RefStep::Prelude {
                line: line@,
                terminator: *terminator,
                consumed: *consumed,
            },
            RefStep::Identification { ident, consumed } => RefStep::Identification {
                ident: ident@,
                consumed: *consumed,
            },
        }
    }
}

/// Printable US-ASCII, no whitespace, no `-`.
pub fn is_token_byte(b: u8) -> (r: bool)
    ensures
        r == token_byte(b),
{
    0x21 <= b && b <= 0x7e && b != 45u8
}

/// Non-empty run of token bytes.
pub fn is_token(t: &[u8]) -> (r: bool)
    ensures
        r == version_token(t@),
{
    let mut i: usize = 0;
    while i < t.len()
        invariant
            i <= t@.len(),
            forall|j: int| 0 <= j < i ==> token_byte(#[trigger] t@[j]),
        decreases t@.len() - i,
    {
        if !is_token_byte(t[i]) {
            return false;
        }
        i = i + 1;
    }
    t.len() > 0
}

/// Bytes that may not appear anywhere in identification content.
pub fn is_forbidden(b: u8) -> (r: bool)
    ensures
        r == forbidden_byte(b),
{
    b == 13u8 || b == 10u8 || b == 0u8
}

/// `SSH-2.0-<sw>` with CR LF is buildable iff `sw` is a token and the whole
/// line fits in 255 bytes.
pub fn local_software_version_ok(sw: &[u8]) -> (r: bool)
    ensures
        r == (version_token(sw@) && PREFIX_LEN + 3 + 1 + sw@.len() + 2 <= MAX_LOCAL_LINE),
{
    is_token(sw) && sw.len() <= MAX_LOCAL_LINE - PREFIX_LEN - 6
}

/// The first line of `buf`: the length of its content and how it ended.
pub open spec fn line_end(buf: Seq<u8>) -> Option<(int, LineTerminator)> {
    let lf = first_at(buf, 10u8, 0);
    if lf >= buf.len() {
        None
    } else if lf >= 1 && buf[lf - 1] == 13u8 {
        Some((lf - 1, LineTerminator::CrLf))
    } else {
        Some((lf, LineTerminator::Lf))
    }
}

/// The length of the content of the first line of `buf`.
pub open spec fn content_len(buf: Seq<u8>) -> int {
    match line_end(buf) {
        Some((n, _)) => n,
        None => 0,
    }
}

/// First line terminator: `(content_len, terminator)`. A LF preceded by CR is
/// CR LF; any other LF is a bare LF.
pub fn split_line(buf: &[u8]) -> (r: Option<(usize, LineTerminator)>)
    ensures
        match line_end(buf@) {
            None => r is None,
            Some((n, t)) => r matches Some(v) && v.0 == n && v.1 == t && n + t.bytes().len() <= buf@.len(),
        },
{
    let lf: usize = find_byte(buf, 10u8);
    if lf >= buf.len() {
        None
    } else if lf >= 1 && buf[lf - 1] == 13u8 {
        Some((lf - 1, LineTerminator::CrLf))
    } else {
        Some((lf, LineTerminator::Lf))
    }
}

/// Whether `buf` opens an identification; `None` while that is open.
pub open spec fn opening(buf: Seq<u8>) -> Option<bool> {
    if buf.len() >= PREFIX_LEN {
        Some(buf.take(PREFIX_LEN as int) == ssh_prefix())
    } else if buf == ssh_prefix().take(buf.len() as int) {
        None
    } else {
        Some(false)
    }
}

/// `Some(true)` if `buf` starts with `SSH-`, `Some(false)` if it cannot,
/// `None` if it is a proper prefix of `SSH-` (undecided).
pub fn starts_ident(buf: &[u8]) -> (r: Option<bool>)
    ensures
        r == opening(buf@),
{
    let prefix: [u8; 4] = [83, 83, 72, 45];
    proof {
        assert(prefix@ =~= ssh_prefix());
    }
    if buf.len() >= PREFIX_LEN {
        let h = slice_subrange(buf, 0, PREFIX_LEN);
        proof {
            assert(h@ =~= buf@.take(PREFIX_LEN as int));
        }
        Some(same_bytes(h, prefix.as_slice()))
    } else {
        let h = slice_subrange(prefix.as_slice(), 0, buf.len());
        proof {
            assert(h@ =~= ssh_prefix().take(buf@.len() as int));
        }
        if same_bytes(buf, h) {
            None
        } else {
            Some(false)
        }
    }
}

/// The versions this side speaks.
pub open spec fn support_of(version: Seq<u8>) -> Option<VersionSupport> {
    if version == seq![50u8, 46u8, 48u8] {
        Some(VersionSupport::Ssh2)
    } else if version == seq![49u8, 46u8, 57u8, 57u8] {
        Some(VersionSupport::Ssh2Compatibility)
    } else {
        None
    }
}

/// The identification that a line with the prefix carries, or the first rule
/// it breaks: control characters, the separator, the protocol version, the
/// software version, the version policy.
pub open spec fn content_of(line: Seq<u8>, terminator: LineTerminator) -> Result<
    RefIdent<Seq<u8>>,
    IdentError,
> {
    let rest = line.skip(PREFIX_LEN as int);
    let dash = first_at(rest, 45u8, 0);
    let protocol_version = rest.take(dash);
    let after = rest.skip(dash + 1);
    let sp = first_at(after, 32u8, 0);
    let software_version = after.take(sp);
    if has_forbidden(line) {
        Err(IdentError::InvalidIdentification(InvalidIdentification::ControlCharacter))
    } else if dash >= rest.len() {
        Err(IdentError::InvalidIdentification(InvalidIdentification::MissingSeparator))
    } else if !version_token(protocol_version) {
        Err(IdentError::InvalidIdentification(InvalidIdentification::BadProtocolVersion))
    } else if !version_token(software_version) {
        Err(IdentError::InvalidIdentification(InvalidIdentification::BadSoftwareVersion))
    } else {
        match support_of(protocol_version) {
            None => Err(IdentError::UnsupportedVersion),
            Some(support) => Ok(
                RefIdent {
                    line,
                    terminator,
                    protocol_version,
                    software_version,
                    comments: if sp < after.len() {
                        Some(after.skip(sp + 1))
                    } else {
                        None
                    },
                    support,
                },
            ),
        }
    }
}

/// Grammar `SSH-protoversion-softwareversion [SP comments]` plus the version
/// policy. `line` must start with `SSH-`.
pub fn parse_content(line: &[u8], terminator: LineTerminator) -> (r: Result<RefIdent<&[u8]>, IdentError>)
    requires
        opening(line@) == Some(true),
    ensures
        match content_of(line@, terminator) {
            Ok(v) => r matches Ok(i) && i@ == v,
            Err(e) => r matches Err(f) && f == e,
        },
{
    if contains_forbidden(line) {
        return Err(IdentError::InvalidIdentification(InvalidIdentification::ControlCharacter));
    }
    let rest = tail(line, PREFIX_LEN);
    let dash: usize = find_byte(rest, 45u8);
    if dash >= rest.len() {
        return Err(IdentError::InvalidIdentification(InvalidIdentification::MissingSeparator));
    }
    let protocol_version = crate::seqs::head(rest, dash);
    if !is_token(protocol_version) {
        return Err(IdentError::InvalidIdentification(InvalidIdentification::BadProtocolVersion));
    }
    let after = tail(rest, dash + 1);
    let sp: usize = find_byte(after, 32u8);
    let software_version = crate::seqs::head(after, sp);
    let comments = if sp < after.len() {
        Some(tail(after, sp + 1))
    } else {
        None
    };
    if !is_token(software_version) {
        return Err(IdentError::InvalidIdentification(InvalidIdentification::BadSoftwareVersion));
    }
    let v2: [u8; 3] = [50, 46, 48];
    let v199: [u8; 4] = [49, 46, 57, 57];
    proof {
        assert(v2@ =~= seq![50u8, 46u8, 48u8]);
        assert(v199@ =~= seq![49u8, 46u8, 57u8, 57u8]);
    }
    let support = if same_bytes(protocol_version, v2.as_slice()) {
        VersionSupport::Ssh2
    } else if same_bytes(protocol_version, v199.as_slice()) {
        VersionSupport::Ssh2Compatibility
    } else {
        return Err(IdentError::UnsupportedVersion);
    };
    Ok(RefIdent { line, terminator, protocol_version, software_version, comments, support })
}

/// Incremental line reader: the limits and what the prelude used of them.
#[derive(Clone, Copy, Debug, PartialEq, Eq, Structural)]
pub struct RefReader {
    pub limits: IdentLimits,
    pub lines: usize,
    pub bytes: usize,
}

impl RefReader {
    /// The prelude stayed within its budgets.
    pub open spec fn wf(self) -> bool {
        self.lines <= self.limits.max_prelude_lines && self.bytes <= self.limits.max_prelude_bytes
    }

    /// The limit on the line that `buf` opens.
    pub open spec fn line_limit(self, buf: Seq<u8>) -> usize {
        match opening(buf) {
            Some(true) => self.limits.max_identification_line,
            Some(false) => self.limits.max_prelude_line,
            None => if self.limits.max_prelude_line >= self.limits.max_identification_line {
                self.limits.max_prelude_line
            } else {
                self.limits.max_identification_line
            },
        }
    }

    /// What the next line of `buf` is.
    pub open spec fn feed_result(self, buf: Seq<u8>) -> Result<RefStep<Seq<u8>>, IdentError> {
        match line_end(buf) {
            None => if buf.len() >= self.line_limit(buf) {
                Err(
                    if opening(buf) == Some(true) {
                        IdentError::IdentificationTooLong
                    } else {
                        IdentError::PreludeLineTooLong
                    },
                )
            } else {
                Ok(RefStep::NeedMore)
            },
            Some((n, terminator)) => {
                let consumed = n + terminator.bytes().len();
                let line = buf.take(n);
                if opening(buf) == Some(true) {
                    if consumed > self.limits.max_identification_line {
                        Err(IdentError::IdentificationTooLong)
                    } else {
                        match content_of(line, terminator) {
                            Ok(ident) => Ok(RefStep::Identification { ident, consumed: consumed as usize }),
                            Err(e) => Err(e),
                        }
                    }
                } else if consumed > self.limits.max_prelude_line {
                    Err(IdentError::PreludeLineTooLong)
                } else if self.lines >= self.limits.max_prelude_lines {
                    Err(IdentError::TooManyPreludeLines)
                } else if self.bytes + consumed > self.limits.max_prelude_bytes {
                    Err(IdentError::PreludeBytesExceeded)
                } else {
                    Ok(RefStep::Prelude { line, terminator, consumed: consumed as usize })
                }
            },
        }
    }

    /// The reader after the next line of `buf`.
    pub open spec fn feed_next(self, buf: Seq<u8>) -> RefReader {
        match self.feed_result(buf) {
            Ok(RefStep::Prelude { line, terminator, consumed }) => RefReader {
                limits: self.limits,
                lines: (self.lines + 1) as usize,
                bytes: (self.bytes + consumed) as usize,
            },
            _ => self,
        }
    }

    /// A reader that has seen nothing.
    pub fn new(limits: IdentLimits) -> (r: Self)
        ensures
            r == (RefReader { limits, lines: 0, bytes: 0 }),
            r.wf(),
    {
        RefReader { limits, lines: 0, bytes: 0 }
    }

    /// Prelude lines accepted so far.
    pub fn lines(&self) -> (r: usize)
        ensures
            r == self.lines,
    {
        self.lines
    }

    /// Examines all unconsumed bytes for the next complete line.
    pub fn feed<'a>(&mut self, buf: &'a [u8]) -> (r: Result<RefStep<&'a [u8]>, IdentError>)
        requires
            old(self).wf(),
        ensures
            final(self).wf(),
            *final(self) == old(self).feed_next(buf@),
            match old(self).feed_result(buf@) {
                Ok(s) => r matches Ok(v) && v@ == s,
                Err(e) => r matches Err(f) && f == e,
            },
            r matches Ok(RefStep::Prelude { line, terminator, consumed }) ==> 1 <= consumed <= buf@.len(),
            r matches Ok(RefStep::Identification { ident, consumed }) ==> 1 <= consumed <= buf@.len(),
    {
        let kind = starts_ident(buf);
        let is_ident: bool = match kind {
            Some(b) => b,
            None => false,
        };
        match split_line(buf) {
            None => {
                let limit: usize = match kind {
                    Some(true) => self.limits.max_identification_line,
                    Some(false) => self.limits.max_prelude_line,
                    None => if self.limits.max_prelude_line >= self.limits.max_identification_line {
                        self.limits.max_prelude_line
                    } else {
                        self.limits.max_identification_line
                    },
                };
                if buf.len() >= limit {
                    return Err(
                        if is_ident {
                            IdentError::IdentificationTooLong
                        } else {
                            IdentError::PreludeLineTooLong
                        },
                    );
                }
                Ok(RefStep::NeedMore)
            },
            Some((content_len, terminator)) => {
                proof {
                    assert(buf@.len() == buf.len());
                }
                let consumed: usize = content_len + terminator.byte_len();
                let line = crate::seqs::head(buf, content_len);
                if is_ident {
                    if consumed > self.limits.max_identification_line {
                        return Err(IdentError::IdentificationTooLong);
                    }
                    proof {
                        lemma_line_keeps_opening(buf@);
                    }
                    match parse_content(line, terminator) {
                        Ok(ident) => Ok(RefStep::Identification { ident, consumed }),
                        Err(e) => Err(e),
                    }
                } else {
                    if consumed > self.limits.max_prelude_line {
                        return Err(IdentError::PreludeLineTooLong);
                    }
                    if self.lines >= self.limits.max_prelude_lines {
                        return Err(IdentError::TooManyPreludeLines);
                    }
                    if consumed > self.limits.max_prelude_bytes - self.bytes {
                        return Err(IdentError::PreludeBytesExceeded);
                    }
                    self.lines = self.lines + 1;
                    self.bytes = self.bytes + consumed;
                    Ok(RefStep::Prelude { line, terminator, consumed })
                }
            },
        }
    }
}

/// The content of a line that opens an identification opens one too.
pub proof fn lemma_line_keeps_opening(buf: Seq<u8>)
    requires
        opening(buf) == Some(true),
        line_end(buf) is Some,
    ensures
        opening(buf.take(content_len(buf))) == Some(true),
        content_len(buf) >= PREFIX_LEN,
{
    let n = content_len(buf);
    lemma_first_at_range(buf, 10u8, 0);
    let p = buf.take(4);
    assert(p[0] == 83u8 && p[1] == 83u8 && p[2] == 72u8 && p[3] == 45u8);
    assert(buf[0] == p[0] && buf[1] == p[1] && buf[2] == p[2] && buf[3] == p[3]);
    let lf = first_at(buf, 10u8, 0);
    assert(lf >= 4) by {
        if lf < 4 {
            assert(buf[lf] == 10u8);
        }
    }
    assert(n >= 4);
    assert(buf.take(n).take(4) =~= buf.take(4));
}

/// Final state of a whole-stream run.
#[derive(Clone, Copy, Debug, PartialEq, Eq)]
pub enum RefOutcome<B> {
    Identification {
        ident: RefIdent<B>,
        /// Offset just past the identification terminator.
        consumed_total: usize,
    },
    Error(IdentError),
    Incomplete,
}

impl<'a> View for RefOutcome<&'a [u8]> {
    type V = RefOutcome<Seq<u8>>;

    open spec fn view(&self) -> RefOutcome<Seq<u8>> {
        match self {
            RefOutcome::Identification { ident, consumed_total } => RefOutcome::Identification {
                ident: ident@,
                consumed_total: *consumed_total,
            },
            RefOutcome::Error(e) => RefOutcome::Error(*e),
            RefOutcome::Incomplete => RefOutcome::Incomplete,
        }
    }
}

/// A prelude line and how it ended.
pub open spec fn prelude_lines(v: Seq<(&[u8], LineTerminator)>) -> Seq<(Seq<u8>, LineTerminator)> {
    Seq::new(v.len(), |i: int| (v[i].0@, v[i].1))
}

/// The prelude lines and the outcome of reading `stream` from `off` on.
pub open spec fn run_from(stream: Seq<u8>, off: int, reader: RefReader) -> (
    Seq<(Seq<u8>, LineTerminator)>,
    RefOutcome<Seq<u8>>,
)
    decreases stream.len() - off,
{
    match reader.feed_result(stream.skip(off)) {
        Err(e) => (Seq::empty(), RefOutcome::Error(e)),
        Ok(RefStep::NeedMore) => (Seq::empty(), RefOutcome::Incomplete),
        Ok(RefStep::Identification { ident, consumed }) => (
            Seq::empty(),
            RefOutcome::Identification { ident, consumed_total: (off + consumed) as usize },
        ),
        Ok(RefStep::Prelude { line, terminator, consumed }) => if consumed < 1 || off + consumed
            > stream.len() {
            (Seq::empty(), RefOutcome::Incomplete)
        } else {
            let (lines, outcome) = run_from(stream, off + consumed, reader.feed_next(stream.skip(off)));
            (seq![(line, terminator)] + lines, outcome)
        },
    }
}

/// The prelude lines and the outcome of reading a whole stream.
pub open spec fn run_of(stream: Seq<u8>, limits: IdentLimits) -> (
    Seq<(Seq<u8>, LineTerminator)>,
    RefOutcome<Seq<u8>>,
) {
    run_from(stream, 0, RefReader { limits, lines: 0, bytes: 0 })
}

/// Runs the reader over a complete stream.
pub fn run(stream: &[u8], limits: IdentLimits) -> (r: (Vec<(&[u8], LineTerminator)>, RefOutcome<&[u8]>))
    ensures
        (prelude_lines(r.0@), r.1@) == run_of(stream@, limits),
{
    let mut reader = RefReader::new(limits);
    let mut prelude: Vec<(&[u8], LineTerminator)> = Vec::new();
    let mut off: usize = 0;
    proof {
        assert(prelude_lines(prelude@) =~= Seq::empty());
        let (l, o) = run_of(stream@, limits);
        assert(Seq::<(Seq<u8>, LineTerminator)>::empty() + l =~= l);
    }
    loop
        invariant
            off <= stream@.len(),
            reader.wf(),
            run_of(stream@, limits) == ({
                let (l, o) = run_from(stream@, off as int, reader);
                (prelude_lines(prelude@) + l, o)
            }),
        decreases stream@.len() - off,
    {
        let ghost before = reader;
        let buf = tail(stream, off);
        proof {
            assert(stream@.len() == stream.len());
        }
        match reader.feed(buf) {
            Ok(RefStep::NeedMore) => {
                proof {
                    assert(prelude_lines(prelude@) + Seq::<(Seq<u8>, LineTerminator)>::empty()
                        =~= prelude_lines(prelude@));
                }
                return (prelude, RefOutcome::Incomplete);
            },
            Ok(RefStep::Prelude { line, terminator, consumed }) => {
                let ghost sofar = prelude_lines(prelude@);
                prelude.push((line, terminator));
                proof {
                    let (l, o) = run_from(stream@, off + consumed, reader);
                    assert(prelude_lines(prelude@) =~= sofar + seq![(line@, terminator)]);
                    assert(sofar + (seq![(line@, terminator)] + l) =~= prelude_lines(prelude@) + l);
                }
                off = off + consumed;
            },
            Ok(RefStep::Identification { ident, consumed }) => {
                proof {
                    assert(prelude_lines(prelude@) + Seq::<(Seq<u8>, LineTerminator)>::empty()
                        =~= prelude_lines(prelude@));
                }
                return (prelude, RefOutcome::Identification { ident, consumed_total: off + consumed });
            },
            Err(e) => {
                proof {
                    assert(prelude_lines(prelude@) + Seq::<(Seq<u8>, LineTerminator)>::empty()
                        =~= prelude_lines(prelude@));
                }
                return (prelude, RefOutcome::Error(e));
            },
        }
    }
}

/// What the reader decides on a prefix of the stream it decides on the whole:
/// lines come out the same however the stream is cut into pieces. With fewer
/// than four bytes a line cannot be classified, so the line limits admit
/// four.
pub proof fn lemma_decision_stable(reader: RefReader, a: Seq<u8>, b: Seq<u8>)
    requires
        reader.limits.max_prelude_line >= PREFIX_LEN,
        reader.limits.max_identification_line >= PREFIX_LEN,
        reader.feed_result(a) != Ok::<RefStep<Seq<u8>>, IdentError>(RefStep::NeedMore),
        (a + b).len() <= usize::MAX,
    ensures
        reader.feed_result(a + b) == reader.feed_result(a),
        reader.feed_next(a + b) == reader.feed_next(a),
{
    let s = a + b;
    lemma_first_at_range(a, 10u8, 0);
    lemma_first_at_range(s, 10u8, 0);
    let la = first_at(a, 10u8, 0);
    let ls = first_at(s, 10u8, 0);
    if a.len() >= 4 {
        assert(s.take(4) =~= a.take(4));
    } else {
        if opening(a) == None::<bool> {
            let p = ssh_prefix().take(a.len() as int);
            assert forall|i: int| 0 <= i < a.len() implies a[i] != 10u8 by {
                assert(a[i] == p[i]);
                assert(p[i] == ssh_prefix()[i]);
            }
            assert(la == a.len());
        } else {
            assert(opening(s) == Some(false)) by {
                if s.len() >= 4 {
                    if s.take(4) == ssh_prefix() {
                        assert(a =~= ssh_prefix().take(a.len() as int)) by {
                            assert forall|i: int| 0 <= i < a.len() implies a[i] == ssh_prefix()[i] by {
                                assert(s.take(4)[i] == a[i]);
                            }
                        }
                    }
                } else if s == ssh_prefix().take(s.len() as int) {
                    assert(a =~= ssh_prefix().take(a.len() as int)) by {
                        assert forall|i: int| 0 <= i < a.len() implies a[i] == ssh_prefix()[i] by {
                            assert(s[i] == a[i]);
                        }
                    }
                }
            }
        }
    }
    if la < a.len() {
        lemma_first_at(s, 10u8, 0, la);
        let n = content_len(a);
        assert(s.take(n) =~= a.take(n));
    } else {
        assert(ls >= a.len()) by {
            if ls < a.len() {
                assert(s[ls] == a[ls]);
            }
        }
    }
}

/// The lengths of prelude lines with their terminators, added up.
pub open spec fn prelude_len(lines: Seq<(Seq<u8>, LineTerminator)>) -> int
    decreases lines.len(),
{
    if lines.len() == 0 {
        0
    } else {
        lines[0].0.len() + lines[0].1.bytes().len() + prelude_len(lines.skip(1))
    }
}

proof fn lemma_run_from_accounts(stream: Seq<u8>, off: int, reader: RefReader)
    requires
        0 <= off <= stream.len() <= usize::MAX,
        reader.wf(),
    ensures
        ({
            let (lines, outcome) = run_from(stream, off, reader);
            let used = prelude_len(lines);
            &&& reader.lines + lines.len() <= reader.limits.max_prelude_lines
            &&& reader.bytes + used <= reader.limits.max_prelude_bytes
            &&& 0 <= used <= stream.len() - off
            &&& outcome matches RefOutcome::Identification { ident, consumed_total } ==> {
                &&& consumed_total == off + used + ident.line.len() + ident.terminator.bytes().len()
                &&& consumed_total <= stream.len()
                &&& ident.line.len() + ident.terminator.bytes().len() <= reader.limits.max_identification_line
                &&& stream.subrange(off + used, consumed_total as int) == ident.line + ident.terminator.bytes()
                &&& !has_forbidden(ident.line)
                &&& opening(ident.line) == Some(true)
            }
        }),
    decreases stream.len() - off,
{
    let buf = stream.skip(off);
    lemma_first_at_range(buf, 10u8, 0);
    match reader.feed_result(buf) {
        Ok(RefStep::Identification { ident, consumed }) => {
            lemma_line_keeps_opening(buf);
            let n = content_len(buf);
            assert(buf.take(n) + ident.terminator.bytes() =~= stream.subrange(off, off + consumed));
        },
        Ok(RefStep::Prelude { line, terminator, consumed }) => {
            lemma_run_from_accounts(stream, off + consumed, reader.feed_next(buf));
            let (lines, outcome) = run_from(stream, off + consumed, reader.feed_next(buf));
            let all = seq![(line, terminator)] + lines;
            assert(all.skip(1) =~= lines);
        },
        _ => {},
    }
}

/// Every run keeps within its limits, and an identification accounts for the
/// stream: prelude, content and terminator lie one behind the other, and what
/// follows is untouched.
pub proof fn lemma_run_accounts(stream: Seq<u8>, limits: IdentLimits)
    requires
        stream.len() <= usize::MAX,
    ensures
        ({
            let (lines, outcome) = run_of(stream, limits);
            let used = prelude_len(lines);
            &&& lines.len() <= limits.max_prelude_lines
            &&& 0 <= used <= stream.len()
            &&& used <= limits.max_prelude_bytes
            &&& outcome matches RefOutcome::Identification { ident, consumed_total } ==> {
                &&& consumed_total == used + ident.line.len() + ident.terminator.bytes().len()
                &&& consumed_total <= stream.len()
                &&& ident.line.len() + ident.terminator.bytes().len() <= limits.max_identification_line
                &&& stream.subrange(used, consumed_total as int) == ident.line + ident.terminator.bytes()
                &&& !has_forbidden(ident.line)
                &&& opening(ident.line) == Some(true)
            }
        }),
{
    lemma_run_from_accounts(stream, 0, RefReader { limits, lines: 0, bytes: 0 });
}

} // verus!
