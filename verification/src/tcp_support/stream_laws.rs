//! What the generated streams are to the readers: the line reader finds the
//! lines and the identification that the description names.

use vstd::prelude::*;
use vstd::utf8::is_ascii_chars;
use crate::seqs::{bit, lemma_first_at};
use crate::tcp_support::ident_ref::{
    content_of, line_end, opening, run_from, run_of, support_of, RefIdent, RefOutcome, RefReader, RefStep,
};
use crate::tcp_support::stream_gen::{
    comment_for, ident_for, ident_gen, lines_wire, prelude_for, prelude_gen, prelude_line_gen, prelude_stop, proto_for,
    frames_wire, software_for, stream_of, terminator_for, token_for, Role, StreamView,
};
use crate::tcp_support::types::{
    IdentError, IdentLimits, LineTerminator, OwnedIdentification,
};
use crate::tcp_support::{byte_at, dropped, filled, taken};
use crate::text::{ascii_text, bytes_of, lemma_ascii_len};
use crate::wire_core::ident_ref::{forbidden_byte, has_forbidden, ssh_prefix, token_byte, version_token};

verus! {

/// A read identification in owned form.
pub open spec fn owned_ident(i: RefIdent<Seq<u8>>) -> OwnedIdentification<Seq<u8>, Seq<char>> {
    OwnedIdentification {
        line: i.line,
        terminator: i.terminator,
        protocol_version: ascii_text(i.protocol_version),
        software_version: ascii_text(i.software_version),
        comments: i.comments,
        support: i.support,
    }
}

/// What reading a content gives is what is expected of it.
pub open spec fn content_agrees(
    read: Result<RefIdent<Seq<u8>>, IdentError>,
    expect: Result<OwnedIdentification<Seq<u8>, Seq<char>>, IdentError>,
) -> bool {
    match (read, expect) {
        (Ok(i), Ok(o)) => owned_ident(i) == o,
        (Err(a), Err(b)) => a == b,
        _ => false,
    }
}

/// A line without LF that does not end with CR: its terminator is unambiguous.
pub open spec fn plain_line(line: Seq<u8>) -> bool {
    &&& forall|i: int| 0 <= i < line.len() ==> #[trigger] line[i] != 10u8
    &&& line.len() > 0 ==> line.last() != 13u8
}

/// A plain line behind its terminator is found as it is.
pub proof fn lemma_plain_line(line: Seq<u8>, t: LineTerminator, rest: Seq<u8>)
    requires
        plain_line(line),
    ensures
        line_end(line + t.bytes() + rest) == Some((line.len() as int, t)),
        (line + t.bytes() + rest).take(line.len() as int) == line,
{
    let buf = line + t.bytes() + rest;
    let n = line.len() as int;
    assert(buf.take(n) =~= line);
    assert forall|j: int| 0 <= j < n implies buf[j] != 10u8 by {
        assert(buf[j] == line[j]);
    }
    match t {
        LineTerminator::CrLf => {
            assert(buf[n] == 13u8 && buf[n + 1] == 10u8);
            lemma_first_at(buf, 10u8, 0, n + 1);
        },
        LineTerminator::Lf => {
            assert(buf[n] == 10u8);
            lemma_first_at(buf, 10u8, 0, n);
            if n >= 1 {
                assert(buf[n - 1] == line.last());
            }
        },
    }
}

proof fn lemma_proto(flags: u8)
    ensures
        bytes_of(proto_for(flags)) == (if bit(flags, 8) {
            seq![49u8, 46u8, 53u8]
        } else if bit(flags, 2) {
            seq![49u8, 46u8, 57u8, 57u8]
        } else {
            seq![50u8, 46u8, 48u8]
        }),
        ascii_text(bytes_of(proto_for(flags))) == proto_for(flags)@,
        version_token(bytes_of(proto_for(flags))),
{
    reveal_strlit("1.5");
    reveal_strlit("1.99");
    reveal_strlit("2.0");
    let p = proto_for(flags);
    assert(is_ascii_chars(p@));
    lemma_ascii_len(p);
    let b = bytes_of(p);
    if bit(flags, 8) {
        assert(b =~= seq![49u8, 46u8, 53u8]);
    } else if bit(flags, 2) {
        assert(b =~= seq![49u8, 46u8, 57u8, 57u8]);
    } else {
        assert(b =~= seq![50u8, 46u8, 48u8]);
    }
    assert(ascii_text(b) =~= p@);
}

proof fn lemma_broken_prefixes()
    ensures
        bytes_of("SSH-2.0") == seq![83u8, 83u8, 72u8, 45u8, 50u8, 46u8, 48u8],
        bytes_of("SSH--") == seq![83u8, 83u8, 72u8, 45u8, 45u8],
        bytes_of("SSH-2.0- ") == seq![83u8, 83u8, 72u8, 45u8, 50u8, 46u8, 48u8, 45u8, 32u8],
        bytes_of("SSH-2.0-") == seq![83u8, 83u8, 72u8, 45u8, 50u8, 46u8, 48u8, 45u8],
{
    reveal_strlit("SSH-2.0");
    reveal_strlit("SSH--");
    reveal_strlit("SSH-2.0- ");
    reveal_strlit("SSH-2.0-");
    lemma_ascii_len("SSH-2.0");
    lemma_ascii_len("SSH--");
    lemma_ascii_len("SSH-2.0- ");
    lemma_ascii_len("SSH-2.0-");
    assert(bytes_of("SSH-2.0") =~= seq![83u8, 83u8, 72u8, 45u8, 50u8, 46u8, 48u8]);
    assert(bytes_of("SSH--") =~= seq![83u8, 83u8, 72u8, 45u8, 45u8]);
    assert(bytes_of("SSH-2.0- ") =~= seq![83u8, 83u8, 72u8, 45u8, 50u8, 46u8, 48u8, 45u8, 32u8]);
    assert(bytes_of("SSH-2.0-") =~= seq![83u8, 83u8, 72u8, 45u8, 50u8, 46u8, 48u8, 45u8]);
}

/// A content of well-formed parts reads back as its parts.
proof fn lemma_parts_read(proto: Seq<u8>, sw: Seq<u8>, comments: Option<Seq<u8>>, t: LineTerminator)
    requires
        version_token(proto),
        version_token(sw),
        comments matches Some(c) ==> !has_forbidden(c),
    ensures
        ({
            let fixed = ssh_prefix() + proto + seq![45u8] + sw;
            let line = match comments {
                Some(c) => fixed + seq![32u8] + c,
                None => fixed,
            };
            &&& !has_forbidden(line)
            &&& line.take(4) == ssh_prefix()
            &&& content_of(line, t) == match support_of(proto) {
                None => Err::<RefIdent<Seq<u8>>, IdentError>(IdentError::UnsupportedVersion),
                Some(support) => Ok(
                    RefIdent { line, terminator: t, protocol_version: proto, software_version: sw, comments, support },
                ),
            }
        }),
{
    let fixed = ssh_prefix() + proto + seq![45u8] + sw;
    let line = match comments {
        Some(c) => fixed + seq![32u8] + c,
        None => fixed,
    };
    assert(line.take(4) =~= ssh_prefix());
    let rest = line.skip(4);
    let p = proto.len() as int;
    assert forall|j: int| 0 <= j < p implies rest[j] != 45u8 by {
        assert(rest[j] == proto[j]);
        assert(token_byte(proto[j]));
    }
    assert(rest[p] == 45u8);
    lemma_first_at(rest, 45u8, 0, p);
    assert(rest.take(p) =~= proto);
    let after = rest.skip(p + 1);
    let n = sw.len() as int;
    assert forall|j: int| 0 <= j < n implies after[j] != 32u8 by {
        assert(after[j] == sw[j]);
        assert(token_byte(sw[j]));
    }
    if comments is Some {
        assert(after[n] == 32u8);
    }
    lemma_first_at(after, 32u8, 0, n);
    assert(after.take(n) =~= sw);
    match comments {
        Some(c) => {
            assert(after.skip(n + 1) =~= c);
        },
        None => {},
    }
    assert forall|j: int| 0 <= j < line.len() implies !forbidden_byte(#[trigger] line[j]) by {
        if j < 4 {
        } else if j < 4 + p {
            assert(line[j] == proto[j - 4]);
        } else if j == 4 + p {
        } else if j < 5 + p + n {
            assert(line[j] == sw[j - 5 - p]);
        } else if j == 5 + p + n {
        } else {
            assert(line[j] == comments->0[j - 6 - p - n]);
        }
    }
}

/// A generated identification is a plain line that opens an identification,
/// and the reader finds in it what is expected of it.
pub proof fn lemma_ident_reads(flags: u8, sw: Seq<u8>, comments: Seq<u8>)
    requires
        version_token(sw),
        !has_forbidden(comments),
    ensures
        ({
            let g = ident_for(flags, sw, comments);
            &&& plain_line(g.content)
            &&& g.content.len() >= 4
            &&& g.content.take(4) == ssh_prefix()
            &&& g.terminator == terminator_for(flags)
            &&& content_agrees(content_of(g.content, g.terminator), g.expect)
        }),
{
    let g = ident_for(flags, sw, comments);
    let t = g.terminator;
    lemma_proto(flags);
    lemma_broken_prefixes();
    assert forall|j: int| 0 <= j < sw.len() implies 0x21 <= #[trigger] sw[j] <= 0x7e && sw[j] != 45u8 by {
        assert(token_byte(sw[j]));
    }
    assert forall|j: int| 0 <= j < comments.len() implies !forbidden_byte(#[trigger] comments[j]) by {}
    assert(g.content.take(4) =~= ssh_prefix());
    let rest = g.content.skip(4);
    if bit(flags, 16) {
        let kind = flags / 32 % 4;
        if kind == 3 {
            let n = g.content.len();
            assert(g.content[n - 2] == 13u8);
            assert(forbidden_byte(g.content[n - 2]));
        } else {
            assert(!has_forbidden(g.content));
            if kind == 0 {
                lemma_first_at(rest, 45u8, 0, rest.len() as int);
            } else if kind == 1 {
                assert(rest[0] == 45u8);
                lemma_first_at(rest, 45u8, 0, 0);
                assert(rest.take(0).len() == 0);
            } else {
                assert(rest[3] == 45u8);
                lemma_first_at(rest, 45u8, 0, 3);
                assert(rest.take(3) =~= seq![50u8, 46u8, 48u8]);
                let after = rest.skip(4);
                assert(after[0] == 32u8);
                lemma_first_at(after, 32u8, 0, 0);
                assert(after.take(0).len() == 0);
            }
        }
    } else {
        let proto = bytes_of(proto_for(flags));
        let given = if bit(flags, 4) {
            Some(comments)
        } else {
            None
        };
        lemma_parts_read(proto, sw, given, t);
    }
    assert(plain_line(g.content));
}

/// The drawn parts of an identification are well-formed.
proof fn lemma_drawn_ident(s: Seq<u8>)
    ensures
        ({
            let g = ident_gen(s).0;
            &&& plain_line(g.content)
            &&& 4 <= g.content.len() <= 400
            &&& g.content.take(4) == ssh_prefix()
            &&& content_agrees(content_of(g.content, g.terminator), g.expect)
        }),
{
    let flags = byte_at(s, 0);
    let s1 = dropped(s, 1);
    let sw_len = byte_at(s1, 0) % 65;
    let s2 = dropped(s1, 1);
    let raw = taken(s2, sw_len as int);
    let sw = software_for(raw);
    let s3 = dropped(s2, sw_len as int);
    let c_len = byte_at(s3, 0) % 201;
    let given = taken(dropped(s3, 1), c_len as int);
    let comments = given.map_values(|b: u8| comment_for(b));
    assert forall|j: int| 0 <= j < sw.len() implies token_byte(#[trigger] sw[j]) by {
        if raw.len() > 0 {
            assert(sw[j] == token_for(raw[j]));
        }
    }
    assert(!has_forbidden(comments)) by {
        assert forall|j: int| 0 <= j < comments.len() implies !forbidden_byte(#[trigger] comments[j]) by {
            assert(comments[j] == comment_for(given[j]));
        }
    }
    lemma_ident_reads(flags, sw, comments);
    lemma_proto(flags);
    lemma_broken_prefixes();
}

/// A prelude line from raw bytes is plain and opens no identification.
proof fn lemma_drawn_line(raw: Seq<u8>)
    ensures
        plain_line(prelude_for(raw)),
        prelude_for(raw).len() == raw.len(),
        !ssh_prefix().is_prefix_of(prelude_for(raw)),
{
    let a = raw.map_values(|b: u8| if b == 10u8 { 46u8 } else { b });
    let b = if ssh_prefix().is_prefix_of(a) {
        a.update(0, 35u8)
    } else {
        a
    };
    let line = prelude_for(raw);
    assert forall|j: int| 0 <= j < line.len() implies #[trigger] line[j] != 10u8 by {
        assert(a[j] == (if raw[j] == 10u8 { 46u8 } else { raw[j] }));
    }
    if ssh_prefix().is_prefix_of(line) {
        assert(line.take(4) =~= ssh_prefix());
        assert(line[0] == 83u8 && line[1] == 83u8 && line[2] == 72u8 && line[3] == 45u8) by {
            assert(line.subrange(0, 4)[0] == ssh_prefix()[0]);
            assert(line.subrange(0, 4)[1] == ssh_prefix()[1]);
            assert(line.subrange(0, 4)[2] == ssh_prefix()[2]);
            assert(line.subrange(0, 4)[3] == ssh_prefix()[3]);
        }
        if ssh_prefix().is_prefix_of(a) {
            assert(b[0] == 35u8);
        } else {
            assert(a.subrange(0, 4) =~= ssh_prefix());
        }
    }
}

/// The lines can stand ahead of an identification.
pub open spec fn prelude_ok(lines: Seq<(Seq<u8>, LineTerminator)>) -> bool {
    forall|i: int| 0 <= i < lines.len() ==> plain_line((#[trigger] lines[i]).0) && !ssh_prefix().is_prefix_of(lines[i].0)
}

proof fn lemma_drawn_prelude(s: Seq<u8>, n: int)
    ensures
        prelude_ok(prelude_gen(s, n).0),
    decreases n,
{
    if n > 0 {
        lemma_drawn_prelude(s, n - 1);
        let (lines, s1) = prelude_gen(s, n - 1);
        let (line, s2) = prelude_line_gen(s1);
        let flags = byte_at(s1, 0);
        let len = byte_at(dropped(s1, 1), 0) as int;
        let s3 = dropped(dropped(s1, 1), 1);
        if bit(flags, 2) {
            lemma_drawn_line(filled(1024 + len, 5));
        } else {
            lemma_drawn_line(taken(s3, len));
        }
    }
}

/// A line that opens no identification opens none with its terminator.
proof fn lemma_no_opening(line: Seq<u8>, t: LineTerminator, rest: Seq<u8>)
    requires
        plain_line(line),
        !ssh_prefix().is_prefix_of(line),
    ensures
        opening(line + t.bytes() + rest) != Some(true),
{
    let buf = line + t.bytes() + rest;
    if opening(buf) == Some(true) {
        assert(buf.take(4) == ssh_prefix());
        assert(buf.take(4)[0] == 83u8 && buf.take(4)[1] == 83u8 && buf.take(4)[2] == 72u8 && buf.take(4)[3] == 45u8);
        if line.len() >= 4 {
            assert(line.subrange(0, 4) =~= ssh_prefix());
        } else {
            assert(buf[line.len() as int] == t.bytes()[0]);
        }
    }
}

/// The bytes of the lines from the `i`-th on.
pub open spec fn lines_from(lines: Seq<(Seq<u8>, LineTerminator)>, i: int) -> Seq<u8>
    decreases lines.len() - i,
{
    if i >= lines.len() {
        Seq::empty()
    } else {
        lines[i].0 + lines[i].1.bytes() + lines_from(lines, i + 1)
    }
}

proof fn lemma_lines_from(lines: Seq<(Seq<u8>, LineTerminator)>, i: int)
    requires
        0 <= i <= lines.len(),
    ensures
        lines_wire(lines.take(i)) + lines_from(lines, i) == lines_wire(lines),
    decreases lines.len() - i,
{
    if i < lines.len() {
        lemma_lines_from(lines, i + 1);
        let up = lines.take(i + 1);
        assert(up.drop_last() =~= lines.take(i));
        assert(up.last() == lines[i]);
        assert(lines_wire(lines.take(i)) + (lines[i].0 + lines[i].1.bytes() + lines_from(lines, i + 1)) =~= lines_wire(
            up,
        ) + lines_from(lines, i + 1));
    } else {
        assert(lines.take(i) =~= lines);
        assert(lines_wire(lines) + Seq::empty() =~= lines_wire(lines));
    }
}

/// What ends the reading of the lines of a described stream, where `stop` ends
/// the prelude: nothing where the identification is accepted.
pub open spec fn reading_end(g: StreamView, lim: IdentLimits, stop: Option<IdentError>) -> Option<IdentError> {
    match stop {
        Some(e) => Some(e),
        None => if g.ident.content.len() + g.ident.terminator.bytes().len() > lim.max_identification_line {
            Some(IdentError::IdentificationTooLong)
        } else {
            match g.ident.expect {
                Ok(_) => None,
                Err(e) => Some(e),
            }
        },
    }
}

/// What the reader has to find in the lines of a described stream: the lines
/// that the limits accept, and what ends the reading.
pub open spec fn described(g: StreamView, lim: IdentLimits) -> (Seq<(Seq<u8>, LineTerminator)>, Option<IdentError>) {
    let (n, stop) = prelude_stop(g.prelude, lim, 0, 0);
    (g.prelude.take(n), reading_end(g, lim, stop))
}

/// The reader's outcome is the described one: the error, or the expected
/// identification right behind the lines.
pub open spec fn outcome_agrees(outcome: RefOutcome<Seq<u8>>, stop: Option<IdentError>, g: StreamView) -> bool {
    match stop {
        Some(e) => outcome == RefOutcome::<Seq<u8>>::Error(e),
        None => {
            &&& outcome matches RefOutcome::Identification { ident, consumed_total }
            &&& g.ident.expect == Ok::<OwnedIdentification<Seq<u8>, Seq<char>>, IdentError>(owned_ident(ident))
            &&& consumed_total == lines_wire(g.prelude).len() + g.ident.content.len() + g.ident.terminator.bytes().len()
        },
    }
}

/// The reader on a prelude line: it is taken where the limits accept it.
proof fn lemma_line_fed(reader: RefReader, line: Seq<u8>, t: LineTerminator, rest: Seq<u8>)
    requires
        plain_line(line),
        !ssh_prefix().is_prefix_of(line),
        (line + t.bytes() + rest).len() <= usize::MAX,
    ensures
        ({
            let consumed = line.len() + t.bytes().len();
            let l = reader.limits;
            reader.feed_result(line + t.bytes() + rest) == if consumed > l.max_prelude_line {
                Err::<RefStep<Seq<u8>>, IdentError>(IdentError::PreludeLineTooLong)
            } else if reader.lines >= l.max_prelude_lines {
                Err(IdentError::TooManyPreludeLines)
            } else if reader.bytes + consumed > l.max_prelude_bytes {
                Err(IdentError::PreludeBytesExceeded)
            } else {
                Ok(RefStep::Prelude { line, terminator: t, consumed: consumed as usize })
            }
        }),
{
    lemma_plain_line(line, t, rest);
    lemma_no_opening(line, t, rest);
}

/// The reader on an identification line.
proof fn lemma_ident_fed(reader: RefReader, line: Seq<u8>, t: LineTerminator, rest: Seq<u8>)
    requires
        plain_line(line),
        line.len() >= 4,
        line.take(4) == ssh_prefix(),
    ensures
        ({
            let consumed = line.len() + t.bytes().len();
            reader.feed_result(line + t.bytes() + rest) == if consumed > reader.limits.max_identification_line {
                Err::<RefStep<Seq<u8>>, IdentError>(IdentError::IdentificationTooLong)
            } else {
                match content_of(line, t) {
                    Ok(ident) => Ok(RefStep::Identification { ident, consumed: consumed as usize }),
                    Err(e) => Err(e),
                }
            }
        }),
{
    lemma_plain_line(line, t, rest);
    assert((line + t.bytes() + rest).take(4) =~= line.take(4));
}

/// The parts of a stream that its identification phase is read from.
pub open spec fn readable(g: StreamView, tail: Seq<u8>) -> bool {
    &&& prelude_ok(g.prelude)
    &&& plain_line(g.ident.content)
    &&& g.ident.content.len() >= 4
    &&& g.ident.content.take(4) == ssh_prefix()
    &&& content_agrees(content_of(g.ident.content, g.ident.terminator), g.ident.expect)
    &&& lines_wire(g.prelude).len() + g.ident.content.len() + 2 + tail.len() <= usize::MAX
}

/// The bytes of a stream, with everything behind the identification in one.
pub open spec fn lined(g: StreamView, tail: Seq<u8>) -> Seq<u8> {
    lines_wire(g.prelude) + g.ident.content + g.ident.terminator.bytes() + tail
}

proof fn lemma_rest_at(g: StreamView, tail: Seq<u8>, i: int)
    requires
        0 <= i <= g.prelude.len(),
    ensures
        lines_wire(g.prelude.take(i)).len() <= lines_wire(g.prelude).len(),
        lined(g, tail).skip(lines_wire(g.prelude.take(i)).len() as int) == lines_from(g.prelude, i) + g.ident.content
            + g.ident.terminator.bytes() + tail,
{
    lemma_lines_from(g.prelude, i);
    let k = lines_wire(g.prelude.take(i)).len() as int;
    assert(lined(g, tail).skip(k) =~= lines_from(g.prelude, i) + g.ident.content + g.ident.terminator.bytes() + tail);
}

/// A run of the line reader from an offset on.
#[verifier::opaque]
pub open spec fn reading(stream: Seq<u8>, off: int, reader: RefReader) -> (
    Seq<(Seq<u8>, LineTerminator)>,
    RefOutcome<Seq<u8>>,
) {
    run_from(stream, off, reader)
}

/// The identification line of a run.
proof fn lemma_run_ident(stream: Seq<u8>, off: int, reader: RefReader, line: Seq<u8>, t: LineTerminator, rest: Seq<u8>)
    requires
        plain_line(line),
        line.len() >= 4,
        line.take(4) == ssh_prefix(),
        0 <= off <= stream.len() <= usize::MAX,
        stream.skip(off) == line + t.bytes() + rest,
    ensures
        ({
            let consumed = line.len() + t.bytes().len();
            reading(stream, off, reader) == (
                Seq::<(Seq<u8>, LineTerminator)>::empty(),
                if consumed > reader.limits.max_identification_line {
                    RefOutcome::Error(IdentError::IdentificationTooLong)
                } else {
                    match content_of(line, t) {
                        Ok(ident) => RefOutcome::Identification { ident, consumed_total: (off + consumed) as usize },
                        Err(e) => RefOutcome::Error(e),
                    }
                },
            )
        }),
{
    reveal(reading);
    assert(stream.skip(off).len() == stream.len() - off);
    lemma_ident_fed(reader, line, t, rest);
}

proof fn lemma_reading_last(g: StreamView, tail: Seq<u8>, lim: IdentLimits, reader: RefReader)
    requires
        readable(g, tail),
        reader.limits == lim,
    ensures
        ({
            let (lines, outcome) = reading(lined(g, tail), lines_wire(g.prelude).len() as int, reader);
            &&& lines.len() == 0
            &&& outcome_agrees(outcome, reading_end(g, lim, None), g)
        }),
{
    let t = g.ident.terminator;
    let off = lines_wire(g.prelude).len() as int;
    let stream = lined(g, tail);
    assert(stream.skip(off) =~= g.ident.content + t.bytes() + tail);
    lemma_run_ident(stream, off, reader, g.ident.content, t, tail);
}

/// One prelude line of a run.
proof fn lemma_run_line(stream: Seq<u8>, off: int, reader: RefReader, line: Seq<u8>, t: LineTerminator, rest: Seq<u8>)
    requires
        plain_line(line),
        !ssh_prefix().is_prefix_of(line),
        0 <= off <= stream.len() <= usize::MAX,
        stream.skip(off) == line + t.bytes() + rest,
        reader.wf(),
    ensures
        ({
            let consumed = line.len() + t.bytes().len();
            let l = reader.limits;
            reading(stream, off, reader) == if consumed > l.max_prelude_line {
                (Seq::<(Seq<u8>, LineTerminator)>::empty(), RefOutcome::Error(IdentError::PreludeLineTooLong))
            } else if reader.lines >= l.max_prelude_lines {
                (Seq::empty(), RefOutcome::Error(IdentError::TooManyPreludeLines))
            } else if reader.bytes + consumed > l.max_prelude_bytes {
                (Seq::empty(), RefOutcome::Error(IdentError::PreludeBytesExceeded))
            } else {
                let next = RefReader {
                    limits: l,
                    lines: (reader.lines + 1) as usize,
                    bytes: (reader.bytes + consumed) as usize,
                };
                let (lines, outcome) = reading(stream, off + consumed, next);
                (seq![(line, t)] + lines, outcome)
            }
        }),
{
    reveal(reading);
    assert(stream.skip(off).len() == stream.len() - off);
    lemma_line_fed(reader, line, t, rest);
}

proof fn lemma_reading_from(g: StreamView, tail: Seq<u8>, lim: IdentLimits, i: int, used: int)
    requires
        readable(g, tail),
        0 <= i <= g.prelude.len(),
        i <= lim.max_prelude_lines,
        used == lines_wire(g.prelude.take(i)).len(),
        used <= lim.max_prelude_bytes,
    ensures
        ({
            let (n, stop) = prelude_stop(g.prelude, lim, i, used);
            let (lines, outcome) = reading(
                lined(g, tail),
                used,
                RefReader { limits: lim, lines: i as usize, bytes: used as usize },
            );
            &&& i <= n <= g.prelude.len()
            &&& lines == g.prelude.subrange(i, n)
            &&& outcome_agrees(outcome, reading_end(g, lim, stop), g)
        }),
    decreases g.prelude.len() - i,
{
    let reader = RefReader { limits: lim, lines: i as usize, bytes: used as usize };
    if i < g.prelude.len() {
        let (line, t) = g.prelude[i];
        let rest = lines_from(g.prelude, i + 1) + g.ident.content + g.ident.terminator.bytes() + tail;
        let consumed = line.len() + t.bytes().len();
        assert(lined(g, tail).skip(used) == line + t.bytes() + rest) by {
            lemma_rest_at(g, tail, i);
            assert(lines_from(g.prelude, i) + g.ident.content + g.ident.terminator.bytes() + tail =~= line + t.bytes()
                + rest);
        }
        assert(lines_wire(g.prelude.take(i + 1)).len() == used + consumed) by {
            assert(g.prelude.take(i + 1).drop_last() =~= g.prelude.take(i));
        }
        assert(used <= lined(g, tail).len() <= usize::MAX) by {
            lemma_rest_at(g, tail, i);
        }
        lemma_run_line(lined(g, tail), used, reader, line, t, rest);
        assert(g.prelude.subrange(i, i) =~= Seq::empty());
        if consumed <= lim.max_prelude_line && i < lim.max_prelude_lines && used + consumed <= lim.max_prelude_bytes {
            lemma_reading_from(g, tail, lim, i + 1, used + consumed);
            let (n, stop) = prelude_stop(g.prelude, lim, i + 1, used + consumed);
            assert(seq![(line, t)] + g.prelude.subrange(i + 1, n) =~= g.prelude.subrange(i, n));
        }
    } else {
        assert(g.prelude.take(i) =~= g.prelude);
        lemma_reading_last(g, tail, lim, reader);
        assert(g.prelude.subrange(i, i) =~= Seq::empty());
    }
}

/// The line reader over an unchanged generated stream: it finds the prelude
/// lines that the limits accept, and then the expected identification or
/// exactly the error that the description leads to. A client's junk ahead of
/// the identification is no line and is left out.
pub proof fn lemma_stream_identifies(s: Seq<u8>, role: Role, cap: u32, lim: IdentLimits)
    requires
        !stream_of(s, role, cap).0.mutated,
        stream_of(s, role, cap).0.junk_first.len() == 0,
        stream_of(s, role, cap).0.bytes.len() + 2 <= usize::MAX,
    ensures
        ({
            let g = stream_of(s, role, cap).0;
            let (lines, outcome) = run_of(g.bytes, lim);
            let (want, stop) = described(g, lim);
            lines == want && outcome_agrees(outcome, stop, g)
        }),
{
    reveal(reading);
    let g = stream_of(s, role, cap).0;
    let s1 = dropped(s, 1);
    let s2 = match role {
        Role::Server => {
            lemma_drawn_prelude(s1, (byte_at(s, 0) % 9) as int);
            prelude_gen(s1, (byte_at(s, 0) % 9) as int).1
        },
        Role::Client => dropped(s1, (byte_at(s, 0) % 33) as int),
    };
    lemma_drawn_ident(s2);
    let tail = frames_wire(g.msgs) + g.trailing;
    assert(g.bytes =~= lined(g, tail));
    assert(g.prelude.take(0).len() == 0);
    assert(lines_wire(g.prelude.take(0)).len() == 0);
    lemma_reading_from(g, tail, lim, 0, 0);
    let (n, stop) = prelude_stop(g.prelude, lim, 0, 0);
    assert(g.prelude.subrange(0, n) =~= g.prelude.take(n));
}

} // verus!
