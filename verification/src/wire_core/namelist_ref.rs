//! The `name-list` grammar (RFC 4251 section 5): comma-separated, non-empty
//! names of printable US-ASCII; the list as a whole may be empty.

use vstd::prelude::*;
use vstd::slice::slice_subrange;
use crate::seqs::{push_all, slices, vecs};
use crate::wire_core::error::InvalidEncoding;

verus! {

/// Printable US-ASCII.
pub open spec fn printable(b: u8) -> bool {
    0x21 <= b <= 0x7e
}

/// A name: non-empty, printable, free of commas.
pub open spec fn valid_name(s: Seq<u8>) -> bool {
    s.len() > 0 && forall|i: int| 0 <= i < s.len() ==> printable(#[trigger] s[i]) && s[i] != 44u8
}

/// Every entry is a name.
pub open spec fn valid_names(names: Seq<Seq<u8>>) -> bool {
    forall|i: int| 0 <= i < names.len() ==> valid_name(#[trigger] names[i])
}

/// The body that lists `names`: the names with a comma between neighbours.
pub open spec fn joined(names: Seq<Seq<u8>>) -> Seq<u8>
    decreases names.len(),
{
    if names.len() == 0 {
        Seq::empty()
    } else if names.len() == 1 {
        names[0]
    } else {
        joined(names.drop_last()).push(44u8) + names.last()
    }
}

/// The position of the first comma at or after `from`, or the length.
pub open spec fn segment_end(body: Seq<u8>, from: int) -> int
    decreases body.len() - from,
{
    if from >= body.len() || body[from] == 44u8 {
        from
    } else {
        segment_end(body, from + 1)
    }
}

/// The position of the first byte in `from..to` that is not printable.
pub open spec fn first_unprintable(body: Seq<u8>, from: int, to: int) -> Option<int>
    decreases to - from,
{
    if from >= to {
        None
    } else if !printable(body[from]) {
        Some(from)
    } else {
        first_unprintable(body, from + 1, to)
    }
}

/// The names of `body` from offset `from` on, or the first fault there.
pub open spec fn names_from(body: Seq<u8>, from: int) -> Result<Seq<Seq<u8>>, InvalidEncoding>
    decreases body.len() - from,
{
    let end = segment_end(body, from);
    if end <= from || end > body.len() {
        Err(InvalidEncoding::NameListEmptyName { offset: from as usize })
    } else {
        match first_unprintable(body, from, end) {
            Some(i) => Err(InvalidEncoding::NameListNonAscii { offset: i as usize }),
            None => if end == body.len() {
                Ok(seq![body.subrange(from, end)])
            } else {
                match names_from(body, end + 1) {
                    Ok(rest) => Ok(seq![body.subrange(from, end)] + rest),
                    Err(e) => Err(e),
                }
            },
        }
    }
}

/// The names that `body` lists, or the first fault in it.
pub open spec fn names_of(body: Seq<u8>) -> Result<Seq<Seq<u8>>, InvalidEncoding> {
    if body.len() == 0 {
        Ok(Seq::empty())
    } else {
        names_from(body, 0)
    }
}

/// `first` followed by the names of `r`, where there are any.
spec fn after(first: Seq<Seq<u8>>, r: Result<Seq<Seq<u8>>, InvalidEncoding>) -> Result<
    Seq<Seq<u8>>,
    InvalidEncoding,
> {
    match r {
        Ok(rest) => Ok(first + rest),
        Err(e) => Err(e),
    }
}

/// Printable US-ASCII.
pub fn is_printable(b: u8) -> (r: bool)
    ensures
        r == printable(b),
{
    0x21 <= b && b <= 0x7e
}

/// A single valid name: non-empty, printable, comma-free.
pub fn is_valid_name(name: &[u8]) -> (r: bool)
    ensures
        r == valid_name(name@),
{
    let mut i: usize = 0;
    while i < name.len()
        invariant
            i <= name@.len(),
            forall|j: int| 0 <= j < i ==> printable(#[trigger] name@[j]) && name@[j] != 44u8,
        decreases name@.len() - i,
    {
        if !is_printable(name[i]) || name[i] == 44u8 {
            return false;
        }
        i = i + 1;
    }
    name.len() > 0
}

proof fn lemma_segment_end(body: Seq<u8>, from: int, end: int)
    requires
        0 <= from <= end <= body.len(),
        forall|j: int| from <= j < end ==> body[j] != 44u8,
        end == body.len() || body[end] == 44u8,
    ensures
        segment_end(body, from) == end,
    decreases end - from,
{
    if from < end {
        lemma_segment_end(body, from + 1, end);
    }
}

proof fn lemma_first_unprintable(body: Seq<u8>, from: int, to: int, at: int)
    requires
        0 <= from <= at <= to <= body.len(),
        forall|j: int| from <= j < at ==> printable(body[j]),
        at == to || !printable(body[at]),
    ensures
        first_unprintable(body, from, to) == if at == to {
            None::<int>
        } else {
            Some(at)
        },
    decreases at - from,
{
    if from < at {
        lemma_first_unprintable(body, from + 1, to, at);
    }
}

/// Splits `body` into names, or reports the first offending segment in
/// offset order.
pub fn parse(body: &[u8]) -> (r: Result<Vec<&[u8]>, InvalidEncoding>)
    ensures
        match r {
            Ok(names) => names_of(body@) == Ok::<Seq<Seq<u8>>, InvalidEncoding>(slices(names@)),
            Err(e) => names_of(body@) == Err::<Seq<Seq<u8>>, InvalidEncoding>(e),
        },
{
    let mut names: Vec<&[u8]> = Vec::new();
    if body.len() == 0 {
        proof {
            assert(slices(names@) =~= Seq::empty());
        }
        return Ok(names);
    }
    let mut start: usize = 0;
    let mut pos: usize = 0;
    let mut bad: Option<usize> = None;
    proof {
        assert(slices(names@) =~= Seq::empty());
        assert(names_of(body@) == after(slices(names@), names_from(body@, 0))) by {
            match names_from(body@, 0) {
                Ok(rest) => {
                    assert(Seq::<Seq<u8>>::empty() + rest =~= rest);
                },
                Err(_) => {},
            }
        }
    }
    loop
        invariant
            body@.len() > 0,
            start <= pos <= body@.len(),
            names_of(body@) == after(slices(names@), names_from(body@, start as int)),
            forall|j: int| start <= j < pos ==> body@[j] != 44u8,
            match bad {
                None => forall|j: int| start <= j < pos ==> printable(#[trigger] body@[j]),
                Some(i) => start <= i < pos && !printable(body@[i as int]) && forall|j: int|
                    start <= j < i ==> printable(#[trigger] body@[j]),
            },
        decreases body@.len() - pos, body@.len() - start,
    {
        if pos < body.len() && body[pos] != 44u8 {
            if bad.is_none() && !is_printable(body[pos]) {
                bad = Some(pos);
            }
            pos = pos + 1;
        } else {
            proof {
                lemma_segment_end(body@, start as int, pos as int);
            }
            if pos == start {
                return Err(InvalidEncoding::NameListEmptyName { offset: start });
            }
            if let Some(i) = bad {
                proof {
                    lemma_first_unprintable(body@, start as int, pos as int, i as int);
                }
                return Err(InvalidEncoding::NameListNonAscii { offset: i });
            }
            proof {
                lemma_first_unprintable(body@, start as int, pos as int, pos as int);
            }
            let ghost before = slices(names@);
            let seg = slice_subrange(body, start, pos);
            names.push(seg);
            proof {
                assert(slices(names@) =~= before + seq![seg@]);
            }
            if pos == body.len() {
                return Ok(names);
            }
            proof {
                match names_from(body@, pos + 1) {
                    Ok(rest) => {
                        assert(before + (seq![seg@] + rest) =~= slices(names@) + rest);
                    },
                    Err(_) => {},
                }
            }
            pos = pos + 1;
            start = pos;
        }
    }
}

/// Comma-joined body for a list of names.
pub fn join(names: &[Vec<u8>]) -> (r: Vec<u8>)
    ensures
        r@ == joined(vecs(names@)),
{
    let mut out: Vec<u8> = Vec::new();
    let mut i: usize = 0;
    while i < names.len()
        invariant
            i <= names@.len(),
            out@ == joined(vecs(names@).take(i as int)),
        decreases names@.len() - i,
    {
        let ghost before = vecs(names@).take(i as int);
        if i > 0 {
            out.push(44u8);
        }
        push_all(&mut out, names[i].as_slice());
        i = i + 1;
        proof {
            let now = vecs(names@).take(i as int);
            assert(now.drop_last() =~= before);
            assert(now.last() == names@[i - 1]@);
            assert(joined(before) =~= Seq::<u8>::empty() || i > 1);
            assert(out@ =~= joined(now));
        }
    }
    proof {
        assert(vecs(names@).take(i as int) =~= vecs(names@));
    }
    out
}

/// The byte of the name alphabet that stands for `b`.
pub open spec fn name_byte(b: u8) -> u8 {
    let c = (0x21 + b % 94) as u8;
    if c == 44u8 {
        45
    } else {
        c
    }
}

/// Maps arbitrary bytes onto the name alphabet (in place).
pub fn sanitize_name(bytes: &mut Vec<u8>)
    ensures
        final(bytes)@ == old(bytes)@.map_values(|b: u8| name_byte(b)),
        old(bytes)@.len() > 0 ==> valid_name(final(bytes)@),
{
    let mut i: usize = 0;
    let ghost start = bytes@;
    while i < bytes.len()
        invariant
            i <= bytes@.len(),
            bytes@.len() == start.len(),
            forall|j: int| 0 <= j < i ==> bytes@[j] == name_byte(start[j]),
            forall|j: int| i <= j < start.len() ==> bytes@[j] == start[j],
        decreases bytes@.len() - i,
    {
        let c: u8 = 0x21 + (bytes[i] % 94);
        let v: u8 = if c == 44u8 { 45 } else { c };
        bytes.set(i, v);
        i = i + 1;
    }
    proof {
        assert(bytes@ =~= start.map_values(|b: u8| name_byte(b)));
    }
}

} // verus!
