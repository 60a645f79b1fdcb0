//! Readers and writers of wire primitives under test: scripts of operations,
//! and models that say what each operation must give and leave behind.

use vstd::prelude::*;
use crate::seqs::{copy_bytes, own_all, push_all, same_bytes, same_vecs, tail, vecs};
use crate::wire_core::bytes::{
    be32, be64, be_u32, bool_byte, fits_u32, put_bool, put_name_list, put_string, put_u32, put_u64, put_u8, ssh_string,
};
use crate::wire_core::cursor::{read_bytes, read_name_list, read_string, read_u32, read_u64, read_u8, RefCursor};
use crate::wire_core::error::DecodeError;
use crate::wire_core::generate::{
    after, bounded_bytes, bounded_gen, byte, little, qword, small, small_gen, word, Source,
};
use crate::wire_core::laws::{lemma_join_parses, lemma_parse_joins};
use crate::wire_core::namelist_ref::{
    is_valid_name, joined, name_byte, names_of, parse, sanitize_name, valid_name, valid_names,
};
use vstd::slice::slice_subrange;

verus! {

/// Operations of a script at most.
pub const MAX_OPS: usize = 64;

/// One operation on the reader or the writer.
#[derive(Clone, Debug, PartialEq, Eq)]
pub enum Op<B = Vec<u8>, L = Vec<Vec<u8>>> {
    ReadU8,
    ReadBool,
    ReadU32,
    ReadU64,
    ReadString,
    ReadNameList,
    ReadBytes(usize),
    Finish,
    WriteU8(u8),
    WriteBool(bool),
    WriteU32(u32),
    WriteU64(u64),
    WriteString(B),
    WriteNameList(L),
    WriteBytes(B),
}

/// An operation over sequences.
pub type OpView = Op<Seq<u8>, Seq<Seq<u8>>>;

impl View for Op<Vec<u8>, Vec<Vec<u8>>> {
    type V = OpView;

    open spec fn view(&self) -> OpView {
        match self {
            Op::ReadU8 => Op::ReadU8,
            Op::ReadBool => Op::ReadBool,
            Op::ReadU32 => Op::ReadU32,
            Op::ReadU64 => Op::ReadU64,
            Op::ReadString => Op::ReadString,
            Op::ReadNameList => Op::ReadNameList,
            Op::ReadBytes(n) => Op::ReadBytes(*n),
            Op::Finish => Op::Finish,
            Op::WriteU8(v) => Op::WriteU8(*v),
            Op::WriteBool(v) => Op::WriteBool(*v),
            Op::WriteU32(v) => Op::WriteU32(*v),
            Op::WriteU64(v) => Op::WriteU64(*v),
            Op::WriteString(b) => Op::WriteString(b@),
            Op::WriteNameList(l) => Op::WriteNameList(vecs(l@)),
            Op::WriteBytes(b) => Op::WriteBytes(b@),
        }
    }
}

/// Operations over sequences.
pub open spec fn op_views(v: Seq<Op>) -> Seq<OpView> {
    Seq::new(v.len(), |i: int| v[i]@)
}

/// The names that the input gives; the bits of the mask map them onto the name
/// alphabet, the lowest the first.
pub open spec fn names_gen(s: Seq<u8>, n: int, mask: int) -> (Seq<Seq<u8>>, Seq<u8>)
    decreases n,
{
    if n <= 0 {
        (Seq::empty(), s)
    } else {
        let (raw, s1) = bounded_gen(s, 32);
        let name = if mask % 2 == 1 {
            raw.map_values(|b: u8| name_byte(b))
        } else {
            raw
        };
        let (more, s2) = names_gen(s1, n - 1, mask / 2);
        (seq![name] + more, s2)
    }
}

/// The operation that the input gives.
#[verifier::opaque]
pub open spec fn op_gen(s: Seq<u8>) -> (OpView, Seq<u8>) {
    let code = little(s, 1) % 15;
    let s1 = after(s, 1);
    if code == 0 {
        (Op::ReadU8, s1)
    } else if code == 1 {
        (Op::ReadBool, s1)
    } else if code == 2 {
        (Op::ReadU32, s1)
    } else if code == 3 {
        (Op::ReadU64, s1)
    } else if code == 4 {
        (Op::ReadString, s1)
    } else if code == 5 {
        (Op::ReadNameList, s1)
    } else if code == 6 {
        let (n, s2) = small_gen(s1, 1024);
        (Op::ReadBytes(n), s2)
    } else if code == 7 {
        (Op::Finish, s1)
    } else if code == 8 {
        (Op::WriteU8(little(s1, 1) as u8), after(s1, 1))
    } else if code == 9 {
        (Op::WriteBool(little(s1, 1) % 2 == 1), after(s1, 1))
    } else if code == 10 {
        (Op::WriteU32(little(s1, 4) as u32), after(s1, 4))
    } else if code == 11 {
        (Op::WriteU64(little(s1, 8) as u64), after(s1, 8))
    } else if code == 12 {
        let (b, s2) = bounded_gen(s1, 512);
        (Op::WriteString(b), s2)
    } else if code == 13 {
        let (n, s2) = small_gen(s1, 8);
        let (names, s3) = names_gen(after(s2, 1), n as int, little(s2, 1));
        (Op::WriteNameList(names), s3)
    } else {
        let (b, s2) = bounded_gen(s1, 512);
        (Op::WriteBytes(b), s2)
    }
}

fn gen_names(u: &mut Source<'_>, n: usize, mask: u8) -> (r: Vec<Vec<u8>>)
    ensures
        (vecs(r@), final(u)@) == names_gen(old(u)@, n as int, mask as int),
        r@.len() == n,
        forall|i: int| 0 <= i < n ==> (#[trigger] r@[i])@.len() <= 32,
{
    let mut out: Vec<Vec<u8>> = Vec::new();
    let mut m: u8 = mask;
    let mut i: usize = 0;
    let ghost all = names_gen(u@, n as int, mask as int);
    proof {
        assert(vecs(out@) =~= Seq::empty());
        assert(Seq::<Seq<u8>>::empty() + all.0 =~= all.0);
    }
    while i < n
        invariant
            i <= n,
            out@.len() == i,
            all == names_gen(old(u)@, n as int, mask as int),
            all.0 == vecs(out@) + names_gen(u@, n - i, m as int).0,
            all.1 == names_gen(u@, n - i, m as int).1,
            forall|j: int| 0 <= j < i ==> (#[trigger] out@[j])@.len() <= 32,
        decreases n - i,
    {
        let ghost before = vecs(out@);
        let ghost at = u@;
        let ghost was = m;
        let mut name = bounded_bytes(u, 32);
        if m % 2 == 1 {
            sanitize_name(&mut name);
        }
        let ghost nv = name@;
        out.push(name);
        m = m / 2;
        proof {
            assert(vecs(out@) =~= before.push(nv));
            assert(before.push(nv) + names_gen(u@, n - i - 1, m as int).0 =~= before + names_gen(
                at,
                n - i,
                was as int,
            ).0);
        }
        i = i + 1;
    }
    proof {
        assert(vecs(out@) + names_gen(u@, 0, m as int).0 =~= vecs(out@));
    }
    out
}

/// An operation that writes at most 600 bytes.
pub open spec fn op_short(op: OpView) -> bool {
    match op {
        Op::WriteString(b) => b.len() <= 512,
        Op::WriteNameList(l) => l.len() <= 8 && forall|i: int| 0 <= i < l.len() ==> (#[trigger] l[i]).len() <= 32,
        Op::WriteBytes(b) => b.len() <= 512,
        _ => true,
    }
}

/// Draws one operation.
pub fn gen_op(u: &mut Source<'_>) -> (r: Op)
    ensures
        (r@, final(u)@) == op_gen(old(u)@),
        op_short(r@),
{
    proof {
        reveal(op_gen);
    }
    let code: u8 = byte(u) % 15;
    if code == 0 {
        Op::ReadU8
    } else if code == 1 {
        Op::ReadBool
    } else if code == 2 {
        Op::ReadU32
    } else if code == 3 {
        Op::ReadU64
    } else if code == 4 {
        Op::ReadString
    } else if code == 5 {
        Op::ReadNameList
    } else if code == 6 {
        Op::ReadBytes(small(u, 1024))
    } else if code == 7 {
        Op::Finish
    } else if code == 8 {
        Op::WriteU8(byte(u))
    } else if code == 9 {
        Op::WriteBool(byte(u) % 2 == 1)
    } else if code == 10 {
        Op::WriteU32(word(u))
    } else if code == 11 {
        Op::WriteU64(qword(u))
    } else if code == 12 {
        Op::WriteString(bounded_bytes(u, 512))
    } else if code == 13 {
        let n: usize = small(u, 8);
        let mask: u8 = byte(u);
        let names = gen_names(u, n, mask);
        proof {
            assert forall|i: int| 0 <= i < vecs(names@).len() implies (#[trigger] vecs(names@)[i]).len() <= 32 by {
                assert(vecs(names@)[i] == names@[i]@);
            }
        }
        Op::WriteNameList(names)
    } else {
        Op::WriteBytes(bounded_bytes(u, 512))
    }
}

/// The operations that the input gives, until it or their number is used up.
pub open spec fn ops_gen(s: Seq<u8>, n: int) -> Seq<OpView>
    decreases n,
{
    if n <= 0 || s.len() == 0 {
        Seq::empty()
    } else {
        let (op, s1) = op_gen(s);
        seq![op] + ops_gen(s1, n - 1)
    }
}

/// A script: what the reader reads, how much the writer can hold, and the
/// operations.
#[derive(Debug)]
pub struct Script {
    pub input: Vec<u8>,
    pub capacity: usize,
    pub ops: Vec<Op>,
}

/// Draws a script.
pub fn gen_script(data: &[u8]) -> (r: Script)
    ensures
        ({
            let (input, s1) = bounded_gen(data@, 2048);
            let (capacity, s2) = small_gen(s1, 1024);
            r.input@ == input && r.capacity == capacity && op_views(r.ops@) == ops_gen(s2, MAX_OPS as int)
        }),
        forall|i: int| 0 <= i < r.ops@.len() ==> op_short((#[trigger] r.ops@[i])@),
{
    let mut u = Source::new(data);
    let input = bounded_bytes(&mut u, 2048);
    let capacity: usize = small(&mut u, 1024);
    let mut ops: Vec<Op> = Vec::new();
    let ghost all = ops_gen(u@, MAX_OPS as int);
    proof {
        assert(op_views(ops@) =~= Seq::empty());
        assert(Seq::<OpView>::empty() + all =~= all);
    }
    while !u.is_empty() && ops.len() < MAX_OPS
        invariant
            ops@.len() <= MAX_OPS,
            all == op_views(ops@) + ops_gen(u@, MAX_OPS - ops@.len()),
            forall|i: int| 0 <= i < ops@.len() ==> op_short((#[trigger] ops@[i])@),
        decreases MAX_OPS - ops@.len(),
    {
        let ghost before = op_views(ops@);
        let ghost at = u@;
        let ghost left = MAX_OPS - ops@.len();
        let op = gen_op(&mut u);
        let ghost ov = op@;
        ops.push(op);
        proof {
            assert(op_views(ops@) =~= before.push(ov));
            assert(before.push(ov) + ops_gen(u@, left - 1) =~= before + ops_gen(at, left));
        }
    }
    proof {
        assert(ops_gen(u@, MAX_OPS - ops@.len()) =~= Seq::empty());
        assert(op_views(ops@) + Seq::<OpView>::empty() =~= op_views(ops@));
    }
    Script { input, capacity, ops }
}

/// What a read gives.
#[derive(Clone, Debug, PartialEq, Eq)]
pub enum ReadValue<B = Vec<u8>, L = Vec<Vec<u8>>> {
    Byte(u8),
    Bool(bool),
    Word(u32),
    Long(u64),
    Bytes(B),
    Names { body: B, names: L },
    /// The end of the input.
    End,
    /// Bytes that are left.
    Left(usize),
}

/// What a read gives, over sequences.
pub type ReadView = ReadValue<Seq<u8>, Seq<Seq<u8>>>;

impl View for ReadValue<Vec<u8>, Vec<Vec<u8>>> {
    type V = ReadView;

    open spec fn view(&self) -> ReadView {
        match self {
            ReadValue::Byte(v) => ReadValue::Byte(*v),
            ReadValue::Bool(v) => ReadValue::Bool(*v),
            ReadValue::Word(v) => ReadValue::Word(*v),
            ReadValue::Long(v) => ReadValue::Long(*v),
            ReadValue::Bytes(b) => ReadValue::Bytes(b@),
            ReadValue::Names { body, names } => ReadValue::Names { body: body@, names: vecs(names@) },
            ReadValue::End => ReadValue::End,
            ReadValue::Left(n) => ReadValue::Left(*n),
        }
    }
}

impl ReadValue<Vec<u8>, Vec<Vec<u8>>> {
    fn same(&self, other: &Self) -> (r: bool)
        ensures
            r == (self@ == other@),
    {
        match (self, other) {
            (ReadValue::Byte(a), ReadValue::Byte(b)) => *a == *b,
            (ReadValue::Bool(a), ReadValue::Bool(b)) => *a == *b,
            (ReadValue::Word(a), ReadValue::Word(b)) => *a == *b,
            (ReadValue::Long(a), ReadValue::Long(b)) => *a == *b,
            (ReadValue::Bytes(a), ReadValue::Bytes(b)) => same_bytes(a.as_slice(), b.as_slice()),
            (ReadValue::Names { body: a, names: m }, ReadValue::Names { body: b, names: n }) => same_bytes(
                a.as_slice(),
                b.as_slice(),
            ) && same_vecs(m, n),
            (ReadValue::End, ReadValue::End) => true,
            (ReadValue::Left(a), ReadValue::Left(b)) => *a == *b,
            _ => false,
        }
    }
}

/// What an operation reads at `pos`, and the position behind it. Operations
/// that write read nothing.
pub open spec fn read_of(s: Seq<u8>, pos: int, op: OpView) -> Option<Result<(ReadView, int), DecodeError>> {
    match op {
        Op::ReadU8 => Some(
            match read_u8(s, pos) {
                Ok((v, p)) => Ok((ReadValue::Byte(v), p)),
                Err(e) => Err(e),
            },
        ),
        Op::ReadBool => Some(
            match read_u8(s, pos) {
                Ok((v, p)) => Ok((ReadValue::Bool(v != 0), p)),
                Err(e) => Err(e),
            },
        ),
        Op::ReadU32 => Some(
            match read_u32(s, pos) {
                Ok((v, p)) => Ok((ReadValue::Word(v), p)),
                Err(e) => Err(e),
            },
        ),
        Op::ReadU64 => Some(
            match read_u64(s, pos) {
                Ok((v, p)) => Ok((ReadValue::Long(v), p)),
                Err(e) => Err(e),
            },
        ),
        Op::ReadString => Some(
            match read_string(s, pos) {
                Ok((b, p)) => Ok((ReadValue::Bytes(b), p)),
                Err(e) => Err(e),
            },
        ),
        Op::ReadNameList => Some(
            match read_name_list(s, pos) {
                Ok((b, n, p)) => Ok((ReadValue::Names { body: b, names: n }, p)),
                Err(e) => Err(e),
            },
        ),
        Op::ReadBytes(n) => Some(
            match read_bytes(s, pos, n as int) {
                Ok((b, p)) => Ok((ReadValue::Bytes(b), p)),
                Err(e) => Err(e),
            },
        ),
        Op::Finish => Some(
            Ok(
                (
                    if pos == s.len() {
                        ReadValue::End
                    } else {
                        ReadValue::Left((s.len() - pos) as usize)
                    },
                    pos,
                ),
            ),
        ),
        _ => None,
    }
}

/// The model of a reader: its input and its position.
#[derive(Clone, Copy, Debug)]
pub struct ReadModel<'a> {
    pub input: &'a [u8],
    pub pos: usize,
}

/// What a reader says of its state.
pub struct ReaderState {
    pub position: usize,
    pub remaining: Vec<u8>,
    pub remaining_len: usize,
    pub is_empty: bool,
}

/// A state is that of a reader at `pos`.
pub open spec fn state_right(st: ReaderState, s: Seq<u8>, pos: int) -> bool {
    &&& st.position == pos
    &&& st.remaining@ == s.skip(pos)
    &&& st.remaining_len == s.len() - pos
    &&& st.is_empty == (pos == s.len())
}

impl<'a> ReadModel<'a> {
    /// The position is inside the input or at its end.
    pub open spec fn wf(self) -> bool {
        self.pos <= self.input@.len()
    }

    /// The number of unread bytes.
    pub fn remaining(&self) -> (r: usize)
        requires
            self.wf(),
        ensures
            r == self.input@.len() - self.pos,
            self.input@.len() <= usize::MAX,
    {
        self.input.len() - self.pos
    }

    /// What a read of `n` bytes gives.
    pub fn fixed(&self, n: usize) -> (r: Result<&'a [u8], DecodeError>)
        requires
            self.wf(),
        ensures
            match read_bytes(self.input@, self.pos as int, n as int) {
                Ok((b, p)) => r matches Ok(v) && v@ == b && p == self.pos + n,
                Err(e) => r matches Err(f) && f == e,
            },
    {
        let available: usize = self.remaining();
        if n > available {
            Err(DecodeError::Truncated { needed: n, available })
        } else {
            Ok(slice_subrange(self.input, self.pos, self.pos + n))
        }
    }

    /// What a read of a `string` gives: its body and all that it takes.
    pub fn string(&self) -> (r: Result<(&'a [u8], usize), DecodeError>)
        requires
            self.wf(),
        ensures
            match read_string(self.input@, self.pos as int) {
                Ok((b, p)) => r matches Ok(v) && v.0@ == b && self.pos + v.1 == p,
                Err(e) => r matches Err(f) && f == e,
            },
    {
        let available: usize = self.remaining();
        if available < 4 {
            return Err(DecodeError::Truncated { needed: 4, available });
        }
        let claimed: u32 = be_u32(slice_subrange(self.input, self.pos, self.pos + 4));
        let after: usize = available - 4;
        if claimed as u64 > after as u64 {
            return Err(DecodeError::LengthOverflow { claimed, available: after });
        }
        let start: usize = self.pos + 4;
        let len: usize = claimed as usize;
        Ok((slice_subrange(self.input, start, start + len), 4 + len))
    }

    /// Whether a state is that of a reader here.
    pub fn check_state(&self, st: &ReaderState) -> (r: bool)
        requires
            self.wf(),
        ensures
            r == state_right(*st, self.input@, self.pos as int),
    {
        st.position == self.pos && same_bytes(st.remaining.as_slice(), tail(self.input, self.pos))
            && st.remaining_len == self.remaining() && st.is_empty == (self.pos == self.input.len())
    }

    /// What an operation must read, and the position behind it.
    pub fn expect(&self, op: &Op) -> (r: Option<Result<(ReadValue, usize), DecodeError>>)
        requires
            self.wf(),
        ensures
            match read_of(self.input@, self.pos as int, op@) {
                Some(Ok((v, p))) => r matches Some(Ok(x)) && x.0@ == v && x.1 == p && p <= self.input@.len(),
                Some(Err(e)) => r matches Some(Err(f)) && f == e,
                None => r is None,
            },
    {
        let left: usize = self.remaining();
        let mut c = RefCursor { data: self.input, pos: self.pos };
        match op {
            Op::ReadU8 => Some(
                match c.u8() {
                    Ok(v) => Ok((ReadValue::Byte(v), c.pos)),
                    Err(e) => Err(e),
                },
            ),
            Op::ReadBool => Some(
                match c.boolean() {
                    Ok(v) => Ok((ReadValue::Bool(v), c.pos)),
                    Err(e) => Err(e),
                },
            ),
            Op::ReadU32 => Some(
                match c.u32() {
                    Ok(v) => Ok((ReadValue::Word(v), c.pos)),
                    Err(e) => Err(e),
                },
            ),
            Op::ReadU64 => Some(
                match c.u64() {
                    Ok(v) => Ok((ReadValue::Long(v), c.pos)),
                    Err(e) => Err(e),
                },
            ),
            Op::ReadString => Some(
                match self.string() {
                    Ok((b, n)) => Ok((ReadValue::Bytes(copy_bytes(b)), self.pos + n)),
                    Err(e) => Err(e),
                },
            ),
            Op::ReadNameList => Some(
                match c.name_list() {
                    Ok((b, names)) => Ok((ReadValue::Names { body: copy_bytes(b), names: own_all(&names) }, c.pos)),
                    Err(e) => Err(e),
                },
            ),
            Op::ReadBytes(n) => Some(
                match self.fixed(*n) {
                    Ok(b) => Ok((ReadValue::Bytes(copy_bytes(b)), self.pos + *n)),
                    Err(e) => Err(e),
                },
            ),
            Op::Finish => Some(
                Ok(
                    (
                        if left == 0 {
                            ReadValue::End
                        } else {
                            ReadValue::Left(left)
                        },
                        self.pos,
                    ),
                ),
            ),
            _ => None,
        }
    }

    /// Whether a read gave what it must and left the reader where it must;
    /// the model moves with it. A read that fails moves nothing.
    pub fn expect_read(&mut self, op: &Op, got: &Result<ReadValue, DecodeError>, st: &ReaderState) -> (r: bool)
        requires
            old(self).wf(),
            read_of(old(self).input@, old(self).pos as int, op@) is Some,
        ensures
            final(self).wf(),
            final(self).input == old(self).input,
            match read_of(old(self).input@, old(self).pos as int, op@)->0 {
                Ok((v, p)) => final(self).pos == p && r == ((got matches Ok(g) && g@ == v) && state_right(
                    *st,
                    old(self).input@,
                    p,
                )),
                Err(e) => final(self).pos == old(self).pos && r == ((got matches Err(f) && f == e) && state_right(
                    *st,
                    old(self).input@,
                    old(self).pos as int,
                )),
            },
    {
        let want = self.expect(op);
        let value: bool = match (&want, got) {
            (Some(Ok((v, p))), Ok(g)) => g.same(v),
            (Some(Err(e)), Err(f)) => *e == *f,
            _ => false,
        };
        match &want {
            Some(Ok((v, p))) => {
                self.pos = *p;
            },
            _ => {},
        }
        value && self.check_state(st)
    }
}

/// Why a write failed.
#[derive(Clone, Copy, Debug, PartialEq, Eq, Structural)]
pub enum EncodeError {
    InsufficientCapacity { needed: usize, available: usize },
    InvalidName { index: usize },
}

/// The position of the first name that is not valid, or their number.
pub open spec fn first_bad(names: Seq<Seq<u8>>, i: int) -> int
    decreases names.len() - i,
{
    if i < 0 || i >= names.len() || !valid_name(names[i]) {
        i
    } else {
        first_bad(names, i + 1)
    }
}

/// What an operation writes, or the name that it refuses. Operations that
/// read write nothing.
pub open spec fn written_by(op: OpView) -> Option<Result<Seq<u8>, EncodeError>> {
    match op {
        Op::WriteU8(v) => Some(Ok(seq![v])),
        Op::WriteBool(v) => Some(Ok(seq![bool_byte(v)])),
        Op::WriteU32(v) => Some(Ok(be32(v))),
        Op::WriteU64(v) => Some(Ok(be64(v))),
        Op::WriteString(b) => Some(Ok(ssh_string(b))),
        Op::WriteNameList(l) => Some(
            if first_bad(l, 0) < l.len() {
                Err(EncodeError::InvalidName { index: first_bad(l, 0) as usize })
            } else {
                Ok(ssh_string(joined(l)))
            },
        ),
        Op::WriteBytes(b) => Some(Ok(b)),
        _ => None,
    }
}

/// What an operation does to a writer that holds `held` of `capacity` bytes:
/// what it then holds, and its failure. Nothing is written by one that fails.
pub open spec fn write_of(held: Seq<u8>, capacity: int, op: OpView) -> (Seq<u8>, Option<EncodeError>) {
    match written_by(op) {
        Some(Ok(b)) => if b.len() > capacity - held.len() {
            (
                held,
                Some(
                    EncodeError::InsufficientCapacity {
                        needed: b.len() as usize,
                        available: (capacity - held.len()) as usize,
                    },
                ),
            )
        } else {
            (held + b, None)
        },
        Some(Err(e)) => (held, Some(e)),
        None => (held, None),
    }
}

/// The model of a writer: what it holds and how much it can hold.
#[derive(Debug)]
pub struct WriteModel {
    pub held: Vec<u8>,
    pub capacity: usize,
}

/// What a writer says of its state.
pub struct WriterState {
    pub written: Vec<u8>,
    pub position: usize,
    pub capacity_remaining: usize,
}

/// A state is that of a writer that holds `held` of `capacity` bytes.
pub open spec fn writer_right(st: WriterState, held: Seq<u8>, capacity: int) -> bool {
    &&& st.written@ == held
    &&& st.position == held.len()
    &&& st.capacity_remaining == capacity - held.len()
}

fn find_bad(names: &Vec<Vec<u8>>) -> (r: usize)
    ensures
        r == first_bad(vecs(names@), 0),
        r <= names@.len(),
{
    let mut i: usize = 0;
    while i < names.len() && is_valid_name(names[i].as_slice())
        invariant
            i <= names@.len(),
            first_bad(vecs(names@), 0) == first_bad(vecs(names@), i as int),
        decreases names@.len() - i,
    {
        proof {
            assert(vecs(names@)[i as int] == names@[i as int]@);
        }
        i = i + 1;
    }
    proof {
        if i < names@.len() {
            assert(vecs(names@)[i as int] == names@[i as int]@);
        }
    }
    i
}

proof fn lemma_short_names(names: Seq<Seq<u8>>)
    requires
        forall|i: int| 0 <= i < names.len() ==> (#[trigger] names[i]).len() <= 32,
    ensures
        joined(names).len() <= 33 * names.len(),
    decreases names.len(),
{
    if names.len() > 0 {
        let front = names.drop_last();
        assert forall|i: int| 0 <= i < front.len() implies (#[trigger] front[i]).len() <= 32 by {
            assert(front[i] == names[i]);
        }
        lemma_short_names(front);
    }
}

fn written(op: &Op) -> (r: Option<Result<Vec<u8>, EncodeError>>)
    requires
        op_short(op@),
    ensures
        match written_by(op@) {
            Some(Ok(b)) => r matches Some(Ok(v)) && v@ == b,
            Some(Err(e)) => r matches Some(Err(f)) && f == e,
            None => r is None,
        },
{
    let mut out: Vec<u8> = Vec::new();
    match op {
        Op::WriteU8(v) => {
            put_u8(&mut out, *v);
            proof {
                assert(out@ =~= seq![*v]);
            }
        },
        Op::WriteBool(v) => {
            put_bool(&mut out, *v);
            proof {
                assert(out@ =~= seq![bool_byte(*v)]);
            }
        },
        Op::WriteU32(v) => {
            put_u32(&mut out, *v);
            proof {
                assert(out@ =~= be32(*v));
            }
        },
        Op::WriteU64(v) => {
            put_u64(&mut out, *v);
            proof {
                assert(out@ =~= be64(*v));
            }
        },
        Op::WriteString(b) => {
            put_string(&mut out, b.as_slice());
            proof {
                assert(out@ =~= ssh_string(b@));
            }
        },
        Op::WriteNameList(l) => {
            let bad: usize = find_bad(l);
            if bad < l.len() {
                return Some(Err(EncodeError::InvalidName { index: bad }));
            }
            proof {
                lemma_short_names(vecs(l@));
            }
            put_name_list(&mut out, l.as_slice());
            proof {
                assert(out@ =~= ssh_string(joined(vecs(l@))));
            }
        },
        Op::WriteBytes(b) => {
            push_all(&mut out, b.as_slice());
            proof {
                assert(out@ =~= b@);
            }
        },
        _ => {
            return None;
        },
    }
    Some(Ok(out))
}

impl WriteModel {
    /// The writer holds no more than it can.
    pub open spec fn wf(self) -> bool {
        self.held@.len() <= self.capacity
    }

    /// Whether a state is that of this writer.
    pub fn check_writer(&self, st: &WriterState) -> (r: bool)
        requires
            self.wf(),
        ensures
            r == writer_right(*st, self.held@, self.capacity as int),
    {
        same_bytes(st.written.as_slice(), self.held.as_slice()) && st.position == self.held.len()
            && st.capacity_remaining == self.capacity - self.held.len()
    }

    /// Whether a write did what it must and left the writer as it must; the
    /// model follows. `failure` is what the write reported.
    pub fn expect_write(&mut self, op: &Op, failure: Option<EncodeError>, st: &WriterState) -> (r: bool)
        requires
            old(self).wf(),
            op_short(op@),
        ensures
            final(self).wf(),
            final(self).capacity == old(self).capacity,
            final(self).held@ == write_of(old(self).held@, old(self).capacity as int, op@).0,
            r == (failure == write_of(old(self).held@, old(self).capacity as int, op@).1 && writer_right(
                *st,
                final(self).held@,
                old(self).capacity as int,
            )),
    {
        let available: usize = self.capacity - self.held.len();
        let mut want: Option<EncodeError> = None;
        match written(op) {
            Some(Ok(b)) => {
                if b.len() > available {
                    want = Some(EncodeError::InsufficientCapacity { needed: b.len(), available });
                } else {
                    push_all(&mut self.held, b.as_slice());
                }
            },
            Some(Err(e)) => {
                want = Some(e);
            },
            None => {},
        }
        let right: bool = match (failure, want) {
            (Some(a), Some(b)) => a == b,
            (None, None) => true,
            _ => false,
        };
        right && self.check_writer(st)
    }
}

/// A name is among names.
pub open spec fn is_among(names: Seq<Seq<u8>>, name: Seq<u8>) -> bool {
    exists|i: int| 0 <= i < names.len() && #[trigger] names[i] == name
}

/// Whether a name is among names.
pub fn among(names: &Vec<Vec<u8>>, name: &[u8]) -> (r: bool)
    ensures
        r == is_among(vecs(names@), name@),
{
    let mut i: usize = 0;
    while i < names.len()
        invariant
            i <= names@.len(),
            forall|j: int| 0 <= j < i ==> #[trigger] vecs(names@)[j] != name@,
        decreases names@.len() - i,
    {
        proof {
            assert(vecs(names@)[i as int] == names@[i as int]@);
        }
        if same_bytes(names[i].as_slice(), name) {
            return true;
        }
        i = i + 1;
    }
    false
}

/// Names to look for in a list: the empty one and `none`, and for each of its
/// names itself, itself with one byte more, and itself with one byte less.
pub fn probes(names: &Vec<Vec<u8>>) -> (r: Vec<Vec<u8>>)
    requires
        forall|i: int| 0 <= i < names@.len() ==> (#[trigger] names@[i])@.len() > 0,
        2 + 3 * names@.len() <= usize::MAX,
    ensures
        r@.len() == 2 + 3 * names@.len(),
        r@[0]@ == Seq::<u8>::empty(),
        r@[1]@ == seq![110u8, 111u8, 110u8, 101u8],
        forall|i: int|
            0 <= i < names@.len() ==> {
                let n = (#[trigger] names@[i])@;
                r@[2 + 3 * i]@ == n && r@[3 + 3 * i]@ == n.push(33) && r@[4 + 3 * i]@ == n.drop_last()
            },
{
    let mut out: Vec<Vec<u8>> = Vec::new();
    let none: [u8; 4] = [110, 111, 110, 101];
    out.push(Vec::new());
    out.push(copy_bytes(none.as_slice()));
    proof {
        assert(out@[1]@ =~= seq![110u8, 111u8, 110u8, 101u8]);
        assert(out@[0]@ =~= Seq::<u8>::empty());
    }
    let mut i: usize = 0;
    while i < names.len()
        invariant
            i <= names@.len(),
            2 + 3 * names@.len() <= usize::MAX,
            forall|j: int| 0 <= j < names@.len() ==> (#[trigger] names@[j])@.len() > 0,
            out@.len() == 2 + 3 * i,
            out@[0]@ == Seq::<u8>::empty(),
            out@[1]@ == seq![110u8, 111u8, 110u8, 101u8],
            forall|j: int|
                0 <= j < i ==> {
                    let n = (#[trigger] names@[j])@;
                    out@[2 + 3 * j]@ == n && out@[3 + 3 * j]@ == n.push(33) && out@[4 + 3 * j]@ == n.drop_last()
                },
        decreases names@.len() - i,
    {
        let n = names[i].as_slice();
        let mut longer = copy_bytes(n);
        longer.push(33);
        let shorter = copy_bytes(slice_subrange(n, 0, n.len() - 1));
        proof {
            assert(shorter@ =~= n@.drop_last());
        }
        out.push(copy_bytes(n));
        out.push(longer);
        out.push(shorter);
        i = i + 1;
    }
    out
}

/// What a name list says of itself: its body, its names, and whether it holds
/// the names that were looked for.
pub struct ListSeen {
    pub body: Vec<u8>,
    pub names: Vec<Vec<u8>>,
    pub len: usize,
    pub is_empty: bool,
    pub asked: Vec<(Vec<u8>, bool)>,
}

/// A list says of itself what its body says: the names that the body lists,
/// and of each name that was looked for whether it is among them.
pub open spec fn list_right(l: ListSeen, body: Seq<u8>) -> bool {
    &&& l.body@ == body
    &&& names_of(body) matches Ok(n) && n == vecs(l.names@)
    &&& l.len == l.names@.len()
    &&& l.is_empty == (body.len() == 0)
    &&& forall|i: int|
        0 <= i < l.asked@.len() ==> (#[trigger] l.asked@[i]).1 == is_among(vecs(l.names@), l.asked@[i].0@)
}

/// Whether a list says of itself what its body says.
pub fn check_name_list(l: &ListSeen, body: &[u8]) -> (r: bool)
    ensures
        r == list_right(*l, body@),
{
    if !same_bytes(l.body.as_slice(), body) || l.len != l.names.len() || l.is_empty != (body.len() == 0) {
        return false;
    }
    match parse(body) {
        Ok(names) => {
            let own = own_all(&names);
            if !same_vecs(&own, &l.names) {
                return false;
            }
        },
        Err(_) => {
            return false;
        },
    }
    answers_right(&l.names, &l.asked)
}

fn answers_right(names: &Vec<Vec<u8>>, asked: &Vec<(Vec<u8>, bool)>) -> (r: bool)
    ensures
        r == forall|i: int|
            0 <= i < asked@.len() ==> (#[trigger] asked@[i]).1 == is_among(vecs(names@), asked@[i].0@),
{
    let mut i: usize = 0;
    while i < asked.len()
        invariant
            i <= asked@.len(),
            forall|j: int| 0 <= j < i ==> (#[trigger] asked@[j]).1 == is_among(vecs(names@), asked@[j].0@),
        decreases asked@.len() - i,
    {
        let q = &asked[i];
        if q.1 != among(names, q.0.as_slice()) {
            return false;
        }
        i = i + 1;
    }
    true
}

/// A name list that was written reads back as the same names, and one that
/// was read joins back to its body.
pub proof fn lemma_list_round_trip(names: Seq<Seq<u8>>, body: Seq<u8>)
    ensures
        valid_names(names) ==> names_of(joined(names)) == Ok::<Seq<Seq<u8>>, crate::wire_core::error::InvalidEncoding>(
            names,
        ),
        names_of(body) matches Ok(n) ==> joined(n) == body && valid_names(n),
{
    if valid_names(names) {
        lemma_join_parses(names);
    }
    if names_of(body) is Ok {
        lemma_parse_joins(body);
    }
}

/// What a writer wrote as a string, a reader reads back.
pub proof fn lemma_write_read(held: Seq<u8>, b: Seq<u8>, capacity: int)
    requires
        fits_u32(b),
        held.len() + 4 + b.len() <= capacity,
    ensures
        ({
            let s = write_of(held, capacity, Op::WriteString(b)).0;
            read_of(s, held.len() as int, Op::ReadString) == Some(
                Ok::<(ReadView, int), DecodeError>((ReadValue::Bytes(b), s.len() as int)),
            )
        }),
{
    broadcast use crate::wire_core::bytes::lemma_be32_len;

    crate::wire_core::laws::lemma_string_at(held, b, Seq::empty());
    assert(held + ssh_string(b) + Seq::<u8>::empty() =~= held + ssh_string(b));
}

} // verus!
