//! A bounded input buffer: its model, the operations that input bytes ask for,
//! and whether a buffer agrees.

use vstd::prelude::*;
use crate::seqs::{copy_bytes, push_all, same_bytes, tail};
use crate::tcp_support::types::InputOverflow;
use crate::tcp_support::{byte_at, dropped, taken_filled, u16_at, Cursor};

verus! {

/// The most operations of one run.
pub const MAX_OPS: usize = 256;

/// A buffer of at most `capacity` bytes.
#[derive(Debug)]
pub struct Model {
    capacity: usize,
    bytes: Vec<u8>,
}

impl View for Model {
    type V = Seq<u8>;

    closed spec fn view(&self) -> Seq<u8> {
        self.bytes@
    }
}

/// What a buffer says of itself.
#[derive(Debug)]
pub struct Reported<B = Vec<u8>> {
    pub contents: B,
    pub len: usize,
    pub is_empty: bool,
    pub capacity: usize,
    pub room: usize,
}

/// What a buffer has to say of itself.
pub open spec fn reported_holds(r: Reported, contents: Seq<u8>, cap: int) -> bool {
    &&& r.contents@ == contents
    &&& r.len == contents.len()
    &&& r.is_empty == (contents.len() == 0)
    &&& r.capacity == cap
    &&& r.room == cap - contents.len()
}

impl Model {
    /// The capacity.
    pub closed spec fn cap(&self) -> int {
        self.capacity as int
    }

    /// The contents keep to the capacity.
    pub closed spec fn wf(&self) -> bool {
        self.bytes@.len() <= self.capacity
    }

    /// An empty buffer.
    pub fn new(capacity: usize) -> (r: Self)
        ensures
            r.wf(),
            r.cap() == capacity,
            r@ == Seq::<u8>::empty(),
    {
        Model { capacity, bytes: Vec::new() }
    }

    /// The number of bytes.
    pub fn len(&self) -> (r: usize)
        ensures
            r == self@.len(),
    {
        self.bytes.len()
    }

    /// The number of bytes that still fit.
    pub fn room(&self) -> (r: usize)
        requires
            self.wf(),
        ensures
            r == self.cap() - self@.len(),
            r <= self.cap(),
    {
        self.capacity - self.bytes.len()
    }

    /// Appends bytes; where they do not all fit, none is.
    pub fn push(&mut self, data: &[u8]) -> (r: Result<(), InputOverflow>)
        requires
            old(self).wf(),
        ensures
            final(self).wf(),
            final(self).cap() == old(self).cap(),
            old(self)@.len() + data@.len() <= old(self).cap() ==> r is Ok && final(self)@ == old(self)@ + data@,
            old(self)@.len() + data@.len() > old(self).cap() ==> final(self)@ == old(self)@ && (r matches Err(e) && e
                == (InputOverflow {
                capacity: old(self).cap() as usize,
                pending: old(self)@.len() as usize,
                offered: data@.len() as usize,
            })),
    {
        if data.len() > self.room() {
            return Err(InputOverflow { capacity: self.capacity, pending: self.bytes.len(), offered: data.len() });
        }
        push_all(&mut self.bytes, data);
        Ok(())
    }

    /// Takes the first `n` bytes out.
    pub fn consume(&mut self, n: usize)
        requires
            old(self).wf(),
            n <= old(self)@.len(),
        ensures
            final(self).wf(),
            final(self).cap() == old(self).cap(),
            final(self)@ == old(self)@.skip(n as int),
    {
        let rest = copy_bytes(tail(self.bytes.as_slice(), n));
        self.bytes = rest;
    }

    /// Takes all bytes out.
    pub fn clear(&mut self)
        requires
            old(self).wf(),
        ensures
            final(self).wf(),
            final(self).cap() == old(self).cap(),
            final(self)@ == Seq::<u8>::empty(),
    {
        self.bytes = Vec::new();
    }

    /// Whether a buffer says of itself what it has to.
    pub fn check(&self, r: &Reported) -> (ok: bool)
        requires
            self.wf(),
        ensures
            ok == reported_holds(*r, self@, self.cap()),
    {
        same_bytes(r.contents.as_slice(), self.bytes.as_slice()) && r.len == self.bytes.len() && r.is_empty == (
        self.bytes.len() == 0) && r.capacity == self.capacity && r.room == self.room()
    }
}

/// One operation.
#[derive(Debug)]
pub enum Op<B = Vec<u8>> {
    Push(B),
    Consume(usize),
    Clear,
}

impl View for Op<Vec<u8>> {
    type V = Op<Seq<u8>>;

    open spec fn view(&self) -> Op<Seq<u8>> {
        match self {
            Op::Push(b) => Op::Push(b@),
            Op::Consume(n) => Op::Consume(*n),
            Op::Clear => Op::Clear,
        }
    }
}

/// The `i`-th operation that the input asks for, of a buffer with `len` bytes
/// and the given capacity. A push at the boundary takes exactly the room, one
/// more, nothing, or one more than the capacity.
pub open spec fn op_gen(s: Seq<u8>, len: int, cap: int, i: int) -> (Op<Seq<u8>>, Seq<u8>) {
    let kind = byte_at(s, 0);
    let s0 = dropped(s, 1);
    if kind % 4 == 0 {
        let n = u16_at(s0) as int % 4097;
        (Op::Push(taken_filled(dropped(s0, 2), n, i as u32)), dropped(dropped(s0, 2), n))
    } else if kind % 4 == 1 {
        (Op::Consume((u16_at(s0) as int % (len + 1)) as usize), dropped(s0, 2))
    } else if kind % 4 == 2 {
        (Op::Clear, s0)
    } else {
        let k = kind / 4 % 4;
        let n = if k == 0 {
            cap - len
        } else if k == 1 {
            cap - len + 1
        } else if k == 2 {
            0
        } else {
            cap + 1
        };
        (Op::Push(taken_filled(s0, n, (0x1000 + i) as u32)), dropped(s0, n))
    }
}

/// Reads the capacity of the buffer.
pub fn gen_capacity(cur: &mut Cursor<'_>) -> (r: usize)
    ensures
        r == u16_at(old(cur)@) as int % 8193,
        final(cur)@ == dropped(old(cur)@, 2),
{
    cur.u16() as usize % 8193
}

/// Reads the `i`-th operation.
pub fn gen_op(cur: &mut Cursor<'_>, model: &Model, i: usize) -> (r: Op)
    requires
        model.wf(),
        model.cap() <= 8192,
        i < MAX_OPS,
    ensures
        (r@, final(cur)@) == op_gen(old(cur)@, model@.len() as int, model.cap(), i as int),
        r matches Op::Consume(n) ==> n <= model@.len(),
{
    let kind: u8 = cur.u8();
    match kind % 4 {
        0 => {
            let n: usize = cur.u16() as usize % 4097;
            Op::Push(cur.take_filled(n, i as u32))
        },
        1 => Op::Consume(cur.u16() as usize % (model.len() + 1)),
        2 => Op::Clear,
        _ => {
            let n: usize = match kind / 4 % 4 {
                0 => model.room(),
                1 => model.room() + 1,
                2 => 0,
                _ => model.capacity + 1,
            };
            Op::Push(cur.take_filled(n, 0x1000 + i as u32))
        },
    }
}

} // verus!
