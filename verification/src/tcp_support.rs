//! The TCP side of the protocol: input cursor, chunk schedules, the
//! identification exchange, initial packets and whole streams.

use vstd::prelude::*;
use vstd::slice::slice_subrange;
use crate::seqs::{copy_bytes, min_int, push_all};
use crate::wire_core::bytes::{put_u32, ssh_string};

pub mod drive;
pub mod drive_laws;
pub mod element_laws;
pub mod ident_ref;
pub mod msg_ref;
pub mod packet_ref;
pub mod reader_laws;
pub mod stream_gen;
pub mod stream_laws;
pub mod types;

verus! {

/// One step of the filler's linear congruential generator.
pub open spec fn lcg(x: u32) -> u32 {
    x.wrapping_mul(1_103_515_245).wrapping_add(12_345)
}

/// The generator's state after `n` steps.
pub open spec fn lcg_state(seed: u32, n: int) -> u32
    decreases n,
{
    if n <= 0 {
        seed
    } else {
        lcg(lcg_state(seed, n - 1))
    }
}

/// `n` filler bytes.
pub open spec fn filled(n: int, seed: u32) -> Seq<u8> {
    Seq::new(n as nat, |i: int| (lcg_state(seed, i + 1) >> 16) as u8)
}

/// Deterministic filler bytes for content whose value is irrelevant to the
/// property under test.
pub fn filler(n: usize, seed: u32) -> (r: Vec<u8>)
    ensures
        r@ == filled(n as int, seed),
{
    let mut x: u32 = seed;
    let mut out: Vec<u8> = Vec::new();
    let mut i: usize = 0;
    while i < n
        invariant
            i <= n,
            x == lcg_state(seed, i as int),
            out@ == filled(i as int, seed),
        decreases n - i,
    {
        x = x.wrapping_mul(1_103_515_245).wrapping_add(12_345);
        out.push((x >> 16) as u8);
        i = i + 1;
        proof {
            assert(out@ =~= filled(i as int, seed));
        }
    }
    out
}

/// Appends an SSH `string` (`uint32` length, then the bytes).
pub fn put_string(out: &mut Vec<u8>, bytes: &[u8])
    requires
        bytes@.len() <= u32::MAX,
    ensures
        final(out)@ == old(out)@ + ssh_string(bytes@),
{
    put_u32(out, bytes.len() as u32);
    push_all(out, bytes);
    proof {
        broadcast use crate::wire_core::bytes::lemma_be32_len;

        assert(out@ =~= old(out)@ + ssh_string(bytes@));
    }
}

/// Up to `n` bytes from the front of the input.
pub open spec fn taken(s: Seq<u8>, n: int) -> Seq<u8> {
    s.take(min_int(n, s.len() as int))
}

/// The input after up to `n` bytes were taken.
pub open spec fn dropped(s: Seq<u8>, n: int) -> Seq<u8> {
    s.skip(min_int(n, s.len() as int))
}

/// The `i`-th byte of the input, or 0 beyond its end.
pub open spec fn byte_at(s: Seq<u8>, i: int) -> u8 {
    if i < s.len() {
        s[i]
    } else {
        0
    }
}

/// The big-endian number in the next two bytes.
pub open spec fn u16_at(s: Seq<u8>) -> u16 {
    (byte_at(s, 0) * 0x100 + byte_at(s, 1)) as u16
}

/// The big-endian number in the next four bytes.
pub open spec fn u32_at(s: Seq<u8>) -> u32 {
    (byte_at(s, 0) * 0x100_0000 + byte_at(s, 1) * 0x1_0000 + byte_at(s, 2) * 0x100 + byte_at(s, 3)) as u32
}

/// `n` bytes of the input, with filler where it has fewer.
pub open spec fn taken_filled(s: Seq<u8>, n: int, seed: u32) -> Seq<u8> {
    if s.len() >= n {
        s.take(n)
    } else {
        s + filled(n - s.len(), seed)
    }
}

/// Forgiving big-endian byte cursor: exhausted reads yield zero or nothing.
/// It is seen as the bytes not yet read.
#[derive(Clone, Copy, Debug)]
pub struct Cursor<'a> {
    data: &'a [u8],
}

impl<'a> View for Cursor<'a> {
    type V = Seq<u8>;

    closed spec fn view(&self) -> Seq<u8> {
        self.data@
    }
}

impl<'a> Cursor<'a> {
    /// Cursor at the start of `data`.
    pub fn new(data: &'a [u8]) -> (r: Self)
        ensures
            r@ == data@,
    {
        Cursor { data }
    }

    /// Bytes not yet read.
    pub fn remaining(&self) -> (r: usize)
        ensures
            r == self@.len(),
    {
        self.data.len()
    }

    /// `true` once every byte has been read.
    pub fn is_empty(&self) -> (r: bool)
        ensures
            r == (self@.len() == 0),
    {
        self.remaining() == 0
    }

    /// Up to `n` bytes (fewer if the input is exhausted).
    pub fn take(&mut self, n: usize) -> (r: &'a [u8])
        ensures
            r@ == taken(old(self)@, n as int),
            final(self)@ == dropped(old(self)@, n as int),
    {
        let len: usize = self.data.len();
        let n: usize = if n <= len { n } else { len };
        let out = slice_subrange(self.data, 0, n);
        self.data = slice_subrange(self.data, n, len);
        proof {
            assert(out@ =~= taken(old(self)@, n as int));
            assert(self@ =~= dropped(old(self)@, n as int));
        }
        out
    }

    /// Everything that is left.
    pub fn rest(&mut self) -> (r: &'a [u8])
        ensures
            r@ == old(self)@,
            final(self)@ == Seq::<u8>::empty(),
    {
        let n: usize = self.remaining();
        let r = self.take(n);
        proof {
            assert(r@ =~= old(self)@);
            assert(self@ =~= Seq::empty());
        }
        r
    }

    /// One byte, or 0 when exhausted.
    pub fn u8(&mut self) -> (r: u8)
        ensures
            r == byte_at(old(self)@, 0),
            final(self)@ == dropped(old(self)@, 1),
    {
        let b = self.take(1);
        if b.len() > 0 {
            b[0]
        } else {
            0
        }
    }

    /// Big-endian `u16`, zero-padded when exhausted.
    pub fn u16(&mut self) -> (r: u16)
        ensures
            r == u16_at(old(self)@),
            final(self)@ == dropped(old(self)@, 2),
    {
        let b = self.take(2);
        let b0: u16 = if b.len() > 0 { b[0] as u16 } else { 0 };
        let b1: u16 = if b.len() > 1 { b[1] as u16 } else { 0 };
        b0 * 0x100 + b1
    }

    /// Big-endian `u32`, zero-padded when exhausted.
    pub fn u32(&mut self) -> (r: u32)
        ensures
            r == u32_at(old(self)@),
            final(self)@ == dropped(old(self)@, 4),
    {
        let b = self.take(4);
        let b0: u32 = if b.len() > 0 { b[0] as u32 } else { 0 };
        let b1: u32 = if b.len() > 1 { b[1] as u32 } else { 0 };
        let b2: u32 = if b.len() > 2 { b[2] as u32 } else { 0 };
        let b3: u32 = if b.len() > 3 { b[3] as u32 } else { 0 };
        b0 * 0x100_0000 + b1 * 0x1_0000 + b2 * 0x100 + b3
    }

    /// Exactly `n` bytes: what the input still has, padded with [`filler`].
    pub fn take_filled(&mut self, n: usize, seed: u32) -> (r: Vec<u8>)
        ensures
            r@ == taken_filled(old(self)@, n as int, seed),
            final(self)@ == dropped(old(self)@, n as int),
    {
        let mut out = copy_bytes(self.take(n));
        if out.len() < n {
            let more = filler(n - out.len(), seed);
            push_all(&mut out, more.as_slice());
        }
        proof {
            assert(out@ =~= taken_filled(old(self)@, n as int, seed));
        }
        out
    }
}

/// How a byte stream is split into feeds.
#[derive(Clone, Debug, PartialEq, Eq)]
pub enum ChunkMode {
    /// Everything in one feed (drivers still clip to the machine's room).
    All,
    /// One byte per feed.
    ByteAtATime,
    /// Fixed-size feeds.
    Fixed(usize),
    /// Cycle through a list of sizes.
    List(Vec<usize>),
}

/// A size of at least one.
pub open spec fn at_least_one(n: int) -> int {
    if n < 1 {
        1
    } else {
        n
    }
}

impl ChunkMode {
    /// The `i`-th size of the schedule.
    pub open spec fn size(self, i: int) -> int {
        match self {
            ChunkMode::All => usize::MAX as int,
            ChunkMode::ByteAtATime => 1,
            ChunkMode::Fixed(n) => at_least_one(n as int),
            ChunkMode::List(l) => if l@.len() == 0 {
                1
            } else {
                at_least_one(l@[i % l@.len() as int] as int)
            },
        }
    }

    /// Selector 0: the provided `list` (each byte one chunk size, 0 counts
    /// as 1; an empty list falls back to `Fixed(3)`); 1: `Fixed(3)`; 2:
    /// `Fixed(64)`; 3: `Fixed(7)`.
    pub fn from_selector(sel: u8, list: &[u8]) -> (r: ChunkMode)
        ensures
            sel % 4 == 0 && list@.len() > 0 ==> (r matches ChunkMode::List(l) && l@.len() == list@.len()
                && forall|i: int| 0 <= i < list@.len() ==> #[trigger] l@[i] == at_least_one(list@[i] as int)),
            sel % 4 == 0 && list@.len() == 0 ==> r == ChunkMode::Fixed(3),
            sel % 4 == 1 ==> r == ChunkMode::Fixed(3),
            sel % 4 == 2 ==> r == ChunkMode::Fixed(64),
            sel % 4 == 3 ==> r == ChunkMode::Fixed(7),
    {
        let k: u8 = sel % 4;
        if k == 0 && list.len() > 0 {
            let mut out: Vec<usize> = Vec::new();
            let mut i: usize = 0;
            while i < list.len()
                invariant
                    i <= list@.len(),
                    out@.len() == i,
                    forall|j: int| 0 <= j < i ==> #[trigger] out@[j] == at_least_one(list@[j] as int),
                decreases list@.len() - i,
            {
                let n: usize = list[i] as usize;
                out.push(if n < 1 { 1 } else { n });
                i = i + 1;
            }
            ChunkMode::List(out)
        } else if k <= 1 {
            ChunkMode::Fixed(3)
        } else if k == 2 {
            ChunkMode::Fixed(64)
        } else {
            ChunkMode::Fixed(7)
        }
    }

    /// The `i`-th desired chunk size, at least 1. Drivers clip every size to
    /// what remains of the stream (and to the machine's room) and stop when
    /// the stream is exhausted.
    pub fn desired(&self, i: usize) -> (r: usize)
        ensures
            r == self.size(i as int),
            r >= 1,
    {
        match self {
            ChunkMode::All => usize::MAX,
            ChunkMode::ByteAtATime => 1,
            ChunkMode::Fixed(n) => if *n < 1 {
                1
            } else {
                *n
            },
            ChunkMode::List(l) => if l.len() == 0 {
                1
            } else {
                let n: usize = l[i % l.len()];
                if n < 1 {
                    1
                } else {
                    n
                }
            },
        }
    }
}

} // verus!
