//! A decoding cursor that computes the exact outcome of every read: the
//! value, or the failure with what was needed and what was there.

use vstd::prelude::*;
use vstd::slice::slice_subrange;
use crate::seqs::slices;
use crate::wire_core::bytes::{be_u32, be_u64};
use crate::wire_core::error::{DecodeError, InvalidEncoding};
use crate::wire_core::namelist_ref;

verus! {

/// A read of `n` bytes at `pos`: the bytes and the position behind them.
pub open spec fn read_bytes(s: Seq<u8>, pos: int, n: int) -> Result<(Seq<u8>, int), DecodeError> {
    if n > s.len() - pos {
        Err(DecodeError::Truncated { needed: n as usize, available: (s.len() - pos) as usize })
    } else {
        Ok((s.subrange(pos, pos + n), pos + n))
    }
}

/// A read of one byte at `pos`.
pub open spec fn read_u8(s: Seq<u8>, pos: int) -> Result<(u8, int), DecodeError> {
    match read_bytes(s, pos, 1) {
        Ok((b, p)) => Ok((b[0], p)),
        Err(e) => Err(e),
    }
}

/// A read of a `uint32` at `pos`.
pub open spec fn read_u32(s: Seq<u8>, pos: int) -> Result<(u32, int), DecodeError> {
    match read_bytes(s, pos, 4) {
        Ok((b, p)) => Ok((crate::wire_core::bytes::u32_of(b), p)),
        Err(e) => Err(e),
    }
}

/// A read of a `uint64` at `pos`.
pub open spec fn read_u64(s: Seq<u8>, pos: int) -> Result<(u64, int), DecodeError> {
    match read_bytes(s, pos, 8) {
        Ok((b, p)) => Ok((crate::wire_core::bytes::u64_of(b), p)),
        Err(e) => Err(e),
    }
}

/// A read of a `string` at `pos`: its body and the position behind it.
pub open spec fn read_string(s: Seq<u8>, pos: int) -> Result<(Seq<u8>, int), DecodeError> {
    match read_u32(s, pos) {
        Err(e) => Err(e),
        Ok((claimed, start)) => if claimed > s.len() - start {
            Err(DecodeError::LengthOverflow { claimed, available: (s.len() - start) as usize })
        } else {
            Ok((s.subrange(start, start + claimed), start + claimed))
        },
    }
}

/// A read of a `name-list` at `pos`: its body, its names and the position
/// behind it.
pub open spec fn read_name_list(s: Seq<u8>, pos: int) -> Result<
    (Seq<u8>, Seq<Seq<u8>>, int),
    DecodeError,
> {
    match read_string(s, pos) {
        Err(e) => Err(e),
        Ok((body, end)) => match namelist_ref::names_of(body) {
            Err(e) => Err(DecodeError::InvalidEncoding(e)),
            Ok(names) => Ok((body, names, end)),
        },
    }
}

/// A position in a byte slice.
#[derive(Clone, Copy, Debug)]
pub struct RefCursor<'a> {
    pub data: &'a [u8],
    pub pos: usize,
}

impl<'a> RefCursor<'a> {
    /// The position is inside the data or at its end.
    pub open spec fn wf(self) -> bool {
        self.pos <= self.data@.len()
    }

    /// A cursor at the start of `data`.
    pub fn new(data: &'a [u8]) -> (r: Self)
        ensures
            r.wf(),
            r.data == data,
            r.pos == 0,
    {
        RefCursor { data, pos: 0 }
    }

    /// The number of unread bytes.
    pub fn remaining(&self) -> (r: usize)
        requires
            self.wf(),
        ensures
            r == self.data@.len() - self.pos,
    {
        self.data.len() - self.pos
    }

    /// The unread bytes.
    pub fn rest(&self) -> (r: &'a [u8])
        requires
            self.wf(),
        ensures
            r@ == self.data@.skip(self.pos as int),
    {
        crate::seqs::tail(self.data, self.pos)
    }

    /// Reads `n` bytes. The cursor does not move on failure.
    pub fn take(&mut self, n: usize) -> (r: Result<&'a [u8], DecodeError>)
        requires
            old(self).wf(),
        ensures
            final(self).wf(),
            final(self).data == old(self).data,
            match read_bytes(old(self).data@, old(self).pos as int, n as int) {
                Ok((b, p)) => r matches Ok(v) && v@ == b && final(self).pos == p,
                Err(e) => r == Err::<&'a [u8], DecodeError>(e) && final(self).pos == old(self).pos,
            },
    {
        let available: usize = self.data.len() - self.pos;
        if n > available {
            return Err(DecodeError::Truncated { needed: n, available });
        }
        let out = slice_subrange(self.data, self.pos, self.pos + n);
        self.pos = self.pos + n;
        Ok(out)
    }

    /// Reads a byte.
    pub fn u8(&mut self) -> (r: Result<u8, DecodeError>)
        requires
            old(self).wf(),
        ensures
            final(self).wf(),
            final(self).data == old(self).data,
            match read_u8(old(self).data@, old(self).pos as int) {
                Ok((b, p)) => r == Ok::<u8, DecodeError>(b) && final(self).pos == p,
                Err(e) => r == Err::<u8, DecodeError>(e) && final(self).pos == old(self).pos,
            },
    {
        match self.take(1) {
            Ok(b) => Ok(b[0]),
            Err(e) => Err(e),
        }
    }

    /// Reads a boolean: any nonzero byte is true.
    pub fn boolean(&mut self) -> (r: Result<bool, DecodeError>)
        requires
            old(self).wf(),
        ensures
            final(self).wf(),
            final(self).data == old(self).data,
            match read_u8(old(self).data@, old(self).pos as int) {
                Ok((b, p)) => r == Ok::<bool, DecodeError>(b != 0) && final(self).pos == p,
                Err(e) => r == Err::<bool, DecodeError>(e) && final(self).pos == old(self).pos,
            },
    {
        match self.u8() {
            Ok(b) => Ok(b != 0),
            Err(e) => Err(e),
        }
    }

    /// Reads a `uint32`.
    pub fn u32(&mut self) -> (r: Result<u32, DecodeError>)
        requires
            old(self).wf(),
        ensures
            final(self).wf(),
            final(self).data == old(self).data,
            match read_u32(old(self).data@, old(self).pos as int) {
                Ok((v, p)) => r == Ok::<u32, DecodeError>(v) && final(self).pos == p,
                Err(e) => r == Err::<u32, DecodeError>(e) && final(self).pos == old(self).pos,
            },
    {
        match self.take(4) {
            Ok(b) => Ok(be_u32(b)),
            Err(e) => Err(e),
        }
    }

    /// Reads a `uint64`.
    pub fn u64(&mut self) -> (r: Result<u64, DecodeError>)
        requires
            old(self).wf(),
        ensures
            final(self).wf(),
            final(self).data == old(self).data,
            match read_u64(old(self).data@, old(self).pos as int) {
                Ok((v, p)) => r == Ok::<u64, DecodeError>(v) && final(self).pos == p,
                Err(e) => r == Err::<u64, DecodeError>(e) && final(self).pos == old(self).pos,
            },
    {
        match self.take(8) {
            Ok(b) => Ok(be_u64(b)),
            Err(e) => Err(e),
        }
    }

    /// Reads a `uint32` length and that many bytes. The cursor does not move
    /// on failure, even when the length itself was readable.
    pub fn string(&mut self) -> (r: Result<&'a [u8], DecodeError>)
        requires
            old(self).wf(),
        ensures
            final(self).wf(),
            final(self).data == old(self).data,
            match read_string(old(self).data@, old(self).pos as int) {
                Ok((b, p)) => r matches Ok(v) && v@ == b && final(self).pos == p,
                Err(e) => r == Err::<&'a [u8], DecodeError>(e) && final(self).pos == old(self).pos,
            },
    {
        let available: usize = self.data.len() - self.pos;
        if available < 4 {
            return Err(DecodeError::Truncated { needed: 4, available });
        }
        let claimed: u32 = be_u32(slice_subrange(self.data, self.pos, self.pos + 4));
        let after_prefix: usize = available - 4;
        if claimed as u64 > after_prefix as u64 {
            return Err(DecodeError::LengthOverflow { claimed, available: after_prefix });
        }
        let start: usize = self.pos + 4;
        let end: usize = start + claimed as usize;
        self.pos = end;
        Ok(slice_subrange(self.data, start, end))
    }

    /// Reads a `string` whose body satisfies the name-list grammar; returns
    /// the body and its names. The cursor does not move on failure.
    pub fn name_list(&mut self) -> (r: Result<(&'a [u8], Vec<&'a [u8]>), DecodeError>)
        requires
            old(self).wf(),
        ensures
            final(self).wf(),
            final(self).data == old(self).data,
            match read_name_list(old(self).data@, old(self).pos as int) {
                Ok((b, n, p)) => r matches Ok(v) && v.0@ == b && slices(v.1@) == n && final(self).pos
                    == p,
                Err(e) => r matches Err(f) && f == e && final(self).pos == old(self).pos,
            },
    {
        let save: usize = self.pos;
        let body = match self.string() {
            Ok(b) => b,
            Err(e) => {
                return Err(e);
            },
        };
        match namelist_ref::parse(body) {
            Ok(names) => Ok((body, names)),
            Err(e) => {
                self.pos = save;
                Err(DecodeError::InvalidEncoding(e))
            },
        }
    }

    /// `Ok` iff exhausted, else the number of unread bytes.
    pub fn finish(&self) -> (r: Result<(), usize>)
        requires
            self.wf(),
        ensures
            r == if self.pos == self.data@.len() {
                Ok::<(), usize>(())
            } else {
                Err::<(), usize>((self.data@.len() - self.pos) as usize)
            },
    {
        if self.remaining() == 0 {
            Ok(())
        } else {
            Err(self.remaining())
        }
    }
}

} // verus!
