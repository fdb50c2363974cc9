//! Seekable byte-range cursor over the MRAM chip.
//!
//! The cursor tracks a position in `0 ..= CAPACITY_BYTES` and clamps reads
//! and writes at the capacity boundary: a request for more bytes than remain
//! yields a short span of exactly the remaining bytes, never an error. Seek
//! targets are computed in signed 64-bit arithmetic so that underflow and
//! overflow are caught, and any target outside the valid range is rejected
//! with the position left unchanged. The data transfer itself is performed
//! by the platform layer through the command driver; the span functions here
//! decide which byte range each transfer covers.

use vstd::prelude::*;

use crate::error::Error;
use crate::protocol::CAPACITY_BYTES;

verus! {

/// Cursor error: an underlying driver failure, or a seek to a target
/// outside `0 ..= CAPACITY_BYTES`.
#[derive(Debug, PartialEq, Eq)]
pub enum IoError<SpiError> {
    /// Error returned by the underlying MRAM driver.
    Driver(Error<SpiError>),
    /// Invalid seek target.
    InvalidSeek,
}

/// Origin of a seek: the start of the range, its end (the capacity), or the
/// current position.
#[derive(Debug, Clone, Copy, PartialEq, Eq)]
pub enum SeekFrom {
    /// Offset from byte zero.
    Start(u64),
    /// Offset from the capacity.
    End(i64),
    /// Offset from the current position.
    Current(i64),
}

/// The seek target a cursor at `position` computes for `pos`, in unbounded
/// integer arithmetic, before any range or overflow check.
pub open spec fn seek_target(position: u32, pos: SeekFrom) -> int {
    match pos {
        SeekFrom::Start(offset) => offset as int,
        SeekFrom::End(offset) => CAPACITY_BYTES + offset,
        SeekFrom::Current(offset) => position + offset,
    }
}

/// A seek request is valid when its target lies in `0 ..= CAPACITY_BYTES`
/// and, for a seek from the start, the offset fits the signed arithmetic
/// the cursor computes in.
pub open spec fn seek_valid(position: u32, pos: SeekFrom) -> bool {
    &&& 0 <= seek_target(position, pos) <= CAPACITY_BYTES
    &&& (pos matches SeekFrom::Start(offset) ==> offset <= i64::MAX)
}

/// The length of the span a cursor at `position` serves for a request of
/// `requested` bytes: the request clamped to what remains before the
/// capacity.
pub open spec fn clamped_len(position: u32, requested: nat) -> nat {
    let remaining = if position <= CAPACITY_BYTES {
        (CAPACITY_BYTES - position) as nat
    } else {
        0
    };
    if requested <= remaining {
        requested
    } else {
        remaining
    }
}

/// Seekable cursor state over the chip's byte range.
pub struct MramCursor {
    position: u32,
}

impl MramCursor {
    /// The current position, as the contracts see it.
    pub closed spec fn position_spec(&self) -> u32 {
        self.position
    }

    /// A cursor position never exceeds the capacity.
    pub open spec fn inv(&self) -> bool {
        self.position_spec() <= CAPACITY_BYTES
    }

    /// Creates a new cursor at position `0`.
    pub fn new() -> (r: Self)
        ensures
            r.position_spec() == 0,
            r.inv(),
    {
        MramCursor { position: 0 }
    }

    /// Creates a new cursor starting at the provided byte offset.
    pub fn at<E>(position: u32) -> (r: Result<Self, IoError<E>>)
        ensures
            match r {
                Ok(cursor) => position <= CAPACITY_BYTES && cursor.position_spec() == position
                    && cursor.inv(),
                Err(e) => position > CAPACITY_BYTES && e == IoError::<E>::InvalidSeek,
            },
    {
        if position > CAPACITY_BYTES {
            return Err(IoError::InvalidSeek);
        }
        Ok(MramCursor { position })
    }

    /// Current cursor position.
    pub fn position(&self) -> (r: u32)
        ensures
            r == self.position_spec(),
    {
        self.position
    }

    /// Claims the span a read of up to `buf_len` bytes covers and advances
    /// the position over it.
    ///
    /// The span starts at the old position and holds `buf_len` bytes clamped
    /// to what remains before the capacity — at the end of the range the
    /// span is empty rather than an error. The new position is exactly the
    /// old position plus the span length.
    pub fn read_span(&mut self, buf_len: usize) -> (r: (u32, usize))
        requires
            old(self).inv(),
        ensures
            final(self).inv(),
            r.0 == old(self).position_spec(),
            r.1 == clamped_len(old(self).position_spec(), buf_len as nat),
            final(self).position_spec() == old(self).position_spec() + r.1,
    {
        let start = self.position;
        let remaining = (CAPACITY_BYTES - self.position) as usize;
        let len = if buf_len <= remaining {
            buf_len
        } else {
            remaining
        };
        self.position = self.position + len as u32;
        (start, len)
    }

    /// Claims the span a write of up to `buf_len` bytes covers and advances
    /// the position over it — symmetric to [`Self::read_span`]: the write is
    /// shortened at the capacity boundary, never rejected.
    pub fn write_span(&mut self, buf_len: usize) -> (r: (u32, usize))
        requires
            old(self).inv(),
        ensures
            final(self).inv(),
            r.0 == old(self).position_spec(),
            r.1 == clamped_len(old(self).position_spec(), buf_len as nat),
            final(self).position_spec() == old(self).position_spec() + r.1,
    {
        let start = self.position;
        let remaining = (CAPACITY_BYTES - self.position) as usize;
        let len = if buf_len <= remaining {
            buf_len
        } else {
            remaining
        };
        self.position = self.position + len as u32;
        (start, len)
    }

    /// Flush is a no-op: the driver below has no write buffering.
    pub fn flush(&mut self)
        ensures
            *final(self) == *old(self),
    {
    }

    /// Seeks to `pos`.
    ///
    /// The target is computed as a signed 64-bit value; a target outside
    /// `0 ..= CAPACITY_BYTES` (including any overflow or underflow in the
    /// computation) is rejected as an invalid seek and the position is left
    /// unchanged. Seeking exactly to the capacity succeeds.
    pub fn seek<E>(&mut self, pos: SeekFrom) -> (r: Result<u64, IoError<E>>)
        requires
            old(self).inv(),
        ensures
            final(self).inv(),
            match r {
                Ok(new_pos) => seek_valid(old(self).position_spec(), pos) && new_pos
                    == seek_target(old(self).position_spec(), pos) && final(self).position_spec()
                    == seek_target(old(self).position_spec(), pos),
                Err(e) => !seek_valid(old(self).position_spec(), pos) && e
                    == IoError::<E>::InvalidSeek && *final(self) == *old(self),
            },
    {
        let cap = CAPACITY_BYTES as i64;
        let cur = self.position as i64;

        let next: i64 = match pos {
            SeekFrom::Start(offset) => {
                if offset > i64::MAX as u64 {
                    return Err(IoError::InvalidSeek);
                }
                offset as i64
            },
            SeekFrom::End(offset) => {
                match cap.checked_add(offset) {
                    Some(next) => next,
                    None => {
                        return Err(IoError::InvalidSeek);
                    },
                }
            },
            SeekFrom::Current(offset) => {
                match cur.checked_add(offset) {
                    Some(next) => next,
                    None => {
                        return Err(IoError::InvalidSeek);
                    },
                }
            },
        };

        if next < 0 || next > cap {
            return Err(IoError::InvalidSeek);
        }

        self.position = next as u32;
        Ok(next as u64)
    }
}

} // verus!
