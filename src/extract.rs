//! Bookkeeping of a chunked copy of one region to its output file.
//!
//! The caller seeks to the region, then repeatedly asks [`RangeCopy::next_read_len`]
//! how much to read, reads, writes what it read, and reports the count back
//! with [`RangeCopy::record_read`] until [`RangeCopy::is_done`].
use vstd::prelude::*;

use crate::error::UnpackError;

verus! {

/// Size of the buffer that a region is copied through.
pub const CHUNK_SIZE: usize = 16 * 1024;

/// Progress of copying `length` bytes; `remaining` are still to come.
#[derive(Copy, Clone, Debug)]
pub struct RangeCopy {
    pub length: u64,
    pub remaining: u64,
}

impl RangeCopy {
    pub open spec fn wf(self) -> bool {
        self.remaining <= self.length
    }

    /// Bytes copied so far.
    pub open spec fn copied(self) -> int {
        self.length - self.remaining
    }

    /// A copy of `length` bytes that has not started.
    pub fn new(length: u64) -> (r: RangeCopy)
        ensures
            r.wf(),
            r.length == length,
            r.copied() == 0,
    {
        RangeCopy { length, remaining: length }
    }

    /// How many bytes the next read asks for, through a buffer of `buf_len`.
    pub fn next_read_len(&self, buf_len: usize) -> (r: usize)
        ensures
            r as int == if self.remaining < buf_len {
                self.remaining as int
            } else {
                buf_len as int
            },
    {
        if self.remaining < buf_len as u64 {
            self.remaining as usize
        } else {
            buf_len
        }
    }

    /// Records a read that asked for `requested` bytes and got `got`. A short
    /// read means the source holds less than its header promised: the copy
    /// fails and its state stays as it was.
    pub fn record_read(&mut self, requested: usize, got: usize) -> (r: Result<(), UnpackError>)
        requires
            old(self).wf(),
            requested <= old(self).remaining,
        ensures
            final(self).wf(),
            final(self).length == old(self).length,
            got == requested ==> r is Ok && final(self).copied() == old(self).copied() + requested,
            got != requested ==> r == Err::<(), UnpackError>(
                UnpackError::TruncatedSource { needed: requested as u64, available: got as u64 },
            ) && *final(self) == *old(self),
    {
        if got != requested {
            return Err(UnpackError::TruncatedSource { needed: requested as u64, available: got as u64 });
        }
        self.remaining = self.remaining - requested as u64;
        Ok(())
    }

    /// The whole region has been copied: exactly `length` bytes.
    pub fn is_done(&self) -> (r: bool)
        requires
            self.wf(),
        ensures
            r <==> self.copied() == self.length,
    {
        self.remaining == 0
    }
}

} // verus!
