//! The append buffer over a mapped byte region.
//!
//! The first two header words of the region carry the coordination state
//! shared by every holder of the mapping: a lock word (zero means unlocked,
//! any other value locked, with no owner recorded) and the append offset,
//! the byte position one past the end of committed data.  The append offset
//! always lies between the end of the header and the end of the region, and
//! a successful append only ever advances it.

use vstd::prelude::*;
use crate::advice::Advice;
use crate::codec::{
    le64_at, lemma_le64_agree, lemma_le64_zero_bytes, lemma_store64_le64, lemma_store64_preserves,
    lemma_zero_le_bytes, read_word_at, store64_at, write_bytes_at, write_word_at, written,
    HEADER_BYTES, WORD_BYTES, WORD_LIMIT,
};
use crate::errors::Error;
use crate::laws::lemma_appended_header;

verus! {

/// The lock word of a region: zero when the append lock is free.
pub open spec fn lock_word_of(r: Seq<u8>) -> int {
    le64_at(r, 0)
}

/// The append offset of a region: one past the end of committed data.
pub open spec fn append_offset_of(r: Seq<u8>) -> int {
    le64_at(r, WORD_BYTES as int)
}

/// A region whose header can be trusted: it is long enough to hold the
/// header, short enough that its length fits in a header word, and the
/// recorded append offset lies between the header and the end.
pub open spec fn header_wf(r: Seq<u8>) -> bool {
    &&& HEADER_BYTES <= r.len() < WORD_LIMIT
    &&& HEADER_BYTES <= append_offset_of(r) <= r.len()
}

/// A region as first-time initialization leaves it: the lock word cleared
/// and the append offset placed right after the header.
pub open spec fn initialized(r: Seq<u8>) -> Seq<u8> {
    store64_at(store64_at(r, 0, 0), WORD_BYTES as int, HEADER_BYTES as int)
}

/// An append of `d` to `r` can succeed: the header is well formed, the
/// append lock is free, and `d` fits between the committed end and the end
/// of the region.
pub open spec fn can_append(r: Seq<u8>, d: Seq<u8>) -> bool {
    &&& header_wf(r)
    &&& lock_word_of(r) == 0
    &&& append_offset_of(r) + d.len() <= r.len()
}

/// The region after a successful append of `d`: the append-offset word
/// records the new committed end, `d` sits at the old one, and every other
/// byte — the lock word included — is unchanged.
pub open spec fn appended(r: Seq<u8>, d: Seq<u8>) -> Seq<u8> {
    written(
        store64_at(r, WORD_BYTES as int, append_offset_of(r) + d.len()),
        append_offset_of(r),
        d,
    )
}

/// The half-open range of region bytes that an append occupied.
#[derive(Clone, Copy, Debug, PartialEq, Eq, Structural)]
pub struct ByteRange {
    /// First byte of the range.
    pub start: usize,
    /// One past the last byte of the range.
    pub end: usize,
}

/// A handle to an append-only memory-mapped buffer.
///
/// The buffer holds the mapped bytes and never caches the append offset
/// outside of them: every operation that needs the committed end re-reads
/// the header, since another holder of the same mapping may have advanced
/// it.  The OS mapping itself — creation, flushing, page pinning — is the
/// embedding application's business; the buffer validates every request
/// against its bounds and keeps the header consistent.
#[derive(Debug)]
pub struct MmapAppend {
    region: Vec<u8>,
    pinned: bool,
}

impl View for MmapAppend {
    type V = Seq<u8>;

    closed spec fn view(&self) -> Seq<u8> {
        self.region@
    }
}

impl MmapAppend {
    /// The buffer's region has a well-formed header.
    pub open spec fn wf(self) -> bool {
        header_wf(self@)
    }

    /// Whether the mapped pages are currently requested to stay resident.
    pub closed spec fn pinned_view(self) -> bool {
        self.pinned
    }

    /// Wraps a mapped byte region as an append buffer.
    ///
    /// A region too short for the two-word header is refused with
    /// [`Error::InsufficientFileSize`].  With `create` the header is
    /// initialized: the lock word is cleared and the append offset set to
    /// the first byte after the header.  Without `create` the header found
    /// in the bytes is kept — another holder may legitimately own the lock —
    /// and only validated: a recorded append offset outside the region is
    /// refused with [`Error::RangeOutOfBounds`].
    pub fn map_append(region: Vec<u8>, create: bool) -> (r: Result<MmapAppend, Error>)
        ensures
            region@.len() < HEADER_BYTES ==> r == Err::<MmapAppend, Error>(
                Error::InsufficientFileSize,
            ),
            region@.len() >= HEADER_BYTES && create ==> {
                &&& r matches Ok(m)
                &&& m@ == initialized(region@)
                &&& m.wf()
                &&& !m.pinned_view()
            },
            region@.len() >= HEADER_BYTES && !create && HEADER_BYTES <= append_offset_of(region@)
                <= region@.len() ==> {
                &&& r matches Ok(m)
                &&& m@ == region@
                &&& m.wf()
                &&& !m.pinned_view()
            },
            region@.len() >= HEADER_BYTES && !create && !(HEADER_BYTES <= append_offset_of(
                region@,
            ) <= region@.len()) ==> r == Err::<MmapAppend, Error>(Error::RangeOutOfBounds),
    {
        if region.len() < HEADER_BYTES {
            return Err(Error::InsufficientFileSize);
        }
        let mut region = region;
        if create {
            let ghost orig = region@;
            write_word_at(&mut region, 0, 0);
            let ghost cleared = region@;
            write_word_at(&mut region, WORD_BYTES, HEADER_BYTES as u64);
            proof {
                lemma_store64_le64(cleared, WORD_BYTES as int, HEADER_BYTES as int);
            }
            Ok(MmapAppend { region, pinned: false })
        } else {
            let end = read_word_at(&region, WORD_BYTES);
            if end < HEADER_BYTES as u64 || end > region.len() as u64 {
                return Err(Error::RangeOutOfBounds);
            }
            Ok(MmapAppend { region, pinned: false })
        }
    }

    /// Appends `data` at the committed end and returns the byte range it
    /// now occupies.
    ///
    /// The append lock is taken for the duration of the copy; a buffer that
    /// finds the lock already held — by itself through
    /// [`acquire_append_lock`](Self::acquire_append_lock) or by another
    /// holder of the mapping — reports [`Error::LockTimeout`] rather than
    /// spinning forever.  Data that does not fit between the committed end
    /// and the end of the region is refused with [`Error::CapacityExceeded`],
    /// and the region — offset word, lock word and contents — is left
    /// exactly as it was.  On success, everything below the old committed
    /// end is unchanged: ranges returned by earlier appends stay valid.
    pub fn append(&mut self, data: &[u8]) -> (r: Result<ByteRange, Error>)
        requires
            old(self).wf(),
        ensures
            final(self).wf(),
            final(self).pinned_view() == old(self).pinned_view(),
            lock_word_of(old(self)@) != 0 ==> r == Err::<ByteRange, Error>(Error::LockTimeout)
                && final(self)@ == old(self)@,
            lock_word_of(old(self)@) == 0 && append_offset_of(old(self)@) + data@.len()
                > old(self)@.len() ==> r == Err::<ByteRange, Error>(Error::CapacityExceeded)
                && final(self)@ == old(self)@,
            can_append(old(self)@, data@) ==> {
                &&& r matches Ok(rg)
                &&& rg.start == append_offset_of(old(self)@)
                &&& rg.end == append_offset_of(old(self)@) + data@.len()
                &&& final(self)@ == appended(old(self)@, data@)
            },
    {
        let ghost s0 = self@;
        let lock = read_word_at(&self.region, 0);
        if lock != 0 {
            return Err(Error::LockTimeout);
        }
        // Take the append lock.
        write_word_at(&mut self.region, 0, 1);
        let ghost s1 = self@;
        proof {
            lemma_store64_preserves(s0, 0, 1);
            lemma_le64_agree(s1, s0, WORD_BYTES as int);
            lemma_le64_zero_bytes(s0, 0);
            lemma_zero_le_bytes();
        }
        // Re-read the committed end while holding the lock.
        let region_len = self.region.len();
        let end64 = read_word_at(&self.region, WORD_BYTES);
        let end = end64 as usize;
        if data.len() > region_len - end {
            // Nothing was written; give the lock back.
            write_word_at(&mut self.region, 0, 0);
            proof {
                assert(self@ =~= s0);
            }
            return Err(Error::CapacityExceeded);
        }
        write_bytes_at(&mut self.region, end, data);
        let ghost s2 = self@;
        let new_end = end64 + data.len() as u64;
        write_word_at(&mut self.region, WORD_BYTES, new_end);
        let ghost s3 = self@;
        // Release the append lock; the data and the new offset are committed.
        write_word_at(&mut self.region, 0, 0);
        proof {
            lemma_appended_header(s0, data@);
            assert(self@ =~= appended(s0, data@));
        }
        Ok(ByteRange { start: end, end: end + data.len() })
    }

    /// Makes one attempt to take the append lock, succeeding exactly when
    /// the lock word is currently clear.
    pub fn try_acquire_append_lock(&mut self) -> (r: bool)
        requires
            old(self).wf(),
        ensures
            final(self).wf(),
            final(self).pinned_view() == old(self).pinned_view(),
            r == (lock_word_of(old(self)@) == 0),
            r ==> final(self)@ == store64_at(old(self)@, 0, 1),
            !r ==> final(self)@ == old(self)@,
    {
        let ghost s0 = self@;
        let lock = read_word_at(&self.region, 0);
        if lock != 0 {
            return false;
        }
        write_word_at(&mut self.region, 0, 1);
        proof {
            lemma_store64_preserves(s0, 0, 1);
            lemma_le64_agree(self@, s0, WORD_BYTES as int);
        }
        true
    }

    /// Takes the append lock, retrying up to `max_retries` times, and fails
    /// with [`Error::LockTimeout`] once the budget is spent.
    ///
    /// The lock records no owner: a holder that acquires twice without
    /// releasing waits on itself, and the bounded budget is what turns that
    /// misuse — or a crashed holder elsewhere — into an error instead of a
    /// hang.
    pub fn acquire_append_lock(&mut self, max_retries: usize) -> (r: Result<(), Error>)
        requires
            old(self).wf(),
            max_retries >= 1,
        ensures
            final(self).wf(),
            final(self).pinned_view() == old(self).pinned_view(),
            lock_word_of(old(self)@) == 0 ==> r == Ok::<(), Error>(()) && final(self)@
                == store64_at(old(self)@, 0, 1),
            lock_word_of(old(self)@) != 0 ==> r == Err::<(), Error>(Error::LockTimeout)
                && final(self)@ == old(self)@,
    {
        if self.try_acquire_append_lock() {
            return Ok(());
        }
        let mut tries: usize = 1;
        while tries < max_retries
            invariant
                self@ == old(self)@,
                self.pinned_view() == old(self).pinned_view(),
                self.wf(),
                lock_word_of(self@) != 0,
                tries <= max_retries,
            decreases max_retries - tries,
        {
            if self.try_acquire_append_lock() {
                return Ok(());
            }
            tries = tries + 1;
        }
        Err(Error::LockTimeout)
    }

    /// Releases the append lock by clearing the lock word.
    ///
    /// The lock records no owner, so a release not paired with an acquire
    /// clears a lock somebody else may hold; pairing the calls is the
    /// caller's duty, exactly as with the mapping's other holders.
    pub fn release_append_lock(&mut self)
        requires
            old(self).wf(),
        ensures
            final(self).wf(),
            final(self).pinned_view() == old(self).pinned_view(),
            final(self)@ == store64_at(old(self)@, 0, 0),
    {
        let ghost s0 = self@;
        write_word_at(&mut self.region, 0, 0);
        proof {
            lemma_store64_preserves(s0, 0, 0);
            lemma_le64_agree(self@, s0, WORD_BYTES as int);
        }
    }

    /// Forces the whole mapped region out to the backing file.
    pub fn flush(&self) -> (r: Result<(), Error>)
        ensures
            r == Ok::<(), Error>(()),
    {
        self.flush_range(0, self.region.len())
    }

    /// Schedules the whole mapped region to be written out, without waiting.
    pub fn flush_async(&self) -> (r: Result<(), Error>)
        ensures
            r == Ok::<(), Error>(()),
    {
        self.flush_async_range(0, self.region.len())
    }

    /// Forces the given byte range out to the backing file, refusing a
    /// range that runs past the end of the region.
    pub fn flush_range(&self, offset: usize, len: usize) -> (r: Result<(), Error>)
        ensures
            offset + len <= self@.len() ==> r == Ok::<(), Error>(()),
            offset + len > self@.len() ==> r == Err::<(), Error>(Error::RangeOutOfBounds),
    {
        if self.range_ok(offset, len) {
            Ok(())
        } else {
            Err(Error::RangeOutOfBounds)
        }
    }

    /// Schedules the given byte range to be written out, refusing a range
    /// that runs past the end of the region.
    pub fn flush_async_range(&self, offset: usize, len: usize) -> (r: Result<(), Error>)
        ensures
            offset + len <= self@.len() ==> r == Ok::<(), Error>(()),
            offset + len > self@.len() ==> r == Err::<(), Error>(Error::RangeOutOfBounds),
    {
        if self.range_ok(offset, len) {
            Ok(())
        } else {
            Err(Error::RangeOutOfBounds)
        }
    }

    /// Hints the OS about the expected access pattern for the whole region.
    pub fn advise(&self, advice: Advice) -> (r: Result<(), Error>)
        ensures
            r == Ok::<(), Error>(()),
    {
        self.advise_range(advice, 0, self.region.len())
    }

    /// Hints the OS about the expected access pattern for a byte range,
    /// refusing a range that runs past the end of the region.
    pub fn advise_range(&self, advice: Advice, offset: usize, len: usize) -> (r: Result<
        (),
        Error,
    >)
        ensures
            offset + len <= self@.len() ==> r == Ok::<(), Error>(()),
            offset + len > self@.len() ==> r == Err::<(), Error>(Error::RangeOutOfBounds),
    {
        let _ = advice;
        if self.range_ok(offset, len) {
            Ok(())
        } else {
            Err(Error::RangeOutOfBounds)
        }
    }

    /// Requests that the mapped pages stay resident in physical memory.
    ///
    /// This pins pages; it is unrelated to the append lock kept in the
    /// region's lock word.
    pub fn lock(&mut self) -> (r: Result<(), Error>)
        ensures
            final(self)@ == old(self)@,
            final(self).pinned_view(),
            r == Ok::<(), Error>(()),
    {
        self.pinned = true;
        Ok(())
    }

    /// Releases the request that the mapped pages stay resident.
    ///
    /// This unpins pages; it is unrelated to the append lock kept in the
    /// region's lock word.
    pub fn unlock(&mut self) -> (r: Result<(), Error>)
        ensures
            final(self)@ == old(self)@,
            !final(self).pinned_view(),
            r == Ok::<(), Error>(()),
    {
        self.pinned = false;
        Ok(())
    }

    /// Whether `[offset, offset + len)` lies inside the mapped region.
    fn range_ok(&self, offset: usize, len: usize) -> (r: bool)
        ensures
            r == (offset + len <= self@.len()),
    {
        offset <= self.region.len() && len <= self.region.len() - offset
    }

    /// Whether the region currently carries a well-formed header.
    ///
    /// Unverified callers that took the region from elsewhere can test this
    /// before operations that expect a well-formed buffer.
    pub fn is_wf(&self) -> (r: bool)
        ensures
            r == self.wf(),
    {
        let region_len = self.region.len();
        if region_len < HEADER_BYTES {
            return false;
        }
        let end = read_word_at(&self.region, WORD_BYTES);
        end >= HEADER_BYTES as u64 && end <= region_len as u64
    }

    /// The length of the mapped region in bytes.
    pub fn len(&self) -> (r: usize)
        ensures
            r == self@.len(),
    {
        self.region.len()
    }

    /// The committed end of the data, re-read from the header.
    pub fn append_offset(&self) -> (r: usize)
        requires
            self.wf(),
        ensures
            r == append_offset_of(self@),
    {
        let region_len = self.region.len();
        let end = read_word_at(&self.region, WORD_BYTES);
        proof {
            assert(end <= region_len);
        }
        end as usize
    }

    /// Whether the append lock is currently held, re-read from the header.
    pub fn is_append_locked(&self) -> (r: bool)
        requires
            self.wf(),
        ensures
            r == (lock_word_of(self@) != 0),
    {
        let lock = read_word_at(&self.region, 0);
        lock != 0
    }

    /// Whether the mapped pages are currently requested to stay resident.
    pub fn is_pinned(&self) -> (r: bool)
        ensures
            r == self.pinned_view(),
    {
        self.pinned
    }

    /// Read access to the mapped bytes.
    pub fn as_slice(&self) -> (r: &[u8])
        ensures
            r@ == self@,
    {
        self.region.as_slice()
    }

    /// Gives the mapped bytes back, consuming the buffer.
    pub fn into_region(self) -> (r: Vec<u8>)
        ensures
            r@ == self@,
    {
        self.region
    }
}

} // verus!
