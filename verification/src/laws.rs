//! Properties of the append protocol, stated and proved over the region
//! model that the operations' contracts use.

use vstd::prelude::*;
use crate::append::{append_offset_of, appended, can_append, header_wf, lock_word_of};
use crate::codec::{
    lemma_le64_agree, lemma_le64_zero_bytes, lemma_store64_le64, lemma_store64_preserves,
    lemma_zero_le_bytes, store64_at, HEADER_BYTES, WORD_BYTES,
};

verus! {

/// A successful append advances the append offset by exactly the data
/// length, leaves the lock word as it was, and keeps the header well
/// formed.
pub proof fn lemma_appended_header(r: Seq<u8>, d: Seq<u8>)
    requires
        can_append(r, d),
    ensures
        appended(r, d).len() == r.len(),
        append_offset_of(appended(r, d)) == append_offset_of(r) + d.len(),
        lock_word_of(appended(r, d)) == lock_word_of(r),
        header_wf(appended(r, d)),
{
    let off = append_offset_of(r);
    let n = off + d.len();
    let base = store64_at(r, WORD_BYTES as int, n);
    lemma_store64_le64(r, WORD_BYTES as int, n);
    lemma_store64_preserves(r, WORD_BYTES as int, n);
    lemma_le64_agree(appended(r, d), base, WORD_BYTES as int);
    lemma_le64_agree(appended(r, d), base, 0);
    lemma_le64_agree(base, r, 0);
}

/// An append never moves or rewrites previously committed bytes: ranges
/// handed out by earlier appends stay valid, and the appended data sits at
/// the old committed end.
pub proof fn lemma_append_preserves_committed(r: Seq<u8>, d: Seq<u8>)
    requires
        can_append(r, d),
    ensures
        appended(r, d).len() == r.len(),
        forall|j: int|
            HEADER_BYTES <= j < append_offset_of(r) ==> #[trigger] appended(r, d)[j] == r[j],
        forall|j: int|
            0 <= j < d.len() ==> #[trigger] appended(r, d)[append_offset_of(r) + j] == d[j],
{
    lemma_store64_preserves(r, WORD_BYTES as int, append_offset_of(r) + d.len());
}

/// The region after a run of appends, each performed on the region the
/// previous one left.
pub open spec fn appended_all(r: Seq<u8>, ds: Seq<Seq<u8>>) -> Seq<u8>
    decreases ds.len(),
{
    if ds.len() == 0 {
        r
    } else {
        appended_all(appended(r, ds[0]), ds.drop_first())
    }
}

/// Every append in the run can succeed on the region the previous one left.
pub open spec fn all_can_append(r: Seq<u8>, ds: Seq<Seq<u8>>) -> bool
    decreases ds.len(),
{
    if ds.len() == 0 {
        true
    } else {
        can_append(r, ds[0]) && all_can_append(appended(r, ds[0]), ds.drop_first())
    }
}

/// The number of bytes the run appends in total.
pub open spec fn total_len(ds: Seq<Seq<u8>>) -> int
    decreases ds.len(),
{
    if ds.len() == 0 {
        0
    } else {
        ds[0].len() + total_len(ds.drop_first())
    }
}

/// Appends account for every byte: however many successful appends a
/// region has seen, the append offset has advanced by exactly the sum of
/// their lengths.
pub proof fn lemma_append_offset_accounts(r: Seq<u8>, ds: Seq<Seq<u8>>)
    requires
        all_can_append(r, ds),
    ensures
        append_offset_of(appended_all(r, ds)) == append_offset_of(r) + total_len(ds),
    decreases ds.len(),
{
    if ds.len() > 0 {
        lemma_appended_header(r, ds[0]);
        lemma_append_offset_accounts(appended(r, ds[0]), ds.drop_first());
    }
}

/// A run of appends keeps the header well formed and never touches bytes
/// committed before the run began.
pub proof fn lemma_appended_all_preserves(r: Seq<u8>, ds: Seq<Seq<u8>>)
    requires
        header_wf(r),
        all_can_append(r, ds),
    ensures
        appended_all(r, ds).len() == r.len(),
        header_wf(appended_all(r, ds)),
        forall|j: int|
            HEADER_BYTES <= j < append_offset_of(r) ==> #[trigger] appended_all(r, ds)[j] == r[j],
    decreases ds.len(),
{
    if ds.len() > 0 {
        lemma_appended_header(r, ds[0]);
        lemma_append_preserves_committed(r, ds[0]);
        lemma_appended_all_preserves(appended(r, ds[0]), ds.drop_first());
    }
}

/// The bytes of the run, in order.
pub open spec fn concat_all(ds: Seq<Seq<u8>>) -> Seq<u8>
    decreases ds.len(),
{
    if ds.len() == 0 {
        Seq::empty()
    } else {
        ds[0] + concat_all(ds.drop_first())
    }
}

/// The run's bytes laid end to end are as long as the run in total.
pub proof fn lemma_concat_all_len(ds: Seq<Seq<u8>>)
    ensures
        concat_all(ds).len() == total_len(ds),
    decreases ds.len(),
{
    if ds.len() > 0 {
        lemma_concat_all_len(ds.drop_first());
    }
}

/// What a run of appends commits is exactly the appended data, laid end to
/// end starting at the old committed end: the region between the append
/// offset before the run and the append offset after it holds the
/// concatenation of the appends, and nothing else was committed.
pub proof fn lemma_appends_commit_their_bytes(r: Seq<u8>, ds: Seq<Seq<u8>>)
    requires
        header_wf(r),
        all_can_append(r, ds),
    ensures
        appended_all(r, ds).subrange(
            append_offset_of(r),
            append_offset_of(r) + total_len(ds),
        ) == concat_all(ds),
    decreases ds.len(),
{
    let off = append_offset_of(r);
    lemma_concat_all_len(ds);
    lemma_append_offset_accounts(r, ds);
    lemma_appended_all_preserves(r, ds);
    if ds.len() == 0 {
        assert(appended_all(r, ds).subrange(off, off) =~= concat_all(ds));
    } else {
        let d0 = ds[0];
        let r1 = appended(r, d0);
        let rest = ds.drop_first();
        lemma_appended_header(r, d0);
        lemma_append_preserves_committed(r, d0);
        lemma_appended_all_preserves(r1, rest);
        lemma_append_offset_accounts(r1, rest);
        lemma_concat_all_len(rest);
        lemma_appends_commit_their_bytes(r1, rest);
        let off1 = append_offset_of(r1);
        let whole = appended_all(r, ds);
        assert(whole == appended_all(r1, rest));
        assert forall|j: int| 0 <= j < d0.len() implies whole[off + j] == d0[j] by {
            assert(whole[off + j] == r1[off + j]);
        }
        assert forall|j: int| d0.len() <= j < total_len(ds) implies #[trigger] whole[off + j]
            == concat_all(rest)[j - d0.len()] by {
            assert(appended_all(r1, rest).subrange(off1, off1 + total_len(rest))[j - d0.len()]
                == whole[off + j]);
        }
        assert(whole.subrange(off, off + total_len(ds)) =~= concat_all(ds));
    }
}

/// Releasing always leaves the lock word clear, so an acquire that follows
/// a release succeeds: sequential acquire/release cycles never wait.
pub proof fn lemma_release_unlocks(r: Seq<u8>)
    requires
        r.len() >= HEADER_BYTES,
    ensures
        lock_word_of(store64_at(r, 0, 0)) == 0,
{
    lemma_store64_le64(r, 0, 0);
}

/// A taken lock reads back as held: an acquire issued before the matching
/// release finds a nonzero lock word, and a bounded acquire then times out
/// instead of proceeding.
pub proof fn lemma_acquire_excludes(r: Seq<u8>)
    requires
        r.len() >= HEADER_BYTES,
    ensures
        lock_word_of(store64_at(r, 0, 1)) != 0,
{
    lemma_store64_le64(r, 0, 1);
}

/// A full acquire/release cycle on an unlocked region puts every byte back
/// exactly as it was, so any number of sequential cycles leaves the region
/// unchanged.
pub proof fn lemma_cycle_restores(r: Seq<u8>)
    requires
        r.len() >= HEADER_BYTES,
        lock_word_of(r) == 0,
    ensures
        store64_at(store64_at(r, 0, 1), 0, 0) == r,
{
    lemma_le64_zero_bytes(r, 0);
    lemma_zero_le_bytes();
    assert(store64_at(store64_at(r, 0, 1), 0, 0) =~= r);
}

} // verus!
