use mmap_append::advice::Advice;
use mmap_append::append::{ByteRange, MmapAppend};
use mmap_append::errors::Error;

fn fresh(len: usize) -> MmapAppend {
    MmapAppend::map_append(vec![0u8; len], true).expect("region large enough")
}

#[test]
fn construct_too_small_fails() {
    for len in 0..16 {
        let r = MmapAppend::map_append(vec![0u8; len], true);
        assert_eq!(r.unwrap_err(), Error::InsufficientFileSize);
        let r = MmapAppend::map_append(vec![0xFFu8; len], false);
        assert_eq!(r.unwrap_err(), Error::InsufficientFileSize);
    }
}

#[test]
fn create_initializes_header() {
    let buf = MmapAppend::map_append(vec![0xFFu8; 32], true).unwrap();
    assert_eq!(buf.len(), 32);
    assert_eq!(buf.append_offset(), 16);
    assert!(!buf.is_append_locked());
    assert!(!buf.is_pinned());
    let bytes = buf.as_slice();
    assert_eq!(&bytes[0..8], &[0u8; 8]);
    assert_eq!(&bytes[8..16], &[16, 0, 0, 0, 0, 0, 0, 0]);
    // Data bytes are left as they were found.
    assert_eq!(&bytes[16..32], &[0xFFu8; 16]);
}

#[test]
fn open_existing_keeps_header() {
    let mut buf = fresh(32);
    buf.append(b"hello").unwrap();
    let region = buf.into_region();
    let reopened = MmapAppend::map_append(region, false).unwrap();
    assert_eq!(reopened.append_offset(), 21);
    assert_eq!(&reopened.as_slice()[16..21], b"hello");
}

#[test]
fn open_existing_rejects_bad_offset() {
    // Recorded append offset runs past the end of the region.
    let mut region = vec![0u8; 32];
    region[8] = 40;
    let r = MmapAppend::map_append(region, false);
    assert_eq!(r.unwrap_err(), Error::RangeOutOfBounds);

    // Recorded append offset points inside the header.
    let region = vec![0u8; 32];
    let r = MmapAppend::map_append(region, false);
    assert_eq!(r.unwrap_err(), Error::RangeOutOfBounds);
}

#[test]
fn open_existing_accepts_held_lock() {
    // Another holder of the mapping may own the append lock.
    let mut region = vec![0u8; 32];
    region[0] = 7;
    region[8] = 16;
    let buf = MmapAppend::map_append(region, false).unwrap();
    assert!(buf.is_append_locked());
}

#[test]
fn append_returns_range_and_writes_data() {
    let mut buf = fresh(32);
    let range = buf.append(b"abc").unwrap();
    assert_eq!(range, ByteRange { start: 16, end: 19 });
    assert_eq!(buf.append_offset(), 19);
    assert_eq!(&buf.as_slice()[16..19], b"abc");
    assert!(!buf.is_append_locked());
}

#[test]
fn append_preserves_earlier_ranges() {
    let mut buf = fresh(64);
    let first = buf.append(b"first").unwrap();
    let second = buf.append(b"second").unwrap();
    assert_eq!(first, ByteRange { start: 16, end: 21 });
    assert_eq!(second, ByteRange { start: 21, end: 27 });
    assert_eq!(&buf.as_slice()[first.start..first.end], b"first");
    assert_eq!(&buf.as_slice()[second.start..second.end], b"second");
}

#[test]
fn append_offsets_account_for_every_byte() {
    let mut buf = fresh(128);
    let lens = [5usize, 1, 0, 17, 9];
    let mut total = 0;
    let mut all: Vec<u8> = Vec::new();
    for (i, len) in lens.into_iter().enumerate() {
        let data = vec![0xA0u8 + i as u8; len];
        buf.append(&data).unwrap();
        all.extend_from_slice(&data);
        total += len;
    }
    // The offset has advanced by exactly the sum of the appended lengths,
    // and the committed bytes are the appends laid end to end.
    assert_eq!(buf.append_offset(), 16 + total);
    assert_eq!(&buf.as_slice()[16..16 + total], &all[..]);
}

#[test]
fn append_offset_is_encoded_little_endian() {
    let mut buf = fresh(600);
    buf.append(&vec![1u8; 260]).unwrap();
    assert_eq!(buf.append_offset(), 276);
    // 276 == 0x114
    assert_eq!(&buf.as_slice()[8..16], &[0x14, 0x01, 0, 0, 0, 0, 0, 0]);
}

#[test]
fn append_capacity_exceeded_leaves_region_unchanged() {
    let mut buf = fresh(20);
    let before = buf.as_slice().to_vec();
    let r = buf.append(b"12345");
    assert_eq!(r.unwrap_err(), Error::CapacityExceeded);
    assert_eq!(buf.append_offset(), 16);
    assert_eq!(buf.as_slice(), &before[..]);
    assert!(!buf.is_append_locked());

    // Filling the region exactly still succeeds.
    let range = buf.append(b"1234").unwrap();
    assert_eq!(range, ByteRange { start: 16, end: 20 });
    // And the full region accepts nothing more but the empty append.
    assert_eq!(buf.append(b"x").unwrap_err(), Error::CapacityExceeded);
    assert_eq!(buf.append(b"").unwrap(), ByteRange { start: 20, end: 20 });
}

#[test]
fn append_while_locked_times_out() {
    let mut buf = fresh(32);
    buf.acquire_append_lock(3).unwrap();
    let before = buf.as_slice().to_vec();
    assert_eq!(buf.append(b"abc").unwrap_err(), Error::LockTimeout);
    assert_eq!(buf.as_slice(), &before[..]);
    buf.release_append_lock();
    assert_eq!(buf.append(b"abc").unwrap(), ByteRange { start: 16, end: 19 });
}

#[test]
fn flush_shows_appended_data_on_reopen() {
    let mut buf = fresh(32);
    buf.append(b"abc").unwrap();
    buf.flush().unwrap();
    // Hand the bytes back, as the backing file would show them.
    let file = buf.into_region();
    assert_eq!(&file[16..19], b"abc");
    let reopened = MmapAppend::map_append(file, false).unwrap();
    assert_eq!(reopened.append_offset(), 19);
    assert_eq!(&reopened.as_slice()[16..19], b"abc");
}

#[test]
fn whole_region_flush_and_advise_succeed() {
    let mut buf = fresh(32);
    assert_eq!(buf.flush(), Ok(()));
    assert_eq!(buf.flush_async(), Ok(()));
    assert_eq!(buf.advise(Advice::Sequential), Ok(()));
    assert_eq!(buf.lock(), Ok(()));
    assert!(buf.is_pinned());
    assert_eq!(buf.unlock(), Ok(()));
    assert!(!buf.is_pinned());
}

#[test]
fn ranged_flush_and_advise_validate_bounds() {
    let buf = fresh(32);
    assert_eq!(buf.flush_range(0, 32), Ok(()));
    assert_eq!(buf.flush_range(16, 16), Ok(()));
    assert_eq!(buf.flush_range(32, 0), Ok(()));
    assert_eq!(buf.flush_range(16, 17).unwrap_err(), Error::RangeOutOfBounds);
    assert_eq!(buf.flush_range(33, 0).unwrap_err(), Error::RangeOutOfBounds);
    assert_eq!(
        buf.flush_range(usize::MAX, usize::MAX).unwrap_err(),
        Error::RangeOutOfBounds
    );
    assert_eq!(buf.flush_async_range(0, 32), Ok(()));
    assert_eq!(buf.flush_async_range(1, 32).unwrap_err(), Error::RangeOutOfBounds);
    assert_eq!(buf.advise_range(Advice::WillNeed, 0, 32), Ok(()));
    assert_eq!(buf.advise_range(Advice::DontNeed, 30, 2), Ok(()));
    assert_eq!(
        buf.advise_range(Advice::Random, 30, 3).unwrap_err(),
        Error::RangeOutOfBounds
    );
}

#[test]
fn sequential_lock_cycles_never_wait() {
    let mut buf = fresh(32);
    let before = buf.as_slice().to_vec();
    for _ in 0..2 {
        buf.acquire_append_lock(1).unwrap();
        assert!(buf.is_append_locked());
        buf.release_append_lock();
        assert!(!buf.is_append_locked());
    }
    // Two full cycles leave every byte of the region as it was.
    assert_eq!(buf.as_slice(), &before[..]);
}

#[test]
fn second_acquire_waits_for_external_release() {
    let mut buf = fresh(32);
    buf.acquire_append_lock(5).unwrap();
    // The lock records no owner: a second acquire from the same holder is
    // the same as one from anybody else, and times out while the lock is
    // held.
    assert_eq!(buf.acquire_append_lock(100).unwrap_err(), Error::LockTimeout);
    buf.release_append_lock();
    assert_eq!(buf.acquire_append_lock(1), Ok(()));
}

#[test]
fn try_acquire_reports_lock_state() {
    let mut buf = fresh(32);
    assert!(buf.try_acquire_append_lock());
    assert!(!buf.try_acquire_append_lock());
    buf.release_append_lock();
    assert!(buf.try_acquire_append_lock());
}

#[test]
fn pinning_is_independent_of_append_lock() {
    let mut buf = fresh(32);
    buf.lock().unwrap();
    assert!(buf.is_pinned());
    assert!(!buf.is_append_locked());
    buf.acquire_append_lock(1).unwrap();
    assert!(buf.is_pinned());
    buf.unlock().unwrap();
    assert!(buf.is_append_locked());
    buf.release_append_lock();
}
