use datastore_core::digest::{Digest, DigestSet};
use datastore_core::error::GcError;
use datastore_core::gc::{
    ChunkInfo, GarbageCollectionStatus, IndexEntry, MarkPhase, SweepAction,
};

fn digest(n: u128) -> Digest {
    Digest { hi: n / 7, lo: n }
}

fn entry(n: u128, size: u64) -> IndexEntry {
    IndexEntry { digest: digest(n), size }
}

fn chunk(n: u128, size: u64, atime: i64) -> ChunkInfo {
    ChunkInfo { digest: digest(n), size, atime, bad: false }
}

fn bad_chunk(n: u128, size: u64, atime: i64) -> ChunkInfo {
    ChunkInfo { digest: digest(n), size, atime, bad: true }
}

const T0: i64 = 1_000_000;

#[test]
fn digest_from_bytes() {
    let mut bytes = [0u8; 32];
    bytes[15] = 1;
    bytes[14] = 2;
    bytes[31] = 0xff;
    bytes[16] = 0x80;
    let d = Digest::from_bytes(&bytes);
    assert_eq!(d.hi, 0x0201);
    assert_eq!(d.lo, (0x80u128 << 120) | 0xff);
    assert_eq!(Digest::from_bytes(&[0xff; 32]), Digest { hi: u128::MAX, lo: u128::MAX });
    assert_eq!(Digest::from_bytes(&[0; 32]), Digest { hi: 0, lo: 0 });
}

#[test]
fn digest_hex() {
    let d = Digest {
        hi: 0x0123456789abcdef0011223344556677,
        lo: 0x8899aabbccddeeff0000000000000001,
    };
    let text = "0123456789abcdef00112233445566778899aabbccddeeff0000000000000001";
    assert_eq!(d.to_hex(), text);
    assert_eq!(Digest::from_hex(text), Some(d));
    assert_eq!(Digest { hi: 0, lo: 0 }.to_hex(), "0".repeat(64));
    assert_eq!(Digest { hi: u128::MAX, lo: u128::MAX }.to_hex(), "f".repeat(64));
    assert_eq!(Digest::from_hex(&"f".repeat(64)), Some(Digest { hi: u128::MAX, lo: u128::MAX }));
    assert_eq!(Digest::from_hex(&"0".repeat(64)), Some(Digest { hi: 0, lo: 0 }));
}

#[test]
fn digest_hex_refused() {
    assert_eq!(Digest::from_hex(""), None);
    assert_eq!(Digest::from_hex(&"0".repeat(63)), None);
    assert_eq!(Digest::from_hex(&"0".repeat(65)), None);
    assert_eq!(Digest::from_hex(&"A".repeat(64)), None);
    assert_eq!(Digest::from_hex(&format!("{}g", "0".repeat(63))), None);
    assert_eq!(Digest::from_hex(&format!("g{}", "0".repeat(63))), None);
    assert_eq!(Digest::from_hex(&format!("{} ", "0".repeat(63))), None);
}

#[test]
fn digest_hex_agrees_with_bytes() {
    let mut bytes = [0u8; 32];
    for (i, b) in bytes.iter_mut().enumerate() {
        *b = (i * 7 + 3) as u8;
    }
    let text: String = bytes.iter().map(|b| format!("{:02x}", b)).collect();
    assert_eq!(Digest::from_hex(&text), Some(Digest::from_bytes(&bytes)));
    assert_eq!(Digest::from_bytes(&bytes).to_hex(), text);
}

#[test]
fn chunk_file_names() {
    let d = Digest { hi: 1, lo: 0xabc };
    let hex = format!("{}1{}abc", "0".repeat(31), "0".repeat(29));
    assert_eq!(d.file_name(false), hex);
    assert_eq!(d.file_name(true), format!("{}.bad", hex));
    assert_eq!(Digest::from_file_name(&hex), Some((d, false)));
    assert_eq!(Digest::from_file_name(&format!("{}.bad", hex)), Some((d, true)));
    assert_eq!(Digest::from_file_name(&format!("{}.bax", hex)), None);
    assert_eq!(Digest::from_file_name(&format!("{}.tmp", hex)), None);
    assert_eq!(Digest::from_file_name(&format!("{}.bad.bad", hex)), None);
    assert_eq!(Digest::from_file_name(&format!("{}xbad", hex)), None);
    assert_eq!(Digest::from_file_name(&hex[1..]), None);
    assert_eq!(Digest::from_file_name(&format!("{}.bad", &hex[..60])), None);
    assert_eq!(Digest::from_file_name(&format!("G{}.bad", &hex[1..])), None);
    assert_eq!(Digest::from_file_name(""), None);
}

#[test]
fn index_lines() {
    let d = Digest { hi: 1, lo: 0xabc };
    let hex = d.to_hex();
    assert_eq!(
        IndexEntry::from_line(&format!("{} 4096", hex)),
        Some(IndexEntry { digest: d, size: 4096 })
    );
    assert_eq!(
        IndexEntry::from_line(&format!("{} 0", hex)),
        Some(IndexEntry { digest: d, size: 0 })
    );
    assert_eq!(
        IndexEntry::from_line(&format!("{} 18446744073709551615", hex)),
        Some(IndexEntry { digest: d, size: u64::MAX })
    );
    for line in [
        String::new(),
        hex.clone(),
        format!("{} ", hex),
        format!("{}  1", hex),
        format!("{} +1", hex),
        format!("{} -1", hex),
        format!("{} 1 ", hex),
        format!("{} 18446744073709551616", hex),
        format!("{}\t1", hex),
        format!("{} 1", &hex[1..]),
        format!("{} 1", hex.to_uppercase()),
    ] {
        assert_eq!(IndexEntry::from_line(&line), None, "{:?}", line);
    }
}

#[test]
fn digest_set() {
    let mut set = DigestSet::new();
    let a = Digest { hi: 1, lo: 1 };
    let b = Digest { hi: 1, lo: 2 };
    let c = Digest { hi: 2, lo: 1 };
    assert!(!set.contains(&a));
    assert!(set.insert(a));
    assert!(!set.insert(a));
    assert!(set.contains(&a));
    assert!(!set.contains(&b));
    assert!(!set.contains(&c));
    assert!(set.insert(b));
    assert!(set.insert(c));
    assert!(set.contains(&a) && set.contains(&b) && set.contains(&c));
    assert!(!set.contains(&Digest { hi: 2, lo: 2 }));
}

#[test]
fn empty_status() {
    let s = GarbageCollectionStatus::default();
    assert_eq!(s.upid, None);
    assert_eq!(s.index_file_count, 0);
    assert_eq!(s.index_data_bytes, 0);
    assert_eq!(s.disk_bytes, 0);
    assert_eq!(s.disk_chunks, 0);
    assert_eq!(s.removed_bytes, 0);
    assert_eq!(s.removed_chunks, 0);
    assert_eq!(s.pending_bytes, 0);
    assert_eq!(s.pending_chunks, 0);
    assert_eq!(s.removed_bad, 0);
    assert_eq!(s.still_bad, 0);
}

#[test]
fn mark_counts_files_and_bytes() {
    let mut mark = MarkPhase::start(T0);
    assert_eq!(mark.mark_index(&vec![entry(1, 100), entry(2, 200), entry(1, 100)]), Ok(()));
    assert_eq!(mark.mark_index(&vec![entry(3, 50)]), Ok(()));
    assert_eq!(mark.mark_index(&vec![]), Ok(()));
    assert!(mark.is_referenced(&digest(1)));
    assert!(mark.is_referenced(&digest(2)));
    assert!(mark.is_referenced(&digest(3)));
    assert!(!mark.is_referenced(&digest(4)));
    let status = mark.begin_sweep().finish();
    assert_eq!(status.index_file_count, 3);
    assert_eq!(status.index_data_bytes, 450);
    assert_eq!(status.disk_chunks, 0);
}

#[test]
fn mark_overflow_changes_nothing() {
    let mut mark = MarkPhase::start(T0);
    assert_eq!(mark.mark_index(&vec![entry(1, u64::MAX - 1)]), Ok(()));
    assert_eq!(
        mark.mark_index(&vec![entry(2, 1), entry(3, 1)]),
        Err(GcError::CounterOverflow)
    );
    assert!(!mark.is_referenced(&digest(2)));
    assert!(!mark.is_referenced(&digest(3)));
    assert_eq!(mark.mark_index(&vec![entry(2, 1)]), Ok(()));
    let status = mark.begin_sweep().finish();
    assert_eq!(status.index_file_count, 2);
    assert_eq!(status.index_data_bytes, u64::MAX);
}

#[test]
fn sweep_decides_by_reference_and_time() {
    let mut mark = MarkPhase::start(T0);
    mark.mark_index(&vec![entry(1, 10), entry(2, 20)]).unwrap();
    let mut sweep = mark.begin_sweep();
    assert_eq!(sweep.sweep_chunk(&chunk(1, 10, T0 - 500)), Ok(SweepAction::Keep));
    assert_eq!(sweep.sweep_chunk(&chunk(2, 20, T0 + 5)), Ok(SweepAction::Keep));
    assert_eq!(sweep.sweep_chunk(&chunk(3, 30, T0 - 1)), Ok(SweepAction::Remove));
    assert_eq!(sweep.sweep_chunk(&chunk(4, 40, T0)), Ok(SweepAction::Pending));
    assert_eq!(sweep.sweep_chunk(&chunk(5, 50, T0 + 1)), Ok(SweepAction::Pending));
    assert_eq!(sweep.current_status().disk_chunks, 5);
    let status = sweep.finish();
    assert_eq!(status.index_file_count, 1);
    assert_eq!(status.index_data_bytes, 30);
    assert_eq!(status.disk_chunks, 5);
    assert_eq!(status.disk_bytes, 150);
    assert_eq!(status.removed_chunks, 1);
    assert_eq!(status.removed_bytes, 30);
    assert_eq!(status.pending_chunks, 2);
    assert_eq!(status.pending_bytes, 90);
    assert_eq!(status.removed_bad, 0);
    assert_eq!(status.still_bad, 0);
}

#[test]
fn sweep_counts_bad_chunks_apart() {
    let mut mark = MarkPhase::start(T0);
    mark.mark_index(&vec![entry(1, 10)]).unwrap();
    let mut sweep = mark.begin_sweep();
    let actions = sweep
        .sweep(&vec![
            bad_chunk(1, 10, T0 - 9),
            bad_chunk(2, 20, T0 - 9),
            bad_chunk(3, 30, T0 + 9),
            chunk(4, 40, T0 - 9),
        ])
        .unwrap();
    assert_eq!(
        actions,
        vec![SweepAction::Keep, SweepAction::Remove, SweepAction::Pending, SweepAction::Remove]
    );
    let status = sweep.finish();
    assert_eq!(status.disk_chunks, 4);
    assert_eq!(status.disk_bytes, 100);
    assert_eq!(status.removed_bad, 1);
    assert_eq!(status.removed_chunks, 1);
    assert_eq!(status.removed_bytes, 60);
    assert_eq!(status.still_bad, 2);
    assert_eq!(status.pending_chunks, 0);
    assert_eq!(status.pending_bytes, 30);
}

#[test]
fn chunk_written_during_the_run_is_pending() {
    let mark = MarkPhase::start(T0);
    let mut sweep = mark.begin_sweep();
    for late in [T0, T0 + 1, T0 + 3600, i64::MAX] {
        assert_eq!(sweep.sweep_chunk(&chunk(late as u128, 1, late)), Ok(SweepAction::Pending));
    }
    let status = sweep.finish();
    assert_eq!(status.pending_chunks, 4);
    assert_eq!(status.removed_chunks, 0);
    assert_eq!(status.removed_bytes, 0);
}

#[test]
fn unreadable_index_holds_everything_back() {
    let mut mark = MarkPhase::start(T0);
    mark.mark_index(&vec![entry(1, 10)]).unwrap();
    mark.mark_unreadable();
    let mut sweep = mark.begin_sweep();
    let store = vec![chunk(1, 10, 0), chunk(2, 20, 0), bad_chunk(3, 30, 0)];
    let actions = sweep.sweep(&store).unwrap();
    assert_eq!(actions, vec![SweepAction::Keep, SweepAction::Pending, SweepAction::Pending]);
    let status = sweep.finish();
    assert_eq!(status.index_file_count, 1);
    assert_eq!(status.removed_chunks, 0);
    assert_eq!(status.removed_bad, 0);
    assert_eq!(status.removed_bytes, 0);
    assert_eq!(status.pending_chunks, 1);
    assert_eq!(status.still_bad, 1);
    assert_eq!(status.pending_bytes, 50);
}

fn run(
    now: i64,
    indexes: &[Vec<IndexEntry>],
    store: &mut Vec<ChunkInfo>,
) -> GarbageCollectionStatus {
    let mut mark = MarkPhase::start(now);
    for index in indexes {
        mark.mark_index(index).unwrap();
    }
    let mut sweep = mark.begin_sweep();
    let actions = sweep.sweep(store).unwrap();
    let mut left = Vec::new();
    for (c, action) in store.iter().zip(actions) {
        if action != SweepAction::Remove {
            left.push(*c);
        }
    }
    *store = left;
    sweep.finish()
}

#[test]
fn second_run_removes_nothing() {
    let indexes = vec![vec![entry(1, 10), entry(2, 20)], vec![entry(2, 20), entry(3, 30)]];
    let mut store = vec![
        chunk(1, 10, 100),
        chunk(2, 20, 100),
        chunk(3, 30, 100),
        chunk(4, 40, 100),
        bad_chunk(5, 50, 100),
        chunk(6, 60, 200),
    ];
    let first = run(1000, &indexes, &mut store);
    assert_eq!(first.disk_chunks, 6);
    assert_eq!(first.disk_bytes, 210);
    assert_eq!(first.removed_chunks, 2);
    assert_eq!(first.removed_bad, 1);
    assert_eq!(first.removed_bytes, 150);
    assert_eq!(first.pending_chunks, 0);
    let after_first = store.clone();
    let second = run(2000, &indexes, &mut store);
    assert_eq!(store, after_first);
    assert_eq!(second.removed_chunks, 0);
    assert_eq!(second.removed_bad, 0);
    assert_eq!(second.removed_bytes, 0);
    assert_eq!(second.disk_chunks, first.disk_chunks - first.removed_chunks - first.removed_bad);
    assert_eq!(second.disk_bytes, first.disk_bytes - first.removed_bytes);
    assert_eq!(second.index_file_count, first.index_file_count);
    assert_eq!(second.index_data_bytes, first.index_data_bytes);
    let third = run(3000, &indexes, &mut store);
    assert_eq!(third.disk_chunks, second.disk_chunks);
    assert_eq!(third.disk_bytes, second.disk_bytes);
    assert_eq!(third.removed_chunks, 0);
}

#[test]
fn pending_chunk_goes_in_a_later_run() {
    let mut store = vec![chunk(1, 10, 1500)];
    let first = run(1000, &[], &mut store);
    assert_eq!(first.pending_chunks, 1);
    assert_eq!(store.len(), 1);
    let second = run(2000, &[], &mut store);
    assert_eq!(second.removed_chunks, 1);
    assert!(store.is_empty());
}

#[test]
fn sweep_overflow() {
    let mark = MarkPhase::start(T0);
    let mut sweep = mark.begin_sweep();
    assert_eq!(sweep.sweep_chunk(&chunk(1, u64::MAX, 0)), Ok(SweepAction::Remove));
    assert_eq!(sweep.sweep_chunk(&chunk(2, 1, 0)), Err(GcError::CounterOverflow));
    assert_eq!(sweep.current_status().disk_chunks, 1);
    assert_eq!(sweep.current_status().removed_bytes, u64::MAX);
    assert_eq!(sweep.sweep_chunk(&chunk(3, 0, 0)), Ok(SweepAction::Remove));
    assert_eq!(
        sweep.sweep(&vec![chunk(4, 0, 0), chunk(5, 7, T0), chunk(6, 0, 0)]),
        Err(GcError::CounterOverflow)
    );
    assert_eq!(sweep.current_status().disk_chunks, 3);
}

#[test]
fn status_clone() {
    let mut s = GarbageCollectionStatus::default();
    s.upid = Some("UPID:x".to_string());
    s.disk_bytes = 7;
    let c = s.clone();
    assert_eq!(c.upid, Some("UPID:x".to_string()));
    assert_eq!(c.disk_bytes, 7);
    assert_eq!(c.still_bad, 0);
}
