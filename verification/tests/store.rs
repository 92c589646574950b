use atmoq::store::record::{encode_record, read_record, read_record_header};
use atmoq::store::{segment_files, GroupStore, StoreError, SEGMENT_TARGET_BYTES};

/// Segment files in memory.
#[derive(Default, Clone)]
struct Disk {
    files: Vec<(String, Vec<u8>)>,
}

impl Disk {
    fn file(&mut self, name: &str) -> &mut Vec<u8> {
        let i = self.files.iter().position(|f| f.0 == name).unwrap();
        &mut self.files[i].1
    }

    fn append(&mut self, s: &mut GroupStore, seq: u64, ms: u64, frames: &[Vec<u8>]) {
        let plan = s.append(seq, ms, frames);
        if plan.create {
            self.files.push((plan.segment.clone(), Vec::new()));
        }
        s.add_segment(&plan);
        self.file(&plan.segment).extend_from_slice(&plan.record);
        s.commit(&plan);
    }

    fn read(&mut self, s: &GroupStore, seq: u64) -> Result<Option<Vec<Vec<u8>>>, StoreError> {
        match s.locate(seq) {
            Some((name, offset, len)) => {
                let file = self.file(&name);
                let end = (offset + len).min(file.len() as u64);
                let stored = file[offset as usize..end as usize].to_vec();
                s.read(seq, &stored)
            }
            None => s.read(seq, &[]),
        }
    }

    fn open(&mut self) -> GroupStore {
        let names = segment_files(self.files.iter().map(|f| f.0.clone()).collect());
        let files = names
            .into_iter()
            .map(|n| (n.clone(), self.file(&n).clone()))
            .collect();
        let (s, cuts) = GroupStore::open(files);
        for (name, len) in cuts {
            self.file(&name).truncate(len as usize);
        }
        s
    }

    fn gc(&mut self, s: &mut GroupStore, cutoff_ms: u64) -> usize {
        let removed = s.gc(cutoff_ms);
        self.files.retain(|f| !removed.contains(&f.0));
        removed.len()
    }
}

fn frames(parts: &[&str]) -> Vec<Vec<u8>> {
    parts.iter().map(|s| s.as_bytes().to_vec()).collect()
}

#[test]
fn appends_that_are_not_written_leave_no_trace() {
    let mut disk = Disk::default();
    let mut s = disk.open();
    // The file could not be made: nothing is committed.
    let plan = s.append(7, 700, &frames(&["a"]));
    assert!(plan.create);
    assert_eq!(plan.segment, "00000000000000000007.seg");
    assert_eq!(s.max_seq(), None);
    assert_eq!(s.locate(7), None);
    // The next group makes a file of its own. The one after it shares that file,
    // also where its first write failed after the file was made.
    disk.append(&mut s, 8, 800, &frames(&["b"]));
    assert_eq!(disk.files[0].0, "00000000000000000008.seg");
    assert_eq!(disk.read(&s, 8).unwrap().unwrap(), frames(&["b"]));
    assert!(disk.read(&s, 7).unwrap().is_none());

    let mut s = GroupStore::new();
    let plan = s.append(7, 700, &frames(&["a"]));
    s.add_segment(&plan);
    let plan = s.append(8, 800, &frames(&["b"]));
    assert!(!plan.create);
    assert_eq!(plan.segment, "00000000000000000007.seg");
    assert_eq!(s.max_seq(), None);
}

#[test]
fn append_read_roundtrip_and_recover() {
    let mut disk = Disk::default();
    {
        let mut s = disk.open();
        disk.append(&mut s, 10, 1000, &frames(&["a", "bb"]));
        disk.append(&mut s, 11, 1100, &frames(&["ccc"]));
        disk.append(&mut s, 12, 1200, &frames(&[])); // empty group
        assert_eq!(s.max_seq(), Some(12));
        assert_eq!(disk.read(&s, 11).unwrap().unwrap(), frames(&["ccc"]));
        assert!(disk.read(&s, 99).unwrap().is_none());
    }
    // Reopen: index + max_seq recovered from disk.
    let s = disk.open();
    assert_eq!(s.max_seq(), Some(12));
    assert_eq!(disk.read(&s, 10).unwrap().unwrap(), frames(&["a", "bb"]));
    assert_eq!(disk.read(&s, 12).unwrap().unwrap(), frames(&[]));
}

#[test]
fn gc_drops_old_segments_keeps_active() {
    let mut disk = Disk::default();
    // segment_target = 1 byte forces a new segment per append.
    let mut s = GroupStore::with_segment_target(1);
    disk.append(&mut s, 1, 1000, &frames(&["a"]));
    disk.append(&mut s, 2, 2000, &frames(&["b"]));
    disk.append(&mut s, 3, 3000, &frames(&["c"]));

    // GC everything older than 2500ms: group 1 (1000) and 2 (2000) expire, but
    // the active (last) segment holding group 3 is always kept.
    let removed = disk.gc(&mut s, 2500);
    assert_eq!(removed, 2);
    assert!(disk.read(&s, 1).unwrap().is_none());
    assert!(disk.read(&s, 2).unwrap().is_none());
    assert_eq!(disk.read(&s, 3).unwrap().unwrap(), frames(&["c"]));
    assert_eq!(s.max_seq(), Some(3));

    // Survives reopen with the surviving group intact.
    let s2 = disk.open();
    assert_eq!(disk.read(&s2, 3).unwrap().unwrap(), frames(&["c"]));
    assert!(disk.read(&s2, 1).unwrap().is_none());
}

#[test]
fn torn_tail_is_truncated_and_appends_stay_readable() {
    let mut disk = Disk::default();
    {
        let mut s = disk.open();
        disk.append(&mut s, 1, 1000, &frames(&["a"]));
        disk.append(&mut s, 2, 2000, &frames(&["bb"]));
    }
    // Simulate a crash mid-append: a partial record at the tail (a full header
    // claiming 3 frames, but only part of the first frame).
    let seg = disk
        .files
        .iter()
        .map(|f| f.0.clone())
        .find(|n| n.ends_with(".seg"))
        .unwrap();
    let mut torn = Vec::new();
    torn.extend_from_slice(&3u64.to_le_bytes()); // seq
    torn.extend_from_slice(&3000u64.to_le_bytes()); // created_ms
    torn.extend_from_slice(&3u32.to_le_bytes()); // frame_count
    torn.extend_from_slice(&100u32.to_le_bytes()); // frame len...
    torn.extend_from_slice(b"only-part"); // ...but not the bytes
    disk.file(&seg).extend_from_slice(&torn);

    // Restart 1: the torn record is ignored AND physically truncated, so new
    // appends land exactly where the index says they do.
    {
        let mut s = disk.open();
        assert_eq!(s.max_seq(), Some(2));
        assert!(disk.read(&s, 3).unwrap().is_none());
        disk.append(&mut s, 3, 3100, &frames(&["ccc"]));
        assert_eq!(disk.read(&s, 3).unwrap().unwrap(), frames(&["ccc"]));
    }

    // Restart 2: everything written after the torn tail is still visible: no
    // max_seq regression, no index/segment mismatch.
    let s = disk.open();
    assert_eq!(s.max_seq(), Some(3));
    assert_eq!(disk.read(&s, 1).unwrap().unwrap(), frames(&["a"]));
    assert_eq!(disk.read(&s, 2).unwrap().unwrap(), frames(&["bb"]));
    assert_eq!(disk.read(&s, 3).unwrap().unwrap(), frames(&["ccc"]));
}

#[test]
fn groups_since_filters_by_time() {
    let mut disk = Disk::default();
    let mut s = disk.open();
    disk.append(&mut s, 1, 1000, &frames(&["x"]));
    disk.append(&mut s, 2, 2000, &frames(&["y"]));
    disk.append(&mut s, 3, 3000, &frames(&["z"]));
    assert_eq!(s.groups_since(2000), vec![2, 3]);
    assert_eq!(s.groups_since(0), vec![1, 2, 3]);
}

#[test]
fn every_torn_tail_is_found() {
    // A crash anywhere inside the last append, its last frame's body included.
    let whole = {
        let mut disk = Disk::default();
        let mut s = disk.open();
        disk.append(&mut s, 1, 1000, &frames(&["a"]));
        disk
    };
    let record = encode_record(2, 2000, &frames(&["bb", "ccc"]));
    let clean = whole.files[0].1.len();
    for cut in 1..record.len() {
        let mut disk = whole.clone();
        disk.files[0].1.extend_from_slice(&record[..cut]);
        let mut s = disk.open();
        assert_eq!(disk.files[0].1.len(), clean, "cut at {cut}");
        assert_eq!(s.max_seq(), Some(1));
        disk.append(&mut s, 2, 2100, &frames(&["new"]));
        assert_eq!(disk.read(&s, 2).unwrap().unwrap(), frames(&["new"]));
        let s = disk.open();
        assert_eq!(disk.read(&s, 2).unwrap().unwrap(), frames(&["new"]));
    }
}

#[test]
fn record_bytes_are_the_documented_format() {
    let rec = encode_record(0x0102030405060708, 9, &frames(&["ab", ""]));
    let mut expected = vec![8, 7, 6, 5, 4, 3, 2, 1];
    expected.extend([9, 0, 0, 0, 0, 0, 0, 0]);
    expected.extend([2, 0, 0, 0]);
    expected.extend([2, 0, 0, 0, b'a', b'b']);
    expected.extend([0, 0, 0, 0]);
    assert_eq!(rec, expected);
    let (seq, ms, back) = read_record(&rec).unwrap();
    assert_eq!((seq, ms), (0x0102030405060708, 9));
    assert_eq!(back, frames(&["ab", ""]));
    assert_eq!(
        read_record_header(&rec, 0),
        Some((0x0102030405060708, 9, rec.len()))
    );
    assert!(read_record(&rec[..rec.len() - 1]).is_none());
    assert_eq!(read_record_header(&rec, rec.len()), None);
}

#[test]
fn rereading_the_wrong_bytes_is_an_error() {
    let mut disk = Disk::default();
    let mut s = disk.open();
    disk.append(&mut s, 7, 1000, &frames(&["x"]));
    let other = encode_record(8, 1000, &frames(&["y"]));
    let err = s.read(7, &other).unwrap_err();
    assert_eq!(err, StoreError::Mismatch { found: 8, wanted: 7 });
    assert_eq!(err.to_text(), "index/segment mismatch: 8 != 7");
    let err = s.read(7, &other[..10]).unwrap_err();
    assert_eq!(err, StoreError::Truncated(7));
    assert_eq!(err.to_text(), "truncated record for group 7");
    // A group that is not stored is none, whatever the bytes.
    assert_eq!(s.read(9, &other), Ok(None));
}

#[test]
fn segments_rotate_at_the_target() {
    let mut disk = Disk::default();
    let rec = encode_record(0, 0, &frames(&["abcd"])).len() as u64;
    let mut s = GroupStore::with_segment_target(2 * rec);
    for seq in 0..5 {
        disk.append(&mut s, seq, 1000 + seq, &frames(&["abcd"]));
    }
    let names: Vec<&str> = disk.files.iter().map(|f| f.0.as_str()).collect();
    assert_eq!(
        names,
        vec![
            "00000000000000000000.seg",
            "00000000000000000002.seg",
            "00000000000000000004.seg",
        ]
    );
    assert_eq!(s.oldest_seq(), Some(0));
    assert_eq!(disk.gc(&mut s, 1002), 1);
    assert_eq!(s.oldest_seq(), Some(2));
    assert_eq!(s.groups_since(0), vec![2, 3, 4]);
    for seq in 2..5 {
        assert_eq!(disk.read(&s, seq).unwrap().unwrap(), frames(&["abcd"]));
    }
}

#[test]
fn default_target_is_64_mib() {
    assert_eq!(SEGMENT_TARGET_BYTES, 64 * 1024 * 1024);
    assert_eq!(GroupStore::new().max_seq(), None);
    assert_eq!(GroupStore::new().oldest_seq(), None);
}

#[test]
fn empty_segments_do_not_confuse_gc() {
    // A crash right after a segment was created leaves an empty file.
    let mut disk = Disk::default();
    let mut s = GroupStore::with_segment_target(1);
    disk.append(&mut s, 10, 1000, &frames(&["a"]));
    disk.files
        .push(("00000000000000000011.seg".to_string(), Vec::new()));
    let mut s = disk.open();
    disk.append(&mut s, 12, 3000, &frames(&["c"]));
    assert_eq!(disk.gc(&mut s, 2000), 1);
    assert_eq!(disk.read(&s, 10).unwrap(), None);
    assert_eq!(disk.read(&s, 12).unwrap().unwrap(), frames(&["c"]));
}

#[test]
fn rewritten_groups_survive_the_old_segment() {
    let mut disk = Disk::default();
    let mut s = GroupStore::with_segment_target(30);
    disk.append(&mut s, 1, 1000, &frames(&["old bytes"]));
    disk.append(&mut s, 2, 3000, &frames(&["two"]));
    disk.append(&mut s, 1, 3100, &frames(&["new"]));
    assert_eq!(disk.files.len(), 2);
    assert_eq!(disk.gc(&mut s, 2000), 1);
    assert_eq!(disk.read(&s, 1).unwrap().unwrap(), frames(&["new"]));
    assert_eq!(disk.read(&s, 2).unwrap().unwrap(), frames(&["two"]));
}

#[test]
fn segment_files_are_filtered_and_sorted() {
    let names = [
        "00000000000000000100.seg",
        "notes.txt",
        ".seg",
        "00000000000000000009.seg",
        "x.seg.bak",
        "..seg",
        "00000000000000000020.seg",
    ];
    let sorted = segment_files(names.iter().map(|n| n.to_string()).collect());
    assert_eq!(
        sorted,
        vec![
            "..seg",
            "00000000000000000009.seg",
            "00000000000000000020.seg",
            "00000000000000000100.seg",
        ]
    );
}

#[test]
fn names_hold_the_largest_sequence() {
    let mut s = GroupStore::with_segment_target(1);
    assert_eq!(
        s.append(u64::MAX, 0, &[]).segment,
        "18446744073709551615.seg"
    );
}

#[test]
fn gc_keeps_what_is_new_and_ends() {
    let mut disk = Disk::default();
    let mut s = GroupStore::with_segment_target(30);
    for seq in 1..=9u64 {
        disk.append(&mut s, seq, seq * 100, &frames(&["abcd"]));
    }
    let before = disk.files.len();
    let removed = disk.gc(&mut s, 500);
    assert!(removed > 0 && removed < before - 1);
    assert_eq!(disk.gc(&mut s, 500), 0);
    for seq in 5..=9u64 {
        assert_eq!(disk.read(&s, seq).unwrap().unwrap(), frames(&["abcd"]));
    }
    assert!(disk.read(&s, 1).unwrap().is_none());
    assert_eq!(s.max_seq(), Some(9));
    // The last segment stays, however old.
    assert_eq!(disk.gc(&mut s, u64::MAX), before - removed - 1);
    assert_eq!(disk.files.len(), 1);
    assert_eq!(disk.read(&s, 9).unwrap().unwrap(), frames(&["abcd"]));
    assert_eq!(disk.gc(&mut s, u64::MAX), 0);
}
