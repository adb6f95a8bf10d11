use userspace::database::couch::{document_range, CouchIndex, IndexEntry};
use userspace::database::keymap::{lex_compare, ByteKeyMap};
use userspace::database::lsmr::{
    classify_dir_entry, compact_file_names, decode_stored, encode_flush, flush_file_names,
    is_tombstone, locate, merge_segments, meta_file_name, restore_order, tombstone_bytes, DirEntryKind, Located,
    MemTable, SegmentIndexEntry, SegmentMeta,
};

fn pair(k: &str, v: &str) -> (Vec<u8>, Vec<u8>) {
    (k.as_bytes().to_vec(), v.as_bytes().to_vec())
}

fn segment(items: &Vec<(Vec<u8>, Vec<u8>)>, name: &str) -> (SegmentMeta, Vec<u8>) {
    let (data, index, size) = encode_flush(items);
    (SegmentMeta { filename: name.to_string(), index, size, version: 2 }, data)
}

#[test]
fn flushed_record_layout() {
    let (data, index, size) = encode_flush(&vec![pair("a", "xy")]);
    let mut expected = vec![1u8, 0, 0, 0, 0, 0, 0, 0, b'a', 0, 2, 0, 0, 0, 0, 0, 0, 0];
    expected.extend_from_slice(b"xy");
    assert_eq!(data, expected);
    assert_eq!(size, 20);
    assert_eq!(index.get(b"a"), Some(&SegmentIndexEntry { offset: 18, len: 2 }));
}

#[test]
fn flushed_tombstone_has_empty_payload() {
    let (data, index, _) = encode_flush(&vec![pair("k", "null")]);
    assert_eq!(data.len(), 18);
    assert_eq!(data[9], 1);
    assert_eq!(index.get(b"k"), Some(&SegmentIndexEntry { offset: 18, len: 0 }));
}

#[test]
fn reads_look_in_memory_then_newest_segment() {
    let (seg0, _) = segment(&vec![pair("a", "1"), pair("b", "2")], "s0");
    let (seg1, _) = segment(&vec![pair("a", "3")], "s1");
    let segs = vec![seg0, seg1];
    let mut mem = MemTable::new();
    match locate(&mem, &segs, b"a") {
        Located::OnDisk { segment, entry, version } => {
            assert_eq!(segment, 1);
            assert_eq!(entry, SegmentIndexEntry { offset: 18, len: 1 });
            assert_eq!(version, 2);
        }
        _ => panic!("a is on disk"),
    }
    match locate(&mem, &segs, b"b") {
        Located::OnDisk { segment, .. } => assert_eq!(segment, 0),
        _ => panic!("b is on disk"),
    }
    assert!(matches!(locate(&mem, &segs, b"c"), Located::Missing));
    mem.insert(b"a".to_vec(), b"4".to_vec());
    match locate(&mem, &segs, b"a") {
        Located::InMemory(v) => assert_eq!(v, b"4".to_vec()),
        _ => panic!("a is pending"),
    }
    mem.insert(b"a".to_vec(), tombstone_bytes());
    assert!(matches!(locate(&mem, &segs, b"a"), Located::Deleted));
    assert_eq!(mem.get(b"a"), Some(&b"null".to_vec()));
}

#[test]
fn memtable_size_tracks_replacements() {
    let mut mem = MemTable::new();
    mem.insert(b"k".to_vec(), b"abc".to_vec());
    assert_eq!(mem.size(), 3);
    mem.insert(b"k".to_vec(), b"x".to_vec());
    assert_eq!(mem.size(), 1);
    assert!(!mem.is_empty());
    let drained = mem.drain();
    assert_eq!(drained, vec![(b"k".to_vec(), b"x".to_vec())]);
    assert!(mem.is_empty());
}

#[test]
fn memtable_size_is_the_total_of_the_values() {
    let mut mem = MemTable::new();
    mem.insert(b"b".to_vec(), vec![1]);
    mem.insert(b"a".to_vec(), vec![1, 2, 3]);
    assert_eq!(mem.size(), 4);
    mem.insert(b"b".to_vec(), vec![]);
    assert_eq!(mem.size(), 3);
}

#[test]
fn compaction_keeps_the_newest_live_records() {
    let (seg0, d0) = segment(&vec![pair("a", "1"), pair("b", "2"), pair("c", "5")], "s0");
    let (seg1, d1) = segment(&vec![pair("a", "3"), pair("b", "null")], "s1");
    let segs = vec![seg0, seg1];
    let (data, index, size) = merge_segments(&segs, &vec![d0, d1]);
    assert_eq!(size as usize, data.len());
    let e = *index.get(b"a").unwrap();
    assert_eq!(&data[e.offset as usize..(e.offset + e.len) as usize], b"3");
    let c = *index.get(b"c").unwrap();
    assert_eq!(&data[c.offset as usize..(c.offset + c.len) as usize], b"5");
    // the deletion in the newer segment hides the older value of `b`
    assert!(index.get(b"b").is_none());
    assert_eq!(index.len(), 2);
}

#[test]
fn tombstone_compaction() {
    // a value, then its deletion, each flushed into a segment of its own
    let (seg0, d0) = segment(&vec![pair("k1", "{\"v\":1}")], "s0");
    let (seg1, d1) = segment(&vec![pair("k1", "null")], "s1");
    let (data, index, _) = merge_segments(&vec![seg0, seg1], &vec![d0, d1]);
    assert!(index.get(b"k1").is_none());
    assert!(data.is_empty());
}

#[test]
fn stored_payload_decoding() {
    assert_eq!(decode_stored(2, b""), None);
    assert_eq!(decode_stored(2, b"{}"), Some(b"{}".to_vec()));
    assert_eq!(decode_stored(1, b"null"), None);
    assert_eq!(decode_stored(1, b"1"), Some(b"1".to_vec()));
    assert!(is_tombstone(b"null"));
    assert!(!is_tombstone(b"nul"));
}

#[test]
fn segment_file_names() {
    let n = flush_file_names(1);
    assert_eq!(n.data, "segment_00000000000000000001.data");
    assert_eq!(n.meta, "segment_00000000000000000001.data.meta.json");
    assert_eq!(n.tmp_data, "segment_00000000000000000001.tmp.data");
    assert_eq!(n.tmp_meta, "segment_00000000000000000001.tmp.meta.json");
    let c = compact_file_names(-42);
    assert_eq!(c.data, "segment_-42.data");
    assert_eq!(meta_file_name(&"x.data".to_string()), "x.data.meta.json");
    assert_eq!(classify_dir_entry(&n.tmp_data), DirEntryKind::TempLeftover);
    assert_eq!(classify_dir_entry(&n.tmp_meta), DirEntryKind::TempLeftover);
    assert_eq!(classify_dir_entry(&n.meta), DirEntryKind::SegmentMetaFile);
    assert_eq!(classify_dir_entry(&n.data), DirEntryKind::Other);
}

#[test]
fn byte_keys_sort_like_strings() {
    assert!(lex_compare(b"a", b"b") < 0);
    assert!(lex_compare(b"ab", b"a") > 0);
    assert_eq!(lex_compare(b"k1", b"k1"), 0);
    let mut m: ByteKeyMap<u32> = ByteKeyMap::new();
    assert_eq!(m.insert(b"b".to_vec(), 2), None);
    assert_eq!(m.insert(b"a".to_vec(), 1), None);
    assert_eq!(m.insert(b"b".to_vec(), 3), Some(2));
    assert_eq!(m.len(), 2);
    assert_eq!(m.entry_at(0).0, &b"a".to_vec());
    assert_eq!(m.remove(b"a"), Some(1));
    assert_eq!(m.remove(b"a"), None);
    assert_eq!(m.get(b"b"), Some(&3));
}

#[test]
fn couch_index_read_your_put_and_delete() {
    let mut idx = CouchIndex::new();
    idx.record_put("doc1", 0, 57, "1-abc".to_string());
    idx.record_put("doc2", 57, 10, "1-def".to_string());
    idx.record_put("doc1", 67, 60, "2-xyz".to_string());
    let e = idx.lookup("doc1").unwrap();
    assert_eq!((e.offset, e.len, e.rev.as_str()), (67, 60, "2-xyz"));
    assert_eq!(idx.len(), 2);
    assert!(idx.remove("doc1"));
    assert!(!idx.remove("doc1"));
    assert!(idx.lookup("doc1").is_none());
    assert_eq!(idx.lookup("doc2").unwrap().rev, "1-def");
}

#[test]
fn couch_document_range_checks_the_file() {
    let e = IndexEntry::new(10, 5, "1-a".to_string());
    assert_eq!(document_range(&e, 15), Ok((10, 15)));
    assert_eq!(document_range(&e, 14), Err("index entry out of bounds".to_string()));
}

#[test]
fn reopened_segments_are_restored_oldest_first() {
    let (a, _) = segment(&vec![pair("k", "1")], "segment_00000000000000000300.data");
    let (b, _) = segment(&vec![pair("k", "2")], "segment_00000000000000000100.data");
    let (c, _) = segment(&vec![pair("k", "3")], "segment_250.data");
    let (d, _) = segment(&vec![pair("k", "4")], "segment_00000000000000000200.data");
    let order: Vec<String> =
        restore_order(vec![a, b, c, d]).into_iter().map(|s| s.filename).collect();
    assert_eq!(
        order,
        vec![
            "segment_250.data".to_string(),
            "segment_00000000000000000100.data".to_string(),
            "segment_00000000000000000200.data".to_string(),
            "segment_00000000000000000300.data".to_string(),
        ]
    );
}
