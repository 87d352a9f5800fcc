use snapsafe::actions::{
    get_nth_recent_json_snapshot, restore_file, SnapshotFile,
};
use snapsafe::compress::{build_compress_engine, CompressionType, DecompressionEngine};
use snapsafe::crypto::hash_content;
use snapsafe::error::SnapError;
use snapsafe::gc::GarbageCollector;
use snapsafe::registry::Timestamp;
use snapsafe::snapshot::{calendar, FileEntry, ModifiedTime, Snapshot, SourceFile};
use snapsafe::strmap::StrMap;

fn at(secs: u64) -> ModifiedTime {
    ModifiedTime { secs, nanos: 0 }
}

fn tree(files: &[(&str, &str, u64)]) -> StrMap<SourceFile> {
    let mut t = StrMap::new();
    for (path, content, secs) in files {
        t.insert(
            path.to_string(),
            SourceFile { content: content.as_bytes().to_vec(), modified: at(*secs) },
        );
    }
    t
}

fn moment(secs: i64) -> Timestamp {
    Timestamp { secs, nanos: 0 }
}

#[test]
fn a_first_snapshot_stores_every_file() {
    let key = [9u8; 32];
    let engine = build_compress_engine("none".to_string()).unwrap();
    let source = tree(&[("file1.txt", "one", 10), ("logs/file2.log", "two", 20)]);
    let (snap, blobs) = Snapshot::create(&source, &key, None, &engine, moment(100)).unwrap();
    assert_eq!(snap.timestamp, moment(100));
    assert_eq!(snap.files.len(), 2);
    assert_eq!(snap.files.key_at(0), "file1.txt");
    assert_eq!(snap.files.key_at(1), "logs/file2.log");
    let first = snap.files.get("file1.txt").unwrap();
    assert_eq!(first.hash, hash_content(b"one"));
    assert_eq!(first.modified, at(10));
    assert!(first.isupdated);
    assert_eq!(blobs.len(), 2);
    assert_eq!(blobs[0].path, "file1.txt");
    assert_eq!(blobs[0].hash, first.hash);
    assert_eq!(blobs[0].bytes.len(), 3 + 16);
    assert_eq!(blobs[1].path, "logs/file2.log");
    let engine = DecompressionEngine::new(CompressionType::Uncompressed);
    assert_eq!(restore_file(&blobs[0].bytes, &key, first, &engine).unwrap(), b"one");
}

#[test]
fn the_hash_is_of_the_compressed_content() {
    let key = [9u8; 32];
    let engine = build_compress_engine("gzip".to_string()).unwrap();
    let source = tree(&[("a", "some content some content some content", 10)]);
    let (snap, _) = Snapshot::create(&source, &key, None, &engine, moment(100)).unwrap();
    let packed = engine.compress(b"some content some content some content").unwrap();
    assert_eq!(snap.files.get("a").unwrap().hash, hash_content(&packed));
    assert_ne!(
        snap.files.get("a").unwrap().hash,
        hash_content(b"some content some content some content")
    );
}

#[test]
fn an_unchanged_time_carries_the_entry_forward() {
    let key = [9u8; 32];
    let engine = build_compress_engine("none".to_string()).unwrap();
    let source = tree(&[("a", "one", 10), ("b", "two", 20)]);
    let (first, _) = Snapshot::create(&source, &key, None, &engine, moment(100)).unwrap();
    // `a` keeps its time although its content differs; `b` is new content.
    let source = tree(&[("a", "changed behind the clock", 10), ("b", "three", 21)]);
    let (second, blobs) =
        Snapshot::create(&source, &key, Some(&first), &engine, moment(200)).unwrap();
    let a = second.files.get("a").unwrap();
    assert!(!a.isupdated);
    assert_eq!(a.hash, first.files.get("a").unwrap().hash);
    assert_eq!(a.nonce, first.files.get("a").unwrap().nonce);
    assert_eq!(a.modified, at(10));
    assert_eq!(blobs.len(), 1);
    assert_eq!(blobs[0].path, "b");
    let b = second.files.get("b").unwrap();
    assert!(b.isupdated);
    assert_eq!(b.modified, at(21));
    assert_eq!(b.hash, hash_content(b"three"));
}

#[test]
fn unchanged_content_carries_the_entry_forward() {
    let key = [9u8; 32];
    let engine = build_compress_engine("zstd".to_string()).unwrap();
    let source = tree(&[("a", "one", 10), ("b", "two", 20)]);
    let (first, _) = Snapshot::create(&source, &key, None, &engine, moment(100)).unwrap();
    let source = tree(&[("a", "one", 55), ("b", "other", 56)]);
    let (second, blobs) =
        Snapshot::create(&source, &key, Some(&first), &engine, moment(200)).unwrap();
    let a = second.files.get("a").unwrap();
    assert!(!a.isupdated);
    assert_eq!(a.modified, at(10));
    assert_eq!(a.nonce, first.files.get("a").unwrap().nonce);
    assert_eq!(blobs.len(), 1);
    assert_eq!(blobs[0].path, "b");
}

#[test]
fn no_change_is_refused() {
    let key = [9u8; 32];
    let engine = build_compress_engine("none".to_string()).unwrap();
    let source = tree(&[("a", "one", 10), ("b", "two", 20)]);
    let (first, _) = Snapshot::create(&source, &key, None, &engine, moment(100)).unwrap();
    let touched = tree(&[("a", "one", 11), ("b", "two", 20)]);
    match Snapshot::create(&touched, &key, Some(&first), &engine, moment(200)) {
        Err(SnapError::Backup(m)) => assert_eq!(m, "No File changes and hence backup aborted."),
        _ => panic!("expected the backup to be refused"),
    }
}

#[test]
fn an_empty_tree_is_refused() {
    let key = [9u8; 32];
    let engine = build_compress_engine("none".to_string()).unwrap();
    let source: StrMap<SourceFile> = StrMap::new();
    assert!(matches!(
        Snapshot::create(&source, &key, None, &engine, moment(100)),
        Err(SnapError::Backup(_))
    ));
}

#[test]
fn a_deleted_file_leaves_the_next_snapshot() {
    let key = [9u8; 32];
    let engine = build_compress_engine("none".to_string()).unwrap();
    let source = tree(&[("a", "one", 10), ("b", "two", 20)]);
    let (first, _) = Snapshot::create(&source, &key, None, &engine, moment(100)).unwrap();
    let source = tree(&[("b", "two", 20), ("c", "new", 30)]);
    let (second, blobs) =
        Snapshot::create(&source, &key, Some(&first), &engine, moment(200)).unwrap();
    assert!(second.files.get("a").is_none());
    assert_eq!(second.files.len(), 2);
    assert_eq!(blobs.len(), 1);
    assert_eq!(blobs[0].path, "c");
}

#[test]
fn save_registers_only_what_was_stored() {
    let key = [9u8; 32];
    let engine = build_compress_engine("none".to_string()).unwrap();
    let mut gc = GarbageCollector::new("dest/blobs".to_string(), 1);
    let source = tree(&[("a", "one", 10), ("b", "two", 20)]);
    let (first, _) = Snapshot::create(&source, &key, None, &engine, moment(0)).unwrap();
    let (path, gone) = first.save("dest/snapshot", &mut gc).unwrap();
    assert_eq!(path, "dest/snapshot/1970-01-01T00-00-00.json");
    assert!(gone.is_empty());
    assert_eq!(gc.get_index().len(), 2);

    let source = tree(&[("a", "one", 10), ("b", "three", 21)]);
    let (second, _) =
        Snapshot::create(&source, &key, Some(&first), &engine, moment(86_400 + 3_661)).unwrap();
    let (path2, gone) = second.save("dest/snapshot", &mut gc).unwrap();
    assert_eq!(path2, "dest/snapshot/1970-01-02T01-01-01.json");
    assert_eq!(gone.len(), 1);
    assert_eq!(gone[0].path, "b");
    assert_eq!(gone[0].reference.hash_file, hash_content(b"two"));
    assert_eq!(gone[0].reference.snapshot_path, path);
    let kept = gc.get_index().get("b").unwrap();
    assert_eq!(kept.len(), 1);
    assert_eq!(kept[0].hash_file, hash_content(b"three"));
    assert_eq!(kept[0].snapshot_path, path2);
    assert_eq!(gc.get_index().get("a").unwrap()[0].snapshot_path, path);
}

#[test]
fn a_time_without_a_date_is_refused() {
    let key = [9u8; 32];
    let engine = build_compress_engine("none".to_string()).unwrap();
    let mut gc = GarbageCollector::new("dest/blobs".to_string(), 3);
    let source = tree(&[("a", "one", 10)]);
    let (snap, _) =
        Snapshot::create(&source, &key, None, &engine, Timestamp { secs: i64::MAX, nanos: 0 })
            .unwrap();
    match snap.save("dest/snapshot", &mut gc) {
        Err(SnapError::SerializationError(m)) => {
            assert_eq!(m, "Snapshot timestamp has no calendar date")
        },
        _ => panic!("expected the timestamp to be refused"),
    }
    assert_eq!(gc.get_index().len(), 0);
    assert!(calendar(Timestamp { secs: i64::MAX, nanos: 0 }).is_none());
    assert_eq!(
        calendar(Timestamp { secs: 1_431_648_000, nanos: 5 }).unwrap(),
        "2015-05-15T00-00-00"
    );
}

#[test]
fn retention_takes_a_file_out_of_a_snapshot() {
    let key = [9u8; 32];
    let engine = build_compress_engine("none".to_string()).unwrap();
    let source = tree(&[("a", "one", 10), ("b", "two", 20)]);
    let (mut snap, _) = Snapshot::create(&source, &key, None, &engine, moment(100)).unwrap();
    snap.remove_file("a");
    assert!(snap.files.get("a").is_none());
    assert!(snap.files.get("b").is_some());
    snap.remove_file("zzz");
    assert_eq!(snap.files.len(), 1);
    assert_eq!(snap.timestamp, moment(100));
}

#[test]
fn a_blob_under_another_nonce_does_not_restore() {
    let key = [9u8; 32];
    let engine = build_compress_engine("none".to_string()).unwrap();
    let source = tree(&[("a", "same", 10), ("b", "same", 20)]);
    let (snap, blobs) = Snapshot::create(&source, &key, None, &engine, moment(100)).unwrap();
    assert_eq!(blobs[0].hash, blobs[1].hash);
    let back = DecompressionEngine::new(CompressionType::Uncompressed);
    let a: &FileEntry = snap.files.get("a").unwrap();
    assert_eq!(restore_file(&blobs[0].bytes, &key, a, &back).unwrap(), b"same");
    match restore_file(&blobs[1].bytes, &key, a, &back) {
        Err(SnapError::EncryptError(m, d)) => {
            assert_eq!(m, "Failed to decrypt target file");
            assert_eq!(d, "Decryption failed: aead::Error");
        },
        _ => panic!("expected the blob not to decrypt"),
    }
}

#[test]
fn a_blob_of_another_algorithm_does_not_decompress() {
    let key = [9u8; 32];
    let engine = build_compress_engine("none".to_string()).unwrap();
    let source = tree(&[("a", "plain text", 10)]);
    let (snap, blobs) = Snapshot::create(&source, &key, None, &engine, moment(100)).unwrap();
    let back = DecompressionEngine::new(CompressionType::Gzip);
    assert!(matches!(
        restore_file(&blobs[0].bytes, &key, snap.files.get("a").unwrap(), &back),
        Err(SnapError::IOError(_))
    ));
}

fn listing(times: &[(u64, u32)]) -> Vec<SnapshotFile> {
    times
        .iter()
        .enumerate()
        .map(|(i, (secs, nanos))| SnapshotFile {
            modified: ModifiedTime { secs: *secs, nanos: *nanos },
            path: format!("s{i}"),
        })
        .collect()
}

#[test]
fn snapshots_are_counted_from_the_newest() {
    let files = listing(&[(10, 0), (30, 0), (20, 5), (20, 9)]);
    assert_eq!(get_nth_recent_json_snapshot(0, &files), Some("s1".to_string()));
    assert_eq!(get_nth_recent_json_snapshot(1, &files), Some("s3".to_string()));
    assert_eq!(get_nth_recent_json_snapshot(2, &files), Some("s2".to_string()));
    assert_eq!(get_nth_recent_json_snapshot(3, &files), Some("s0".to_string()));
    assert_eq!(get_nth_recent_json_snapshot(4, &files), None);
    assert_eq!(get_nth_recent_json_snapshot(0, &Vec::new()), None);
}

#[test]
fn snapshots_of_one_time_keep_their_order() {
    let files = listing(&[(10, 0), (10, 0), (10, 0)]);
    assert_eq!(get_nth_recent_json_snapshot(0, &files), Some("s0".to_string()));
    assert_eq!(get_nth_recent_json_snapshot(1, &files), Some("s1".to_string()));
    assert_eq!(get_nth_recent_json_snapshot(2, &files), Some("s2".to_string()));
    assert_eq!(get_nth_recent_json_snapshot(3, &files), None);
}
