use snapsafe::gc::{GarbageCollector, GarbageLimit, SnapshotReference};

fn hashes_of(refs: &Vec<SnapshotReference>) -> Vec<String> {
    refs.iter().map(|f| f.hash_file.clone()).collect::<Vec<String>>()
}

#[test]
fn lib_test_garbage_collector_prunes_old_versions() {
    let blobs_dir = "store/blobs".to_string();
    let mut gc = GarbageCollector::new(blobs_dir, 3);

    let path = "tree/dir";
    let hashes = ["h1", "h2", "h3", "h4"];

    let mut gone = Vec::new();
    for hash in &hashes {
        gone.extend(gc.register_file(path, hash, path));
    }

    let mut hashes = hashes.map(|v| SnapshotReference::from((v.into(), v.into())));

    hashes.reverse();

    let current = hashes_of(gc.get_index().get(path).unwrap());

    assert_eq!(current.len(), 3);
    let mut expected_hashes = hashes.map(|h| h.hash_file).to_vec();

    let last = expected_hashes.pop().unwrap();
    assert_eq!(current, expected_hashes);
    assert_eq!(hashes_of(&gone), vec![last]);
}

#[test]
fn lib_test_garbage_collector_ignores_already_stored_hash() {
    let mut gc = GarbageCollector::new("store/blobs".to_string(), 3);

    let path = "dir/file.rs";
    let hashes = ["h1", "h1", "h1"];

    for h in hashes {
        let gone = gc.register_file(path, h, path);
        assert!(gone.is_empty());
    }

    let current = hashes_of(gc.get_index().get(path).unwrap());
    assert_eq!(current.len(), 1);
    assert_eq!(current, &["h1"]);
}

#[test]
fn gc_tests_test_garbage_collector_prunes_old_versions() {
    let mut gc = GarbageCollector::new("store/blobs".to_string(), 3);

    let path = "dir/file.rs";
    let hashes = ["h1", "h2", "h3", "h4"];

    let mut gone = Vec::new();
    for h in hashes {
        gone.extend(gc.register_file(path, h, "snapshot/one.json"));
    }

    let current = hashes_of(gc.get_index().get(path).unwrap());
    assert_eq!(current.len(), 3);
    assert_eq!(current, &["h4", "h3", "h2"]);
    assert_eq!(gone.len(), 1);
    assert_eq!(gone[0].hash_file, "h1");
    assert_eq!(gone[0].snapshot_path, "snapshot/one.json");
}

#[test]
fn gc_tests_test_garbage_collector_ignores_already_stored_hash() {
    let mut gc = GarbageCollector::new("store/blobs".to_string(), 3);

    let path = "dir/file.rs";
    let hashes = ["h1", "h1", "h1"];

    for h in hashes {
        gc.register_file(path, h, "snapshot/one.json");
    }

    let current = hashes_of(gc.get_index().get(path).unwrap());
    assert_eq!(current.len(), 1);
    assert_eq!(current, &["h1"]);
}

#[test]
fn many_versions_leave_the_bound_newest_first() {
    let mut gc = GarbageCollector::new("b".to_string(), 2);
    let mut gone = Vec::new();
    for k in 0..7 {
        let hash = format!("hash{k}");
        let snap = format!("snap{k}.json");
        gone.extend(gc.register_file("a/b.txt", &hash, &snap));
    }
    let current = gc.get_index().get("a/b.txt").unwrap();
    assert_eq!(hashes_of(current), vec!["hash6", "hash5"]);
    assert_eq!(current[0].snapshot_path, "snap6.json");
    assert_eq!(hashes_of(&gone), vec!["hash0", "hash1", "hash2", "hash3", "hash4"]);
    assert_eq!(gone[4].snapshot_path, "snap4.json");
    assert_eq!(gc.limit(), 2);
    assert_eq!(gc.directory(), "b");
}

#[test]
fn a_bound_of_zero_keeps_nothing() {
    let mut gc = GarbageCollector::new("b".to_string(), 0);
    let gone = gc.register_file("f", "h1", "s1");
    assert_eq!(hashes_of(&gone), vec!["h1"]);
    assert!(gc.get_index().get("f").unwrap().is_empty());
}

#[test]
fn an_empty_hash_on_a_new_file_registers_nothing() {
    let mut gc = GarbageCollector::new("b".to_string(), 3);
    let gone = gc.register_file("f", "", "s1");
    assert!(gone.is_empty());
    assert!(gc.get_index().get("f").unwrap().is_empty());
}

#[test]
fn an_older_hash_counts_as_a_new_version() {
    let mut gc = GarbageCollector::new("b".to_string(), 3);
    gc.register_file("f", "h1", "s1");
    gc.register_file("f", "h2", "s2");
    gc.register_file("f", "h1", "s3");
    assert_eq!(hashes_of(gc.get_index().get("f").unwrap()), vec!["h1", "h2", "h1"]);
}

#[test]
fn files_are_kept_apart() {
    let mut gc = GarbageCollector::new("b".to_string(), 1);
    gc.register_file("f", "h1", "s1");
    let gone = gc.register_file("g", "h2", "s1");
    assert!(gone.is_empty());
    assert_eq!(gc.get_index().len(), 2);
    assert!(gc.get_index().get("h").is_none());
}

#[test]
fn collectors_are_filed_by_blob_directory() {
    let mut limit = GarbageLimit::new();
    assert!(limit.get_gc_from_limit("one/blobs".to_string()).is_none());
    let mut gc = GarbageCollector::new("one/blobs".to_string(), 3);
    gc.register_file("f", "h1", "s1");
    limit.add_garbage_collector_to_limit(gc);
    limit.add_garbage_collector_to_limit(GarbageCollector::new("two/blobs".to_string(), 5));
    let found = limit.get_gc_from_limit("one/blobs".to_string()).unwrap();
    assert_eq!(found.limit(), 3);
    assert_eq!(found.get_index().len(), 1);
    assert_eq!(limit.get_gc_from_limit("two/blobs".to_string()).unwrap().limit(), 5);
    limit.add_garbage_collector_to_limit(GarbageCollector::new("one/blobs".to_string(), 9));
    assert_eq!(limit.get_gc_from_limit("one/blobs".to_string()).unwrap().limit(), 9);
    let taken = limit.take_gc_from_limit("two/blobs").unwrap();
    assert_eq!(taken.limit(), 5);
    assert!(limit.get_gc_from_limit("two/blobs".to_string()).is_none());
}
