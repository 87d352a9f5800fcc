use snapsafe::actions::{
    backup, delete, delete_data, get_nth_recent_json_snapshot, list, restore, restore_files,
    SnapshotFile,
};
use snapsafe::config::{Config, GeneralConfig};
use snapsafe::error::{PasswordError, SnapError};
use snapsafe::gc::{GarbageCollector, GarbageLimit};
use snapsafe::password::PasswordPolicy;
use snapsafe::registry::{BackupEntry, BackupRegistry, Timestamp};
use snapsafe::snapshot::{ModifiedTime, Snapshot, SourceFile};
use snapsafe::strmap::StrMap;

/// One destination and the registry, held in memory the way the files of a
/// real destination hold them.
struct Machine {
    entries: Vec<BackupEntry>,
    collector: Option<GarbageCollector>,
    salt: Option<Vec<u8>>,
    blobs: Vec<(String, Vec<u8>)>,
    snapshots: Vec<(ModifiedTime, String, Snapshot)>,
    limit: usize,
    algorithm: String,
}

fn get_password() -> String {
    String::from("password")
}

fn any_password() -> PasswordPolicy {
    PasswordPolicy::new(1, 64, false, false, false, false)
}

fn at(secs: u64) -> ModifiedTime {
    ModifiedTime { secs, nanos: 0 }
}

fn tree(files: &[(&str, &str, u64)]) -> StrMap<SourceFile> {
    let mut t = StrMap::new();
    for (path, content, secs) in files {
        t.insert(
            path.to_string(),
            SourceFile { content: content.as_bytes().to_vec(), modified: at(*secs) },
        );
    }
    t
}

fn two_files() -> Vec<(&'static str, &'static str, u64)> {
    vec![
        ("file1.txt", "This is the content of file1\n", 10),
        ("logs/file2.log", "This is a log in file2. What?\n", 20),
    ]
}

impl Machine {
    fn new() -> Machine {
        Machine {
            entries: Vec::new(),
            collector: None,
            salt: None,
            blobs: Vec::new(),
            snapshots: Vec::new(),
            limit: 3,
            algorithm: "gzip".to_string(),
        }
    }

    fn registry(&self) -> BackupRegistry {
        let mut registry = BackupRegistry::new("registry.json".to_string());
        registry.registry = self.entries.clone();
        registry
    }

    fn garbage(&self) -> GarbageLimit {
        let mut all = GarbageLimit::new();
        if let Some(gc) = &self.collector {
            all.add_garbage_collector_to_limit(gc.clone());
        }
        all
    }

    fn listing(&self) -> Vec<SnapshotFile> {
        self.snapshots
            .iter()
            .map(|(written, path, _)| SnapshotFile { modified: *written, path: path.clone() })
            .collect()
    }

    fn snapshot_at(&self, path: &str) -> &Snapshot {
        &self.snapshots.iter().find(|s| s.1 == path).unwrap().2
    }

    fn blob_map(&self) -> StrMap<Vec<u8>> {
        let mut map = StrMap::new();
        for (name, bytes) in &self.blobs {
            map.insert(name.clone(), bytes.clone());
        }
        map
    }

    fn blob_names(&self) -> Vec<String> {
        let mut names: Vec<String> = self.blobs.iter().map(|b| b.0.clone()).collect();
        names.sort();
        names
    }

    fn backup(
        &mut self,
        files: &[(&str, &str, u64)],
        password: &str,
        secs: i64,
    ) -> Result<(), SnapError> {
        let config = Config::from(GeneralConfig::from((
            "registry".to_string(),
            self.algorithm.clone(),
            self.limit,
        )));
        let source = tree(files);
        let latest = get_nth_recent_json_snapshot(0, &self.listing());
        let latest = latest.as_ref().map(|p| self.snapshot_at(p));
        let plan = backup(
            self.registry(),
            self.garbage(),
            "source",
            "dest",
            password,
            &any_password(),
            None,
            &config,
            &source,
            latest,
            self.salt.clone(),
            Timestamp { secs, nanos: 0 },
        )?;
        if plan.store_salt {
            self.salt = Some(plan.salt.clone());
        }
        for blob in plan.blobs {
            self.blobs.retain(|b| b.0 != blob.hash);
            self.blobs.push((blob.hash, blob.bytes));
        }
        for gone in &plan.evictions {
            self.blobs.retain(|b| b.0 != gone.reference.hash_file);
            let owner = self
                .snapshots
                .iter_mut()
                .find(|s| s.1 == gone.reference.snapshot_path)
                .expect("the owning snapshot is there");
            owner.2.remove_file(&gone.path);
        }
        self.snapshots.push((at(secs as u64), plan.snapshot_path, plan.snapshot));
        self.entries = plan.registry.registry;
        let mut all = plan.garbage_info;
        self.collector = all.take_gc_from_limit("dest/blobs");
        Ok(())
    }

    fn restore(&mut self, nth: u8, password: &str) -> Result<Vec<(String, Vec<u8>)>, SnapError> {
        let registry = self.registry();
        let access = restore(nth, &registry, "dest", password, self.salt.clone(), &self.listing())?;
        let out = restore_files(
            registry,
            &access,
            self.snapshot_at(access.snapshot_path()),
            &self.blob_map(),
        )?;
        self.entries = out.registry.registry;
        self.snapshots.retain(|s| s.1 != out.remove_snapshot);
        Ok(out.files.into_iter().map(|f| (f.path, f.content)).collect())
    }

    fn delete(&mut self, nth: u8, password: &str) -> Result<(), SnapError> {
        let registry = self.registry();
        let access = delete(
            nth,
            true,
            &registry,
            "dest",
            password,
            self.salt.clone(),
            true,
            &self.listing(),
        )?
        .unwrap();
        let blobs = self.blob_map();
        let mut chosen = None;
        let mut others = Vec::new();
        let mut remaining = Vec::new();
        for (written, path, snapshot) in std::mem::take(&mut self.snapshots) {
            if &path == access.snapshot_path() {
                chosen = Some((written, path, snapshot));
            } else {
                others.push((written, path));
                remaining.push(snapshot);
            }
        }
        let chosen = chosen.unwrap();
        let outcome = delete_data(registry, &access, &chosen.2, &remaining, &blobs);
        self.snapshots =
            others.into_iter().zip(remaining).map(|((w, p), s)| (w, p, s)).collect();
        let out = match outcome {
            Ok(out) => out,
            Err(e) => {
                self.snapshots.push(chosen);
                return Err(e);
            },
        };
        for name in &out.remove_blobs {
            self.blobs.retain(|b| &b.0 != name);
        }
        self.entries = out.registry.registry;
        Ok(())
    }

    fn listed(&self) -> String {
        list(&self.registry()).join("\n")
    }
}

fn as_pairs(files: &[(&str, &str, u64)]) -> Vec<(String, Vec<u8>)> {
    files.iter().map(|(p, c, _)| (p.to_string(), c.as_bytes().to_vec())).collect()
}

#[test]
fn test_cli_backup_with_password() {
    let mut m = Machine::new();
    m.backup(&two_files(), &get_password(), 1_000).unwrap();
    assert_eq!(m.entries.len(), 1);
    assert_eq!(m.entries[0].snapshot_count, 1);
    assert_eq!(m.entries[0].origin_path, "source");
    assert_eq!(m.entries[0].backup_path, "dest");
    assert_eq!(m.entries[0].compression_algorithm, "gzip");
    assert_eq!(m.entries[0].timestamp, Timestamp { secs: 1_000, nanos: 0 });
    assert!(m.entries[0].password.verify("password").unwrap());
    assert_eq!(m.salt.as_ref().unwrap().len(), 16);
    assert_eq!(m.blobs.len(), 2);
    assert_eq!(m.snapshots.len(), 1);
    assert_eq!(m.snapshots[0].1, "dest/snapshot/1970-01-01T00-16-40.json");
    assert_eq!(m.collector.as_ref().unwrap().limit(), 3);
    assert_eq!(m.collector.as_ref().unwrap().directory(), "dest/blobs");
}

#[test]
fn test_cli_restore_with_correct_password_but_no_data_has_been_backed_up_should_fail() {
    let mut m = Machine::new();
    let err = m.restore(1, &get_password()).unwrap_err();
    assert!(err.to_message().contains("No backup available at path"));
    assert!(matches!(err, SnapError::Restore(_)));
}

#[test]
fn test_cli_restore_with_incorrect_password_treated_as_no_backup_data() {
    let mut m = Machine::new();
    m.backup(&two_files(), &get_password(), 1_000).unwrap();
    let err = m.restore(1, "Wrong2Password;").unwrap_err();
    assert!(err.to_message().contains("Password Error: IncorrectPassword"));
    assert!(matches!(err, SnapError::Password(PasswordError::IncorrectPassword)));
    assert_eq!(m.entries[0].snapshot_count, 1);
    assert_eq!(m.snapshots.len(), 1);
}

#[test]
fn test_cli_restore_with_correct_password_after_successful_backup() {
    let mut m = Machine::new();
    m.backup(&two_files(), &get_password(), 1_000).unwrap();
    let files = m.restore(1, &get_password()).unwrap();
    assert_eq!(files, as_pairs(&two_files()));
}

#[test]
fn test_cli_restore_3rd_version_after_one_backup_treated_as_no_backup_data() {
    let mut m = Machine::new();
    m.backup(&two_files(), &get_password(), 1_000).unwrap();
    let err = m.restore(3, &get_password()).unwrap_err();
    assert!(err.to_message().contains("Failed to restore"));
    assert_eq!(m.entries[0].snapshot_count, 1);
    assert_eq!(m.snapshots.len(), 1);
    assert_eq!(m.blobs.len(), 2);
}

#[test]
fn test_cli_delete_with_no_backup_data_should_fail() {
    let mut m = Machine::new();
    let err = m.delete(1, &get_password()).unwrap_err();
    assert!(err.to_message().contains("Target provided does not exist"));
    assert!(matches!(err, SnapError::Delete(_)));
}

#[test]
fn test_cli_delete_with_incorrect_password_should_fail() {
    let mut m = Machine::new();
    m.backup(&two_files(), &get_password(), 1_000).unwrap();
    let err = m.delete(1, "wrong_password").unwrap_err();
    assert!(err.to_message().contains("Password Error: IncorrectPassword"));
    assert_eq!(m.blobs.len(), 2);
    assert_eq!(m.snapshots.len(), 1);
    assert_eq!(m.entries.len(), 1);
}

#[test]
fn test_cli_delete_after_one_backup_should_pass() {
    let mut m = Machine::new();
    m.backup(&two_files(), &get_password(), 1_000).unwrap();
    m.delete(1, &get_password()).unwrap();
    assert!(m.blobs.is_empty());
    assert!(m.snapshots.is_empty());
    assert!(m.entries.is_empty());
}

#[test]
fn test_cli_delete_1st_version_after_3_backups_should_succeed() {
    let mut m = Machine::new();
    let mut files = two_files();
    m.backup(&files, &get_password(), 1_000).unwrap();
    files.push(("file_1.txt", "Adding a new file with content\n", 30));
    m.backup(&files, &get_password(), 2_000).unwrap();
    files.push(("file_2.txt", "Adding another file with content\n", 40));
    m.backup(&files, &get_password(), 3_000).unwrap();
    assert_eq!(m.blobs.len(), 4);
    let newest = m.snapshot_at("dest/snapshot/1970-01-01T00-50-00.json");
    let owned = newest.files.get("file_2.txt").unwrap().hash.clone();
    assert!(!newest.files.get("file1.txt").unwrap().isupdated);
    m.delete(1, &get_password()).unwrap();
    assert_eq!(m.entries[0].snapshot_count, 2);
    assert_eq!(m.snapshots.len(), 2);
    assert_eq!(m.blobs.len(), 3);
    assert!(!m.blob_names().contains(&owned));
}

#[test]
fn test_cli_delete_3rd_version_after_1_backup_should_fail() {
    let mut m = Machine::new();
    m.backup(&two_files(), &get_password(), 1_000).unwrap();
    let err = m.delete(3, &get_password()).unwrap_err();
    assert!(err.to_message().contains("Failed to delete backup"));
    assert_eq!(m.blobs.len(), 2);
    assert_eq!(m.entries[0].snapshot_count, 1);
}

#[test]
fn test_cli_list_with_no_backups_should_print_nothing() {
    let m = Machine::new();
    assert!(m.listed().contains("No data has been backed up"));
    assert_eq!(list(&m.registry()), vec!["No data has been backed up yet!".to_string()]);
}

#[test]
fn test_cli_list_after_backup_should_print_information() {
    let mut m = Machine::new();
    m.backup(&two_files(), &get_password(), 1_000).unwrap();
    let shown = m.listed();
    assert!(shown.contains("Snapshots: 1"));
    let lines = list(&m.registry());
    assert_eq!(lines.len(), 2);
    assert_eq!(lines[0], "Listing All Backups 📦...");
    assert_eq!(
        lines[1],
        format!(
            "- ID: {}\n Original Path: \"source\"\n Backup Path: \"dest\"\n Created: 1970-01-01T00-16-40\n Snapshots: 1",
            m.entries[0].id
        )
    );
}

#[test]
fn test_cli_list_after_backup_and_delete_should_print_nothing() {
    let mut m = Machine::new();
    m.backup(&two_files(), &get_password(), 1_000).unwrap();
    m.delete(1, &get_password()).unwrap();
    assert!(m.listed().contains("No data has been backed up"));
}

#[test]
fn test_cli_list_after_backup_and_restore_should_print_nothing() {
    let mut m = Machine::new();
    m.backup(&two_files(), &get_password(), 1_000).unwrap();
    m.restore(1, &get_password()).unwrap();
    assert!(m.listed().contains("No data has been backed up"));
    assert!(m.snapshots.is_empty());
    assert_eq!(m.blobs.len(), 2);
}

#[test]
fn test_cli_backup_ensures_strict_password_enforcement() {
    let mut m = Machine::new();
    m.backup(&two_files(), &get_password(), 1_000).unwrap();
    let mut files = two_files();
    files.push(("file1.txt", "Adding a new file with content\n", 30));
    let err = m.backup(&files, "wrong password", 2_000).unwrap_err();
    assert!(matches!(err, SnapError::Password(PasswordError::IncorrectPassword)));
    assert_eq!(err.to_message(), "Password Error: IncorrectPassword");
    assert_eq!(m.blobs.len(), 2);
    assert_eq!(m.snapshots.len(), 1);
    assert_eq!(m.entries[0].snapshot_count, 1);
}

#[test]
fn two_backups_then_the_older_one_comes_back() {
    let mut m = Machine::new();
    let mut files = two_files();
    m.backup(&files, &get_password(), 1_000).unwrap();
    files.push(("file_1.txt", "Adding a new file with content\n", 30));
    m.backup(&files, &get_password(), 2_000).unwrap();
    assert!(m.listed().contains("Snapshots: 2"));
    let restored = m.restore(2, &get_password()).unwrap();
    assert_eq!(restored, as_pairs(&two_files()));
    assert!(m.listed().contains("Snapshots: 1"));
}

#[test]
fn each_version_comes_back_as_it_was() {
    let mut m = Machine::new();
    m.algorithm = "none".to_string();
    let mut files = two_files();
    m.backup(&files, &get_password(), 1_000).unwrap();
    files.push(("file_1.txt", "Adding a new file with content\n", 30));
    m.backup(&files, &get_password(), 2_000).unwrap();
    let newest = m.restore(1, &get_password()).unwrap();
    assert_eq!(newest, as_pairs(&files));
    let oldest = m.restore(1, &get_password()).unwrap();
    assert_eq!(oldest, as_pairs(&two_files()));
    assert!(m.entries.is_empty());
}

#[test]
fn the_third_newest_of_three_is_the_first_tree() {
    let mut m = Machine::new();
    let mut files = two_files();
    m.backup(&files, &get_password(), 1_000).unwrap();
    files.push(("file_1.txt", "Adding a new file with content\n", 30));
    m.backup(&files, &get_password(), 2_000).unwrap();
    files.push(("file_2.txt", "Adding a new file with content\n", 40));
    m.backup(&files, &get_password(), 3_000).unwrap();
    assert!(m.listed().contains("Snapshots: 3"));
    assert_eq!(m.blobs.len(), 3);
    let restored = m.restore(3, &get_password()).unwrap();
    assert_eq!(restored, as_pairs(&two_files()));
    assert_eq!(m.entries[0].snapshot_count, 2);
}

#[test]
fn a_delete_leaves_the_blobs_that_other_snapshots_use() {
    let mut m = Machine::new();
    m.algorithm = "none".to_string();
    let mut files = two_files();
    m.backup(&files, &get_password(), 1_000).unwrap();
    files.push(("file_1.txt", "Adding a new file with content\n", 30));
    m.backup(&files, &get_password(), 2_000).unwrap();
    assert_eq!(m.blobs.len(), 3);
    // The older snapshot stored the two files that the newer one took over.
    m.delete(2, &get_password()).unwrap();
    assert_eq!(m.blobs.len(), 3);
    assert_eq!(m.snapshots.len(), 1);
    assert_eq!(m.entries[0].snapshot_count, 1);
    assert_eq!(m.restore(1, &get_password()).unwrap(), as_pairs(&files));
}

#[test]
fn a_delete_frees_what_the_last_user_leaves_behind() {
    let mut m = Machine::new();
    m.algorithm = "none".to_string();
    let mut files = two_files();
    m.backup(&files, &get_password(), 1_000).unwrap();
    files.push(("file_1.txt", "Adding a new file with content\n", 30));
    m.backup(&files, &get_password(), 2_000).unwrap();
    m.delete(2, &get_password()).unwrap();
    // The newer snapshot is now the only user of all three blobs.
    m.delete(1, &get_password()).unwrap();
    assert!(m.blobs.is_empty());
    assert!(m.snapshots.is_empty());
    assert!(m.entries.is_empty());
}

#[test]
fn a_backup_without_changes_is_refused_and_counts_nothing() {
    let mut m = Machine::new();
    m.backup(&two_files(), &get_password(), 1_000).unwrap();
    let mut touched = two_files();
    touched[0].2 = 99;
    let err = m.backup(&touched, &get_password(), 2_000).unwrap_err();
    assert_eq!(err.to_message(), "Backup Error: No File changes and hence backup aborted.");
    assert_eq!(m.entries.len(), 1);
    assert_eq!(m.entries[0].snapshot_count, 1);
    assert_eq!(m.snapshots.len(), 1);
    assert_eq!(m.blobs.len(), 2);
}

#[test]
fn a_destination_keeps_its_algorithm() {
    let mut m = Machine::new();
    m.algorithm = "zstd".to_string();
    m.backup(&two_files(), &get_password(), 1_000).unwrap();
    m.algorithm = "lzma".to_string();
    let mut files = two_files();
    files.push(("more.txt", "more", 30));
    m.backup(&files, &get_password(), 2_000).unwrap();
    assert_eq!(m.entries[0].compression_algorithm, "zstd");
    assert_eq!(m.entries[0].snapshot_count, 2);
    assert_eq!(m.restore(1, &get_password()).unwrap(), as_pairs(&files));
}

#[test]
fn retention_drops_the_oldest_version_of_a_file() {
    let mut m = Machine::new();
    m.limit = 1;
    m.algorithm = "none".to_string();
    m.backup(&[("a", "first", 10), ("b", "stays", 10)], &get_password(), 1_000).unwrap();
    let first_a = m.snapshots[0].2.files.get("a").unwrap().hash.clone();
    m.backup(&[("a", "second", 20), ("b", "stays", 10)], &get_password(), 2_000).unwrap();
    assert!(!m.blob_names().contains(&first_a));
    assert_eq!(m.blobs.len(), 2);
    assert!(m.snapshots[0].2.files.get("a").is_none());
    assert!(m.snapshots[0].2.files.get("b").is_some());
    assert_eq!(m.collector.as_ref().unwrap().get_index().get("a").unwrap().len(), 1);
}

#[test]
fn a_new_destination_asks_for_a_password_within_the_policy() {
    let config =
        Config::from(GeneralConfig::from(("registry".to_string(), "gzip".to_string(), 3)));
    let source = tree(&two_files());
    let outcome = backup(
        BackupRegistry::default(),
        GarbageLimit::new(),
        "source",
        "dest",
        "password",
        &PasswordPolicy::default(),
        None,
        &config,
        &source,
        None,
        None,
        Timestamp { secs: 1_000, nanos: 0 },
    );
    assert!(matches!(outcome, Err(SnapError::Password(PasswordError::InvalidFormat(_)))));
}

#[test]
fn an_unknown_algorithm_is_refused() {
    let mut m = Machine::new();
    m.algorithm = "rar".to_string();
    let err = m.backup(&two_files(), &get_password(), 1_000).unwrap_err();
    assert_eq!(err.to_message(), "Config Error: Defined algorithm choice unavailble");
    assert!(m.entries.is_empty());
}

#[test]
fn a_delete_that_is_not_confirmed_opens_nothing() {
    let registry = BackupRegistry::default();
    let outcome = delete(1, false, &registry, "dest", "password", None, true, &Vec::new());
    assert!(outcome.unwrap().is_none());
}

#[test]
fn a_destination_without_directories_cannot_be_deleted_from() {
    let mut m = Machine::new();
    m.backup(&two_files(), &get_password(), 1_000).unwrap();
    let registry = m.registry();
    let outcome =
        delete(1, true, &registry, "dest", "password", m.salt.clone(), false, &m.listing());
    match outcome {
        Err(SnapError::Delete(msg)) => assert_eq!(msg, "Target does not contain any backup"),
        _ => panic!("expected the delete to be refused"),
    }
}

#[test]
fn a_missing_blob_stops_the_restore() {
    let mut m = Machine::new();
    m.backup(&two_files(), &get_password(), 1_000).unwrap();
    m.blobs.remove(0);
    let err = m.restore(1, &get_password()).unwrap_err();
    assert_eq!(err.to_message(), "Restore Error: Blob is missing from the destination");
    assert_eq!(m.entries[0].snapshot_count, 1);
    assert_eq!(m.snapshots.len(), 1);
}
