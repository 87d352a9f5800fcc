use snapsafe::actions::{
    check_password, confirm_algorithm, consents, describe_entry, generate_compression_engine,
    open_destination, Purpose, SnapshotFile,
};
use snapsafe::snapshot::ModifiedTime;
use snapsafe::compress::CompressionType;
use snapsafe::config::{Config, GeneralConfig};
use snapsafe::error::{PasswordError, SnapError};
use snapsafe::text::join_text;
use snapsafe::layout::SnapshotLayout;
use snapsafe::password::{Password, PasswordPolicy};
use snapsafe::registry::{BackupEntry, BackupRegistry, Timestamp};
use snapsafe::strmap::{same_text, StrMap};

#[test]
fn messages_name_the_kind_of_error() {
    let text = |e: SnapError| e.to_message();
    assert_eq!(text(SnapError::Command("c".into())), "Command Error: c");
    assert_eq!(text(SnapError::Config("c".into())), "Config Error: c");
    assert_eq!(text(SnapError::Backup("b".into())), "Backup Error: b");
    assert_eq!(text(SnapError::Restore("r".into())), "Restore Error: r");
    assert_eq!(text(SnapError::Delete("d".into())), "Delete Error: d");
    assert_eq!(
        text(SnapError::EncryptError("m".into(), "detail".into())),
        "Encryption/Decryption Error: m"
    );
    assert_eq!(text(SnapError::InvalidCompressor("x".into())), "Compress/Decompress Error: x");
    assert_eq!(text(SnapError::InvalidSnapshotLayout("p".into())), "Invalid Snapshot Layout: p");
    assert_eq!(text(SnapError::SerializationError("s".into())), "Serialization Error: s");
    assert_eq!(
        text(SnapError::Password(PasswordError::IncorrectPassword)),
        "Password Error: IncorrectPassword"
    );
    assert_eq!(
        text(SnapError::Password(PasswordError::InvalidFormat("why".into()))),
        "Password Error: InvalidFormat(why)"
    );
    let io = std::io::Error::new(std::io::ErrorKind::Other, "disk gone");
    assert_eq!(text(SnapError::IOError(io)), "IO Error: disk gone");
    let io = std::io::Error::new(std::io::ErrorKind::Other, "no terminal");
    assert_eq!(
        text(SnapError::Password(PasswordError::InputError(io))),
        "Password Error: InputError(no terminal)"
    );
    assert_eq!(PasswordError::IncorrectPassword.describe(), "IncorrectPassword");
    assert_eq!(join_text("a", "b"), "ab");
}

#[test]
fn errors_convert_into_the_common_one() {
    let e: SnapError = PasswordError::IncorrectPassword.into();
    assert!(matches!(e, SnapError::Password(PasswordError::IncorrectPassword)));
    let e: SnapError = std::io::Error::new(std::io::ErrorKind::NotFound, "x").into();
    assert!(matches!(e, SnapError::IOError(_)));
    let e: SnapError = ("message".to_string(), "detail".to_string()).into();
    assert!(matches!(e, SnapError::EncryptError(m, d) if m == "message" && d == "detail"));
    let e: PasswordError = std::io::Error::new(std::io::ErrorKind::NotFound, "x").into();
    assert!(matches!(e, PasswordError::InputError(_)));
    let hash = Password { hash: "nonsense".to_string() }.verify("x").unwrap_err();
    assert!(hash.describe().starts_with("HashError("));
}

#[test]
fn a_layout_names_its_directories() {
    let layout = SnapshotLayout::initialize("/backups/home");
    assert_eq!(layout.base, "/backups/home");
    assert_eq!(layout.blobs, "/backups/home/blobs");
    assert_eq!(layout.snapshots, "/backups/home/snapshot");
    assert_eq!(layout.salt_path(), "/backups/home/key_salt");
    assert_eq!(layout.blob_path("abc123"), "/backups/home/blobs/abc123");
    assert!(layout.validate(true, true).is_ok());
    for (blobs, snapshots) in [(false, true), (true, false), (false, false)] {
        match layout.validate(blobs, snapshots) {
            Err(SnapError::InvalidSnapshotLayout(p)) => assert_eq!(p, "/backups/home"),
            _ => panic!("expected the layout to be refused"),
        }
    }
}

#[test]
fn settings_are_built_from_their_parts() {
    let general = GeneralConfig::from(("some/path".to_string(), "gzip".to_string(), 3));
    assert_eq!(general.registry_dir, "some/path");
    assert_eq!(general.compression, "gzip");
    assert!(general.encryption);
    assert_eq!(general.gc_limit, 3);
    let settings = Config { general: general.clone() };
    assert!(settings == Config::from(general));
    assert!(settings == settings.clone());
    let other = Config::from(GeneralConfig::from(("some/path".to_string(), "zstd".to_string(), 3)));
    assert!(settings != other);
}

#[test]
fn settings_from_answers() {
    assert!(GeneralConfig::from_answers(None, Some("gzip".into()), Some(5)).is_none());
    let all = GeneralConfig::from_answers(Some("dir".into()), Some("zstd".into()), Some(5)).unwrap();
    assert_eq!(all.registry_dir, "dir");
    assert_eq!(all.compression, "zstd");
    assert_eq!(all.gc_limit, 5);
    assert!(all.encryption);
    let bare = GeneralConfig::from_answers(Some("dir".into()), None, None).unwrap();
    assert_eq!(bare.compression, "none");
    assert_eq!(bare.gc_limit, 3);
}

#[test]
fn the_algorithm_asked_for_wins_over_the_settings() {
    let config = Config::from(GeneralConfig::from(("r".to_string(), "zstd".to_string(), 3)));
    let (algo, conf) = confirm_algorithm(Some("gzip".to_string()), Some(config.clone()));
    assert_eq!(algo, Some("gzip".to_string()));
    assert!(conf.unwrap() == config);
    let (algo, conf) = confirm_algorithm(None, Some(config.clone()));
    assert_eq!(algo, Some("zstd".to_string()));
    assert!(conf.is_some());
    let (algo, conf) = confirm_algorithm(Some("lzma".to_string()), None);
    assert_eq!(algo, Some("lzma".to_string()));
    assert!(conf.is_none());
}

#[test]
fn engines_are_built_by_name() {
    let (engine, name) = generate_compression_engine(Some("Brotli".to_string())).unwrap();
    assert_eq!(engine.kind(), CompressionType::Brotli);
    assert_eq!(name, "Brotli");
    let (engine, name) = generate_compression_engine(None).unwrap();
    assert_eq!(engine.kind(), CompressionType::Uncompressed);
    assert_eq!(name, "none");
    assert!(matches!(
        generate_compression_engine(Some("rar".to_string())),
        Err(SnapError::Config(_))
    ));
}

fn entry_bound_to(password: &str) -> BackupEntry {
    let policy = PasswordPolicy::new(1, 64, false, false, false, false);
    let record = Password::new(password.to_string(), &policy).unwrap();
    BackupEntry::new(
        Timestamp { secs: 0, nanos: 0 },
        "source".to_string(),
        "dest".to_string(),
        &record,
        "rar".to_string(),
    )
}

#[test]
fn the_password_is_bound_to_the_destination() {
    let entry = entry_bound_to("right");
    assert!(check_password(&entry, "right").is_ok());
    assert!(matches!(
        check_password(&entry, "wrong"),
        Err(SnapError::Password(PasswordError::IncorrectPassword))
    ));
    let mut broken = entry.clone();
    broken.password = Password::default();
    assert!(matches!(
        check_password(&broken, "right"),
        Err(SnapError::Password(PasswordError::HashError(_)))
    ));
}

#[test]
fn a_destination_opens_in_a_fixed_order_of_checks() {
    let mut registry = BackupRegistry::default();
    registry.add_backup(entry_bound_to("right"));
    let none = Vec::new();
    let one = vec![SnapshotFile {
        modified: ModifiedTime { secs: 1, nanos: 0 },
        path: "dest/snapshot/one.json".to_string(),
    }];
    let short = || Some(vec![1u8]);
    // A place beyond the snapshots is reported before the algorithm and the
    // salt are looked at.
    match open_destination(Purpose::Restore, 0, &registry, "dest", "right", short(), true, &none) {
        Err(SnapError::Restore(m)) => {
            assert_eq!(m, "Failed to restore: no snapshot at requested index")
        },
        _ => panic!("expected no snapshot"),
    }
    match open_destination(Purpose::Delete, 1, &registry, "dest", "right", short(), true, &one) {
        Err(SnapError::Delete(m)) => {
            assert_eq!(m, "Failed to delete backup: no snapshot at requested index")
        },
        _ => panic!("expected no snapshot"),
    }
    // The algorithm counts on restore only, and before the salt does.
    match open_destination(Purpose::Restore, 0, &registry, "dest", "right", short(), true, &one) {
        Err(SnapError::Config(m)) => assert_eq!(m, "Defined algorithm choice unavailble"),
        _ => panic!("expected the algorithm to be refused"),
    }
    assert!(matches!(
        open_destination(Purpose::Delete, 0, &registry, "dest", "right", short(), true, &one),
        Err(SnapError::Password(PasswordError::HashError(_)))
    ));
    match open_destination(Purpose::Delete, 0, &registry, "dest", "right", None, false, &one) {
        Err(SnapError::Delete(m)) => assert_eq!(m, "Target does not contain any backup"),
        _ => panic!("expected missing directories"),
    }
    assert!(matches!(
        open_destination(Purpose::Delete, 0, &registry, "dest", "wrong", None, false, &none),
        Err(SnapError::Password(PasswordError::IncorrectPassword))
    ));
    match open_destination(Purpose::Delete, 0, &registry, "other", "right", None, true, &none) {
        Err(SnapError::Delete(m)) => assert_eq!(m, "Target provided does not exist."),
        _ => panic!("expected an unknown destination"),
    }
    match open_destination(Purpose::Restore, 0, &registry, "other", "right", None, true, &none) {
        Err(SnapError::Restore(m)) => assert_eq!(m, "No backup available at path provided"),
        _ => panic!("expected an unknown destination"),
    }
    let access =
        open_destination(Purpose::Delete, 0, &registry, "dest", "right", None, true, &one).unwrap();
    assert_eq!(access.snapshot_path(), "dest/snapshot/one.json");
    assert_eq!(access.salt().len(), 16);
    assert!(access.store_salt());
    assert_eq!(access.entry().backup_path, "dest");
}

#[test]
fn consent_is_forced_or_given() {
    assert!(consents(true, None));
    assert!(consents(true, Some("n")));
    assert!(consents(false, Some("y")));
    assert!(consents(false, Some("yes")));
    assert!(!consents(false, Some("")));
    assert!(!consents(false, Some("n")));
    assert!(!consents(false, Some("yes please")));
    assert!(!consents(false, None));
}

#[test]
fn an_entry_is_described_line_by_line() {
    let mut entry = entry_bound_to("right");
    entry.id = "the-id".to_string();
    entry.snapshot_count = 12;
    entry.timestamp = Timestamp { secs: i64::MAX, nanos: 0 };
    assert_eq!(
        describe_entry(&entry),
        "- ID: the-id\n Original Path: \"source\"\n Backup Path: \"dest\"\n Created: ?\n Snapshots: 12"
    );
}

#[test]
fn a_map_keeps_one_value_for_each_key() {
    let mut map: StrMap<u32> = StrMap::new();
    assert!(map.is_empty());
    map.insert("a".to_string(), 1);
    map.insert("b".to_string(), 2);
    map.insert("a".to_string(), 3);
    assert_eq!(map.len(), 2);
    assert_eq!(map.get("a"), Some(&3));
    assert_eq!(map.get("b"), Some(&2));
    assert_eq!(map.get("c"), None);
    assert_eq!(map.key_at(0), "a");
    assert_eq!(*map.value_at(1), 2);
    assert_eq!(map.position("b"), Some(1));
    assert!(map.contains_key("a"));
    assert_eq!(map.remove("a"), Some(3));
    assert_eq!(map.remove("a"), None);
    assert_eq!(map.key_at(0), "b");
    assert!(!map.is_empty());
    assert!(same_text("x", "x"));
    assert!(!same_text("x", "y"));
}
