//! The operations on a destination: back up, restore, delete and list.
//!
//! Each takes what was read from disk as plain values and hands back what is
//! to be written; nothing here touches a file.

use vstd::prelude::*;
use crate::compress::{
    build_compress_engine, decompressed, level_of, parsed, unknown_algorithm, CompressionEngine,
    CompressionType, DecompressionEngine,
};
use crate::config::Config;
use crate::crypto::{
    decrypt_failure, decrypt_file_bytes, derived_key, get_salt, kdf_takes, opened, try_derive_key,
};
use crate::error::{PasswordError, SnapError};
use crate::gc::{GarbageCollector, GarbageLimit};
use crate::layout::{blobs_name, joined, snapshots_name, SnapshotLayout};
use crate::password::{hashable, phc_verify, Password, PasswordPolicy};
use crate::registry::{
    first_at_dest, knows_dest, upserted, BackupEntry, BackupRegistry, Timestamp,
};
use crate::snapshot::{
    created, evictions_after, evictions_view, index_after, no_calendar_date, snapshot_file, Blob,
    Eviction, FileEntry, ModifiedTime, Snapshot, SourceFile,
};
use crate::strmap::{same_text, StrMap};
use crate::text::{decimal, join_text, usize_to_string};
use vstd::relations::injective_on;
use vstd::set_lib::{lemma_int_range, lemma_map_size, lemma_subset_equality, set_int_range};

verus! {

/// A snapshot file found in a destination: when it was last written, and its
/// path.
#[derive(Debug)]
pub struct SnapshotFile {
    pub modified: ModifiedTime,
    pub path: String,
}

/// Whether `a` is later than `b`.
pub open spec fn newer(a: ModifiedTime, b: ModifiedTime) -> bool {
    a.secs > b.secs || (a.secs == b.secs && a.nanos > b.nanos)
}

/// Whether file `j` comes before file `i` when the files are put newest
/// first, files of one time in the order of the listing.
pub open spec fn comes_before(listing: Seq<SnapshotFile>, j: int, i: int) -> bool {
    newer(listing[j].modified, listing[i].modified) || (listing[j].modified == listing[i].modified
        && j < i)
}

/// How many of the first `m` files come before file `i`.
pub open spec fn rank_among(listing: Seq<SnapshotFile>, i: int, m: int) -> nat
    decreases m,
{
    if m <= 0 {
        0
    } else {
        rank_among(listing, i, m - 1) + if comes_before(listing, m - 1, i) {
            1nat
        } else {
            0nat
        }
    }
}

/// The place of file `i` when the files are put newest first, counted from 0.
pub open spec fn rank(listing: Seq<SnapshotFile>, i: int) -> nat {
    rank_among(listing, i, listing.len() as int)
}

/// No file has more files before it than there are other files.
proof fn lemma_rank_bound(listing: Seq<SnapshotFile>, i: int, m: int)
    requires
        0 <= i < listing.len(),
        0 <= m <= listing.len(),
    ensures
        rank_among(listing, i, m) <= m,
        i < m ==> rank_among(listing, i, m) < m,
    decreases m,
{
    if m > 0 {
        lemma_rank_bound(listing, i, m - 1);
        if i == m - 1 {
            assert(!comes_before(listing, i, i));
        }
    }
}

/// A file that comes before another has fewer files before it.
proof fn lemma_rank_grows(listing: Seq<SnapshotFile>, a: int, b: int, m: int)
    requires
        0 <= a < listing.len(),
        0 <= b < listing.len(),
        0 <= m <= listing.len(),
        comes_before(listing, a, b),
    ensures
        rank_among(listing, a, m) + (if a < m {
            1nat
        } else {
            0nat
        }) <= rank_among(listing, b, m),
    decreases m,
{
    if m > 0 {
        lemma_rank_grows(listing, a, b, m - 1);
        let j = m - 1;
        if comes_before(listing, j, a) {
            assert(comes_before(listing, j, b));
        }
        if j == a {
            assert(!comes_before(listing, a, a));
        }
    }
}

/// Each place from 0 up to the number of files is taken by some file.
pub proof fn lemma_every_place_taken(listing: Seq<SnapshotFile>, k: nat)
    requires
        k < listing.len(),
    ensures
        exists|i: int| 0 <= i < listing.len() && rank(listing, i) == k,
{
    let n = listing.len() as int;
    let dom = set_int_range(0, n);
    let f = |i: int| rank(listing, i) as int;
    lemma_int_range(0, n);
    assert forall|a: int, b: int|
        dom.contains(a) && dom.contains(b) && #[trigger] f(a) == #[trigger] f(b) implies a
        == b by {
        if a != b {
            if comes_before(listing, a, b) {
                lemma_rank_grows(listing, a, b, n);
            } else {
                assert(comes_before(listing, b, a));
                lemma_rank_grows(listing, b, a, n);
            }
        }
    }
    assert(injective_on(f, dom));
    let img = dom.map(f);
    lemma_map_size(dom, img, f);
    assert forall|v: int| img.contains(v) implies dom.contains(v) by {
        let i = choose|i: int| dom.contains(i) && v == f(i);
        lemma_rank_bound(listing, i, n);
    }
    assert(img.subset_of(dom));
    lemma_subset_equality(img, dom);
    assert(dom.contains(k as int));
    assert(img.contains(k as int));
    let i = choose|i: int| dom.contains(i) && k as int == f(i);
    assert(0 <= i < listing.len() && rank(listing, i) == k);
}

/// The path of the snapshot file that stands at place `nth` when the files
/// are put newest first, files of one time in the order of the listing.
pub fn get_nth_recent_json_snapshot(nth: usize, listing: &Vec<SnapshotFile>) -> (r: Option<String>)
    ensures
        match r {
            Some(p) => exists|i: int|
                0 <= i < listing@.len() && rank(listing@, i) == nth && p == listing@[i].path,
            None => forall|i: int| 0 <= i < listing@.len() ==> rank(listing@, i) != nth,
        },
        r is Some <==> nth < listing@.len(),
{
    let n = listing.len();
    let mut i: usize = 0;
    while i < n
        invariant
            i <= n,
            n == listing@.len(),
            forall|k: int| 0 <= k < i ==> rank(listing@, k) != nth,
        decreases n - i,
    {
        let mut count: usize = 0;
        let mut j: usize = 0;
        while j < n
            invariant
                j <= n,
                i < n,
                n == listing@.len(),
                count == rank_among(listing@, i as int, j as int),
                count <= j,
            decreases n - j,
        {
            let a = &listing[j].modified;
            let b = &listing[i].modified;
            let before = a.secs > b.secs || (a.secs == b.secs && a.nanos > b.nanos) || (a.secs
                == b.secs && a.nanos == b.nanos && j < i);
            if before {
                count += 1;
            }
            j += 1;
        }
        if count == nth {
            proof {
                lemma_rank_bound(listing@, i as int, n as int);
                assert(rank(listing@, i as int) == nth);
            }
            return Some(listing[i].path.clone());
        }
        i += 1;
    }
    proof {
        if nth < n {
            lemma_every_place_taken(listing@, nth as nat);
        }
    }
    None
}

/// Checks the password against the one the destination is bound to.
pub fn check_password(entry: &BackupEntry, password: &str) -> (r: Result<(), SnapError>)
    ensures
        match phc_verify(entry.password.hash@, password@) {
            Some(true) => r is Ok,
            Some(false) => r matches Err(SnapError::Password(PasswordError::IncorrectPassword)),
            None => r matches Err(SnapError::Password(PasswordError::HashError(_))),
        },
{
    match entry.password.verify(password) {
        Err(err) => Err(SnapError::Password(err)),
        Ok(false) => Err(SnapError::Password(PasswordError::IncorrectPassword)),
        Ok(true) => Ok(()),
    }
}

/// The name of the algorithm to use where none is given.
pub open spec fn algorithm_or_none(algorithm: Option<String>) -> Seq<char> {
    match algorithm {
        Some(a) => a@,
        None => "none"@,
    }
}

/// Builds the engine for a named algorithm, `none` where no name is given;
/// returns the engine and the name.
pub fn generate_compression_engine(algorithm: Option<String>) -> (r: Result<
    (CompressionEngine, String),
    SnapError,
>)
    ensures
        match parsed(algorithm_or_none(algorithm)) {
            Some(t) => r matches Ok((e, name)) && e.algorithm() == t && e.level() == level_of(t)
                && name@ == algorithm_or_none(algorithm),
            None => r matches Err(SnapError::Config(m)) && m@ == unknown_algorithm(),
        },
{
    let comp = match algorithm {
        Some(a) => a,
        None => String::from_str("none"),
    };
    let engine = match build_compress_engine(comp.clone()) {
        Ok(e) => e,
        Err(err) => {
            return Err(err);
        },
    };
    Ok((engine, comp))
}

/// Settles the algorithm of a backup: the one asked for, or else the one of
/// the settings.
pub fn confirm_algorithm(algorithm: Option<String>, config: Option<Config>) -> (out: (
    Option<String>,
    Option<Config>,
))
    requires
        algorithm is Some || config is Some,
    ensures
        out.1 == config,
        out.0 == match algorithm {
            Some(a) => Some(a),
            None => Some(config.unwrap().general.compression),
        },
{
    let algo = match algorithm {
        Some(a) => Some(a),
        None => match &config {
            Some(c) => Some(c.general.compression.clone()),
            None => None,
        },
    };
    (algo, config)
}

/// What the blob `blob` of the file entry `entry` restores to: it is
/// decrypted under `key` and the entry's nonce, then decompressed.
pub open spec fn restored(
    key: Seq<u8>,
    algo: CompressionType,
    entry: FileEntry,
    blob: Seq<u8>,
) -> Option<Seq<u8>> {
    match opened(key, entry.nonce@, blob) {
        Some(c) => decompressed(algo, c),
        None => None,
    }
}

/// What is reported where a blob does not decrypt on restore.
pub open spec fn cannot_decrypt() -> Seq<char> {
    "Failed to decrypt target file"@
}

/// Restores the content of one file from its blob.
pub fn restore_file(
    blob: &[u8],
    key: &[u8; 32],
    entry: &FileEntry,
    engine: &DecompressionEngine,
) -> (r: Result<Vec<u8>, SnapError>)
    ensures
        match r {
            Ok(content) => restored(key@, engine.algorithm(), *entry, blob@) == Some(content@),
            Err(SnapError::EncryptError(m, d)) => m@ == cannot_decrypt() && d@ == decrypt_failure()
                && opened(key@, entry.nonce@, blob@) is None,
            Err(SnapError::IOError(_)) => opened(key@, entry.nonce@, blob@) is Some && restored(
                key@,
                engine.algorithm(),
                *entry,
                blob@,
            ) is None,
            Err(_) => false,
        },
{
    match decrypt_file_bytes(blob, key.as_slice(), &entry.nonce) {
        Ok(decrypted) => match engine.decompress(decrypted.as_slice()) {
            Ok(content) => Ok(content),
            Err(e) => Err(SnapError::IOError(e)),
        },
        Err(err) => Err(
            SnapError::EncryptError(String::from_str("Failed to decrypt target file"), err),
        ),
    }
}

/// The entry of the destination `dest`: the first one, should there be
/// several.
pub open spec fn bound_entry(entries: Seq<BackupEntry>, dest: Seq<char>) -> Option<BackupEntry> {
    if knows_dest(entries, dest) {
        Some(entries[choose|i: int| first_at_dest(entries, i, dest)])
    } else {
        None
    }
}

/// A known destination has a first entry.
pub proof fn lemma_known_dest_has_first(entries: Seq<BackupEntry>, dest: Seq<char>, k: int)
    requires
        0 <= k < entries.len(),
        entries[k].backup_path@ == dest,
    ensures
        exists|i: int| first_at_dest(entries, i, dest),
    decreases k,
{
    if exists|j: int| 0 <= j < k && (#[trigger] entries[j]).backup_path@ == dest {
        let j = choose|j: int| 0 <= j < k && (#[trigger] entries[j]).backup_path@ == dest;
        lemma_known_dest_has_first(entries, dest, j);
    } else {
        assert(first_at_dest(entries, k, dest));
    }
}

/// The first entry of a destination is its bound entry.
pub proof fn lemma_bound_entry(entries: Seq<BackupEntry>, i: int, dest: Seq<char>)
    requires
        first_at_dest(entries, i, dest),
    ensures
        knows_dest(entries, dest),
        bound_entry(entries, dest) == Some(entries[i]),
{
    assert(knows_dest(entries, dest));
    let j = choose|j: int| first_at_dest(entries, j, dest);
    if j < i {
        assert(entries[j].backup_path@ != dest);
    } else if i < j {
        assert(entries[i].backup_path@ != dest);
    }
}

/// The algorithm a backup to a destination runs with: the one the
/// destination is bound to; for a new destination the one asked for, or else
/// the one of the settings.
pub open spec fn algorithm_name(bound: Option<BackupEntry>, comp: Option<String>, config: &Config) -> Seq<
    char,
> {
    match bound {
        Some(e) => e.compression_algorithm@,
        None => match comp {
            Some(c) => c@,
            None => config.general.compression@,
        },
    }
}

/// The collector a backup starts from: the one filed under the blob
/// directory, or by default an empty one with the version limit of the
/// settings.
pub open spec fn start_index(garbage_info: GarbageLimit, dir: Seq<char>) -> Map<
    Seq<char>,
    Seq<crate::gc::RefView>,
> {
    if garbage_info.gc@.contains_key(dir) {
        garbage_info.gc@[dir].index()
    } else {
        Map::empty()
    }
}

/// The version limit a backup runs with.
pub open spec fn start_limit(garbage_info: GarbageLimit, dir: Seq<char>, config: &Config) -> nat {
    if garbage_info.gc@.contains_key(dir) {
        garbage_info.gc@[dir].max_versions()
    } else {
        config.general.gc_limit as nat
    }
}

/// The key under which the collector is filed after a backup.
pub open spec fn collector_home(garbage_info: GarbageLimit, dir: Seq<char>) -> Seq<char> {
    if garbage_info.gc@.contains_key(dir) {
        garbage_info.gc@[dir].blobs_dir()
    } else {
        dir
    }
}

/// Whether the key derivation takes the password with the salt a destination
/// has, or with a fresh one of sixteen bytes.
pub open spec fn key_derivable(password: Seq<char>, salt: Option<Vec<u8>>) -> bool {
    match salt {
        Some(s) => kdf_takes(password, s@),
        None => kdf_takes(password, Seq::new(16, |i: int| 0u8)),
    }
}

/// What is reported where a destination cannot count another snapshot.
pub open spec fn count_full() -> Seq<char> {
    "Snapshot count cannot grow"@
}

/// Whether `recorded` is what a backup writes into the registry: for a known
/// destination its entry with one snapshot more, for a new one an entry with
/// one snapshot that is bound to the password.
pub open spec fn records(
    bound: Option<BackupEntry>,
    recorded: BackupEntry,
    src: Seq<char>,
    dest: Seq<char>,
    password: Seq<char>,
    name: Seq<char>,
    now: Timestamp,
) -> bool {
    match bound {
        Some(e) => recorded == (BackupEntry {
            snapshot_count: (e.snapshot_count + 1) as usize,
            ..e
        }) && e.snapshot_count < usize::MAX,
        None => {
            &&& recorded.origin_path@ == src
            &&& recorded.backup_path@ == dest
            &&& recorded.snapshot_count == 1
            &&& recorded.compression_algorithm@ == name
            &&& recorded.timestamp == now
            &&& phc_verify(recorded.password.hash@, password) == Some(true)
        },
    }
}

/// All that a backup hands back to be written.
pub struct BackupPlan {
    /// The new snapshot.
    pub snapshot: Snapshot,
    /// The path of the file the snapshot goes to.
    pub snapshot_path: String,
    /// The blobs to store in the blob directory, each under its hash, in this
    /// order.
    pub blobs: Vec<Blob>,
    /// The versions that retention dropped.
    pub evictions: Vec<Eviction>,
    /// The destination's salt.
    pub salt: Vec<u8>,
    /// Whether the salt is new and has to be stored.
    pub store_salt: bool,
    /// The collectors, with the one of this destination brought up to date.
    pub garbage_info: GarbageLimit,
    /// The registry, with the destination's entry brought up to date.
    pub registry: BackupRegistry,
}

/// Whether `plan` is what a successful backup hands back.
pub open spec fn backed_up(
    registry: BackupRegistry,
    garbage_info: GarbageLimit,
    src: Seq<char>,
    dest: Seq<char>,
    password: Seq<char>,
    comp: Option<String>,
    config: &Config,
    source: &StrMap<SourceFile>,
    latest: Option<&Snapshot>,
    salt: Option<Vec<u8>>,
    now: Timestamp,
    plan: BackupPlan,
) -> bool {
    let bound = bound_entry(registry.registry@, dest);
    let name = algorithm_name(bound, comp, config);
    let dir = joined(dest, blobs_name());
    let home = collector_home(garbage_info, dir);
    &&& bound matches Some(e) ==> phc_verify(e.password.hash@, password) == Some(true)
    &&& parsed(name) is Some
    &&& match salt {
        Some(s) => plan.salt@ == s@ && !plan.store_salt,
        None => plan.salt@.len() == 16 && plan.store_salt,
    }
    &&& kdf_takes(password, plan.salt@)
    &&& created(
        parsed(name).unwrap(),
        level_of(parsed(name).unwrap()),
        derived_key(password, plan.salt@),
        latest,
        source,
        now,
        plan.snapshot,
        plan.blobs@,
    )
    &&& snapshot_file(now) is Some
    &&& plan.snapshot_path@ == joined(joined(dest, snapshots_name()), snapshot_file(now).unwrap())
    &&& plan.garbage_info.gc@.contains_key(home)
    &&& plan.garbage_info.gc@ == garbage_info.gc@.remove(dir).insert(
        home,
        plan.garbage_info.gc@[home],
    )
    &&& plan.garbage_info.gc@[home].max_versions() == start_limit(garbage_info, dir, config)
    &&& plan.garbage_info.gc@[home].index() == index_after(
        start_index(garbage_info, dir),
        start_limit(garbage_info, dir, config),
        plan.snapshot.files.keys(),
        plan.snapshot.files.values(),
        plan.snapshot_path@,
    )
    &&& evictions_view(plan.evictions@) == evictions_after(
        start_index(garbage_info, dir),
        start_limit(garbage_info, dir, config),
        plan.snapshot.files.keys(),
        plan.snapshot.files.values(),
        plan.snapshot_path@,
    )
    &&& plan.registry.registry_path == registry.registry_path
    &&& exists|recorded: BackupEntry|
        records(bound, recorded, src, dest, password, name, now) && #[trigger] upserted(
            registry.registry@,
            recorded,
        ) == plan.registry.registry@
}

/// Whether `r` is an answer that a backup may give: a plan as `backed_up`
/// describes it, or the error that belongs to the first thing that stands in
/// the way. A wrong password is always refused, whatever else holds.
pub open spec fn backup_answer(
    registry: BackupRegistry,
    garbage_info: GarbageLimit,
    src: Seq<char>,
    dest: Seq<char>,
    password: Seq<char>,
    policy: &PasswordPolicy,
    comp: Option<String>,
    config: &Config,
    source: &StrMap<SourceFile>,
    latest: Option<&Snapshot>,
    salt: Option<Vec<u8>>,
    now: Timestamp,
    r: Result<BackupPlan, SnapError>,
) -> bool {
            let bound = bound_entry(registry.registry@, dest);
            let name = algorithm_name(bound, comp, config);
            let verdict = match bound {
                Some(e) => phc_verify(e.password.hash@, password),
                None => Some(true),
            };
            let algo = parsed(name).unwrap();
            &&& verdict == Some(false) ==> (r matches Err(
                SnapError::Password(PasswordError::IncorrectPassword),
            ))
            &&& verdict is None ==> (r matches Err(
                SnapError::Password(PasswordError::HashError(_)),
            ))
            &&& bound is None && !policy@.accepts(password) ==> (r matches Err(
                SnapError::Password(PasswordError::InvalidFormat(_)),
            ))
            &&& match r {
                Ok(plan) => backed_up(
                    registry,
                    garbage_info,
                    src,
                    dest,
                    password,
                    comp,
                    config,
                    source,
                    latest,
                    salt,
                    now,
                    plan,
                ),
                Err(SnapError::Password(PasswordError::IncorrectPassword)) => verdict == Some(
                    false,
                ),
                Err(SnapError::Password(PasswordError::InvalidFormat(m))) => bound is None
                    && !policy@.accepts(password) && m@ == policy@.refusal(password),
                Err(SnapError::Password(PasswordError::HashError(_))) => verdict is None || (
                bound is None && policy@.accepts(password) && !hashable(password)) || (verdict
                    == Some(true) && parsed(
                    name,
                ) is Some && !key_derivable(password, salt)),
                Err(SnapError::Password(_)) => false,
                Err(SnapError::Config(m)) => verdict == Some(true) && m@ == unknown_algorithm()
                    && parsed(name) is None,
                Err(SnapError::Backup(m)) => verdict == Some(true) && parsed(name) is Some && ((m@
                    == count_full() && (bound matches Some(e) && e.snapshot_count == usize::MAX))
                    || (m@ == crate::snapshot::no_changes() && forall|i: int|
                    0 <= i < source.keys().len() ==> crate::snapshot::outcome(
                        algo,
                        level_of(algo),
                        crate::snapshot::prev_entry(latest, #[trigger] source.keys()[i]),
                        source.values()[i],
                    ) is Carried)),
                Err(SnapError::IOError(_)) => verdict == Some(true) && parsed(name) is Some
                    && exists|i: int|
                    crate::snapshot::first_failure(algo, level_of(algo), latest, source, i)
                        && crate::snapshot::outcome(
                        algo,
                        level_of(algo),
                        crate::snapshot::prev_entry(latest, source.keys()[i]),
                        source.values()[i],
                    ) is CompressFailed,
                Err(SnapError::EncryptError(m, _)) => verdict == Some(true) && parsed(name) is Some
                    && m@ == crate::snapshot::cannot_encrypt() && exists|i: int|
                    crate::snapshot::first_failure(algo, level_of(algo), latest, source, i)
                        && crate::snapshot::outcome(
                        algo,
                        level_of(algo),
                        crate::snapshot::prev_entry(latest, source.keys()[i]),
                        source.values()[i],
                    ) is TooLong,
                Err(SnapError::SerializationError(m)) => verdict == Some(true) && snapshot_file(now)
                    is None && m@ == no_calendar_date() && parsed(name) is Some && exists|i: int|
                    0 <= i < source.keys().len() && crate::snapshot::outcome(
                        algo,
                        level_of(algo),
                        crate::snapshot::prev_entry(latest, #[trigger] source.keys()[i]),
                        source.values()[i],
                    ) is Stored,
                Err(_) => false,
            }
        }

/// Backs the tree `source` of the directory `src` up to the destination
/// `dest`.
///
/// A known destination is bound to its password and its algorithm: another
/// password is refused, and an algorithm asked for is ignored. A new
/// destination gets a record of the password, which has to meet `policy`,
/// and the algorithm asked for or else that of the settings. Then the tree is
/// compared with the latest snapshot, the new snapshot is registered with
/// retention, and the destination's entry counts one snapshot more.
///
/// The registry and the collectors are taken by value and come back in the
/// plan; where the backup is refused nothing comes back, so nothing of it can
/// be written.
pub fn backup_data(
    registry: BackupRegistry,
    garbage_info: GarbageLimit,
    src: &str,
    dest: &str,
    password: &str,
    policy: &PasswordPolicy,
    comp: Option<String>,
    config: &Config,
    source: &StrMap<SourceFile>,
    latest: Option<&Snapshot>,
    salt: Option<Vec<u8>>,
    now: Timestamp,
) -> (r: Result<BackupPlan, SnapError>)
    ensures
        backup_answer(
            registry,
            garbage_info,
            src@,
            dest@,
            password@,
            policy,
            comp,
            config,
            source,
            latest,
            salt,
            now,
            r,
        ),
{
    let mut registry = registry;
    let mut garbage_info = garbage_info;
    let ghost registry0 = registry;
    let ghost bound = bound_entry(registry.registry@, dest@);
    let ghost name = algorithm_name(bound, comp, config);
    // The password binding, and the entry to write on success.
    let (validated_password, existing): (Password, Option<BackupEntry>) =
        match registry.position_of_dest(dest) {
        Some(i) => {
            proof {
                lemma_bound_entry(registry.registry@, i as int, dest@);
            }
            let ent = &registry.registry[i];
            match check_password(ent, password) {
                Err(err) => {
                    return Err(err);
                },
                Ok(()) => {},
            }
            (ent.password.clone(), Some(ent.clone()))
        },
        None => {
            match Password::new(password.to_owned(), policy) {
                Ok(p) => (p, None),
                Err(err) => {
                    return Err(SnapError::Password(err));
                },
            }
        },
    };
    // The algorithm: the destination's own, or the one asked for, or the
    // settings'.
    let algorithm: String = match &existing {
        Some(ent) => ent.compression_algorithm.clone(),
        None => match comp {
            Some(c) => c,
            None => config.general.compression.clone(),
        },
    };
    assert(algorithm@ == name);
    let (engine, compression) = match generate_compression_engine(Some(algorithm)) {
        Ok(pair) => pair,
        Err(err) => {
            return Err(err);
        },
    };
    match &existing {
        Some(ent) => {
            if ent.snapshot_count == usize::MAX {
                return Err(SnapError::Backup(String::from_str("Snapshot count cannot grow")));
            }
        },
        None => {},
    }
    let layout = SnapshotLayout::initialize(dest);
    let mut gc = match garbage_info.take_gc_from_limit(layout.blobs.as_str()) {
        Some(gc) => gc,
        None => GarbageCollector::new(layout.blobs.clone(), config.general.gc_limit),
    };
    let ghost salt0 = salt;
    let (salt, store_salt) = get_salt(salt);
    let key = match try_derive_key(password, salt.as_slice()) {
        Ok(key) => key,
        Err(err) => {
            proof {
                if salt0 is None {
                    assert(!kdf_takes(password@, salt@));
                    assert(!kdf_takes(password@, Seq::new(16, |i: int| 0u8)));
                }
            }
            return Err(SnapError::Password(err));
        },
    };
    let (snap, blobs) = match Snapshot::create(source, &key, latest, &engine, now) {
        Ok(pair) => pair,
        Err(err) => {
            return Err(err);
        },
    };
    let (snapshot_path, evictions) = match snap.save(layout.snapshots.as_str(), &mut gc) {
        Ok(pair) => pair,
        Err(err) => {
            proof {
                let algo = parsed(name).unwrap();
                let i = choose|i: int|
                    0 <= i < source.keys().len() && source.keys()[i] == (
                    #[trigger] blobs@[0]).path@ && crate::snapshot::outcome(
                        algo,
                        level_of(algo),
                        crate::snapshot::prev_entry(latest, source.keys()[i]),
                        source.values()[i],
                    ) is Stored;
                assert(crate::snapshot::outcome(
                    algo,
                    level_of(algo),
                    crate::snapshot::prev_entry(latest, source.keys()[i]),
                    source.values()[i],
                ) is Stored);
            }
            return Err(err);
        },
    };
    let ghost home = gc.blobs_dir();
    let ghost gc_final = gc;
    garbage_info.add_garbage_collector_to_limit(gc);
    let ent = match existing {
        Some(en) => {
            let mut en = en;
            en.add_snapshot();
            en
        },
        None => BackupEntry::new(
            snap.timestamp,
            src.to_owned(),
            dest.to_owned(),
            &validated_password,
            compression,
        ),
    };
    let ghost recorded = ent;
    registry.add_backup(ent);
    let plan = BackupPlan {
        snapshot: snap,
        snapshot_path,
        blobs,
        evictions,
        salt,
        store_salt,
        garbage_info,
        registry,
    };
    proof {
        assert(records(bound, recorded, src@, dest@, password@, name, now));
        assert(upserted(registry0.registry@, recorded) == plan.registry.registry@);
        assert(plan.garbage_info.gc@[home] == gc_final);
    }
    Ok(plan)
}

/// Backs up; see `backup_data`.
pub fn backup(
    registry: BackupRegistry,
    garbage_info: GarbageLimit,
    src: &str,
    dest: &str,
    password: &str,
    policy: &PasswordPolicy,
    comp: Option<String>,
    config: &Config,
    source: &StrMap<SourceFile>,
    latest: Option<&Snapshot>,
    salt: Option<Vec<u8>>,
    now: Timestamp,
) -> (r: Result<BackupPlan, SnapError>)
    ensures
        backup_answer(
            registry,
            garbage_info,
            src@,
            dest@,
            password@,
            policy,
            comp,
            config,
            source,
            latest,
            salt,
            now,
            r,
        ),
{
    backup_data(
        registry,
        garbage_info,
        src,
        dest,
        password,
        policy,
        comp,
        config,
        source,
        latest,
        salt,
        now,
    )
}

/// What a destination is opened for.
#[derive(Clone, Copy, Debug, PartialEq, Eq, Structural)]
pub enum Purpose {
    Restore,
    Delete,
}

/// Whether `e` reports a destination that the registry does not know.
pub open spec fn is_unknown_destination(purpose: Purpose, e: SnapError) -> bool {
    match purpose {
        Purpose::Restore => e matches SnapError::Restore(m) && m@
            == "No backup available at path provided"@,
        Purpose::Delete => e matches SnapError::Delete(m) && m@
            == "Target provided does not exist."@,
    }
}

/// Whether `e` reports that the destination holds no snapshot at the place
/// asked for.
pub open spec fn is_no_such_snapshot(purpose: Purpose, e: SnapError) -> bool {
    match purpose {
        Purpose::Restore => e matches SnapError::Restore(m) && m@
            == "Failed to restore: no snapshot at requested index"@,
        Purpose::Delete => e matches SnapError::Delete(m) && m@
            == "Failed to delete backup: no snapshot at requested index"@,
    }
}

/// Whether `e` reports a destination without its directories.
pub open spec fn is_no_layout(e: SnapError) -> bool {
    e matches SnapError::Delete(m) && m@ == "Target does not contain any backup"@
}

/// Whether `e` reports a blob that the destination lacks.
pub open spec fn is_missing_blob(purpose: Purpose, e: SnapError) -> bool {
    match purpose {
        Purpose::Restore => e matches SnapError::Restore(m) && m@
            == "Blob is missing from the destination"@,
        Purpose::Delete => e matches SnapError::Delete(m) && m@
            == "Blob is missing from the destination"@,
    }
}

/// The right to work on one snapshot of a destination. Only opening the
/// destination with its password makes one.
pub struct Access {
    entry: BackupEntry,
    key: [u8; 32],
    salt: Vec<u8>,
    store_salt: bool,
    snapshot_path: String,
}

impl Access {
    /// The destination's entry in the registry.
    pub closed spec fn bound_to(&self) -> BackupEntry {
        self.entry
    }

    /// The key derived from the password and the salt.
    pub closed spec fn key_bytes(&self) -> Seq<u8> {
        self.key@
    }

    /// The destination's salt.
    pub closed spec fn salt_bytes(&self) -> Seq<u8> {
        self.salt@
    }

    /// Whether the salt is new and has to be stored.
    pub closed spec fn salt_is_new(&self) -> bool {
        self.store_salt
    }

    /// The path of the snapshot file that was asked for.
    pub closed spec fn snapshot(&self) -> String {
        self.snapshot_path
    }

    /// The destination's entry in the registry.
    pub fn entry(&self) -> (e: &BackupEntry)
        ensures
            *e == self.bound_to(),
    {
        &self.entry
    }

    /// The destination's salt.
    pub fn salt(&self) -> (s: &Vec<u8>)
        ensures
            s@ == self.salt_bytes(),
    {
        &self.salt
    }

    /// Whether the salt is new and has to be stored.
    pub fn store_salt(&self) -> (b: bool)
        ensures
            b == self.salt_is_new(),
    {
        self.store_salt
    }

    /// The path of the snapshot file that was asked for.
    pub fn snapshot_path(&self) -> (p: &String)
        ensures
            *p == self.snapshot(),
    {
        &self.snapshot_path
    }
}

/// Whether `r` is an answer that opening a destination may give: access to
/// the snapshot at place `nth`, newest first, or the error that belongs to
/// the first thing that stands in the way, in this order: the destination
/// is unknown; the password is not its password; on delete its directories
/// are missing; it has no snapshot at that place; on restore its algorithm
/// is unknown; no key can be derived.
pub open spec fn access_answer(
    purpose: Purpose,
    nth: nat,
    registry: &BackupRegistry,
    dest: Seq<char>,
    password: Seq<char>,
    salt: Option<Vec<u8>>,
    has_layout: bool,
    listing: Seq<SnapshotFile>,
    r: Result<Access, SnapError>,
) -> bool {
    let bound = bound_entry(registry.registry@, dest);
    let verdict = match bound {
        Some(e) => phc_verify(e.password.hash@, password),
        None => None,
    };
    let named = purpose == Purpose::Delete || (bound matches Some(e) && parsed(
        e.compression_algorithm@,
    ) is Some);
    let laid_out = purpose == Purpose::Restore || has_layout;
    match r {
        Ok(access) => {
            &&& bound == Some(access.bound_to())
            &&& verdict == Some(true)
            &&& named
            &&& laid_out
            &&& match salt {
                Some(s) => access.salt_bytes() == s@ && !access.salt_is_new(),
                None => access.salt_bytes().len() == 16 && access.salt_is_new(),
            }
            &&& kdf_takes(password, access.salt_bytes())
            &&& access.key_bytes() == derived_key(password, access.salt_bytes())
            &&& exists|i: int|
                0 <= i < listing.len() && rank(listing, i) == nth && access.snapshot()
                    == listing[i].path
        },
        Err(e) => {
            if bound is None {
                is_unknown_destination(purpose, e)
            } else if verdict == Some(false) {
                e matches SnapError::Password(PasswordError::IncorrectPassword)
            } else if verdict is None {
                e matches SnapError::Password(PasswordError::HashError(_))
            } else if !laid_out {
                is_no_layout(e)
            } else if nth >= listing.len() {
                is_no_such_snapshot(purpose, e)
            } else if !named {
                e matches SnapError::Config(m) && m@ == unknown_algorithm()
            } else {
                !key_derivable(password, salt) && e matches SnapError::Password(
                    PasswordError::HashError(_),
                )
            }
        },
    }
}

/// Whether a destination opens: it is known, the password is its password,
/// on delete its directories are there, it has a snapshot at place `nth`, on
/// restore its algorithm is known, and a key can be derived.
pub open spec fn access_granted(
    purpose: Purpose,
    nth: nat,
    registry: &BackupRegistry,
    dest: Seq<char>,
    password: Seq<char>,
    salt: Option<Vec<u8>>,
    has_layout: bool,
    listing: Seq<SnapshotFile>,
) -> bool {
    let bound = bound_entry(registry.registry@, dest);
    &&& bound matches Some(e) && phc_verify(e.password.hash@, password) == Some(true) && (purpose
        == Purpose::Delete || parsed(e.compression_algorithm@) is Some)
    &&& key_derivable(password, salt)
    &&& purpose == Purpose::Restore || has_layout
    &&& nth < listing.len()
}

/// The error for a destination that the registry does not know.
fn unknown_destination(purpose: Purpose) -> (e: SnapError)
    ensures
        is_unknown_destination(purpose, e),
{
    match purpose {
        Purpose::Restore => SnapError::Restore(
            String::from_str("No backup available at path provided"),
        ),
        Purpose::Delete => SnapError::Delete(String::from_str("Target provided does not exist.")),
    }
}

/// The error for a destination without a snapshot at the place asked for.
fn no_such_snapshot(purpose: Purpose) -> (e: SnapError)
    ensures
        is_no_such_snapshot(purpose, e),
{
    match purpose {
        Purpose::Restore => SnapError::Restore(
            String::from_str("Failed to restore: no snapshot at requested index"),
        ),
        Purpose::Delete => SnapError::Delete(
            String::from_str("Failed to delete backup: no snapshot at requested index"),
        ),
    }
}

/// The error for a blob that the destination lacks.
fn missing_blob(purpose: Purpose) -> (e: SnapError)
    ensures
        is_missing_blob(purpose, e),
{
    match purpose {
        Purpose::Restore => SnapError::Restore(
            String::from_str("Blob is missing from the destination"),
        ),
        Purpose::Delete => SnapError::Delete(
            String::from_str("Blob is missing from the destination"),
        ),
    }
}

/// Opens the destination `dest` to restore or delete the snapshot at place
/// `nth`, newest first and counted from 0. The password has to be the one the
/// destination is bound to. Nothing is changed.
pub fn open_destination(
    purpose: Purpose,
    nth: usize,
    registry: &BackupRegistry,
    dest: &str,
    password: &str,
    salt: Option<Vec<u8>>,
    has_layout: bool,
    listing: &Vec<SnapshotFile>,
) -> (r: Result<Access, SnapError>)
    ensures
        access_answer(
            purpose,
            nth as nat,
            registry,
            dest@,
            password@,
            salt,
            has_layout,
            listing@,
            r,
        ),
        nth >= listing@.len() ==> r is Err,
        r is Ok <==> access_granted(
            purpose,
            nth as nat,
            registry,
            dest@,
            password@,
            salt,
            has_layout,
            listing@,
        ),
{
    let ent = match registry.position_of_dest(dest) {
        Some(i) => {
            proof {
                lemma_bound_entry(registry.registry@, i as int, dest@);
            }
            &registry.registry[i]
        },
        None => {
            return Err(unknown_destination(purpose));
        },
    };
    match check_password(ent, password) {
        Err(err) => {
            return Err(err);
        },
        Ok(()) => {},
    }
    match purpose {
        Purpose::Delete => {
            if !has_layout {
                return Err(
                    SnapError::Delete(String::from_str("Target does not contain any backup")),
                );
            }
        },
        Purpose::Restore => {},
    }
    let snapshot_path = match get_nth_recent_json_snapshot(nth, listing) {
        Some(p) => p,
        None => {
            return Err(no_such_snapshot(purpose));
        },
    };
    match purpose {
        Purpose::Restore => {
            match crate::compress::CompressionType::parse(ent.compression_algorithm.as_str()) {
                None => {
                    return Err(
                        SnapError::Config(String::from_str("Defined algorithm choice unavailble")),
                    );
                },
                Some(_) => {},
            }
        },
        Purpose::Delete => {},
    }
    let ghost salt0 = salt;
    let (salt, store_salt) = get_salt(salt);
    let key = match try_derive_key(password, salt.as_slice()) {
        Ok(key) => key,
        Err(err) => {
            proof {
                if salt0 is None {
                    assert(!kdf_takes(password@, salt@));
                    assert(!kdf_takes(password@, Seq::new(16, |i: int| 0u8)));
                }
            }
            return Err(SnapError::Password(err));
        },
    };
    proof {
        if salt0 is None {
            assert(kdf_takes(password@, Seq::new(16, |i: int| 0u8)));
        }
    }
    Ok(Access { entry: ent.clone(), key, salt, store_salt, snapshot_path })
}

/// Opens a destination to restore its snapshot number `nth`, where 1 is the
/// newest.
pub fn restore(
    nth: u8,
    registry: &BackupRegistry,
    dest: &str,
    password: &str,
    salt: Option<Vec<u8>>,
    listing: &Vec<SnapshotFile>,
) -> (r: Result<Access, SnapError>)
    requires
        nth >= 1,
    ensures
        access_answer(
            Purpose::Restore,
            (nth - 1) as nat,
            registry,
            dest@,
            password@,
            salt,
            true,
            listing@,
            r,
        ),
        nth > listing@.len() ==> r is Err,
{
    let nth: usize = (nth - 1) as usize;
    open_destination(Purpose::Restore, nth, registry, dest, password, salt, true, listing)
}

/// Opens a destination to delete its snapshot number `nth`, where 1 is the
/// newest. Without the user's consent nothing is opened.
pub fn delete(
    nth: u8,
    confirmed: bool,
    registry: &BackupRegistry,
    target: &str,
    password: &str,
    salt: Option<Vec<u8>>,
    has_layout: bool,
    listing: &Vec<SnapshotFile>,
) -> (r: Result<Option<Access>, SnapError>)
    requires
        nth >= 1,
    ensures
        !confirmed ==> r matches Ok(None),
        confirmed ==> match r {
            Ok(Some(access)) => access_answer(
                Purpose::Delete,
                (nth - 1) as nat,
                registry,
                target@,
                password@,
                salt,
                has_layout,
                listing@,
                Ok(access),
            ),
            Ok(None) => false,
            Err(e) => access_answer(
                Purpose::Delete,
                (nth - 1) as nat,
                registry,
                target@,
                password@,
                salt,
                has_layout,
                listing@,
                Err(e),
            ),
        },
        confirmed && nth > listing@.len() ==> r is Err,
{
    if !confirmed {
        return Ok(None);
    }
    let nth: usize = (nth - 1) as usize;
    match open_destination(
        Purpose::Delete,
        nth,
        registry,
        target,
        password,
        salt,
        has_layout,
        listing,
    ) {
        Ok(access) => Ok(Some(access)),
        Err(e) => Err(e),
    }
}

/// An entry with one snapshot fewer; an entry without snapshots stays so.
pub open spec fn counted_down(e: BackupEntry) -> BackupEntry {
    BackupEntry {
        snapshot_count: if e.snapshot_count > 0 {
            (e.snapshot_count - 1) as usize
        } else {
            0
        },
        ..e
    }
}

/// Writes into the registry that the destination of `entry` holds one
/// snapshot fewer; an entry that holds none any more leaves the registry.
pub fn forget_snapshot(registry: &mut BackupRegistry, entry: &BackupEntry)
    ensures
        final(registry).registry@ == upserted(old(registry).registry@, counted_down(*entry)),
        final(registry).registry_path == old(registry).registry_path,
{
    let mut ent = entry.clone();
    if ent.snapshot_count > 0 {
        ent.remove_snapshot();
    }
    registry.add_backup(ent);
}

/// What happens to one file of a snapshot when its blob is read back.
pub enum ReadOutcome {
    /// The destination lacks the blob.
    Missing,
    /// The blob does not decrypt under the key and the entry's nonce.
    BadCipher,
    /// The decrypted blob is no stream of the algorithm.
    BadStream,
    /// The content of the file.
    Content(Seq<u8>),
}

/// What reading the blob of `entry` back gives.
pub open spec fn read_back(
    key: Seq<u8>,
    algo: CompressionType,
    entry: FileEntry,
    blobs: Map<Seq<char>, Vec<u8>>,
) -> ReadOutcome {
    if !blobs.contains_key(entry.hash@) {
        ReadOutcome::Missing
    } else {
        match opened(key, entry.nonce@, blobs[entry.hash@]@) {
            None => ReadOutcome::BadCipher,
            Some(c) => match decompressed(algo, c) {
                None => ReadOutcome::BadStream,
                Some(d) => ReadOutcome::Content(d),
            },
        }
    }
}

/// Whether file `i` is the first whose blob cannot be read back.
pub open spec fn first_unreadable(
    key: Seq<u8>,
    algo: CompressionType,
    values: Seq<FileEntry>,
    blobs: Map<Seq<char>, Vec<u8>>,
    i: int,
) -> bool {
    &&& 0 <= i < values.len()
    &&& !(read_back(key, algo, values[i], blobs) is Content)
    &&& forall|j: int| 0 <= j < i ==> read_back(key, algo, #[trigger] values[j], blobs) is Content
}

/// A file brought back from a destination.
#[derive(Debug)]
pub struct RestoredFile {
    pub path: String,
    pub content: Vec<u8>,
}

/// All that a restore hands back to be written.
pub struct RestoreOutcome {
    /// The files of the snapshot, in its order, each with its content.
    pub files: Vec<RestoredFile>,
    /// The registry, with the destination's entry counted down.
    pub registry: BackupRegistry,
    /// The snapshot file to remove: a restored snapshot leaves the
    /// destination.
    pub remove_snapshot: String,
}

/// Whether `r` is an answer that restoring `snapshot` may give: every file
/// of the snapshot with the content its blob decrypts and decompresses to,
/// or the error of the first file whose blob cannot be read back.
pub open spec fn restore_answer(
    registry: BackupRegistry,
    access: &Access,
    snapshot: &Snapshot,
    blobs: &StrMap<Vec<u8>>,
    r: Result<RestoreOutcome, SnapError>,
) -> bool {
    let keys = snapshot.files.keys();
    let values = snapshot.files.values();
    match parsed(access.bound_to().compression_algorithm@) {
        None => r matches Err(SnapError::Config(m)) && m@ == unknown_algorithm(),
        Some(algo) => match r {
            Ok(out) => {
                &&& out.files@.len() == keys.len()
                &&& forall|i: int|
                    0 <= i < keys.len() ==> (#[trigger] out.files@[i]).path@ == keys[i]
                        && read_back(access.key_bytes(), algo, values[i], blobs@) == ReadOutcome::Content(
                        out.files@[i].content@,
                    )
                &&& out.registry.registry@ == upserted(
                    registry.registry@,
                    counted_down(access.bound_to()),
                )
                &&& out.registry.registry_path == registry.registry_path
                &&& out.remove_snapshot == access.snapshot()
            },
            Err(e) => exists|i: int|
                first_unreadable(access.key_bytes(), algo, values, blobs@, i) && match read_back(
                    access.key_bytes(),
                    algo,
                    values[i],
                    blobs@,
                ) {
                    ReadOutcome::Missing => is_missing_blob(Purpose::Restore, e),
                    ReadOutcome::BadCipher => e matches SnapError::EncryptError(m, d) && m@
                        == cannot_decrypt() && d@ == decrypt_failure(),
                    ReadOutcome::BadStream => e is IOError,
                    ReadOutcome::Content(_) => false,
                },
        },
    }
}

/// Restores every file of `snapshot` from `blobs`, which holds the blobs of
/// the destination by name, and counts the destination's entry down.
///
/// The registry is taken by value and comes back in the outcome; where the
/// restore fails nothing comes back, so nothing of it can be written.
pub fn restore_files(
    registry: BackupRegistry,
    access: &Access,
    snapshot: &Snapshot,
    blobs: &StrMap<Vec<u8>>,
) -> (r: Result<RestoreOutcome, SnapError>)
    ensures
        restore_answer(registry, access, snapshot, blobs, r),
{
    let mut registry = registry;
    let algo = match crate::compress::CompressionType::parse(
        access.entry.compression_algorithm.as_str(),
    ) {
        Some(a) => a,
        None => {
            return Err(SnapError::Config(String::from_str("Defined algorithm choice unavailble")));
        },
    };
    let engine = DecompressionEngine::new(algo);
    let n = snapshot.files.len();
    let ghost keys = snapshot.files.keys();
    let ghost values = snapshot.files.values();
    let mut files: Vec<RestoredFile> = Vec::new();
    let mut i: usize = 0;
    while i < n
        invariant
            i <= n,
            n == keys.len(),
            keys == snapshot.files.keys(),
            values == snapshot.files.values(),
            snapshot.files.wf(),
            engine.algorithm() == algo,
            parsed(access.entry.compression_algorithm@) == Some(algo),
            files@.len() == i,
            forall|j: int|
                0 <= j < i ==> (#[trigger] files@[j]).path@ == keys[j] && read_back(
                    access.key@,
                    algo,
                    values[j],
                    blobs@,
                ) == ReadOutcome::Content(files@[j].content@),
        decreases n - i,
    {
        let path = snapshot.files.key_at(i);
        let entry = snapshot.files.value_at(i);
        let blob = match blobs.get(entry.hash.as_str()) {
            Some(b) => b,
            None => {
                let e = missing_blob(Purpose::Restore);
                proof {
                    assert(read_back(access.key@, algo, values[i as int], blobs@) is Missing);
                    assert forall|j: int| 0 <= j < i implies read_back(
                        access.key@,
                        algo,
                        #[trigger] values[j],
                        blobs@,
                    ) is Content by {
                        assert(files@[j].path@ == keys[j]);
                    }
                    assert(first_unreadable(access.key@, algo, values, blobs@, i as int));
                }
                return Err(e);
            },
        };
        let content = match restore_file(blob.as_slice(), &access.key, entry, &engine) {
            Ok(c) => c,
            Err(e) => {
                proof {
                    assert forall|j: int| 0 <= j < i implies read_back(
                        access.key@,
                        algo,
                        #[trigger] values[j],
                        blobs@,
                    ) is Content by {
                        assert(files@[j].path@ == keys[j]);
                    }
                    assert(first_unreadable(access.key@, algo, values, blobs@, i as int));
                }
                return Err(e);
            },
        };
        files.push(RestoredFile { path: path.clone(), content });
        i += 1;
    }
    forget_snapshot(&mut registry, &access.entry);
    Ok(RestoreOutcome { files, registry, remove_snapshot: access.snapshot_path.clone() })
}

/// Whether some entry of the snapshots `remaining` names the blob `hash`.
pub open spec fn listed_by(remaining: Seq<Snapshot>, hash: Seq<char>) -> bool {
    exists|s: int, j: int|
        0 <= s < remaining.len() && 0 <= j < remaining[s].files.values().len() && (
        #[trigger] remaining[s].files.values()[j]).hash@ == hash
}

/// The blobs that only this snapshot uses: the hashes of its entries that no
/// entry of the snapshots that stay names, in the order of its entries.
pub open spec fn freed_hashes(values: Seq<FileEntry>, remaining: Seq<Snapshot>) -> Seq<Seq<char>>
    decreases values.len(),
{
    if values.len() == 0 {
        Seq::empty()
    } else if !listed_by(remaining, values.last().hash@) {
        freed_hashes(values.drop_last(), remaining).push(values.last().hash@)
    } else {
        freed_hashes(values.drop_last(), remaining)
    }
}

/// A delete frees the blobs that the snapshot alone uses, and no others:
/// each freed blob is named by an entry of the snapshot and by no entry of a
/// snapshot that stays, so no entry that stays loses its blob; and each blob
/// that the snapshot alone uses is freed.
pub proof fn lemma_freed_are_unshared(values: Seq<FileEntry>, remaining: Seq<Snapshot>)
    ensures
        forall|k: int|
            0 <= k < freed_hashes(values, remaining).len() ==> !listed_by(
                remaining,
                #[trigger] freed_hashes(values, remaining)[k],
            ) && exists|i: int|
                0 <= i < values.len() && (#[trigger] values[i]).hash@ == freed_hashes(
                    values,
                    remaining,
                )[k],
        forall|i: int|
            0 <= i < values.len() && !listed_by(remaining, (#[trigger] values[i]).hash@)
                ==> freed_hashes(values, remaining).contains(values[i].hash@),
    decreases values.len(),
{
    if values.len() > 0 {
        let front = values.drop_last();
        let last = values.last();
        lemma_freed_are_unshared(front, remaining);
        let f0 = freed_hashes(front, remaining);
        let f = freed_hashes(values, remaining);
        assert forall|k: int| 0 <= k < f.len() implies !listed_by(remaining, #[trigger] f[k])
            && exists|i: int| 0 <= i < values.len() && (#[trigger] values[i]).hash@ == f[k] by {
            if k < f0.len() {
                assert(f[k] == f0[k]);
                let i = choose|i: int| 0 <= i < front.len() && (#[trigger] front[i]).hash@ == f0[k];
                assert(values[i] == front[i]);
            } else {
                assert(values[values.len() - 1].hash@ == f[k]);
            }
        }
        assert forall|i: int|
            0 <= i < values.len() && !listed_by(
                remaining,
                (#[trigger] values[i]).hash@,
            ) implies f.contains(values[i].hash@) by {
            if i < front.len() {
                assert(front[i] == values[i]);
                let k = choose|k: int| 0 <= k < f0.len() && f0[k] == front[i].hash@;
                assert(f[k] == f0[k]);
            } else {
                assert(f[f.len() - 1] == values[i].hash@);
            }
        }
    }
}

/// Whether some entry of the snapshots `remaining` names the blob `hash`.
pub fn is_listed(remaining: &Vec<Snapshot>, hash: &str) -> (b: bool)
    ensures
        b == listed_by(remaining@, hash@),
{
    let mut s: usize = 0;
    while s < remaining.len()
        invariant
            s <= remaining@.len(),
            forall|a: int, j: int|
                0 <= a < s && 0 <= j < remaining@[a].files.values().len() ==> (
                #[trigger] remaining@[a].files.values()[j]).hash@ != hash@,
        decreases remaining@.len() - s,
    {
        let snap = &remaining[s];
        let n = snap.files.len();
        let mut j: usize = 0;
        while j < n
            invariant
                j <= n,
                s < remaining@.len(),
                *snap == remaining@[s as int],
                n == snap.files.keys().len(),
                snap.files.wf(),
                forall|k: int| 0 <= k < j ==> (#[trigger] snap.files.values()[k]).hash@ != hash@,
            decreases n - j,
        {
            if same_text(snap.files.value_at(j).hash.as_str(), hash) {
                assert(remaining@[s as int].files.values()[j as int].hash@ == hash@);
                return true;
            }
            j += 1;
        }
        s += 1;
    }
    false
}

/// A list of texts as plain values.
pub open spec fn texts(list: Seq<String>) -> Seq<Seq<char>> {
    Seq::new(list.len(), |i: int| list[i]@)
}

/// What is reported where a blob does not decrypt on delete.
pub open spec fn cannot_check() -> Seq<char> {
    "Could not decrypt file"@
}

/// All that a delete hands back to be done.
pub struct DeleteOutcome {
    /// The names of the blobs to remove: those that only this snapshot uses.
    pub remove_blobs: Vec<String>,
    /// The registry, with the destination's entry counted down.
    pub registry: BackupRegistry,
    /// The snapshot file to remove.
    pub remove_snapshot: String,
}

/// Whether the blob of `entry` is there and decrypts.
pub open spec fn blob_checks(key: Seq<u8>, entry: FileEntry, blobs: Map<Seq<char>, Vec<u8>>) -> bool {
    blobs.contains_key(entry.hash@) && opened(key, entry.nonce@, blobs[entry.hash@]@) is Some
}

/// Whether file `i` is the first whose blob is to be freed and is missing or
/// does not decrypt.
pub open spec fn first_unchecked(
    key: Seq<u8>,
    values: Seq<FileEntry>,
    remaining: Seq<Snapshot>,
    blobs: Map<Seq<char>, Vec<u8>>,
    i: int,
) -> bool {
    &&& 0 <= i < values.len()
    &&& !listed_by(remaining, values[i].hash@)
    &&& !blob_checks(key, values[i], blobs)
    &&& forall|j: int|
        0 <= j < i && !listed_by(remaining, (#[trigger] values[j]).hash@) ==> blob_checks(
            key,
            values[j],
            blobs,
        )
}

/// Whether `r` is an answer that deleting `snapshot` may give: the blobs
/// that only this snapshot uses, to be removed, once each of them has
/// decrypted under the key; or the error of the first that has not. A blob
/// that an entry of a snapshot in `remaining` names is never handed back.
pub open spec fn delete_answer(
    registry: BackupRegistry,
    access: &Access,
    snapshot: &Snapshot,
    remaining: &Vec<Snapshot>,
    blobs: &StrMap<Vec<u8>>,
    r: Result<DeleteOutcome, SnapError>,
) -> bool {
    let values = snapshot.files.values();
    match r {
        Ok(out) => {
            &&& forall|i: int|
                0 <= i < values.len() && !listed_by(remaining@, (#[trigger] values[i]).hash@)
                    ==> blob_checks(access.key_bytes(), values[i], blobs@)
            &&& texts(out.remove_blobs@) == freed_hashes(values, remaining@)
            &&& out.registry.registry@ == upserted(
                registry.registry@,
                counted_down(access.bound_to()),
            )
            &&& out.registry.registry_path == registry.registry_path
            &&& out.remove_snapshot == access.snapshot()
        },
        Err(e) => exists|i: int|
            first_unchecked(access.key_bytes(), values, remaining@, blobs@, i) && if blobs@.contains_key(
                values[i].hash@,
            ) {
                e matches SnapError::EncryptError(m, d) && m@ == cannot_check() && d@
                    == decrypt_failure()
            } else {
                is_missing_blob(Purpose::Delete, e)
            },
    }
}

/// Deletes `snapshot`, where `remaining` are the other snapshots of the
/// destination: checks that every blob that only this snapshot uses decrypts
/// under the key, and hands back their names to be removed, the snapshot
/// file to be removed, and the registry with the entry counted down. A blob
/// that a snapshot that stays still names stays too.
///
/// The registry is taken by value and comes back in the outcome; where the
/// delete fails nothing comes back, so nothing of it can be done.
pub fn delete_data(
    registry: BackupRegistry,
    access: &Access,
    snapshot: &Snapshot,
    remaining: &Vec<Snapshot>,
    blobs: &StrMap<Vec<u8>>,
) -> (r: Result<DeleteOutcome, SnapError>)
    ensures
        delete_answer(registry, access, snapshot, remaining, blobs, r),
{
    let mut registry = registry;
    let n = snapshot.files.len();
    let ghost values = snapshot.files.values();
    let mut remove_blobs: Vec<String> = Vec::new();
    let mut i: usize = 0;
    while i < n
        invariant
            i <= n,
            n == values.len(),
            n == snapshot.files.keys().len(),
            values == snapshot.files.values(),
            snapshot.files.wf(),
            texts(remove_blobs@) == freed_hashes(values.take(i as int), remaining@),
            forall|j: int|
                0 <= j < i && !listed_by(remaining@, (#[trigger] values[j]).hash@) ==> blob_checks(
                    access.key_bytes(),
                    values[j],
                    blobs@,
                ),
        decreases n - i,
    {
        let file = snapshot.files.value_at(i);
        proof {
            assert(values.take(i + 1).drop_last() == values.take(i as int));
            assert(values.take(i + 1).last() == values[i as int]);
        }
        if !is_listed(remaining, file.hash.as_str()) {
            let blob = match blobs.get(file.hash.as_str()) {
                Some(b) => b,
                None => {
                    assert(first_unchecked(access.key_bytes(), values, remaining@, blobs@, i as int));
                    return Err(missing_blob(Purpose::Delete));
                },
            };
            match decrypt_file_bytes(blob.as_slice(), access.key.as_slice(), &file.nonce) {
                Ok(_) => {
                    let ghost before = remove_blobs@;
                    remove_blobs.push(file.hash.clone());
                    assert(texts(remove_blobs@) =~= texts(before).push(file.hash@));
                },
                Err(err) => {
                    assert(first_unchecked(access.key_bytes(), values, remaining@, blobs@, i as int));
                    return Err(
                        SnapError::EncryptError(String::from_str("Could not decrypt file"), err),
                    );
                },
            }
        }
        i += 1;
    }
    proof {
        assert(values.take(n as int) == values);
    }
    forget_snapshot(&mut registry, &access.entry);
    Ok(DeleteOutcome { remove_blobs, registry, remove_snapshot: access.snapshot_path.clone() })
}

/// Whether the user consents to a delete: it is forced, or the answer to the
/// question is `y` or `yes`.
pub fn consents(force: bool, answer: Option<&str>) -> (b: bool)
    ensures
        b == (force || (answer matches Some(a) && (a@ == "y"@ || a@ == "yes"@))),
{
    if force {
        return true;
    }
    match answer {
        Some(a) => same_text(a, "y") || same_text(a, "yes"),
        None => false,
    }
}

/// Where snapshot files were written one after another, each later than the
/// one before, the snapshot at place `k`, newest first, is the one written
/// `k` places from the end: number 1 is the last backup, number 2 the one
/// before it, and so on.
pub proof fn lemma_places_run_backwards(listing: Seq<SnapshotFile>, i: int)
    requires
        forall|a: int, b: int|
            0 <= a < b < listing.len() ==> newer(
                (#[trigger] listing[b]).modified,
                (#[trigger] listing[a]).modified,
            ),
        0 <= i < listing.len(),
    ensures
        rank(listing, i) == listing.len() - 1 - i,
{
    lemma_rank_of_ordered(listing, i, listing.len() as int);
}

/// In a listing ordered by time, the files among the first `m` that come
/// before file `i` are those behind it.
proof fn lemma_rank_of_ordered(listing: Seq<SnapshotFile>, i: int, m: int)
    requires
        forall|a: int, b: int|
            0 <= a < b < listing.len() ==> newer(
                (#[trigger] listing[b]).modified,
                (#[trigger] listing[a]).modified,
            ),
        0 <= i < listing.len(),
        0 <= m <= listing.len(),
    ensures
        rank_among(listing, i, m) == if m > i + 1 {
            m - 1 - i
        } else {
            0
        },
    decreases m,
{
    if m > 0 {
        lemma_rank_of_ordered(listing, i, m - 1);
        let j = m - 1;
        if j > i {
            assert(newer(listing[j].modified, listing[i].modified));
        } else if j < i {
            assert(newer(listing[i].modified, listing[j].modified));
            assert(!comes_before(listing, j, i));
        } else {
            assert(!comes_before(listing, i, i));
        }
    }
}

/// What is shown where nothing has been backed up.
pub open spec fn nothing_listed() -> Seq<char> {
    "No data has been backed up yet!"@
}

/// The heading of the list of backups.
pub open spec fn list_heading() -> Seq<char> {
    "Listing All Backups 📦..."@
}

/// How the time of an entry is shown: in calendar form, or as a question
/// mark where it has none.
pub open spec fn shown_time(t: Timestamp) -> Seq<char> {
    match crate::snapshot::calendar_text(t.secs, t.nanos) {
        Some(text) => text,
        None => "?"@,
    }
}

/// The lines that describe one entry.
pub open spec fn entry_text(e: BackupEntry) -> Seq<char> {
    "- ID: "@ + e.id@ + "\n Original Path: \""@ + e.origin_path@ + "\"\n Backup Path: \""@
        + e.backup_path@ + "\"\n Created: "@ + shown_time(e.timestamp) + "\n Snapshots: "@
        + decimal(e.snapshot_count as nat)
}

/// Describes one entry.
pub fn describe_entry(e: &BackupEntry) -> (s: String)
    ensures
        s@ == entry_text(*e),
{
    let created = match crate::snapshot::calendar(e.timestamp) {
        Some(t) => t,
        None => String::from_str("?"),
    };
    let count = usize_to_string(e.snapshot_count);
    let mut s = join_text("- ID: ", e.id.as_str());
    s.append("\n Original Path: \"");
    s.append(e.origin_path.as_str());
    s.append("\"\n Backup Path: \"");
    s.append(e.backup_path.as_str());
    s.append("\"\n Created: ");
    s.append(created.as_str());
    s.append("\n Snapshots: ");
    s.append(count.as_str());
    s
}

/// What `list` shows: for an empty registry one line that says so, else a
/// heading and one description for each entry, in the registry's order.
pub open spec fn listed(entries: Seq<BackupEntry>) -> Seq<Seq<char>> {
    if entries.len() == 0 {
        seq![nothing_listed()]
    } else {
        seq![list_heading()] + Seq::new(entries.len(), |i: int| entry_text(entries[i]))
    }
}

/// Lists all backups. Never fails.
pub fn list(registry: &BackupRegistry) -> (lines: Vec<String>)
    ensures
        texts(lines@) == listed(registry.registry@),
{
    let mut lines: Vec<String> = Vec::new();
    if registry.registry.len() == 0 {
        lines.push(String::from_str("No data has been backed up yet!"));
        assert(texts(lines@) =~= listed(registry.registry@));
        return lines;
    }
    lines.push(String::from_str("Listing All Backups 📦..."));
    let ghost entries = registry.registry@;
    let mut i: usize = 0;
    while i < registry.registry.len()
        invariant
            i <= entries.len(),
            entries == registry.registry@,
            texts(lines@) == seq![list_heading()] + Seq::new(
                i as nat,
                |k: int| entry_text(entries[k]),
            ),
        decreases entries.len() - i,
    {
        let ghost before = lines@;
        lines.push(describe_entry(&registry.registry[i]));
        assert(texts(lines@) =~= texts(before).push(entry_text(entries[i as int])));
        assert(texts(lines@) =~= seq![list_heading()] + Seq::new(
            (i + 1) as nat,
            |k: int| entry_text(entries[k]),
        ));
        i += 1;
    }
    assert(texts(lines@) =~= listed(registry.registry@));
    lines
}

/// The blobs of a destination, by name, once `blobs` have been written into
/// `store` in order.
pub open spec fn written(store: Map<Seq<char>, Seq<u8>>, blobs: Seq<Blob>) -> Map<
    Seq<char>,
    Seq<u8>,
>
    decreases blobs.len(),
{
    if blobs.len() == 0 {
        store
    } else {
        written(store, blobs.drop_last()).insert(blobs.last().hash@, blobs.last().bytes@)
    }
}

/// No two blobs have the same name.
pub open spec fn distinct_names(blobs: Seq<Blob>) -> bool {
    forall|a: int, b: int|
        0 <= a < b < blobs.len() ==> (#[trigger] blobs[a]).hash@ != (#[trigger] blobs[b]).hash@
}

/// A blob with a name of its own is found under it after the blobs have been
/// written.
proof fn lemma_written(store: Map<Seq<char>, Seq<u8>>, blobs: Seq<Blob>, k: int)
    requires
        distinct_names(blobs),
        0 <= k < blobs.len(),
    ensures
        written(store, blobs).contains_key(blobs[k].hash@),
        written(store, blobs)[blobs[k].hash@] == blobs[k].bytes@,
    decreases blobs.len(),
{
    let n = blobs.len() as int;
    if k < n - 1 {
        let front = blobs.drop_last();
        assert(front[k] == blobs[k]);
        assert forall|a: int, b: int| 0 <= a < b < front.len() implies (#[trigger] front[a]).hash@
            != (#[trigger] front[b]).hash@ by {
            assert(front[a] == blobs[a] && front[b] == blobs[b]);
        }
        lemma_written(store, front, k);
        assert(blobs[k].hash@ != blobs[n - 1].hash@);
    }
}

/// A file whose content is stored is among the stored paths.
proof fn lemma_stored_path_listed(
    algo: CompressionType,
    level: u32,
    previous: Option<&Snapshot>,
    keys: Seq<Seq<char>>,
    values: Seq<SourceFile>,
    i: int,
)
    requires
        keys.len() == values.len(),
        0 <= i < keys.len(),
        crate::snapshot::outcome(
            algo,
            level,
            crate::snapshot::prev_entry(previous, keys[i]),
            values[i],
        ) is Stored,
    ensures
        crate::snapshot::stored_paths(algo, level, previous, keys, values).contains(keys[i]),
    decreases keys.len(),
{
    let n = keys.len() as int;
    let rest = crate::snapshot::stored_paths(
        algo,
        level,
        previous,
        keys.drop_last(),
        values.drop_last(),
    );
    let all = crate::snapshot::stored_paths(algo, level, previous, keys, values);
    if i == n - 1 {
        assert(all == rest.push(keys[i]));
        assert(all[rest.len() as int] == keys[i]);
    } else {
        assert(keys.drop_last()[i] == keys[i]);
        assert(values.drop_last()[i] == values[i]);
        lemma_stored_path_listed(algo, level, previous, keys.drop_last(), values.drop_last(), i);
        let k = choose|k: int| 0 <= k < rest.len() && rest[k] == keys[i];
        assert(all[k] == keys[i]);
    }
}

/// Backup, then restore: a file that a backup stored comes back with the
/// content it had, byte for byte, from the blobs that the backup handed out,
/// whatever the destination held before, as long as no two of these blobs
/// share a name.
pub proof fn lemma_stored_file_restores(
    algo: CompressionType,
    level: u32,
    key: Seq<u8>,
    previous: Option<&Snapshot>,
    source: &StrMap<SourceFile>,
    timestamp: Timestamp,
    snap: Snapshot,
    blobs: Seq<Blob>,
    store: Map<Seq<char>, Seq<u8>>,
    i: int,
)
    requires
        source.wf(),
        created(algo, level, key, previous, source, timestamp, snap, blobs),
        distinct_names(blobs),
        0 <= i < source.keys().len(),
        crate::snapshot::outcome(
            algo,
            level,
            crate::snapshot::prev_entry(previous, source.keys()[i]),
            source.values()[i],
        ) is Stored,
    ensures
        snap.files.keys()[i] == source.keys()[i],
        written(store, blobs).contains_key(snap.files.values()[i].hash@),
        restored(
            key,
            algo,
            snap.files.values()[i],
            written(store, blobs)[snap.files.values()[i].hash@],
        ) == Some(source.values()[i].content@),
{
    let keys = source.keys();
    let values = source.values();
    lemma_stored_path_listed(algo, level, previous, keys, values, i);
    let paths = crate::snapshot::blob_paths(blobs);
    let k = choose|k: int| 0 <= k < paths.len() && paths[k] == keys[i];
    assert(blobs[k].path@ == keys[i]);
    let j = choose|j: int|
        0 <= j < keys.len() && keys[j] == (#[trigger] blobs[k]).path@ && crate::snapshot::outcome(
            algo,
            level,
            crate::snapshot::prev_entry(previous, keys[j]),
            values[j],
        ) is Stored && crate::snapshot::stores(
            algo,
            level,
            key,
            values[j],
            snap.files.values()[j],
            blobs[k],
        );
    if j < i {
        assert(keys[j] != keys[i]);
    } else if i < j {
        assert(keys[i] != keys[j]);
    }
    lemma_written(store, blobs, k);
}

/// Round trip on a new destination: after the first backup every file of the
/// tree is in the snapshot under its path and comes back with the content it
/// had, byte for byte, as long as no two files have the same content hash.
pub proof fn lemma_first_backup_restores_every_file(
    algo: CompressionType,
    level: u32,
    key: Seq<u8>,
    source: &StrMap<SourceFile>,
    timestamp: Timestamp,
    snap: Snapshot,
    blobs: Seq<Blob>,
    i: int,
)
    requires
        source.wf(),
        created(algo, level, key, None, source, timestamp, snap, blobs),
        distinct_names(blobs),
        0 <= i < source.keys().len(),
    ensures
        snap.files.keys() == source.keys(),
        written(Map::empty(), blobs).contains_key(snap.files.values()[i].hash@),
        restored(
            key,
            algo,
            snap.files.values()[i],
            written(Map::empty(), blobs)[snap.files.values()[i].hash@],
        ) == Some(source.values()[i].content@),
{
    let o = crate::snapshot::outcome(
        algo,
        level,
        crate::snapshot::prev_entry(None, source.keys()[i]),
        source.values()[i],
    );
    assert(o is Carried || o is Stored);
    lemma_stored_file_restores(
        algo,
        level,
        key,
        None,
        source,
        timestamp,
        snap,
        blobs,
        Map::empty(),
        i,
    );
}

/// A file that is taken over gets no blob: nothing is encrypted or stored
/// for it.
pub proof fn lemma_carried_file_stores_nothing(
    algo: CompressionType,
    level: u32,
    key: Seq<u8>,
    previous: Option<&Snapshot>,
    source: &StrMap<SourceFile>,
    timestamp: Timestamp,
    snap: Snapshot,
    blobs: Seq<Blob>,
    i: int,
)
    requires
        source.wf(),
        created(algo, level, key, previous, source, timestamp, snap, blobs),
        0 <= i < source.keys().len(),
        crate::snapshot::outcome(
            algo,
            level,
            crate::snapshot::prev_entry(previous, source.keys()[i]),
            source.values()[i],
        ) is Carried,
    ensures
        forall|k: int| 0 <= k < blobs.len() ==> (#[trigger] blobs[k]).path@ != source.keys()[i],
        snap.files.values()[i] == (FileEntry {
            isupdated: false,
            ..crate::snapshot::prev_entry(previous, source.keys()[i]).unwrap()
        }),
{
    let keys = source.keys();
    let values = source.values();
    assert forall|k: int| 0 <= k < blobs.len() implies (#[trigger] blobs[k]).path@ != keys[i] by {
        let j = choose|j: int|
            0 <= j < keys.len() && keys[j] == (#[trigger] blobs[k]).path@
                && crate::snapshot::outcome(
                algo,
                level,
                crate::snapshot::prev_entry(previous, keys[j]),
                values[j],
            ) is Stored;
        if j < i {
            assert(keys[j] != keys[i]);
        } else if i < j {
            assert(keys[i] != keys[j]);
        }
    }
}

/// Writing blobs leaves every blob of another name as it was.
proof fn lemma_written_elsewhere(store: Map<Seq<char>, Seq<u8>>, blobs: Seq<Blob>, name: Seq<char>)
    requires
        forall|k: int| 0 <= k < blobs.len() ==> (#[trigger] blobs[k]).hash@ != name,
    ensures
        written(store, blobs).contains_key(name) == store.contains_key(name),
        store.contains_key(name) ==> written(store, blobs)[name] == store[name],
    decreases blobs.len(),
{
    if blobs.len() > 0 {
        let front = blobs.drop_last();
        assert forall|k: int| 0 <= k < front.len() implies (#[trigger] front[k]).hash@ != name by {
            assert(front[k] == blobs[k]);
        }
        lemma_written_elsewhere(store, front, name);
        assert(blobs[blobs.len() - 1].hash@ != name);
    }
}

/// Backup, then restore, for a file that was taken over: as long as the
/// backup stores no blob under the name of the file's blob, the file comes
/// back after the backup as it came back before it.
pub proof fn lemma_carried_file_restores_after_backup(
    algo: CompressionType,
    level: u32,
    key: Seq<u8>,
    previous: Option<&Snapshot>,
    source: &StrMap<SourceFile>,
    timestamp: Timestamp,
    snap: Snapshot,
    blobs: Seq<Blob>,
    store: Map<Seq<char>, Seq<u8>>,
    i: int,
)
    requires
        source.wf(),
        created(algo, level, key, previous, source, timestamp, snap, blobs),
        0 <= i < source.keys().len(),
        crate::snapshot::outcome(
            algo,
            level,
            crate::snapshot::prev_entry(previous, source.keys()[i]),
            source.values()[i],
        ) is Carried,
        store.contains_key(snap.files.values()[i].hash@),
        forall|k: int|
            0 <= k < blobs.len() ==> (#[trigger] blobs[k]).hash@ != snap.files.values()[i].hash@,
    ensures
        written(store, blobs).contains_key(snap.files.values()[i].hash@),
        restored(
            key,
            algo,
            snap.files.values()[i],
            written(store, blobs)[snap.files.values()[i].hash@],
        ) == restored(
            key,
            algo,
            crate::snapshot::prev_entry(previous, source.keys()[i]).unwrap(),
            store[crate::snapshot::prev_entry(previous, source.keys()[i]).unwrap().hash@],
        ),
{
    lemma_written_elsewhere(store, blobs, snap.files.values()[i].hash@);
}

/// A file whose modification time is the one recorded in the snapshot before
/// keeps its entry, marked as not updated, and gets no blob.
pub proof fn lemma_same_time_is_carried(
    algo: CompressionType,
    level: u32,
    key: Seq<u8>,
    previous: Option<&Snapshot>,
    source: &StrMap<SourceFile>,
    timestamp: Timestamp,
    snap: Snapshot,
    blobs: Seq<Blob>,
    i: int,
)
    requires
        source.wf(),
        created(algo, level, key, previous, source, timestamp, snap, blobs),
        0 <= i < source.keys().len(),
        crate::snapshot::prev_entry(previous, source.keys()[i]) matches Some(e) && e.modified
            == source.values()[i].modified,
    ensures
        forall|k: int| 0 <= k < blobs.len() ==> (#[trigger] blobs[k]).path@ != source.keys()[i],
        snap.files.values()[i] == (FileEntry {
            isupdated: false,
            ..crate::snapshot::prev_entry(previous, source.keys()[i]).unwrap()
        }),
{
    let o = crate::snapshot::outcome(
        algo,
        level,
        crate::snapshot::prev_entry(previous, source.keys()[i]),
        source.values()[i],
    );
    assert(o is Carried || o is Stored);
    lemma_carried_file_stores_nothing(
        algo,
        level,
        key,
        previous,
        source,
        timestamp,
        snap,
        blobs,
        i,
    );
}

/// A file whose content has the hash recorded in the snapshot before keeps
/// its entry, marked as not updated, and gets no blob, whatever its
/// modification time.
pub proof fn lemma_same_content_is_carried(
    algo: CompressionType,
    level: u32,
    key: Seq<u8>,
    previous: Option<&Snapshot>,
    source: &StrMap<SourceFile>,
    timestamp: Timestamp,
    snap: Snapshot,
    blobs: Seq<Blob>,
    i: int,
)
    requires
        source.wf(),
        created(algo, level, key, previous, source, timestamp, snap, blobs),
        0 <= i < source.keys().len(),
        crate::snapshot::prev_entry(previous, source.keys()[i]) matches Some(e) && e.hash@
            == crate::crypto::content_hash(
            crate::compress::compressed(algo, level, source.values()[i].content@).unwrap(),
        ),
    ensures
        forall|k: int| 0 <= k < blobs.len() ==> (#[trigger] blobs[k]).path@ != source.keys()[i],
        snap.files.values()[i] == (FileEntry {
            isupdated: false,
            ..crate::snapshot::prev_entry(previous, source.keys()[i]).unwrap()
        }),
{
    let o = crate::snapshot::outcome(
        algo,
        level,
        crate::snapshot::prev_entry(previous, source.keys()[i]),
        source.values()[i],
    );
    assert(o is Carried || o is Stored);
    lemma_carried_file_stores_nothing(
        algo,
        level,
        key,
        previous,
        source,
        timestamp,
        snap,
        blobs,
        i,
    );
}

/// A backup to a known destination in which every file is taken over is
/// refused as without changes: no plan comes back, so no snapshot is written
/// and the registry counts none.
pub proof fn lemma_no_changes_refused(
    registry: BackupRegistry,
    garbage_info: GarbageLimit,
    src: Seq<char>,
    dest: Seq<char>,
    password: Seq<char>,
    policy: &PasswordPolicy,
    comp: Option<String>,
    config: &Config,
    source: &StrMap<SourceFile>,
    latest: Option<&Snapshot>,
    salt: Option<Vec<u8>>,
    now: Timestamp,
    r: Result<BackupPlan, SnapError>,
)
    requires
        backup_answer(
            registry,
            garbage_info,
            src,
            dest,
            password,
            policy,
            comp,
            config,
            source,
            latest,
            salt,
            now,
            r,
        ),
        bound_entry(registry.registry@, dest) matches Some(e) && phc_verify(
            e.password.hash@,
            password,
        ) == Some(true) && e.snapshot_count < usize::MAX && parsed(e.compression_algorithm@)
            is Some,
        key_derivable(password, salt),
        source.wf(),
        forall|i: int|
            0 <= i < source.keys().len() ==> crate::snapshot::outcome(
                parsed(bound_entry(registry.registry@, dest).unwrap().compression_algorithm@).unwrap(),
                level_of(
                    parsed(
                        bound_entry(registry.registry@, dest).unwrap().compression_algorithm@,
                    ).unwrap(),
                ),
                crate::snapshot::prev_entry(latest, #[trigger] source.keys()[i]),
                source.values()[i],
            ) is Carried,
    ensures
        r matches Err(SnapError::Backup(m)) && m@ == crate::snapshot::no_changes(),
{
    let bound = bound_entry(registry.registry@, dest);
    let algo = parsed(bound.unwrap().compression_algorithm@).unwrap();
    match r {
        Ok(plan) => {
            let k = 0;
            assert(plan.blobs@.len() > 0);
            let i = choose|i: int|
                0 <= i < source.keys().len() && source.keys()[i] == (
                #[trigger] plan.blobs@[k]).path@ && crate::snapshot::outcome(
                    algo,
                    level_of(algo),
                    crate::snapshot::prev_entry(latest, source.keys()[i]),
                    source.values()[i],
                ) is Stored;
            assert(false);
        },
        Err(SnapError::IOError(_)) => {
            assert(false);
        },
        Err(SnapError::EncryptError(_, _)) => {
            assert(false);
        },
        Err(SnapError::SerializationError(_)) => {
            assert(false);
        },
        Err(_) => {},
    }
}

/// When a backup is owed success: the password is the destination's, or for
/// a new destination meets the policy and can be hashed; the algorithm is
/// known; a key can be derived; the snapshot's time has a calendar date; and
/// every file is taken over or stored, at least one of them stored.
pub proof fn lemma_backup_succeeds(
    registry: BackupRegistry,
    garbage_info: GarbageLimit,
    src: Seq<char>,
    dest: Seq<char>,
    password: Seq<char>,
    policy: &PasswordPolicy,
    comp: Option<String>,
    config: &Config,
    source: &StrMap<SourceFile>,
    latest: Option<&Snapshot>,
    salt: Option<Vec<u8>>,
    now: Timestamp,
    r: Result<BackupPlan, SnapError>,
    stored: int,
)
    requires
        backup_answer(
            registry,
            garbage_info,
            src,
            dest,
            password,
            policy,
            comp,
            config,
            source,
            latest,
            salt,
            now,
            r,
        ),
        match bound_entry(registry.registry@, dest) {
            Some(e) => phc_verify(e.password.hash@, password) == Some(true) && e.snapshot_count
                < usize::MAX,
            None => policy@.accepts(password) && hashable(password),
        },
        parsed(algorithm_name(bound_entry(registry.registry@, dest), comp, config)) is Some,
        key_derivable(password, salt),
        snapshot_file(now) is Some,
        source.wf(),
        crate::snapshot::all_pass(
            parsed(algorithm_name(bound_entry(registry.registry@, dest), comp, config)).unwrap(),
            level_of(
                parsed(algorithm_name(bound_entry(registry.registry@, dest), comp, config)).unwrap(),
            ),
            latest,
            source,
            source.keys().len() as int,
        ),
        0 <= stored < source.keys().len(),
        crate::snapshot::outcome(
            parsed(algorithm_name(bound_entry(registry.registry@, dest), comp, config)).unwrap(),
            level_of(
                parsed(algorithm_name(bound_entry(registry.registry@, dest), comp, config)).unwrap(),
            ),
            crate::snapshot::prev_entry(latest, source.keys()[stored]),
            source.values()[stored],
        ) is Stored,
    ensures
        r is Ok,
{
    let bound = bound_entry(registry.registry@, dest);
    let algo = parsed(algorithm_name(bound, comp, config)).unwrap();
    match r {
        Err(SnapError::IOError(_)) => {
            let i = choose|i: int|
                crate::snapshot::first_failure(algo, level_of(algo), latest, source, i);
            assert(false);
        },
        Err(SnapError::EncryptError(_, _)) => {
            let i = choose|i: int|
                crate::snapshot::first_failure(algo, level_of(algo), latest, source, i);
            assert(false);
        },
        Err(SnapError::Backup(_)) => {
            assert(false);
        },
        _ => {},
    }
}

/// Deleting or restoring the last snapshot of a destination takes the
/// destination out of a registry of distinct identifiers; while snapshots
/// remain, its entry stays, with one snapshot fewer.
pub proof fn lemma_count_down(entries: Seq<BackupEntry>, entry: BackupEntry)
    requires
        crate::registry::ids_distinct(entries),
    ensures
        entry.snapshot_count <= 1 ==> !crate::registry::knows_id(
            upserted(entries, counted_down(entry)),
            entry.id@,
        ),
        entry.snapshot_count > 1 ==> upserted(entries, counted_down(entry)).last() == counted_down(
            entry,
        ) && counted_down(entry).snapshot_count == entry.snapshot_count - 1,
        crate::registry::ids_distinct(upserted(entries, counted_down(entry))),
{
    crate::registry::lemma_upsert_keeps_registry(entries, counted_down(entry));
}

/// A backup keeps the registry sound: identifiers stay distinct,
/// destinations stay distinct, and every entry counts a snapshot.
pub proof fn lemma_backup_keeps_registry(
    registry: BackupRegistry,
    garbage_info: GarbageLimit,
    src: Seq<char>,
    dest: Seq<char>,
    password: Seq<char>,
    comp: Option<String>,
    config: &Config,
    source: &StrMap<SourceFile>,
    latest: Option<&Snapshot>,
    salt: Option<Vec<u8>>,
    now: Timestamp,
    plan: BackupPlan,
)
    requires
        backed_up(
            registry,
            garbage_info,
            src,
            dest,
            password,
            comp,
            config,
            source,
            latest,
            salt,
            now,
            plan,
        ),
        crate::registry::ids_distinct(registry.registry@),
        crate::registry::dests_distinct(registry.registry@),
        crate::registry::all_counted(registry.registry@),
    ensures
        crate::registry::ids_distinct(plan.registry.registry@),
        crate::registry::dests_distinct(plan.registry.registry@),
        crate::registry::all_counted(plan.registry.registry@),
        knows_dest(plan.registry.registry@, dest),
{
    let entries = registry.registry@;
    let bound = bound_entry(entries, dest);
    let name = algorithm_name(bound, comp, config);
    let recorded = choose|recorded: BackupEntry|
        records(bound, recorded, src, dest, password, name, now) && #[trigger] upserted(
            entries,
            recorded,
        ) == plan.registry.registry@;
    crate::registry::lemma_upsert_keeps_registry(entries, recorded);
    if knows_dest(entries, dest) {
        let k = choose|k: int| 0 <= k < entries.len() && (#[trigger] entries[k]).backup_path@ == dest;
        lemma_known_dest_has_first(entries, dest, k);
    }
    assert(recorded.backup_path@ == dest) by {
        if bound is Some {
            let i = choose|i: int| first_at_dest(entries, i, dest);
            assert(entries[i].backup_path@ == dest);
        }
    }
    assert forall|i: int|
        0 <= i < entries.len() && (#[trigger] entries[i]).backup_path@
            == recorded.backup_path@ implies entries[i].id@ == recorded.id@ by {
        assert(knows_dest(entries, dest));
        let k = choose|k: int| first_at_dest(entries, k, dest);
        if i < k {
            assert(entries[i].backup_path@ != dest);
        } else if k < i {
            assert(entries[k].backup_path@ != entries[i].backup_path@);
        }
    }
    crate::registry::lemma_upsert_keeps_destinations(entries, recorded);
    let u = plan.registry.registry@;
    assert(u.last() == recorded);
    assert(u[u.len() - 1].backup_path@ == dest);
}

/// One backup of a series to one destination: the tree that was backed up,
/// the snapshot made of it, and the blobs that were stored for it.
pub struct Generation {
    pub source: StrMap<SourceFile>,
    pub snapshot: Snapshot,
    pub blobs: Seq<Blob>,
}

/// The snapshot that backup `j` of a series was compared with: the one of
/// the backup before it, and none for the first.
pub open spec fn previous_of<'a>(history: &'a Seq<Generation>, j: int) -> Option<&'a Snapshot> {
    if j <= 0 {
        None
    } else {
        Some(&history[j - 1].snapshot)
    }
}

/// Whether backup `j` of the series is a backup: its snapshot and blobs are
/// what a backup of its tree after the backup before it gives.
pub open spec fn is_backup(
    history: Seq<Generation>,
    algo: CompressionType,
    level: u32,
    key: Seq<u8>,
    j: int,
) -> bool {
    &&& history[j].source.wf()
    &&& created(
        algo,
        level,
        key,
        previous_of(&history, j),
        &history[j].source,
        history[j].snapshot.timestamp,
        history[j].snapshot,
        history[j].blobs,
    )
}

/// Whether `history` is a series of backups, each compared with the one
/// before it.
pub open spec fn is_series(
    history: Seq<Generation>,
    algo: CompressionType,
    level: u32,
    key: Seq<u8>,
) -> bool {
    forall|j: int| 0 <= j < history.len() ==> #[trigger] is_backup(history, algo, level, key, j)
}

/// No two blobs of the series have the same name: no content was stored
/// twice.
pub open spec fn names_apart(history: Seq<Generation>) -> bool {
    forall|a: int, x: int, b: int, y: int|
        0 <= a < history.len() && 0 <= x < history[a].blobs.len() && 0 <= b < history.len() && 0
            <= y < history[b].blobs.len() && (a != b || x != y) ==> (
        #[trigger] history[a].blobs[x]).hash@ != (#[trigger] history[b].blobs[y]).hash@
}

/// Whether file `i` of backup `j` was in the tree of the backup before with
/// the same content.
pub open spec fn same_as_before(history: Seq<Generation>, j: int, i: int) -> bool {
    exists|i0: int|
        0 <= i0 < history[j - 1].source.keys().len() && (
        #[trigger] history[j - 1].source.keys()[i0]) == history[j].source.keys()[i]
            && history[j - 1].source.values()[i0].content@ == history[j].source.values()[i].content@
}

/// Every file that a backup of the series took over had the content it had
/// in the tree of the backup before.
pub open spec fn steady(history: Seq<Generation>, algo: CompressionType, level: u32) -> bool {
    forall|j: int, i: int|
        1 <= j < history.len() && 0 <= i < history[j].source.keys().len()
            && crate::snapshot::outcome(
            algo,
            level,
            crate::snapshot::prev_entry(
                previous_of(&history, j),
                #[trigger] history[j].source.keys()[i],
            ),
            history[j].source.values()[i],
        ) is Carried ==> same_as_before(history, j, i)
}

/// The blobs of the destination after the series, where nothing was there
/// before it and retention dropped nothing.
pub open spec fn store_after(history: Seq<Generation>) -> Map<Seq<char>, Seq<u8>>
    decreases history.len(),
{
    if history.len() == 0 {
        Map::empty()
    } else {
        written(store_after(history.drop_last()), history.last().blobs)
    }
}

/// Whether the blob of file `i` of backup `j` was stored by that backup or
/// one before it, and the file comes back from `store` with the content it
/// had in the tree of backup `j`.
pub open spec fn comes_back(
    history: Seq<Generation>,
    algo: CompressionType,
    key: Seq<u8>,
    store: Map<Seq<char>, Seq<u8>>,
    j: int,
    i: int,
) -> bool {
    let e = history[j].snapshot.files.values()[i];
    &&& exists|g: int, k: int|
        0 <= g <= j && 0 <= k < history[g].blobs.len() && (#[trigger] history[g].blobs[k]).hash@
            == e.hash@
    &&& store.contains_key(e.hash@)
    &&& restored(key, algo, e, store[e.hash@]) == Some(history[j].source.values()[i].content@)
}

/// A series without its last backup is a series with the same properties.
proof fn lemma_shorter_series(
    history: Seq<Generation>,
    algo: CompressionType,
    level: u32,
    key: Seq<u8>,
)
    requires
        history.len() > 0,
        is_series(history, algo, level, key),
        names_apart(history),
        steady(history, algo, level),
    ensures
        is_series(history.drop_last(), algo, level, key),
        names_apart(history.drop_last()),
        steady(history.drop_last(), algo, level),
{
    let front = history.drop_last();
    assert forall|j: int| 0 <= j < front.len() implies #[trigger] is_backup(
        front,
        algo,
        level,
        key,
        j,
    ) by {
        assert(is_backup(history, algo, level, key, j));
        assert(front[j] == history[j]);
        if j > 0 {
            assert(front[j - 1] == history[j - 1]);
        }
        assert(previous_of(&front, j) == previous_of(&history, j));
    }
    assert forall|a: int, x: int, b: int, y: int|
        0 <= a < front.len() && 0 <= x < front[a].blobs.len() && 0 <= b < front.len() && 0 <= y
            < front[b].blobs.len() && (a != b || x != y) implies (#[trigger] front[a].blobs[x]).hash@
        != (#[trigger] front[b].blobs[y]).hash@ by {
        assert(front[a] == history[a] && front[b] == history[b]);
        assert(history[a].blobs[x].hash@ != history[b].blobs[y].hash@);
    }
    assert forall|j: int, i: int|
        1 <= j < front.len() && 0 <= i < front[j].source.keys().len()
            && crate::snapshot::outcome(
            algo,
            level,
            crate::snapshot::prev_entry(previous_of(&front, j), #[trigger] front[j].source.keys()[i]),
            front[j].source.values()[i],
        ) is Carried implies same_as_before(front, j, i) by {
        assert(front[j] == history[j] && front[j - 1] == history[j - 1]);
        assert(previous_of(&front, j) == previous_of(&history, j));
        assert(same_as_before(history, j, i));
        let i0 = choose|i0: int|
            0 <= i0 < history[j - 1].source.keys().len() && (
            #[trigger] history[j - 1].source.keys()[i0]) == history[j].source.keys()[i]
                && history[j - 1].source.values()[i0].content@
                == history[j].source.values()[i].content@;
        assert(front[j - 1].source.keys()[i0] == front[j].source.keys()[i]);
    }
}

/// A stored file has a blob of its own among the blobs of its backup.
proof fn lemma_stored_file_has_blob(
    algo: CompressionType,
    level: u32,
    key: Seq<u8>,
    previous: Option<&Snapshot>,
    source: &StrMap<SourceFile>,
    timestamp: Timestamp,
    snap: Snapshot,
    blobs: Seq<Blob>,
    i: int,
) -> (k: int)
    requires
        source.wf(),
        created(algo, level, key, previous, source, timestamp, snap, blobs),
        0 <= i < source.keys().len(),
        crate::snapshot::outcome(
            algo,
            level,
            crate::snapshot::prev_entry(previous, source.keys()[i]),
            source.values()[i],
        ) is Stored,
    ensures
        0 <= k < blobs.len(),
        blobs[k].hash@ == snap.files.values()[i].hash@,
{
    let keys = source.keys();
    let values = source.values();
    lemma_stored_path_listed(algo, level, previous, keys, values, i);
    let paths = crate::snapshot::blob_paths(blobs);
    let k = choose|k: int| 0 <= k < paths.len() && paths[k] == keys[i];
    assert(blobs[k].path@ == keys[i]);
    let j = choose|j: int|
        0 <= j < keys.len() && keys[j] == (#[trigger] blobs[k]).path@ && crate::snapshot::outcome(
            algo,
            level,
            crate::snapshot::prev_entry(previous, keys[j]),
            values[j],
        ) is Stored && crate::snapshot::stores(
            algo,
            level,
            key,
            values[j],
            snap.files.values()[j],
            blobs[k],
        );
    if j < i {
        assert(keys[j] != keys[i]);
    } else if i < j {
        assert(keys[i] != keys[j]);
    }
    k
}

/// Every version comes back: after a series of backups to a new
/// destination, with nothing dropped by retention, every file of every
/// snapshot of the series comes back from the destination's blobs with the
/// content it had in the tree of that backup, byte for byte. It holds where
/// no content was stored twice and where a file that was taken over had not
/// changed since the backup before.
pub proof fn lemma_every_version_comes_back(
    history: Seq<Generation>,
    algo: CompressionType,
    level: u32,
    key: Seq<u8>,
    j: int,
    i: int,
)
    requires
        is_series(history, algo, level, key),
        names_apart(history),
        steady(history, algo, level),
        0 <= j < history.len(),
        0 <= i < history[j].source.keys().len(),
    ensures
        history[j].snapshot.files.keys() == history[j].source.keys(),
        comes_back(history, algo, key, store_after(history), j, i),
    decreases history.len(),
{
    let n = history.len() as int;
    let front = history.drop_last();
    let last = history[n - 1];
    let before = store_after(front);
    let e = history[j].snapshot.files.values()[i];
    assert(is_backup(history, algo, level, key, j));
    assert(is_backup(history, algo, level, key, n - 1));
    lemma_shorter_series(history, algo, level, key);
    assert(store_after(history) == written(before, last.blobs));
    if j < n - 1 {
        assert(front[j] == history[j]);
        lemma_every_version_comes_back(front, algo, level, key, j, i);
        assert(comes_back(front, algo, key, before, j, i));
        let (g, k) = choose|g: int, k: int|
            0 <= g <= j && 0 <= k < front[g].blobs.len() && (#[trigger] front[g].blobs[k]).hash@
                == e.hash@;
        assert(front[g] == history[g]);
        assert forall|y: int| 0 <= y < last.blobs.len() implies (#[trigger] last.blobs[y]).hash@
            != e.hash@ by {
            assert(history[g].blobs[k].hash@ != history[n - 1].blobs[y].hash@);
        }
        lemma_written_elsewhere(before, last.blobs, e.hash@);
        assert(history[g].blobs[k].hash@ == e.hash@);
    } else {
        let o = crate::snapshot::outcome(
            algo,
            level,
            crate::snapshot::prev_entry(previous_of(&history, j), history[j].source.keys()[i]),
            history[j].source.values()[i],
        );
        assert(o is Carried || o is Stored);
        assert forall|a: int, b: int| 0 <= a < b < last.blobs.len() implies (
        #[trigger] last.blobs[a]).hash@ != (#[trigger] last.blobs[b]).hash@ by {
            assert(history[n - 1].blobs[a].hash@ != history[n - 1].blobs[b].hash@);
        }
        if o is Stored {
            let k = lemma_stored_file_has_blob(
                algo,
                level,
                key,
                previous_of(&history, j),
                &history[j].source,
                history[j].snapshot.timestamp,
                history[j].snapshot,
                history[j].blobs,
                i,
            );
            lemma_stored_file_restores(
                algo,
                level,
                key,
                previous_of(&history, j),
                &history[j].source,
                history[j].snapshot.timestamp,
                history[j].snapshot,
                history[j].blobs,
                before,
                i,
            );
            assert(history[j].blobs[k].hash@ == e.hash@);
        } else {
            assert(j >= 1);
            let prev = history[j - 1];
            let path = history[j].source.keys()[i];
            assert(same_as_before(history, j, i));
            let i0 = choose|i0: int|
                0 <= i0 < history[j - 1].source.keys().len() && (
                #[trigger] history[j - 1].source.keys()[i0]) == history[j].source.keys()[i]
                    && history[j - 1].source.values()[i0].content@
                    == history[j].source.values()[i].content@;
            assert(is_backup(history, algo, level, key, j - 1));
            assert(prev.snapshot.files.keys() == prev.source.keys());
            prev.snapshot.files.lemma_entry(i0);
            let pe = crate::snapshot::prev_entry(previous_of(&history, j), path);
            assert(pe == Some(prev.snapshot.files.values()[i0]));
            assert(front[j - 1] == history[j - 1]);
            lemma_every_version_comes_back(front, algo, level, key, j - 1, i0);
            assert(comes_back(front, algo, key, before, j - 1, i0));
            let p = prev.snapshot.files.values()[i0];
            assert(e.hash == p.hash && e.nonce == p.nonce);
            let (g, k) = choose|g: int, k: int|
                0 <= g <= j - 1 && 0 <= k < front[g].blobs.len() && (
                #[trigger] front[g].blobs[k]).hash@ == p.hash@;
            assert(front[g] == history[g]);
            assert forall|y: int| 0 <= y < last.blobs.len() implies (#[trigger] last.blobs[y]).hash@
                != e.hash@ by {
                assert(history[g].blobs[k].hash@ != history[n - 1].blobs[y].hash@);
            }
            lemma_carried_file_restores_after_backup(
                algo,
                level,
                key,
                previous_of(&history, j),
                &history[j].source,
                history[j].snapshot.timestamp,
                history[j].snapshot,
                history[j].blobs,
                before,
                i,
            );
            assert(history[g].blobs[k].hash@ == e.hash@);
        }
    }
}

} // verus!
