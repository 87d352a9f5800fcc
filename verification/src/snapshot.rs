//! Snapshots, and the comparison of a source tree with the snapshot before it.

use vstd::prelude::*;
use crate::compress::{compressed, decompressed, CompressionEngine, CompressionType};
use crate::crypto::{
    content_hash, hash_content, opened, sealed, try_encrypt_file_bytes, KEY_LEN,
    MAX_PLAINTEXT_LEN,
};
use crate::error::SnapError;
use crate::gc::{evicted, kept, versions_in, GarbageCollector, RefView, SnapshotReference};
use crate::layout::{join_path, joined};
use crate::registry::Timestamp;
use crate::text::join_text;
use crate::strmap::StrMap;

verus! {

/// When a file was last modified: seconds and nanoseconds since the Unix
/// epoch.
#[derive(Clone, Copy, Debug, PartialEq, Eq, Structural)]
pub struct ModifiedTime {
    pub secs: u64,
    pub nanos: u32,
}

/// What a snapshot records of one file.
#[derive(Debug)]
pub struct FileEntry {
    /// The name of the blob that holds the file's content.
    pub hash: String,
    /// The nonce the blob was encrypted with.
    pub nonce: [u8; 12],
    /// The file's modification time when its content was stored.
    pub modified: ModifiedTime,
    /// Whether this snapshot stored the content, or took the entry over from
    /// the snapshot before it.
    pub isupdated: bool,
}

impl Clone for FileEntry {
    fn clone(&self) -> (r: Self)
        ensures
            r == *self,
    {
        Self {
            hash: self.hash.clone(),
            nonce: self.nonce,
            modified: self.modified,
            isupdated: self.isupdated,
        }
    }
}

/// One file of the source tree, as read from disk.
#[derive(Debug)]
pub struct SourceFile {
    pub content: Vec<u8>,
    pub modified: ModifiedTime,
}

/// An encrypted payload to be stored under the name `hash`, made for the
/// file `path`.
#[derive(Debug)]
pub struct Blob {
    pub path: String,
    pub hash: String,
    pub bytes: Vec<u8>,
}

/// The index of a source tree at one moment: an entry for every file.
pub struct Snapshot {
    pub timestamp: Timestamp,
    pub files: StrMap<FileEntry>,
}

/// What the comparison decides for one file.
pub enum FileOutcome {
    /// The codec failed on the content.
    CompressFailed,
    /// The content is new, and too long for the cipher.
    TooLong,
    /// The entry of the snapshot before is taken over.
    Carried,
    /// The content is encrypted and stored.
    Stored,
}

/// Whether a file counts as unchanged against `prev`: its modification time
/// is the recorded one, or else the hash of its content is.
pub open spec fn unchanged(prev: Option<FileEntry>, modified: ModifiedTime, hash: Seq<char>) -> bool {
    match prev {
        Some(e) => e.modified == modified || e.hash@ == hash,
        None => false,
    }
}

/// What the comparison decides for the file `f`, whose entry in the snapshot
/// before is `prev`.
pub open spec fn outcome(
    algo: CompressionType,
    level: u32,
    prev: Option<FileEntry>,
    f: SourceFile,
) -> FileOutcome {
    match compressed(algo, level, f.content@) {
        None => FileOutcome::CompressFailed,
        Some(c) => if unchanged(prev, f.modified, content_hash(c)) {
            FileOutcome::Carried
        } else if c.len() > MAX_PLAINTEXT_LEN {
            FileOutcome::TooLong
        } else {
            FileOutcome::Stored
        },
    }
}

/// The entry of `path` in the snapshot before, if there is one.
pub open spec fn prev_entry(previous: Option<&Snapshot>, path: Seq<char>) -> Option<FileEntry> {
    match previous {
        Some(s) => if s.files@.contains_key(path) {
            Some(s.files@[path])
        } else {
            None
        },
        None => None,
    }
}

/// The paths among `keys` whose content is stored, in order.
pub open spec fn stored_paths(
    algo: CompressionType,
    level: u32,
    previous: Option<&Snapshot>,
    keys: Seq<Seq<char>>,
    values: Seq<SourceFile>,
) -> Seq<Seq<char>>
    decreases keys.len(),
{
    if keys.len() == 0 || values.len() != keys.len() {
        Seq::empty()
    } else {
        let rest = stored_paths(algo, level, previous, keys.drop_last(), values.drop_last());
        if outcome(algo, level, prev_entry(previous, keys.last()), values.last()) is Stored {
            rest.push(keys.last())
        } else {
            rest
        }
    }
}

/// The paths of a list of blobs.
pub open spec fn blob_paths(blobs: Seq<Blob>) -> Seq<Seq<char>> {
    Seq::new(blobs.len(), |i: int| blobs[i].path@)
}

/// Whether `entry` and `blob` are what storing the file `f` gives: the entry
/// names the hash of the compressed content and the file's modification time,
/// and the blob is the compressed content encrypted under `key` and the
/// entry's nonce.
pub open spec fn stores(
    algo: CompressionType,
    level: u32,
    key: Seq<u8>,
    f: SourceFile,
    entry: FileEntry,
    blob: Blob,
) -> bool {
    let c = compressed(algo, level, f.content@).unwrap();
    &&& entry.hash@ == content_hash(c)
    &&& entry.modified == f.modified
    &&& entry.isupdated
    &&& blob.hash@ == entry.hash@
    &&& blob.bytes@ == sealed(key, entry.nonce@, c)
    &&& opened(key, entry.nonce@, blob.bytes@) == Some(c)
    &&& decompressed(algo, c) == Some(f.content@)
}

/// What is reported where nothing has changed.
pub open spec fn no_changes() -> Seq<char> {
    "No File changes and hence backup aborted."@
}

/// What is reported where a file cannot be encrypted.
pub open spec fn cannot_encrypt() -> Seq<char> {
    "Failed to encrypt file"@
}

/// Whether the first `n` files are all taken over or stored.
pub open spec fn all_pass(
    algo: CompressionType,
    level: u32,
    previous: Option<&Snapshot>,
    source: &StrMap<SourceFile>,
    n: int,
) -> bool {
    forall|i: int|
        0 <= i < n ==> {
            let o = outcome(
                algo,
                level,
                prev_entry(previous, #[trigger] source.keys()[i]),
                source.values()[i],
            );
            o is Carried || o is Stored
        }
}

/// Whether file `i` is the first on which the comparison fails.
pub open spec fn first_failure(
    algo: CompressionType,
    level: u32,
    previous: Option<&Snapshot>,
    source: &StrMap<SourceFile>,
    i: int,
) -> bool {
    &&& 0 <= i < source.keys().len()
    &&& all_pass(algo, level, previous, source, i)
    &&& {
        let o = outcome(algo, level, prev_entry(previous, source.keys()[i]), source.values()[i]);
        o is CompressFailed || o is TooLong
    }
}

/// The calendar form of a moment, `YYYY-MM-DDTHH-MM-SS` in UTC, or `None`
/// where the moment has no calendar date. Stands for what `timestamp_text`
/// returns.
pub uninterp spec fn calendar_text(secs: i64, nanos: u32) -> Option<Seq<char>>;

/// The calendar form of a moment.
///
/// Calls `chrono::DateTime::from_timestamp`, which gives nothing for seconds
/// out of range or invalid nanoseconds, and `format` with the pattern
/// `%Y-%m-%dT%H-%M-%S`. The contract gives the text its name.
#[verifier::external_body]
fn timestamp_text(secs: i64, nanos: u32) -> (r: Option<String>)
    ensures
        r is Some <==> calendar_text(secs, nanos) is Some,
        r is Some ==> calendar_text(secs, nanos) == Some(r.unwrap()@),
{
    let moment = chrono::DateTime::from_timestamp(secs, nanos)?;
    Some(moment.format("%Y-%m-%dT%H-%M-%S").to_string())
}

/// The calendar form of `t`, where it has one.
pub fn calendar(t: Timestamp) -> (r: Option<String>)
    ensures
        match r {
            Some(s) => calendar_text(t.secs, t.nanos) == Some(s@),
            None => calendar_text(t.secs, t.nanos) is None,
        },
{
    timestamp_text(t.secs, t.nanos)
}

/// The name of the file a snapshot taken at `timestamp` is written to.
pub open spec fn snapshot_file(timestamp: Timestamp) -> Option<Seq<char>> {
    match calendar_text(timestamp.secs, timestamp.nanos) {
        Some(t) => Some(t + ".json"@),
        None => None,
    }
}

/// What is reported for a timestamp without a calendar date.
pub open spec fn no_calendar_date() -> Seq<char> {
    "Snapshot timestamp has no calendar date"@
}

/// A version that retention dropped: the blob named by the reference's hash
/// is to be deleted, and the entry of the file `path` is to be taken out of
/// the snapshot that the reference names.
#[derive(Debug)]
pub struct Eviction {
    pub path: String,
    pub reference: SnapshotReference,
}

/// An eviction as plain values.
pub struct EvictionView {
    pub path: Seq<char>,
    pub reference: RefView,
}

/// A list of evictions as plain values.
pub open spec fn evictions_view(gone: Seq<Eviction>) -> Seq<EvictionView> {
    Seq::new(gone.len(), |i: int| EvictionView { path: gone[i].path@, reference: gone[i].reference@ })
}

/// A list of references as plain values.
pub open spec fn refs_of(refs: Seq<SnapshotReference>) -> Seq<RefView> {
    Seq::new(refs.len(), |i: int| refs[i]@)
}

/// The dropped versions `refs` of the file `path`.
pub open spec fn tagged(path: Seq<char>, refs: Seq<RefView>) -> Seq<EvictionView> {
    Seq::new(refs.len(), |i: int| EvictionView { path, reference: refs[i] })
}

/// The version index once the stored entries among `keys` and `values` have
/// been registered in order, for a snapshot written to `snap_path`.
pub open spec fn index_after(
    index: Map<Seq<char>, Seq<RefView>>,
    max: nat,
    keys: Seq<Seq<char>>,
    values: Seq<FileEntry>,
    snap_path: Seq<char>,
) -> Map<Seq<char>, Seq<RefView>>
    decreases keys.len(),
{
    if keys.len() == 0 || values.len() != keys.len() {
        index
    } else {
        let before = index_after(index, max, keys.drop_last(), values.drop_last(), snap_path);
        if values.last().isupdated {
            before.insert(
                keys.last(),
                kept(
                    versions_in(before, keys.last()),
                    RefView { hash: values.last().hash@, snapshot: snap_path },
                    max,
                ),
            )
        } else {
            before
        }
    }
}

/// The versions dropped while the stored entries among `keys` and `values`
/// are registered in order.
pub open spec fn evictions_after(
    index: Map<Seq<char>, Seq<RefView>>,
    max: nat,
    keys: Seq<Seq<char>>,
    values: Seq<FileEntry>,
    snap_path: Seq<char>,
) -> Seq<EvictionView>
    decreases keys.len(),
{
    if keys.len() == 0 || values.len() != keys.len() {
        Seq::empty()
    } else {
        let before = index_after(index, max, keys.drop_last(), values.drop_last(), snap_path);
        let gone = evictions_after(index, max, keys.drop_last(), values.drop_last(), snap_path);
        if values.last().isupdated {
            gone + tagged(
                keys.last(),
                evicted(
                    versions_in(before, keys.last()),
                    RefView { hash: values.last().hash@, snapshot: snap_path },
                    max,
                ),
            )
        } else {
            gone
        }
    }
}

/// Whether `snap` and `blobs` are the next snapshot of the tree `source`
/// after `previous`: every file is taken over or stored and at least one is
/// stored; the snapshot lists the files of the tree in their order; a file
/// taken over has the entry of the snapshot before, marked as not updated;
/// and the blobs are those of the stored files, in the order of the files.
pub open spec fn created(
    algo: CompressionType,
    level: u32,
    key: Seq<u8>,
    previous: Option<&Snapshot>,
    source: &StrMap<SourceFile>,
    timestamp: Timestamp,
    snap: Snapshot,
    blobs: Seq<Blob>,
) -> bool {
    &&& all_pass(algo, level, previous, source, source.keys().len() as int)
    &&& blobs.len() > 0
    &&& snap.timestamp == timestamp
    &&& snap.files.wf()
    &&& snap.files.keys() == source.keys()
    &&& blob_paths(blobs) == stored_paths(algo, level, previous, source.keys(), source.values())
    &&& forall|i: int|
        0 <= i < source.keys().len() && outcome(
            algo,
            level,
            prev_entry(previous, #[trigger] source.keys()[i]),
            source.values()[i],
        ) is Carried ==> snap.files.values()[i] == (FileEntry {
            isupdated: false,
            ..prev_entry(previous, source.keys()[i]).unwrap()
        })
    &&& forall|k: int|
        0 <= k < blobs.len() ==> exists|i: int|
            0 <= i < source.keys().len() && source.keys()[i] == (#[trigger] blobs[k]).path@
                && outcome(
                algo,
                level,
                prev_entry(previous, source.keys()[i]),
                source.values()[i],
            ) is Stored && stores(algo, level, key, source.values()[i], snap.files.values()[i], blobs[k])
}

impl Snapshot {
    /// Compares the source tree with the snapshot before it and builds the
    /// next snapshot.
    ///
    /// Each file's content is compressed and hashed. A file whose modification
    /// time is the recorded one, or else whose hash is the recorded one, keeps
    /// its entry, marked as not updated, and nothing is encrypted or stored for
    /// it. Any other file is encrypted under a fresh nonce; its blob is handed
    /// back to be stored under the hash. Where no file is stored the backup is
    /// refused. A codec or cipher failure on any file refuses it too.
    pub fn create(
        source: &StrMap<SourceFile>,
        key: &[u8; 32],
        previous: Option<&Snapshot>,
        engine: &CompressionEngine,
        timestamp: Timestamp,
    ) -> (r: Result<(Snapshot, Vec<Blob>), SnapError>)
        ensures
            source.wf(),
            match r {
                Ok((snap, blobs)) => created(
                    engine.algorithm(),
                    engine.level(),
                    key@,
                    previous,
                    source,
                    timestamp,
                    snap,
                    blobs@,
                ),
                Err(SnapError::Backup(m)) => {
                    &&& m@ == no_changes()
                    &&& forall|i: int|
                        0 <= i < source.keys().len() ==> outcome(
                            engine.algorithm(),
 engine.level(),
                            prev_entry(previous, #[trigger] source.keys()[i]),
                            source.values()[i],
                        ) is Carried
                },
                Err(SnapError::IOError(_)) => exists|i: int|
                    first_failure(engine.algorithm(),
 engine.level(), previous, source, i) && outcome(
                        engine.algorithm(),
 engine.level(),
                        prev_entry(previous, source.keys()[i]),
                        source.values()[i],
                    ) is CompressFailed,
                Err(SnapError::EncryptError(m, _)) => m@ == cannot_encrypt() && exists|i: int|
                    first_failure(engine.algorithm(),
 engine.level(), previous, source, i) && outcome(
                        engine.algorithm(),
 engine.level(),
                        prev_entry(previous, source.keys()[i]),
                        source.values()[i],
                    ) is TooLong,
                Err(_) => false,
            },
    {
        let n = source.len();
        let mut files: StrMap<FileEntry> = StrMap::new();
        let mut blobs: Vec<Blob> = Vec::new();
        let ghost keys = source.keys();
        let ghost values = source.values();
        let mut i: usize = 0;
        while i < n
            invariant
                i <= n,
                n == keys.len(),
                keys == source.keys(),
                values == source.values(),
                source.wf(),
                key@.len() == KEY_LEN,
                files.wf(),
                files.keys() == keys.take(i as int),
                all_pass(engine.algorithm(),
 engine.level(), previous, source, i as int),
                blob_paths(blobs@) == stored_paths(
                    engine.algorithm(),
 engine.level(),
                    previous,
                    keys.take(i as int),
                    values.take(i as int),
                ),
                forall|j: int|
                    0 <= j < i && outcome(engine.algorithm(),
 engine.level(), prev_entry(previous, #[trigger] keys[j]), values[j])
                        is Carried ==> files.values()[j] == (FileEntry {
                        isupdated: false,
                        ..prev_entry(previous, keys[j]).unwrap()
                    }),
                forall|k: int|
                    0 <= k < blobs@.len() ==> exists|j: int|
                        0 <= j < i && keys[j] == (#[trigger] blobs@[k]).path@ && outcome(
                            engine.algorithm(),
 engine.level(),
                            prev_entry(previous, keys[j]),
                            values[j],
                        ) is Stored && stores(engine.algorithm(),
 engine.level(), key@, values[j], files.values()[j], blobs@[k]),
                blobs@.len() == 0 ==> forall|j: int|
                    0 <= j < i ==> outcome(engine.algorithm(),
 engine.level(), prev_entry(previous, #[trigger] keys[j]), values[j])
                        is Carried,
            decreases n - i,
        {
            let path = source.key_at(i);
            let f = source.value_at(i);
            let ghost prev = prev_entry(previous, keys[i as int]);
            let ghost old_files = files;
            let ghost old_blobs = blobs@;
            proof {
                assert(keys.take(i + 1).drop_last() == keys.take(i as int));
                assert(values.take(i + 1).drop_last() == values.take(i as int));
                assert(keys.take(i + 1).last() == keys[i as int]);
                assert(values.take(i + 1).last() == values[i as int]);
                assert(!keys.take(i as int).contains(keys[i as int])) by {
                    if keys.take(i as int).contains(keys[i as int]) {
                        let j = choose|j: int|
                            0 <= j < i && keys.take(i as int)[j] == keys[i as int];
                        assert(keys[j] != keys[i as int]);
                    }
                }
            }
            let content = match engine.compress(f.content.as_slice()) {
                Ok(c) => c,
                Err(e) => {
                    assert(first_failure(engine.algorithm(),
 engine.level(), previous, source, i as int));
                    return Err(SnapError::IOError(e));
                },
            };
            let hash = hash_content(content.as_slice());
            let prev_state = match previous {
                Some(snap) => snap.files.get(path.as_str()),
                None => None,
            };
            let carried: Option<FileEntry> = match prev_state {
                Some(e) => {
                    if e.modified == f.modified || e.hash == hash {
                        Some(
                            FileEntry {
                                hash: e.hash.clone(),
                                nonce: e.nonce,
                                modified: e.modified,
                                isupdated: false,
                            },
                        )
                    } else {
                        None
                    }
                },
                None => None,
            };
            match carried {
                Some(entry) => {
                    files.insert(path.clone(), entry);
                },
                None => {
                    match try_encrypt_file_bytes(content.as_slice(), key.as_slice()) {
                        None => {
                            assert(first_failure(engine.algorithm(),
 engine.level(), previous, source, i as int));
                            return Err(
                                SnapError::EncryptError(
                                    String::from_str("Failed to encrypt file"),
                                    String::from_str("aead::Error"),
                                ),
                            );
                        },
                        Some((ciphertext, nonce)) => {
                            let entry = FileEntry {
                                hash: hash.clone(),
                                nonce,
                                modified: f.modified,
                                isupdated: true,
                            };
                            let blob = Blob { path: path.clone(), hash, bytes: ciphertext };
                            assert(stores(engine.algorithm(),
 engine.level(), key@, values[i as int], entry, blob));
                            files.insert(path.clone(), entry);
                            blobs.push(blob);
                            assert(blob_paths(blobs@) =~= blob_paths(old_blobs).push(keys[i as int]));
                        },
                    }
                },
            }
            proof {
                assert(files.keys() =~= keys.take(i + 1));
                assert(files.values() == old_files.values().push(files.values()[i as int]));
                assert forall|j: int| 0 <= j < i implies files.values()[j]
                    == old_files.values()[j] by {}
                assert forall|k: int| 0 <= k < blobs@.len() implies exists|j: int|
                    0 <= j < i + 1 && keys[j] == (#[trigger] blobs@[k]).path@ && outcome(
                        engine.algorithm(),
 engine.level(),
                        prev_entry(previous, keys[j]),
                        values[j],
                    ) is Stored && stores(
                        engine.algorithm(),
 engine.level(),
                        key@,
                        values[j],
                        files.values()[j],
                        blobs@[k],
                    ) by {
                    if k < old_blobs.len() {
                        assert(blobs@[k] == old_blobs[k]);
                        let j = choose|j: int|
                            0 <= j < i && keys[j] == (#[trigger] old_blobs[k]).path@ && outcome(
                                engine.algorithm(),
 engine.level(),
                                prev_entry(previous, keys[j]),
                                values[j],
                            ) is Stored && stores(
                                engine.algorithm(),
 engine.level(),
                                key@,
                                values[j],
                                old_files.values()[j],
                                old_blobs[k],
                            );
                        assert(files.values()[j] == old_files.values()[j]);
                    } else {
                        assert(keys[i as int] == blobs@[k].path@);
                    }
                }
            }
            i += 1;
        }
        proof {
            assert(keys.take(n as int) == keys);
            assert(values.take(n as int) == values);
        }
        if blobs.len() == 0 {
            return Err(
                SnapError::Backup(String::from_str("No File changes and hence backup aborted.")),
            );
        }
        Ok((Snapshot { timestamp, files }, blobs))
    }

    /// Registers every entry that this snapshot stored with the retention of
    /// the destination, in the order of the files, under the path that the
    /// snapshot is to be written to in `snapshot_dir`. Returns that path and
    /// what retention dropped: each blob to delete, with the snapshot that
    /// still lists it and the file it is listed under. A timestamp that has no
    /// calendar date is refused before anything is registered.
    pub fn save(&self, snapshot_dir: &str, gc: &mut GarbageCollector) -> (r: Result<
        (String, Vec<Eviction>),
        SnapError,
    >)
        ensures
            self.files.wf(),
            final(gc).max_versions() == old(gc).max_versions(),
            final(gc).blobs_dir() == old(gc).blobs_dir(),
            old(gc).bounded() ==> final(gc).bounded(),
            match r {
                Ok((path, gone)) => {
                    &&& snapshot_file(self.timestamp) is Some
                    &&& path@ == joined(snapshot_dir@, snapshot_file(self.timestamp).unwrap())
                    &&& final(gc).index() == index_after(
                        old(gc).index(),
                        old(gc).max_versions(),
                        self.files.keys(),
                        self.files.values(),
                        path@,
                    )
                    &&& evictions_view(gone@) == evictions_after(
                        old(gc).index(),
                        old(gc).max_versions(),
                        self.files.keys(),
                        self.files.values(),
                        path@,
                    )
                },
                Err(SnapError::SerializationError(m)) => {
                    &&& snapshot_file(self.timestamp) is None
                    &&& m@ == no_calendar_date()
                    &&& final(gc).index() == old(gc).index()
                },
                Err(_) => false,
            },
    {
        let n = self.files.len();
        let file_path = match timestamp_text(self.timestamp.secs, self.timestamp.nanos) {
            Some(safe_timestamp) => {
                let name = join_text(safe_timestamp.as_str(), ".json");
                join_path(snapshot_dir, name.as_str())
            },
            None => {
                return Err(
                    SnapError::SerializationError(
                        String::from_str("Snapshot timestamp has no calendar date"),
                    ),
                );
            },
        };
        let ghost keys = self.files.keys();
        let ghost values = self.files.values();
        let ghost index0 = gc.index();
        let ghost max = gc.max_versions();
        let mut gone: Vec<Eviction> = Vec::new();
        let mut i: usize = 0;
        while i < n
            invariant
                i <= n,
                n == keys.len(),
                self.files.wf(),
                keys == self.files.keys(),
                values == self.files.values(),
                gc.max_versions() == max,
                gc.blobs_dir() == old(gc).blobs_dir(),
                old(gc).bounded() ==> gc.bounded(),
                gc.index() == index_after(
                    index0,
                    max,
                    keys.take(i as int),
                    values.take(i as int),
                    file_path@,
                ),
                evictions_view(gone@) == evictions_after(
                    index0,
                    max,
                    keys.take(i as int),
                    values.take(i as int),
                    file_path@,
                ),
            decreases n - i,
        {
            let path = self.files.key_at(i);
            let entry = self.files.value_at(i);
            proof {
                assert(keys.take(i + 1).drop_last() == keys.take(i as int));
                assert(values.take(i + 1).drop_last() == values.take(i as int));
                assert(keys.take(i + 1).last() == keys[i as int]);
                assert(values.take(i + 1).last() == values[i as int]);
            }
            if entry.isupdated {
                let dropped = gc.register_file(
                    path.as_str(),
                    entry.hash.as_str(),
                    file_path.as_str(),
                );
                let ghost before = gone@;
                let mut k: usize = 0;
                while k < dropped.len()
                    invariant
                        k <= dropped@.len(),
                        i < keys.len(),
                        path@ == keys[i as int],
                        evictions_view(gone@) == evictions_view(before) + tagged(
                            path@,
                            refs_of(dropped@).take(k as int),
                        ),
                    decreases dropped@.len() - k,
                {
                    let ghost g0 = gone@;
                    gone.push(Eviction { path: path.clone(), reference: dropped[k].clone() });
                    proof {
                        assert(refs_of(dropped@).take(k + 1) == refs_of(dropped@).take(
                            k as int,
                        ).push(dropped@[k as int]@));
                        assert(evictions_view(gone@) =~= evictions_view(g0).push(
                            EvictionView { path: path@, reference: dropped@[k as int]@ },
                        ));
                        assert(evictions_view(gone@) =~= evictions_view(before) + tagged(
                            path@,
                            refs_of(dropped@).take(k + 1),
                        ));
                    }
                    k += 1;
                }
                proof {
                    assert(refs_of(dropped@).take(dropped@.len() as int) == refs_of(dropped@));
                    assert(refs_of(dropped@) =~= crate::gc::refs_view(dropped@));
                }
            } else {
                assert(evictions_view(gone@) =~= evictions_view(gone@) + tagged(
                    path@,
                    Seq::<RefView>::empty(),
                ));
            }
            i += 1;
        }
        proof {
            assert(keys.take(n as int) == keys);
            assert(values.take(n as int) == values);
        }
        Ok((file_path, gone))
    }

    /// Takes the entry of `path` out of the snapshot, as retention asks when
    /// the blob of that version is dropped.
    pub fn remove_file(&mut self, path: &str)
        ensures
            final(self).files@ == old(self).files@.remove(path@),
            final(self).files.wf(),
            final(self).timestamp == old(self).timestamp,
    {
        let _ = self.files.remove(path);
    }
}

} // verus!
