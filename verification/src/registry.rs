//! The registry: which source was backed up to which destination, under which
//! password and algorithm, and how many snapshots the destination holds.

use vstd::prelude::*;
use crate::layout::{join_path, joined};
use crate::password::Password;

verus! {

/// A moment in time: seconds and nanoseconds since the Unix epoch, in UTC.
#[derive(Clone, Copy, Debug, PartialEq, Eq, Structural)]
pub struct Timestamp {
    pub secs: i64,
    pub nanos: u32,
}

/// A fresh random identifier.
///
/// Calls `Uuid::new_v4` and writes it as text; nothing is claimed of it.
#[verifier::external_body]
fn fresh_id() -> String {
    uuid::Uuid::new_v4().to_string()
}

/// The time now.
///
/// Calls `chrono::Utc::now`; nothing is claimed of it.
#[verifier::external_body]
pub(crate) fn current_time() -> Timestamp {
    let now = chrono::Utc::now();
    Timestamp { secs: now.timestamp(), nanos: now.timestamp_subsec_nanos() }
}

/// One backup relationship.
#[derive(Debug)]
pub struct BackupEntry {
    pub id: String,
    pub timestamp: Timestamp,
    pub origin_path: String,
    pub backup_path: String,
    pub password: Password,
    pub snapshot_count: usize,
    pub compression_algorithm: String,
}

impl Clone for BackupEntry {
    fn clone(&self) -> (r: Self)
        ensures
            r == *self,
    {
        Self {
            id: self.id.clone(),
            timestamp: self.timestamp,
            origin_path: self.origin_path.clone(),
            backup_path: self.backup_path.clone(),
            password: self.password.clone(),
            snapshot_count: self.snapshot_count,
            compression_algorithm: self.compression_algorithm.clone(),
        }
    }
}

impl Default for BackupEntry {
    /// A sample entry with a fresh identifier: one snapshot of
    /// `source/some_file.txt` in `target/some_file.bak`, gzip, no password set.
    fn default() -> (e: Self)
        ensures
            e.origin_path@ == "source/some_file.txt"@,
            e.backup_path@ == "target/some_file.bak"@,
            e.password.hash@ == "<unset>"@,
            e.snapshot_count == 1,
            e.compression_algorithm@ == "gzip"@,
    {
        Self {
            id: fresh_id(),
            timestamp: current_time(),
            origin_path: String::from_str("source/some_file.txt"),
            backup_path: String::from_str("target/some_file.bak"),
            password: Password::default(),
            snapshot_count: 1,
            compression_algorithm: String::from_str("gzip"),
        }
    }
}

impl BackupEntry {
    /// The entry of a first backup: a fresh identifier and one snapshot.
    pub fn new(
        timestamp: Timestamp,
        src: String,
        target: String,
        password: &Password,
        compression: String,
    ) -> (e: Self)
        ensures
            e.timestamp == timestamp,
            e.origin_path == src,
            e.backup_path == target,
            e.password == *password,
            e.snapshot_count == 1,
            e.compression_algorithm == compression,
    {
        Self {
            id: fresh_id(),
            timestamp,
            origin_path: src,
            backup_path: target,
            password: password.clone(),
            snapshot_count: 1,
            compression_algorithm: compression,
        }
    }

    /// Counts one more snapshot.
    pub fn add_snapshot(&mut self)
        requires
            old(self).snapshot_count < usize::MAX,
        ensures
            *final(self) == (BackupEntry {
                snapshot_count: (old(self).snapshot_count + 1) as usize,
                ..*old(self)
            }),
    {
        self.snapshot_count += 1;
    }

    /// Counts one snapshot fewer.
    pub fn remove_snapshot(&mut self)
        requires
            old(self).snapshot_count > 0,
        ensures
            *final(self) == (BackupEntry {
                snapshot_count: (old(self).snapshot_count - 1) as usize,
                ..*old(self)
            }),
    {
        self.snapshot_count -= 1;
    }
}

/// Whether `i` is the first entry between `src` and `dest`.
pub open spec fn first_between(
    entries: Seq<BackupEntry>,
    i: int,
    src: Seq<char>,
    dest: Seq<char>,
) -> bool {
    &&& 0 <= i < entries.len()
    &&& entries[i].origin_path@ == src && entries[i].backup_path@ == dest
    &&& forall|j: int|
        0 <= j < i ==> !((#[trigger] entries[j]).origin_path@ == src && entries[j].backup_path@
            == dest)
}

/// Whether `i` is the first entry whose destination is `dest`.
pub open spec fn first_at_dest(entries: Seq<BackupEntry>, i: int, dest: Seq<char>) -> bool {
    &&& 0 <= i < entries.len()
    &&& entries[i].backup_path@ == dest
    &&& forall|j: int| 0 <= j < i ==> (#[trigger] entries[j]).backup_path@ != dest
}

/// Whether some entry has the destination `dest`.
pub open spec fn knows_dest(entries: Seq<BackupEntry>, dest: Seq<char>) -> bool {
    exists|i: int| 0 <= i < entries.len() && (#[trigger] entries[i]).backup_path@ == dest
}

/// Whether `i` is the first entry with the identifier `id`.
pub open spec fn first_with_id(entries: Seq<BackupEntry>, i: int, id: Seq<char>) -> bool {
    &&& 0 <= i < entries.len()
    &&& entries[i].id@ == id
    &&& forall|j: int| 0 <= j < i ==> (#[trigger] entries[j]).id@ != id
}

/// Whether some entry has the identifier `id`.
pub open spec fn knows_id(entries: Seq<BackupEntry>, id: Seq<char>) -> bool {
    exists|i: int| 0 <= i < entries.len() && (#[trigger] entries[i]).id@ == id
}

/// `entries` without the first entry that has the identifier `id`.
pub open spec fn without_id(entries: Seq<BackupEntry>, id: Seq<char>) -> Seq<BackupEntry>
    decreases entries.len(),
{
    if entries.len() == 0 {
        entries
    } else if entries[0].id@ == id {
        entries.skip(1)
    } else {
        seq![entries[0]] + without_id(entries.skip(1), id)
    }
}

/// `entries` with `entry` in place of the first entry of the same identifier,
/// at the end; an entry that counts no snapshot is not put in.
pub open spec fn upserted(entries: Seq<BackupEntry>, entry: BackupEntry) -> Seq<BackupEntry> {
    if entry.snapshot_count > 0 {
        without_id(entries, entry.id@).push(entry)
    } else {
        without_id(entries, entry.id@)
    }
}

/// No two entries share an identifier.
pub open spec fn ids_distinct(entries: Seq<BackupEntry>) -> bool {
    forall|i: int, j: int|
        0 <= i < j < entries.len() ==> (#[trigger] entries[i]).id@ != (#[trigger] entries[j]).id@
}

/// No two entries share a destination.
pub open spec fn dests_distinct(entries: Seq<BackupEntry>) -> bool {
    forall|i: int, j: int|
        0 <= i < j < entries.len() ==> (#[trigger] entries[i]).backup_path@ != (
        #[trigger] entries[j]).backup_path@
}

/// Every entry counts at least one snapshot.
pub open spec fn all_counted(entries: Seq<BackupEntry>) -> bool {
    forall|i: int| 0 <= i < entries.len() ==> (#[trigger] entries[i]).snapshot_count > 0
}

/// Taking out the first entry with `id`: the entries before it stay, the ones
/// behind it move up by one.
pub proof fn lemma_without_id(entries: Seq<BackupEntry>, id: Seq<char>)
    ensures
        !knows_id(entries, id) ==> without_id(entries, id) == entries,
        forall|i: int| first_with_id(entries, i, id) ==> without_id(entries, id) == entries.remove(i),
    decreases entries.len(),
{
    if entries.len() == 0 {
    } else if entries[0].id@ == id {
        assert(knows_id(entries, id));
        assert forall|i: int| first_with_id(entries, i, id) implies without_id(entries, id)
            == entries.remove(i) by {
            if i > 0 {
                assert(entries[0].id@ != id);
            }
            assert(entries.skip(1) =~= entries.remove(0));
        }
    } else {
        let rest = entries.skip(1);
        lemma_without_id(rest, id);
        if !knows_id(entries, id) {
            if knows_id(rest, id) {
                let k = choose|k: int| 0 <= k < rest.len() && (#[trigger] rest[k]).id@ == id;
                assert(entries[k + 1].id@ == id);
            }
            assert(seq![entries[0]] + rest =~= entries);
        }
        assert forall|i: int| first_with_id(entries, i, id) implies without_id(entries, id)
            == entries.remove(i) by {
            assert(i > 0);
            assert(rest[i - 1] == entries[i]);
            assert forall|j: int| 0 <= j < i - 1 implies (#[trigger] rest[j]).id@ != id by {
                assert(rest[j] == entries[j + 1]);
            }
            assert(first_with_id(rest, i - 1, id));
            assert(seq![entries[0]] + rest.remove(i - 1) =~= entries.remove(i));
        }
    }
}

/// An entry written with no snapshot left takes its identifier out of a
/// registry of distinct identifiers; one with a snapshot is found under it;
/// and the registry keeps its identifiers distinct and its counts positive.
pub proof fn lemma_upsert_keeps_registry(entries: Seq<BackupEntry>, entry: BackupEntry)
    requires
        ids_distinct(entries),
    ensures
        ids_distinct(upserted(entries, entry)),
        all_counted(entries) ==> all_counted(upserted(entries, entry)),
        entry.snapshot_count == 0 ==> !knows_id(upserted(entries, entry), entry.id@),
        entry.snapshot_count > 0 ==> upserted(entries, entry).last() == entry,
        !knows_id(entries, entry.id@) ==> without_id(entries, entry.id@) == entries,
        forall|e: BackupEntry| #[trigger]
            upserted(entries, entry).contains(e) ==> e == entry || entries.contains(e),
        forall|e: BackupEntry| #[trigger]
            entries.contains(e) && e.id@ != entry.id@ ==> upserted(entries, entry).contains(e),
{
    let id = entry.id@;
    lemma_without_id(entries, id);
    let w = without_id(entries, id);
    if knows_id(entries, id) {
        let k0 = choose|k: int| 0 <= k < entries.len() && (#[trigger] entries[k]).id@ == id;
        assert forall|j: int| 0 <= j < k0 implies (#[trigger] entries[j]).id@ != id by {
            assert(entries[j].id@ != entries[k0].id@);
        }
        assert(first_with_id(entries, k0, id));
        assert(w == entries.remove(k0));
        assert forall|a: int| 0 <= a < w.len() implies (#[trigger] w[a]).id@ != id by {
            let a0 = if a < k0 { a } else { a + 1 };
            assert(w[a] == entries[a0]);
            if a0 < k0 {
                assert(entries[a0].id@ != entries[k0].id@);
            } else {
                assert(entries[k0].id@ != entries[a0].id@);
            }
        }
        assert forall|a: int, b: int| 0 <= a < b < w.len() implies (#[trigger] w[a]).id@ != (
        #[trigger] w[b]).id@ by {
            let a0 = if a < k0 { a } else { a + 1 };
            let b0 = if b < k0 { b } else { b + 1 };
            assert(w[a] == entries[a0] && w[b] == entries[b0]);
        }
        assert forall|a: int| 0 <= a < w.len() implies entries.contains(#[trigger] w[a]) by {
            let a0 = if a < k0 { a } else { a + 1 };
            assert(w[a] == entries[a0]);
        }
        assert forall|e: BackupEntry| entries.contains(e) && e.id@ != id implies w.contains(e) by {
            let a0 = choose|a0: int| 0 <= a0 < entries.len() && entries[a0] == e;
            let a = if a0 < k0 { a0 } else { a0 - 1 };
            assert(w[a] == e);
        }
        if all_counted(entries) {
            assert forall|a: int| 0 <= a < w.len() implies (#[trigger] w[a]).snapshot_count
                > 0 by {
                let a0 = if a < k0 { a } else { a + 1 };
                assert(w[a] == entries[a0]);
            }
        }
    } else {
        assert(w == entries);
        assert forall|a: int| 0 <= a < w.len() implies (#[trigger] w[a]).id@ != id by {}
    }
    let u = upserted(entries, entry);
    assert(ids_distinct(w));
    assert(!knows_id(w, id));
    if entry.snapshot_count > 0 {
        assert(u == w.push(entry));
        assert forall|a: int, b: int| 0 <= a < b < u.len() implies (#[trigger] u[a]).id@ != (
        #[trigger] u[b]).id@ by {
            if b == w.len() {
                assert(u[a] == w[a]);
            } else {
                assert(u[a] == w[a] && u[b] == w[b]);
            }
        }
        assert forall|e: BackupEntry| #[trigger] u.contains(e) implies e == entry
            || entries.contains(e) by {
            let a = choose|a: int| 0 <= a < u.len() && u[a] == e;
            if a < w.len() {
                assert(w[a] == e);
                assert(w.contains(e));
            }
        }
        assert forall|e: BackupEntry| #[trigger] entries.contains(e) && e.id@ != id implies u.contains(
            e,
        ) by {
            let a = choose|a: int| 0 <= a < w.len() && w[a] == e;
            assert(u[a] == e);
        }
        if all_counted(entries) {
            assert forall|a: int| 0 <= a < u.len() implies (#[trigger] u[a]).snapshot_count
                > 0 by {
                if a < w.len() {
                    assert(u[a] == w[a]);
                }
            }
        }
    } else {
        assert(u == w);
    }
}

/// A destination stays a unique key: writing an entry whose destination no
/// entry of another identifier has leaves the destinations distinct.
pub proof fn lemma_upsert_keeps_destinations(entries: Seq<BackupEntry>, entry: BackupEntry)
    requires
        ids_distinct(entries),
        dests_distinct(entries),
        forall|i: int|
            0 <= i < entries.len() && (#[trigger] entries[i]).backup_path@ == entry.backup_path@
                ==> entries[i].id@ == entry.id@,
    ensures
        dests_distinct(upserted(entries, entry)),
{
    let id = entry.id@;
    lemma_without_id(entries, id);
    let w = without_id(entries, id);
    if knows_id(entries, id) {
        let k0 = choose|k: int| 0 <= k < entries.len() && (#[trigger] entries[k]).id@ == id;
        assert forall|j: int| 0 <= j < k0 implies (#[trigger] entries[j]).id@ != id by {
            assert(entries[j].id@ != entries[k0].id@);
        }
        assert(first_with_id(entries, k0, id));
        assert(w == entries.remove(k0));
        assert forall|a: int, b: int| 0 <= a < b < w.len() implies (#[trigger] w[a]).backup_path@
            != (#[trigger] w[b]).backup_path@ by {
            let a0 = if a < k0 { a } else { a + 1 };
            let b0 = if b < k0 { b } else { b + 1 };
            assert(w[a] == entries[a0] && w[b] == entries[b0]);
        }
        assert forall|a: int| 0 <= a < w.len() implies (#[trigger] w[a]).backup_path@
            != entry.backup_path@ by {
            let a0 = if a < k0 { a } else { a + 1 };
            assert(w[a] == entries[a0]);
            if entries[a0].backup_path@ == entry.backup_path@ {
                assert(entries[a0].id@ == id);
                if a0 < k0 {
                    assert(entries[a0].id@ != entries[k0].id@);
                } else {
                    assert(entries[k0].id@ != entries[a0].id@);
                }
            }
        }
    } else {
        assert(w == entries);
        assert forall|a: int| 0 <= a < w.len() implies (#[trigger] w[a]).backup_path@
            != entry.backup_path@ by {
            if w[a].backup_path@ == entry.backup_path@ {
                assert(entries[a].id@ == id);
            }
        }
    }
    let u = upserted(entries, entry);
    if entry.snapshot_count > 0 {
        assert forall|a: int, b: int| 0 <= a < b < u.len() implies (#[trigger] u[a]).backup_path@
            != (#[trigger] u[b]).backup_path@ by {
            if b == w.len() {
                assert(u[a] == w[a]);
            } else {
                assert(u[a] == w[a] && u[b] == w[b]);
            }
        }
    }
}

/// All known backup relationships, and where the registry is kept.
#[derive(Debug)]
pub struct BackupRegistry {
    pub registry: Vec<BackupEntry>,
    pub registry_path: String,
}

impl Default for BackupRegistry {
    /// An empty registry kept nowhere.
    fn default() -> (r: Self)
        ensures
            r.registry@ == Seq::<BackupEntry>::empty(),
            r.registry_path@ == Seq::<char>::empty(),
    {
        Self { registry: Vec::new(), registry_path: String::new() }
    }
}

/// The name of the registry file used in trials.
pub open spec fn test_registry_name() -> Seq<char> {
    "snapsafe_test_registry.json"@
}

impl BackupRegistry {
    /// An empty registry kept at `registry_path`.
    pub fn new(registry_path: String) -> (r: Self)
        ensures
            r.registry@ == Seq::<BackupEntry>::empty(),
            r.registry_path == registry_path,
    {
        Self { registry: Vec::new(), registry_path }
    }

    /// An empty registry for trials, kept in the directory `path`.
    pub fn build_test_registy(path: String) -> (r: Self)
        ensures
            r.registry@ == Seq::<BackupEntry>::empty(),
            r.registry_path@ == joined(path@, test_registry_name()),
    {
        let temp_json = join_path(path.as_str(), "snapsafe_test_registry.json");
        Self { registry: Vec::new(), registry_path: temp_json }
    }

    /// The first entry from `src` to `dest`.
    pub fn find_entry(&self, src: String, dest: String) -> (r: Option<&BackupEntry>)
        ensures
            match r {
                Some(e) => exists|i: int|
                    first_between(self.registry@, i, src@, dest@) && *e == self.registry@[i],
                None => forall|i: int|
                    0 <= i < self.registry@.len() ==> !((#[trigger] self.registry@[i]).origin_path@
                        == src@ && self.registry@[i].backup_path@ == dest@),
            },
    {
        let mut i: usize = 0;
        while i < self.registry.len()
            invariant
                i <= self.registry@.len(),
                forall|j: int|
                    0 <= j < i ==> !((#[trigger] self.registry@[j]).origin_path@ == src@
                        && self.registry@[j].backup_path@ == dest@),
            decreases self.registry@.len() - i,
        {
            if self.registry[i].origin_path == src && self.registry[i].backup_path == dest {
                assert(first_between(self.registry@, i as int, src@, dest@));
                return Some(&self.registry[i]);
            }
            i += 1;
        }
        None
    }

    /// Where the first entry with the destination `dest` stands.
    pub fn position_of_dest(&self, dest: &str) -> (r: Option<usize>)
        ensures
            match r {
                Some(i) => first_at_dest(self.registry@, i as int, dest@),
                None => !knows_dest(self.registry@, dest@),
            },
    {
        let wanted = dest.to_owned();
        let mut i: usize = 0;
        while i < self.registry.len()
            invariant
                i <= self.registry@.len(),
                wanted@ == dest@,
                forall|j: int| 0 <= j < i ==> (#[trigger] self.registry@[j]).backup_path@ != dest@,
            decreases self.registry@.len() - i,
        {
            if self.registry[i].backup_path == wanted {
                return Some(i);
            }
            i += 1;
        }
        None
    }

    /// The entry of the destination `dest`: the first one, should there be
    /// several.
    pub fn find_entry_from_dest(&self, dest: String) -> (r: Option<&BackupEntry>)
        ensures
            match r {
                Some(e) => exists|i: int|
                    first_at_dest(self.registry@, i, dest@) && *e == self.registry@[i],
                None => !knows_dest(self.registry@, dest@),
            },
    {
        match self.position_of_dest(dest.as_str()) {
            Some(i) => Some(&self.registry[i]),
            None => None,
        }
    }

    /// Where the first entry with the identifier `id` stands.
    fn position_of_id(&self, id: &String) -> (r: Option<usize>)
        ensures
            match r {
                Some(i) => first_with_id(self.registry@, i as int, id@),
                None => !knows_id(self.registry@, id@),
            },
    {
        let mut i: usize = 0;
        while i < self.registry.len()
            invariant
                i <= self.registry@.len(),
                forall|j: int| 0 <= j < i ==> (#[trigger] self.registry@[j]).id@ != id@,
            decreases self.registry@.len() - i,
        {
            if self.registry[i].id == *id {
                return Some(i);
            }
            i += 1;
        }
        None
    }

    /// Takes out the first entry that has the identifier of `entry`.
    pub fn remove_backup(&mut self, entry: BackupEntry)
        ensures
            final(self).registry@ == without_id(old(self).registry@, entry.id@),
            final(self).registry_path == old(self).registry_path,
    {
        proof {
            lemma_without_id(self.registry@, entry.id@);
        }
        match self.position_of_id(&entry.id) {
            Some(ix) => {
                self.registry.remove(ix);
            },
            None => {},
        }
    }

    /// Writes `entry` in place of the first entry of the same identifier, at
    /// the end of the registry. An entry that counts no snapshot is only taken
    /// out.
    pub fn add_backup(&mut self, entry: BackupEntry)
        ensures
            final(self).registry@ == upserted(old(self).registry@, entry),
            final(self).registry_path == old(self).registry_path,
    {
        proof {
            lemma_without_id(self.registry@, entry.id@);
        }
        match self.position_of_id(&entry.id) {
            Some(ix) => {
                self.registry.remove(ix);
            },
            None => {},
        }
        if entry.snapshot_count > 0 {
            self.registry.push(entry);
        }
    }
}

/// The destination's entry with one snapshot fewer, if the destination is
/// known.
pub fn remove_snapshot(registry: &BackupRegistry, dest: String) -> (r: Option<BackupEntry>)
    requires
        forall|i: int|
            first_at_dest(registry.registry@, i, dest@) ==> registry.registry@[i].snapshot_count
                > 0,
    ensures
        match r {
            Some(e) => exists|i: int|
                first_at_dest(registry.registry@, i, dest@) && e == (BackupEntry {
                    snapshot_count: (registry.registry@[i].snapshot_count - 1) as usize,
                    ..registry.registry@[i]
                }),
            None => !knows_dest(registry.registry@, dest@),
        },
{
    match registry.find_entry_from_dest(dest) {
        Some(en) => {
            let mut en = en.clone();
            en.remove_snapshot();
            Some(en)
        },
        None => None,
    }
}

} // verus!
