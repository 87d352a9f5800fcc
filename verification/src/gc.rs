//! Retention: how many versions of each file a destination keeps, and which
//! stored blobs have to go when a new version arrives.

use vstd::prelude::*;
use crate::strmap::{same_text, StrMap};

verus! {

/// One stored version of a file: the content hash its blob is named by, and
/// the snapshot file that lists it.
#[derive(Debug)]
pub struct SnapshotReference {
    pub hash_file: String,
    pub snapshot_path: String,
}

/// A reference as plain values.
pub struct RefView {
    pub hash: Seq<char>,
    pub snapshot: Seq<char>,
}

impl View for SnapshotReference {
    type V = RefView;

    open spec fn view(&self) -> RefView {
        RefView { hash: self.hash_file@, snapshot: self.snapshot_path@ }
    }
}

impl Clone for SnapshotReference {
    fn clone(&self) -> (r: Self)
        ensures
            r == *self,
    {
        Self { hash_file: self.hash_file.clone(), snapshot_path: self.snapshot_path.clone() }
    }
}

impl From<(String, String)> for SnapshotReference {
    /// A reference from a content hash and the path of the owning snapshot.
    fn from(value: (String, String)) -> (r: Self) {
        Self { hash_file: value.0, snapshot_path: value.1 }
    }
}

impl vstd::std_specs::convert::FromSpecImpl<(String, String)> for SnapshotReference {
    open spec fn obeys_from_spec() -> bool {
        true
    }

    open spec fn from_spec(value: (String, String)) -> Self {
        SnapshotReference { hash_file: value.0, snapshot_path: value.1 }
    }
}

/// A list of references as plain values.
pub open spec fn refs_view(refs: Seq<SnapshotReference>) -> Seq<RefView> {
    Seq::new(refs.len(), |i: int| refs[i]@)
}

/// The hash a new one is compared with: that of the newest version, or the
/// empty text where there is no version yet.
pub open spec fn newest_hash(versions: Seq<RefView>) -> Seq<char> {
    if versions.len() > 0 {
        versions[0].hash
    } else {
        Seq::empty()
    }
}

/// The versions of a file once `added` has been registered, before any is
/// dropped: `added` goes in front unless its hash is that of the newest.
pub open spec fn grown(versions: Seq<RefView>, added: RefView) -> Seq<RefView> {
    if newest_hash(versions) != added.hash {
        seq![added] + versions
    } else {
        versions
    }
}

/// How many versions stay.
pub open spec fn kept_len(len: nat, max: nat) -> nat {
    if len <= max {
        len
    } else {
        max
    }
}

/// The versions that stay once `added` has been registered: the newest `max`.
pub open spec fn kept(versions: Seq<RefView>, added: RefView, max: nat) -> Seq<RefView> {
    let g = grown(versions, added);
    g.take(kept_len(g.len(), max) as int)
}

/// The versions that are dropped once `added` has been registered, the oldest
/// first.
pub open spec fn evicted(versions: Seq<RefView>, added: RefView, max: nat) -> Seq<RefView> {
    let g = grown(versions, added);
    Seq::new((g.len() - kept_len(g.len(), max)) as nat, |i: int| g[g.len() - 1 - i])
}

/// The versions of one file after the registrations `added`, made in order on
/// a file that had none.
pub open spec fn versions_after(added: Seq<RefView>, max: nat) -> Seq<RefView>
    decreases added.len(),
{
    if added.len() == 0 {
        Seq::empty()
    } else {
        kept(versions_after(added.drop_last(), max), added.last(), max)
    }
}

/// All versions dropped during the registrations `added`, in the order in
/// which they were dropped.
pub open spec fn dropped_during(added: Seq<RefView>, max: nat) -> Seq<RefView>
    decreases added.len(),
{
    if added.len() == 0 {
        Seq::empty()
    } else {
        dropped_during(added.drop_last(), max) + evicted(
            versions_after(added.drop_last(), max),
            added.last(),
            max,
        )
    }
}

/// Registering versions with pairwise different, non-empty hashes for one
/// file keeps the newest `max` of them, newest first, and drops all older
/// ones, oldest first.
pub proof fn lemma_distinct_versions_keep_newest(added: Seq<RefView>, max: nat)
    requires
        forall|i: int| 0 <= i < added.len() ==> (#[trigger] added[i]).hash.len() > 0,
        forall|i: int, j: int|
            0 <= i < j < added.len() ==> (#[trigger] added[i]).hash != (#[trigger] added[j]).hash,
    ensures
        versions_after(added, max) == Seq::new(
            kept_len(added.len(), max),
            |i: int| added[added.len() - 1 - i],
        ),
        dropped_during(added, max) == added.take(added.len() - kept_len(added.len(), max)),
    decreases added.len(),
{
    let n = added.len() as int;
    if n == 0 {
        assert(versions_after(added, max) =~= Seq::new(0, |i: int| added[added.len() - 1 - i]));
        assert(dropped_during(added, max) =~= added.take(0));
    } else {
        let prev = added.drop_last();
        let a = added.last();
        lemma_distinct_versions_keep_newest(prev, max);
        let k = versions_after(prev, max);
        let kl_prev = kept_len(prev.len(), max) as int;
        let kl = kept_len(added.len(), max) as int;
        assert(k.len() == kl_prev);
        if k.len() > 0 {
            assert(k[0] == prev[n - 2]);
            assert(added[n - 2].hash != added[n - 1].hash);
        } else {
            assert(added[n - 1].hash.len() > 0);
        }
        assert(newest_hash(k) != a.hash);
        let g = grown(k, a);
        assert(g =~= seq![a] + k);
        assert(kept_len(g.len(), max) == kl);
        assert(versions_after(added, max) =~= Seq::new(
            kl as nat,
            |i: int| added[added.len() - 1 - i],
        )) by {
            assert forall|i: int| 0 <= i < kl implies g.take(kl)[i] == added[n - 1 - i] by {
                if i > 0 {
                    assert(g[i] == k[i - 1]);
                    assert(k[i - 1] == prev[prev.len() - 1 - (i - 1)]);
                }
            }
        }
        let e = evicted(k, a, max);
        assert(dropped_during(added, max) == dropped_during(prev, max) + e);
        if kl_prev + 1 == kl {
            assert(e =~= Seq::<RefView>::empty());
            assert(prev.take(n - 1 - kl_prev) =~= added.take(n - kl));
            assert(dropped_during(added, max) =~= added.take(n - kl));
        } else {
            assert(kl_prev == kl);
            assert(e.len() == 1);
            if kl == 0 {
                assert(e[0] == a);
            } else {
                assert(e[0] == g[kl]);
                assert(g[kl] == k[kl - 1]);
                assert(k[kl - 1] == prev[prev.len() - 1 - (kl - 1)]);
            }
            assert(e[0] == added[n - 1 - kl]);
            assert(dropped_during(added, max) =~= added.take(n - kl));
        }
    }
}

/// Registering one non-empty hash again and again for one file, with a bound
/// of at least one, leaves exactly the first registration and drops nothing.
pub proof fn lemma_same_hash_keeps_one(added: Seq<RefView>, max: nat)
    requires
        added.len() > 0,
        max > 0,
        added[0].hash.len() > 0,
        forall|i: int| 0 <= i < added.len() ==> (#[trigger] added[i]).hash == added[0].hash,
    ensures
        versions_after(added, max) == seq![added[0]],
        dropped_during(added, max) == Seq::<RefView>::empty(),
    decreases added.len(),
{
    let prev = added.drop_last();
    let a = added.last();
    if added.len() == 1 {
        assert(versions_after(prev, max) =~= Seq::<RefView>::empty());
        assert(dropped_during(prev, max) =~= Seq::<RefView>::empty());
        let g = grown(Seq::<RefView>::empty(), a);
        assert(g =~= seq![a]);
        assert(kept(Seq::<RefView>::empty(), a, max) =~= seq![added[0]]);
        assert(evicted(Seq::<RefView>::empty(), a, max) =~= Seq::<RefView>::empty());
        assert(dropped_during(added, max) =~= Seq::<RefView>::empty());
    } else {
        assert(prev[0] == added[0]);
        lemma_same_hash_keeps_one(prev, max);
        let k = versions_after(prev, max);
        assert(k[0] == added[0]);
        assert(newest_hash(k) == a.hash);
        assert(grown(k, a) == k);
        assert(kept(k, a, max) =~= seq![added[0]]);
        assert(evicted(k, a, max) =~= Seq::<RefView>::empty());
        assert(dropped_during(added, max) =~= Seq::<RefView>::empty());
    }
}

/// The versions of `path` in a version index; none where the path is not in
/// it.
pub open spec fn versions_in(index: Map<Seq<char>, Seq<RefView>>, path: Seq<char>) -> Seq<RefView> {
    if index.contains_key(path) {
        index[path]
    } else {
        Seq::empty()
    }
}

/// A copy of a list of references.
pub fn copy_refs(refs: &Vec<SnapshotReference>) -> (out: Vec<SnapshotReference>)
    ensures
        out@ == refs@,
{
    let mut out: Vec<SnapshotReference> = Vec::new();
    let mut i: usize = 0;
    while i < refs.len()
        invariant
            i <= refs@.len(),
            out@ == refs@.take(i as int),
        decreases refs@.len() - i,
    {
        out.push(refs[i].clone());
        assert(refs@.take(i + 1) == refs@.take(i as int).push(refs@[i as int]));
        i += 1;
    }
    assert(refs@.take(refs@.len() as int) == refs@);
    out
}

/// The versions kept of each file of one destination, newest first, and the
/// bound on their number.
pub struct GarbageCollector {
    version_index: StrMap<Vec<SnapshotReference>>,
    max_versions: usize,
    blobs_dir: String,
}

impl GarbageCollector {
    /// The versions kept of each logical path, newest first.
    pub closed spec fn index(&self) -> Map<Seq<char>, Seq<RefView>> {
        Map::new(
            |p: Seq<char>| self.version_index@.contains_key(p),
            |p: Seq<char>| refs_view(self.version_index@[p]@),
        )
    }

    /// The most versions kept of one file.
    pub closed spec fn max_versions(&self) -> nat {
        self.max_versions as nat
    }

    /// The directory of the blobs this collector watches.
    pub closed spec fn blobs_dir(&self) -> Seq<char> {
        self.blobs_dir@
    }

    /// The versions kept of `path`; none where the path was never registered.
    pub open spec fn versions(&self, path: Seq<char>) -> Seq<RefView> {
        versions_in(self.index(), path)
    }

    /// No file has more versions than the bound.
    pub open spec fn bounded(&self) -> bool {
        forall|p: Seq<char>| #[trigger]
            self.index().contains_key(p) ==> self.index()[p].len() <= self.max_versions()
    }

    /// A collector for the blobs in `blobs_dir` that has seen no file yet.
    pub fn new(blobs_dir: String, max_versions: usize) -> (gc: Self)
        ensures
            gc.index() == Map::<Seq<char>, Seq<RefView>>::empty(),
            gc.max_versions() == max_versions,
            gc.blobs_dir() == blobs_dir@,
            gc.bounded(),
    {
        let gc = Self { version_index: StrMap::new(), max_versions, blobs_dir };
        assert(gc.index() =~= Map::<Seq<char>, Seq<RefView>>::empty());
        gc
    }

    /// A collector with the versions `index`, as it was stored.
    pub fn from_parts(
        blobs_dir: String,
        max_versions: usize,
        index: StrMap<Vec<SnapshotReference>>,
    ) -> (gc: Self)
        ensures
            gc.index().dom() == index@.dom(),
            forall|p: Seq<char>| #[trigger]
                index@.contains_key(p) ==> gc.index()[p] == refs_view(index@[p]@),
            gc.max_versions() == max_versions,
            gc.blobs_dir() == blobs_dir@,
    {
        Self { version_index: index, max_versions, blobs_dir }
    }

    /// The bound on the versions of one file.
    pub fn limit(&self) -> (n: usize)
        ensures
            n == self.max_versions(),
    {
        self.max_versions
    }

    /// The directory of the blobs this collector watches.
    pub fn directory(&self) -> (d: &String)
        ensures
            d@ == self.blobs_dir(),
    {
        &self.blobs_dir
    }

    /// The version index: for each logical path its versions, newest first.
    pub fn get_index(&self) -> (m: &StrMap<Vec<SnapshotReference>>)
        ensures
            m.wf(),
            m@.dom() == self.index().dom(),
            forall|p: Seq<char>| #[trigger]
                m@.contains_key(p) ==> refs_view(m@[p]@) == self.index()[p],
    {
        let _ = self.version_index.len();
        &self.version_index
    }

    /// Registers that the snapshot at `snap_path` holds content `hash` for the
    /// file `path`. A hash equal to the newest registered one changes nothing.
    /// Otherwise the new version goes in front, and the versions beyond the
    /// bound are dropped from the index and handed back, the oldest first:
    /// their blobs and their entries in the owning snapshots have to go.
    pub fn register_file(&mut self, path: &str, hash: &str, snap_path: &str) -> (gone: Vec<
        SnapshotReference,
    >)
        ensures
            final(self).index() == old(self).index().insert(
                path@,
                kept(
                    old(self).versions(path@),
                    RefView { hash: hash@, snapshot: snap_path@ },
                    old(self).max_versions(),
                ),
            ),
            refs_view(gone@) == evicted(
                old(self).versions(path@),
                RefView { hash: hash@, snapshot: snap_path@ },
                old(self).max_versions(),
            ),
            final(self).max_versions() == old(self).max_versions(),
            final(self).blobs_dir() == old(self).blobs_dir(),
            old(self).bounded() ==> final(self).bounded(),
    {
        let ghost before = old(self).versions(path@);
        let ghost added = RefView { hash: hash@, snapshot: snap_path@ };
        let ghost max = self.max_versions as nat;
        let mut hashes: Vec<SnapshotReference> = match self.version_index.remove(path) {
            Some(v) => v,
            None => Vec::new(),
        };
        assert(refs_view(hashes@) =~= before);
        let differs = if hashes.len() > 0 {
            !same_text(hashes[0].hash_file.as_str(), hash)
        } else {
            proof {
                reveal_strlit("");
            }
            assert(""@ =~= Seq::<char>::empty());
            !same_text("", hash)
        };
        if differs {
            let snap_ref = SnapshotReference {
                hash_file: hash.to_owned(),
                snapshot_path: snap_path.to_owned(),
            };
            hashes.insert(0, snap_ref);
        }
        let ghost g = grown(before, added);
        assert(refs_view(hashes@) =~= g);
        let mut gone: Vec<SnapshotReference> = Vec::new();
        while hashes.len() > self.max_versions
            invariant
                hashes@.len() + gone@.len() == g.len(),
                refs_view(hashes@) == g.take(hashes@.len() as int),
                refs_view(gone@) == Seq::new(gone@.len(), |i: int| g[g.len() - 1 - i]),
                self.max_versions == max,
                kept_len(g.len(), max) <= hashes@.len(),
            decreases hashes@.len(),
        {
            let ghost prev = hashes@;
            let ghost prev_gone = gone@;
            let old_ref = hashes.pop().unwrap();
            gone.push(old_ref);
            proof {
                assert(refs_view(hashes@) =~= refs_view(prev).take(hashes@.len() as int));
                assert(refs_view(hashes@) =~= g.take(hashes@.len() as int));
                assert(old_ref@ == refs_view(prev)[prev.len() - 1]);
                assert(refs_view(gone@) =~= refs_view(prev_gone).push(old_ref@));
                assert(refs_view(gone@) =~= Seq::new(gone@.len(), |i: int| g[g.len() - 1 - i]));
            }
        }
        assert(refs_view(hashes@) == kept(before, added, max));
        assert(refs_view(gone@) =~= evicted(before, added, max));
        let ghost kept_list = hashes;
        self.version_index.insert(path.to_owned(), hashes);
        proof {
            assert(self.version_index@ == old(self).version_index@.remove(path@).insert(
                path@,
                kept_list,
            ));
            assert(self.index() =~= old(self).index().insert(path@, kept(before, added, max)));
        }
        gone
    }
}

impl Clone for GarbageCollector {
    /// A collector with the same versions, bound and directory.
    fn clone(&self) -> (r: Self)
        ensures
            r.index() == self.index(),
            r.max_versions() == self.max_versions(),
            r.blobs_dir() == self.blobs_dir(),
    {
        let mut version_index: StrMap<Vec<SnapshotReference>> = StrMap::new();
        let n = self.version_index.len();
        let mut i: usize = 0;
        while i < n
            invariant
                i <= n,
                n == self.version_index.keys().len(),
                self.version_index.wf(),
                version_index.wf(),
                version_index.keys() == self.version_index.keys().take(i as int),
                forall|j: int|
                    0 <= j < i ==> (#[trigger] version_index.values()[j])@
                        == self.version_index.values()[j]@,
            decreases n - i,
        {
            let key = self.version_index.key_at(i);
            let refs = copy_refs(self.version_index.value_at(i));
            let ghost before = version_index;
            proof {
                let keys = self.version_index.keys();
                if keys.take(i as int).contains(keys[i as int]) {
                    let j = choose|j: int| 0 <= j < i && keys.take(i as int)[j] == keys[i as int];
                    assert(keys[j] != keys[i as int]);
                }
            }
            version_index.insert(key.clone(), refs);
            proof {
                assert(version_index.keys() =~= self.version_index.keys().take(i + 1));
                assert forall|j: int| 0 <= j < i + 1 implies (#[trigger] version_index.values()[j])@
                    == self.version_index.values()[j]@ by {
                    if j < i {
                        assert(version_index.values()[j] == before.values()[j]);
                    }
                }
            }
            i += 1;
        }
        let r = Self {
            version_index,
            max_versions: self.max_versions,
            blobs_dir: self.blobs_dir.clone(),
        };
        proof {
            assert(r.version_index.keys() =~= self.version_index.keys());
            assert forall|p: Seq<char>| r.version_index@.contains_key(p) implies refs_view(
                r.version_index@[p]@,
            ) == refs_view(self.version_index@[p]@) by {
                let j = r.version_index.keys().index_of(p);
                crate::strmap::lemma_index_of(r.version_index.keys(), j);
                r.version_index.lemma_entry(j);
                self.version_index.lemma_entry(j);
                assert(r.version_index.values()[j]@ == self.version_index.values()[j]@);
            }
            assert(r.index() =~= self.index());
        }
        r
    }
}

/// The collectors of all destinations of this machine, by blob directory.
pub struct GarbageLimit {
    pub gc: StrMap<GarbageCollector>,
}

impl GarbageLimit {
    /// No collector yet.
    pub fn new() -> (l: Self)
        ensures
            l.gc@ == Map::<Seq<char>, GarbageCollector>::empty(),
    {
        Self { gc: StrMap::new() }
    }

    /// Files `gc` under its blob directory, in place of an earlier collector
    /// for that directory.
    pub fn add_garbage_collector_to_limit(&mut self, gc: GarbageCollector)
        ensures
            final(self).gc@ == old(self).gc@.insert(gc.blobs_dir(), gc),
    {
        let path = gc.directory().clone();
        self.gc.insert(path, gc);
    }

    /// The collector for the blob directory `path`, if there is one.
    pub fn get_gc_from_limit(&self, path: String) -> (r: Option<&GarbageCollector>)
        ensures
            match r {
                Some(gc) => self.gc@.contains_key(path@) && *gc == self.gc@[path@],
                None => !self.gc@.contains_key(path@),
            },
    {
        self.gc.get(path.as_str())
    }

    /// Takes the collector for the blob directory `path` out, if there is one.
    pub fn take_gc_from_limit(&mut self, path: &str) -> (r: Option<GarbageCollector>)
        ensures
            final(self).gc@ == old(self).gc@.remove(path@),
            match r {
                Some(gc) => old(self).gc@.contains_key(path@) && gc == old(self).gc@[path@],
                None => !old(self).gc@.contains_key(path@),
            },
    {
        self.gc.remove(path)
    }
}

} // verus!
