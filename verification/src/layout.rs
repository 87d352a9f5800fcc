//! Where the parts of a destination are kept.

use vstd::prelude::*;
use crate::error::SnapError;
use crate::text::join_text;

verus! {

/// The path of `name` inside the directory `base`: the two joined by one `/`,
/// which is left out where `base` is empty or ends in one.
pub open spec fn joined(base: Seq<char>, name: Seq<char>) -> Seq<char> {
    if base.len() == 0 || base.last() == '/' {
        base + name
    } else {
        base + seq!['/'] + name
    }
}

/// Joins a directory and a name inside it.
pub fn join_path(base: &str, name: &str) -> (p: String)
    ensures
        p@ == joined(base@, name@),
{
    let n = base.unicode_len();
    if n == 0 || base.get_char(n - 1) == '/' {
        join_text(base, name)
    } else {
        let mut p = join_text(base, "/");
        proof {
            reveal_strlit("/");
            assert("/"@ =~= seq!['/']);
        }
        p.append(name);
        p
    }
}

/// The directories of one destination.
#[derive(Debug)]
pub struct SnapshotLayout {
    pub base: String,
    pub blobs: String,
    pub snapshots: String,
}

/// The name of the file that holds a destination's salt.
pub open spec fn salt_name() -> Seq<char> {
    "key_salt"@
}

/// The name of the directory of blobs.
pub open spec fn blobs_name() -> Seq<char> {
    "blobs"@
}

/// The name of the directory of snapshots.
pub open spec fn snapshots_name() -> Seq<char> {
    "snapshot"@
}

impl SnapshotLayout {
    /// The layout of the destination `base`: blobs in `blobs`, snapshots in
    /// `snapshot`.
    pub fn initialize(base: &str) -> (l: Self)
        ensures
            l.base@ == base@,
            l.blobs@ == joined(base@, blobs_name()),
            l.snapshots@ == joined(base@, snapshots_name()),
    {
        Self {
            base: base.to_owned(),
            blobs: join_path(base, "blobs"),
            snapshots: join_path(base, "snapshot"),
        }
    }

    /// Where the salt of the destination is kept.
    pub fn salt_path(&self) -> (p: String)
        ensures
            p@ == joined(self.base@, salt_name()),
    {
        join_path(self.base.as_str(), "key_salt")
    }

    /// Where the blob named `hash` is kept.
    pub fn blob_path(&self, hash: &str) -> (p: String)
        ensures
            p@ == joined(self.blobs@, hash@),
    {
        join_path(self.blobs.as_str(), hash)
    }

    /// A destination is sound where both of its directories exist.
    pub fn validate(&self, blobs_is_dir: bool, snapshots_is_dir: bool) -> (r: Result<
        (),
        SnapError,
    >)
        ensures
            blobs_is_dir && snapshots_is_dir ==> r is Ok,
            !(blobs_is_dir && snapshots_is_dir) ==> (r matches Err(
                SnapError::InvalidSnapshotLayout(p),
            ) && p == self.base),
    {
        if !blobs_is_dir || !snapshots_is_dir {
            return Err(SnapError::InvalidSnapshotLayout(self.base.clone()));
        }
        Ok(())
    }
}

} // verus!
