//! What the database tracks: snapshots and their replicas.
use crate::text::text_option;
use crate::utils::{strip_trailing_slash, stripped};
use vstd::prelude::*;

verus! {

/// A snapshot as tracked in the database. Field order matches the table columns.
#[derive(Debug, Default, Clone, PartialEq, Eq)]
pub struct SnapshotRecord {
    pub name: String,
    pub snap_id: String,
    pub kind: String,
    pub source: String,
    pub destination: String,
    pub machine: String,
    pub ro_rw: String,
    pub date: String,
}

/// The texts of a snapshot record.
#[verifier::ext_equal]
pub struct Snapshot {
    pub name: Seq<char>,
    pub snap_id: Seq<char>,
    pub kind: Seq<char>,
    pub source: Seq<char>,
    pub destination: Seq<char>,
    pub machine: Seq<char>,
    pub ro_rw: Seq<char>,
    pub date: Seq<char>,
}

impl View for SnapshotRecord {
    type V = Snapshot;

    open spec fn view(&self) -> Snapshot {
        Snapshot {
            name: self.name@,
            snap_id: self.snap_id@,
            kind: self.kind@,
            source: self.source@,
            destination: self.destination@,
            machine: self.machine@,
            ro_rw: self.ro_rw@,
            date: self.date@,
        }
    }
}

/// Path of the subvolume called `name` in the directory `destination`.
///
/// A missing directory leaves the bare name: it is never read as the root directory.
pub open spec fn subvolume_in(destination: Seq<char>, name: Seq<char>) -> Seq<char> {
    let dir = stripped(destination);
    if dir.len() == 0 {
        name
    } else if dir == "/"@ {
        "/"@ + name
    } else {
        dir + "/"@ + name
    }
}

impl SnapshotRecord {
    /// Full path of the snapshot subvolume on disk (`<destination>/<name>`).
    ///
    /// Works both with destinations stored with a trailing slash and without it, as old databases
    /// have them.
    #[must_use]
    pub fn path(&self) -> (path: String)
        ensures
            path@ == subvolume_in(self@.destination, self@.name),
    {
        let dir: String = strip_trailing_slash(self.destination.as_str()).to_owned();
        if dir.as_str().is_empty() {
            // Never turn a missing destination into an absolute path under the root directory.
            self.name.clone()
        } else if dir == "/".to_owned() {
            "/".to_owned().concat(self.name.as_str())
        } else {
            dir.concat("/").concat(self.name.as_str())
        }
    }

    /// A copy of the record.
    pub fn copy(&self) -> (record: SnapshotRecord)
        ensures
            record@ == self@,
    {
        SnapshotRecord {
            name: self.name.clone(),
            snap_id: self.snap_id.clone(),
            kind: self.kind.clone(),
            source: self.source.clone(),
            destination: self.destination.clone(),
            machine: self.machine.clone(),
            ro_rw: self.ro_rw.clone(),
            date: self.date.clone(),
        }
    }
}

/// A replica as tracked in the database: a snapshot that arrived at a replication target.
#[derive(Debug, Default, Clone, PartialEq, Eq)]
pub struct ReplicaRecord {
    pub name: String,
    pub snap_id: String,
    /// The target as written in the configuration.
    pub target: String,
    /// What was sent: the snapshot itself or a filtered copy of it.
    pub local_path: String,
    pub source: String,
    pub kind: String,
    pub machine: String,
    pub snapshot_date: String,
    /// The replica that it was sent incrementally from.
    pub parent_name: Option<String>,
    pub date: String,
}

/// The texts of a replica record.
#[verifier::ext_equal]
pub struct Replica {
    pub name: Seq<char>,
    pub snap_id: Seq<char>,
    pub target: Seq<char>,
    pub local_path: Seq<char>,
    pub source: Seq<char>,
    pub kind: Seq<char>,
    pub machine: Seq<char>,
    pub snapshot_date: Seq<char>,
    pub parent_name: Option<Seq<char>>,
    pub date: Seq<char>,
}

impl View for ReplicaRecord {
    type V = Replica;

    open spec fn view(&self) -> Replica {
        Replica {
            name: self.name@,
            snap_id: self.snap_id@,
            target: self.target@,
            local_path: self.local_path@,
            source: self.source@,
            kind: self.kind@,
            machine: self.machine@,
            snapshot_date: self.snapshot_date@,
            parent_name: text_option(self.parent_name),
            date: self.date@,
        }
    }
}

impl ReplicaRecord {
    /// A copy of the record.
    pub fn copy(&self) -> (record: ReplicaRecord)
        ensures
            record@ == self@,
    {
        ReplicaRecord {
            name: self.name.clone(),
            snap_id: self.snap_id.clone(),
            target: self.target.clone(),
            local_path: self.local_path.clone(),
            source: self.source.clone(),
            kind: self.kind.clone(),
            machine: self.machine.clone(),
            snapshot_date: self.snapshot_date.clone(),
            parent_name: self.parent_name.clone(),
            date: self.date.clone(),
        }
    }
}

/// The path of a snapshot does not depend on the slashes that its destination ends with.
pub proof fn lemma_path_ignores_trailing_slashes(destination: Seq<char>, name: Seq<char>)
    requires
        destination.len() > 0,
    ensures
        subvolume_in(destination + "/"@, name) == subvolume_in(destination, name),
{
    reveal_strlit("/");
    assert((destination + "/"@).drop_last() =~= destination);
}

} // verus!
