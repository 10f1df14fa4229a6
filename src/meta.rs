//! The `meta` key space: the consensus singletons (vote, last purged log id,
//! snapshot counter, current snapshot), and the storage error taxonomy.

use vstd::prelude::*;
use crate::rocks_client::copy_string;
use crate::types::{LogId, StoredMembership, StoredMembershipView, Vote};

verus! {

/// Describes a snapshot: the last log id it covers, its membership and its id.
pub struct SnapshotMeta {
    pub last_log_id: Option<LogId>,
    pub last_membership: StoredMembership,
    pub snapshot_id: String,
}

pub struct SnapshotMetaView {
    pub last_log_id: Option<LogId>,
    pub last_membership: StoredMembershipView,
    pub snapshot_id: Seq<char>,
}

impl View for SnapshotMeta {
    type V = SnapshotMetaView;

    open spec fn view(&self) -> SnapshotMetaView {
        SnapshotMetaView {
            last_log_id: self.last_log_id,
            last_membership: self.last_membership@,
            snapshot_id: self.snapshot_id@,
        }
    }
}

/// A snapshot: its description and the serialized state machine.
pub struct RocksSnapshot {
    pub meta: SnapshotMeta,
    pub data: Vec<u8>,
}

pub struct SnapshotView {
    pub meta: SnapshotMetaView,
    pub data: Seq<u8>,
}

impl View for RocksSnapshot {
    type V = SnapshotView;

    open spec fn view(&self) -> SnapshotView {
        SnapshotView { meta: self.meta@, data: self.data@ }
    }
}

/// What identifies a snapshot in diagnostics.
pub struct SnapshotSignature {
    pub last_log_id: Option<LogId>,
    pub last_membership_log_id: Option<LogId>,
    pub snapshot_id: String,
}

/// What a storage error concerns.
pub enum ErrorSubject {
    Store,
    Logs,
    StateMachine,
    Vote,
    Snapshot(Option<SnapshotSignature>),
}

/// Whether a storage error happened reading or writing.
#[derive(Clone, Copy, Debug, PartialEq, Eq, Structural)]
pub enum ErrorVerb {
    Read,
    Write,
}

/// A storage failure, tagged with its subject and verb.
pub struct StorageError {
    pub subject: ErrorSubject,
    pub verb: ErrorVerb,
}

impl SnapshotMeta {
    pub fn copy(&self) -> (r: SnapshotMeta)
        ensures
            r@ == self@,
    {
        SnapshotMeta {
            last_log_id: self.last_log_id,
            last_membership: self.last_membership.copy(),
            snapshot_id: copy_string(&self.snapshot_id),
        }
    }

    /// The signature that identifies this snapshot.
    pub fn signature(&self) -> (r: SnapshotSignature)
        ensures
            r.last_log_id == self.last_log_id,
            r.last_membership_log_id == self.last_membership.log_id,
            r.snapshot_id@ == self.snapshot_id@,
    {
        SnapshotSignature {
            last_log_id: self.last_log_id,
            last_membership_log_id: self.last_membership.log_id,
            snapshot_id: copy_string(&self.snapshot_id),
        }
    }
}

impl RocksSnapshot {
    pub fn copy(&self) -> (r: RocksSnapshot)
        ensures
            r@ == self@,
    {
        RocksSnapshot { meta: self.meta.copy(), data: copy_bytes(&self.data) }
    }
}

/// A copy of a byte buffer.
pub fn copy_bytes(v: &Vec<u8>) -> (r: Vec<u8>)
    ensures
        r@ == v@,
{
    let mut r: Vec<u8> = Vec::with_capacity(v.len());
    let mut i: usize = 0;
    while i < v.len()
        invariant
            i <= v@.len(),
            r@ == v@.subrange(0, i as int),
        decreases v@.len() - i,
    {
        r.push(v[i]);
        i = i + 1;
        assert(r@ =~= v@.subrange(0, i as int));
    }
    assert(r@ =~= v@);
    r
}

/// The records of the `meta` key space.
#[derive(Clone, Copy, Debug, PartialEq, Eq, Structural)]
pub enum MetaRecord {
    LastPurged,
    SnapshotIndex,
    Vote,
    Snapshot,
}

pub open spec fn meta_key(m: MetaRecord) -> Seq<char> {
    match m {
        MetaRecord::LastPurged => "last_purged_log_id"@,
        MetaRecord::SnapshotIndex => "snapshot_index"@,
        MetaRecord::Vote => "vote"@,
        MetaRecord::Snapshot => "snapshot"@,
    }
}

impl MetaRecord {
    /// The fixed key the record is stored under.
    pub fn key(&self) -> (r: &'static str)
        ensures
            r@ == meta_key(*self),
    {
        match self {
            MetaRecord::LastPurged => "last_purged_log_id",
            MetaRecord::SnapshotIndex => "snapshot_index",
            MetaRecord::Vote => "vote",
            MetaRecord::Snapshot => "snapshot",
        }
    }
}

impl MetaRecord {
    /// The subject that errors on this record carry; a snapshot record names
    /// the snapshot it holds, where one is given.
    pub fn subject(&self, snapshot: Option<&SnapshotMeta>) -> (r: ErrorSubject)
        ensures
            *self == MetaRecord::LastPurged || *self == MetaRecord::SnapshotIndex ==> r is Store,
            *self == MetaRecord::Vote ==> r is Vote,
            *self == MetaRecord::Snapshot ==> match r {
                ErrorSubject::Snapshot(sig) => match snapshot {
                    Some(m) => sig matches Some(s) && s.last_log_id == m.last_log_id
                        && s.last_membership_log_id == m.last_membership.log_id && s.snapshot_id@
                        == m.snapshot_id@,
                    None => sig.is_none(),
                },
                _ => false,
            },
    {
        match self {
            MetaRecord::LastPurged => ErrorSubject::Store,
            MetaRecord::SnapshotIndex => ErrorSubject::Store,
            MetaRecord::Vote => ErrorSubject::Vote,
            MetaRecord::Snapshot => match snapshot {
                Some(m) => ErrorSubject::Snapshot(Some(m.signature())),
                None => ErrorSubject::Snapshot(None),
            },
        }
    }
}

/// The `meta` key space: one optional value per record.
pub struct MetaStore {
    pub vote: Option<Vote>,
    pub last_purged_log_id: Option<LogId>,
    pub snapshot_index: Option<u64>,
    pub snapshot: Option<RocksSnapshot>,
}

impl MetaStore {
    /// A key space with no record written.
    pub fn new() -> (r: MetaStore)
        ensures
            r.vote.is_none(),
            r.last_purged_log_id.is_none(),
            r.snapshot_index.is_none(),
            r.snapshot.is_none(),
    {
        MetaStore { vote: None, last_purged_log_id: None, snapshot_index: None, snapshot: None }
    }
}

} // verus!
