//! The store as the embedded engine holds it: the bytes of each key space,
//! and reopening a store from them.

use vstd::prelude::*;
use crate::codec::{be64, id_to_bytes};
use crate::log_store::{LogStore, ascending, entry_views};
use crate::meta::SnapshotView;
use crate::records::{
    enc_entry, enc_snapshot, enc_vote, lemma_entry_round_trip, lemma_log_id_record_round_trip,
    lemma_snapshot_record_round_trip, lemma_stored_membership_record_round_trip,
    lemma_u64_record_round_trip, lemma_vote_round_trip, parse_entry, parse_log_id_record,
    parse_snapshot, parse_stored_membership_record, parse_u64_record, parse_vote, payload_fits,
    snapshot_fits, decode_entry,
};
use crate::snapshot_codec::{enc_log_id, enc_stored_membership, membership_fits};
use crate::state_machine::{KvView, SmView, keys_ascending, kv_views, lemma_put_kvs_ascending, put_kvs};
use crate::store::StoreView;
use crate::types::{EntryView, LogId, MembershipView, StoredMembershipView, Vote};

verus! {

/// The contents of the key spaces: `logs` as (big-endian index, entry)
/// pairs in key order, each `meta` and `sm_meta` record where present, and
/// `sm_data` as (key, value) pairs.
pub struct StoreImage {
    pub logs: Vec<(Vec<u8>, Vec<u8>)>,
    pub vote: Option<Vec<u8>>,
    pub last_purged_log_id: Option<Vec<u8>>,
    pub snapshot_index: Option<Vec<u8>>,
    pub snapshot: Option<Vec<u8>>,
    pub sm_data: Vec<(String, String)>,
    pub last_applied_log: Option<Vec<u8>>,
    pub last_membership: Option<Vec<u8>>,
}

pub struct ImageView {
    pub logs: Seq<(Seq<u8>, Seq<u8>)>,
    pub vote: Option<Seq<u8>>,
    pub last_purged_log_id: Option<Seq<u8>>,
    pub snapshot_index: Option<Seq<u8>>,
    pub snapshot: Option<Seq<u8>>,
    pub sm_data: Seq<KvView>,
    pub last_applied_log: Option<Seq<u8>>,
    pub last_membership: Option<Seq<u8>>,
}

pub open spec fn bytes_view(o: Option<Vec<u8>>) -> Option<Seq<u8>> {
    match o {
        Some(v) => Some(v@),
        None => None,
    }
}

pub open spec fn records_view(s: Seq<(Vec<u8>, Vec<u8>)>) -> Seq<(Seq<u8>, Seq<u8>)> {
    s.map_values(|p: (Vec<u8>, Vec<u8>)| (p.0@, p.1@))
}

impl View for StoreImage {
    type V = ImageView;

    open spec fn view(&self) -> ImageView {
        ImageView {
            logs: records_view(self.logs@),
            vote: bytes_view(self.vote),
            last_purged_log_id: bytes_view(self.last_purged_log_id),
            snapshot_index: bytes_view(self.snapshot_index),
            snapshot: bytes_view(self.snapshot),
            sm_data: kv_views(self.sm_data@),
            last_applied_log: bytes_view(self.last_applied_log),
            last_membership: bytes_view(self.last_membership),
        }
    }
}

/// The record of a log entry: its key and its value.
pub open spec fn log_record(e: EntryView) -> (Seq<u8>, Seq<u8>) {
    (be64(e.log_id.index), enc_entry(e))
}

pub open spec fn log_records(s: Seq<EntryView>) -> Seq<(Seq<u8>, Seq<u8>)> {
    s.map_values(|e: EntryView| log_record(e))
}

/// The entries that log records hold, if every value is an entry stored
/// under its own index and the indices ascend.
pub open spec fn parse_logs(recs: Seq<(Seq<u8>, Seq<u8>)>) -> Option<Seq<EntryView>>
    decreases recs.len(),
{
    if recs.len() == 0 {
        Some(Seq::empty())
    } else {
        match parse_logs(recs.drop_last()) {
            Some(s) => match parse_entry(recs.last().1) {
                Some(e) => if recs.last().0 == be64(e.log_id.index) && (s.len() == 0
                    || s.last().log_id.index < e.log_id.index) {
                    Some(s.push(e))
                } else {
                    None
                },
                None => None,
            },
            None => None,
        }
    }
}

/// An absent record reads as `Some(None)`, a well-formed one as
/// `Some(Some(v))`, anything else as `None`.
pub open spec fn parse_opt<T>(o: Option<Seq<u8>>, p: spec_fn(Seq<u8>) -> Option<T>) -> Option<
    Option<T>,
> {
    match o {
        None => Some(None),
        Some(b) => match p(b) {
            Some(v) => Some(Some(v)),
            None => None,
        },
    }
}

pub open spec fn enc_opt<T>(o: Option<T>, e: spec_fn(T) -> Seq<u8>) -> Option<Seq<u8>> {
    match o {
        Some(v) => Some(e(v)),
        None => None,
    }
}

pub open spec fn initial_membership() -> StoredMembershipView {
    StoredMembershipView {
        log_id: None,
        membership: MembershipView { configs: Seq::empty(), nodes: Seq::empty() },
    }
}

/// The store that an image holds, if every record in it is well formed.
pub open spec fn parse_image(i: ImageView) -> Option<StoreView> {
    let logs = parse_logs(i.logs);
    let vote = parse_opt(i.vote, |b: Seq<u8>| parse_vote(b));
    let last_purged = parse_opt(i.last_purged_log_id, |b: Seq<u8>| parse_log_id_record(b));
    let snapshot_index = parse_opt(i.snapshot_index, |b: Seq<u8>| parse_u64_record(b));
    let snapshot = parse_opt(i.snapshot, |b: Seq<u8>| parse_snapshot(b));
    let last_applied = parse_opt(i.last_applied_log, |b: Seq<u8>| parse_log_id_record(b));
    let membership = parse_opt(i.last_membership, |b: Seq<u8>| parse_stored_membership_record(b));
    if logs is Some && vote is Some && last_purged is Some && snapshot_index is Some
        && snapshot is Some && last_applied is Some && membership is Some {
        Some(
            StoreView {
                logs: logs->0,
                vote: vote->0,
                last_purged_log_id: last_purged->0,
                snapshot_index: snapshot_index->0,
                snapshot: snapshot->0,
                sm: SmView {
                    last_applied_log: last_applied->0,
                    last_membership: match membership->0 {
                        Some(m) => m,
                        None => initial_membership(),
                    },
                    data: put_kvs(Seq::<KvView>::empty(), i.sm_data),
                },
            },
        )
    } else {
        None
    }
}

/// The key space whose records an image fails on, checked in the order
/// logs, vote, last purged id and counter, snapshot, state-machine records.
pub enum ImageFault {
    Logs,
    Vote,
    Store,
    Snapshot,
    StateMachine,
}

pub open spec fn image_fault(i: ImageView) -> ImageFault {
    if parse_logs(i.logs) is None {
        ImageFault::Logs
    } else if parse_opt(i.vote, |b: Seq<u8>| parse_vote(b)) is None {
        ImageFault::Vote
    } else if parse_opt(i.last_purged_log_id, |b: Seq<u8>| parse_log_id_record(b)) is None
        || parse_opt(i.snapshot_index, |b: Seq<u8>| parse_u64_record(b)) is None {
        ImageFault::Store
    } else if parse_opt(i.snapshot, |b: Seq<u8>| parse_snapshot(b)) is None {
        ImageFault::Snapshot
    } else {
        ImageFault::StateMachine
    }
}

/// The image of a store.
pub open spec fn image_of(v: StoreView) -> ImageView {
    ImageView {
        logs: log_records(v.logs),
        vote: enc_opt(v.vote, |x: Vote| enc_vote(x)),
        last_purged_log_id: enc_opt(v.last_purged_log_id, |l: LogId| enc_log_id(Some(l))),
        snapshot_index: enc_opt(v.snapshot_index, |n: u64| be64(n)),
        snapshot: enc_opt(v.snapshot, |s: SnapshotView| enc_snapshot(s)),
        sm_data: v.sm.data,
        last_applied_log: enc_opt(v.sm.last_applied_log, |l: LogId| enc_log_id(Some(l))),
        last_membership: Some(enc_stored_membership(v.sm.last_membership)),
    }
}

/// Every length in the store fits its 64-bit prefix.
pub open spec fn store_fits(v: StoreView) -> bool {
    &&& forall|i: int| 0 <= i < v.logs.len() ==> payload_fits(#[trigger] v.logs[i].payload)
    &&& (v.snapshot matches Some(s) ==> snapshot_fits(s))
    &&& membership_fits(v.sm.last_membership.membership)
}


proof fn lemma_parse_log_records(s: Seq<EntryView>)
    requires
        ascending(s),
        forall|i: int| 0 <= i < s.len() ==> payload_fits(#[trigger] s[i].payload),
    ensures
        parse_logs(log_records(s)) == Some(s),
    decreases s.len(),
{
    if s.len() > 0 {
        let t = s.drop_last();
        assert(log_records(s).drop_last() =~= log_records(t));
        assert forall|i: int| 0 <= i < t.len() implies payload_fits(#[trigger] t[i].payload) by {
            assert(t[i] == s[i]);
        }
        lemma_parse_log_records(t);
        lemma_entry_round_trip(s.last());
        assert(log_records(s).last() == log_record(s.last()));
        if t.len() > 0 {
            assert(t.last() == s[s.len() - 2]);
        }
        assert(t.push(s.last()) =~= s);
    }
}

/// Where a prefix of the records is rejected, the whole is rejected.
pub proof fn lemma_parse_logs_prefix_none(recs: Seq<(Seq<u8>, Seq<u8>)>, j: int)
    requires
        0 <= j <= recs.len(),
        parse_logs(recs.subrange(0, j)) is None,
    ensures
        parse_logs(recs) is None,
    decreases recs.len() - j,
{
    if j < recs.len() {
        assert(recs.subrange(0, j + 1).drop_last() =~= recs.subrange(0, j));
        lemma_parse_logs_prefix_none(recs, j + 1);
    } else {
        assert(recs.subrange(0, j) =~= recs);
    }
}

/// Reopening the image of a store gives that store back: every record
/// reads back, and the user data keeps its order.
#[verifier::spinoff_prover]
#[verifier::rlimit(30)]
pub proof fn lemma_image_round_trip(v: StoreView)
    requires
        ascending(v.logs),
        keys_ascending(v.sm.data),
        store_fits(v),
    ensures
        parse_image(image_of(v)) == Some(v),
{
    lemma_parse_log_records(v.logs);
    if let Some(x) = v.vote {
        lemma_vote_round_trip(x);
    }
    if let Some(l) = v.last_purged_log_id {
        lemma_log_id_record_round_trip(l);
    }
    if let Some(n) = v.snapshot_index {
        lemma_u64_record_round_trip(n);
    }
    if let Some(sn) = v.snapshot {
        lemma_snapshot_record_round_trip(sn);
    }
    if let Some(l) = v.sm.last_applied_log {
        lemma_log_id_record_round_trip(l);
    }
    lemma_stored_membership_record_round_trip(v.sm.last_membership);
    lemma_put_kvs_ascending(v.sm.data);
}

/// Compares two byte strings.
pub fn bytes_eq(a: &[u8], b: &[u8]) -> (r: bool)
    ensures
        r == (a@ == b@),
{
    if a.len() != b.len() {
        return false;
    }
    let mut i: usize = 0;
    while i < a.len()
        invariant
            a@.len() == b@.len(),
            i <= a@.len(),
            a@.subrange(0, i as int) == b@.subrange(0, i as int),
        decreases a@.len() - i,
    {
        if a[i] != b[i] {
            return false;
        }
        i = i + 1;
        assert(a@.subrange(0, i as int) =~= b@.subrange(0, i as int));
    }
    assert(a@ =~= a@.subrange(0, i as int));
    assert(b@ =~= b@.subrange(0, i as int));
    true
}

/// The entries that the `logs` records hold; `None` where a value is not an
/// entry, a key is not its entry's index, or the indices do not ascend.
pub fn decode_logs(recs: &Vec<(Vec<u8>, Vec<u8>)>) -> (r: Option<LogStore>)
    ensures
        match parse_logs(records_view(recs@)) {
            Some(s) => r matches Some(l) && l.wf() && l@ == s,
            None => r.is_none(),
        },
{
    let ghost rv = records_view(recs@);
    let mut acc: Vec<crate::types::Entry> = Vec::new();
    let mut i: usize = 0;
    assert(rv.subrange(0, 0) =~= Seq::<(Seq<u8>, Seq<u8>)>::empty());
    assert(entry_views(acc@) =~= Seq::<EntryView>::empty());
    while i < recs.len()
        invariant
            i <= recs@.len(),
            rv == records_view(recs@),
            parse_logs(rv.subrange(0, i as int)) == Some(entry_views(acc@)),
            ascending(entry_views(acc@)),
            acc@.len() == i,
        decreases recs@.len() - i,
    {
        let ghost pre = rv.subrange(0, i as int);
        let ghost next = rv.subrange(0, i + 1);
        assert(next.drop_last() =~= pre);
        assert(next.last() == rv[i as int]);
        let e = match decode_entry(recs[i].1.as_slice()) {
            Some(e) => e,
            None => {
                proof {
                    lemma_parse_logs_prefix_none(rv, i + 1);
                }
                return None;
            },
        };
        let key = id_to_bytes(e.log_id.index);
        let ordered = i == 0 || acc[i - 1].log_id.index < e.log_id.index;
        if !bytes_eq(recs[i].0.as_slice(), key.as_slice()) || !ordered {
            proof {
                if i > 0 {
                    assert(entry_views(acc@).last() == acc@[i - 1]@);
                }
                lemma_parse_logs_prefix_none(rv, i + 1);
            }
            return None;
        }
        let ghost before = entry_views(acc@);
        proof {
            if i > 0 {
                assert(before.last() == acc@[i - 1]@);
            }
        }
        acc.push(e);
        assert(entry_views(acc@) =~= before.push(e@));
        i = i + 1;
    }
    assert(rv.subrange(0, i as int) =~= rv);
    Some(LogStore::from_ascending(acc))
}

} // verus!
