//! The Raft storage adapter: one store holding the log, the consensus
//! metadata, the applied state machine and the current snapshot, with the
//! operations that the consensus runtime calls.

use vstd::prelude::*;
use crate::log_store::{LogStore, above, ascending, below, entry_views, in_range, put_entries};
use crate::meta::{
    ErrorSubject, ErrorVerb, MetaStore, RocksSnapshot, SnapshotMeta, SnapshotView, StorageError,
    copy_bytes,
};
use crate::rocks_client::{RequestView, ResponseView, RocksRequest, RocksResponse};
use crate::snapshot_codec::{decode_state, enc_sm, encode_state, parse_sm, sm_fits};
use crate::state_machine::{
    KvView, RocksStateMachine, SmView, delete_kv, keys_ascending, put_kv, put_kvs,
};
use crate::codec::id_to_bytes;
use crate::image::{ImageFault, StoreImage, decode_logs, image_fault, image_of, initial_membership, log_records, parse_image, records_view, store_fits};
use crate::records::{
    decode_log_id_record, decode_snapshot, decode_stored_membership, decode_u64_record,
    decode_vote, encode_entry, encode_log_id_record, encode_snapshot, encode_stored_membership,
    encode_vote,
};
use crate::state_machine::{SerializableRocksStateMachine, copy_pairs};
use crate::types::{
    Entry, EntryPayload, EntryView, LogId, PayloadView, StoredMembership, StoredMembershipView, Vote,
};

verus! {

/// The response that applying an entry produces.
pub open spec fn response_for(e: EntryView) -> ResponseView {
    match e.payload {
        PayloadView::Normal(RequestView::Delete { .. }) => ResponseView::Delete(Ok(())),
        _ => ResponseView::Put(Ok(())),
    }
}

/// The state machine after applying one entry.
pub open spec fn apply_entry(s: SmView, e: EntryView) -> SmView {
    match e.payload {
        PayloadView::Blank => SmView {
            last_applied_log: Some(e.log_id),
            last_membership: s.last_membership,
            data: s.data,
        },
        PayloadView::Normal(RequestView::Put { key, value }) => SmView {
            last_applied_log: Some(e.log_id),
            last_membership: s.last_membership,
            data: put_kv(s.data, key, value),
        },
        PayloadView::Normal(RequestView::Delete { key }) => SmView {
            last_applied_log: Some(e.log_id),
            last_membership: s.last_membership,
            data: delete_kv(s.data, key),
        },
        PayloadView::Membership(m) => SmView {
            last_applied_log: Some(e.log_id),
            last_membership: StoredMembershipView { log_id: Some(e.log_id), membership: m },
            data: s.data,
        },
    }
}

/// The state machine after applying `es` in order.
pub open spec fn apply_entries(s: SmView, es: Seq<EntryView>) -> SmView
    decreases es.len(),
{
    if es.len() == 0 {
        s
    } else {
        apply_entry(apply_entries(s, es.drop_last()), es.last())
    }
}

/// The state machine that installing a snapshot of state `v` produces.
pub open spec fn installed(v: SmView) -> SmView {
    SmView {
        last_applied_log: v.last_applied_log,
        last_membership: v.last_membership,
        data: put_kvs(Seq::<KvView>::empty(), v.data),
    }
}

pub open spec fn digit(d: nat) -> char {
    if d == 0 {
        '0'
    } else if d == 1 {
        '1'
    } else if d == 2 {
        '2'
    } else if d == 3 {
        '3'
    } else if d == 4 {
        '4'
    } else if d == 5 {
        '5'
    } else if d == 6 {
        '6'
    } else if d == 7 {
        '7'
    } else if d == 8 {
        '8'
    } else {
        '9'
    }
}

/// The decimal digits of `n`.
pub open spec fn decimal(n: nat) -> Seq<char>
    decreases n,
{
    if n < 10 {
        seq![digit(n)]
    } else {
        decimal(n / 10).push(digit(n % 10))
    }
}

/// `T{term}-N{node}-{index}-{seq}` for the last applied log id, or
/// `--{seq}` when nothing has been applied.
pub open spec fn snapshot_id_of(last: Option<LogId>, seq: u64) -> Seq<char> {
    match last {
        Some(l) => seq!['T'] + decimal(l.leader_id.term as nat) + seq!['-', 'N'] + decimal(
            l.leader_id.node_id as nat,
        ) + seq!['-'] + decimal(l.index as nat) + seq!['-'] + decimal(seq as nat),
        None => seq!['-', '-'] + decimal(seq as nat),
    }
}

/// Relies on String::push: appends one character.
#[verifier::external_body]
fn push_char(s: &mut String, c: char)
    ensures
        final(s)@ == old(s)@.push(c),
{
    s.push(c)
}

fn digit_char(d: u64) -> (r: char)
    requires
        d < 10,
    ensures
        r == digit(d as nat),
{
    if d == 0 {
        '0'
    } else if d == 1 {
        '1'
    } else if d == 2 {
        '2'
    } else if d == 3 {
        '3'
    } else if d == 4 {
        '4'
    } else if d == 5 {
        '5'
    } else if d == 6 {
        '6'
    } else if d == 7 {
        '7'
    } else if d == 8 {
        '8'
    } else {
        '9'
    }
}

fn push_decimal(s: &mut String, n: u64)
    ensures
        final(s)@ == old(s)@ + decimal(n as nat),
    decreases n,
{
    if n >= 10 {
        push_decimal(s, n / 10);
    }
    push_char(s, digit_char(n % 10));
    assert(final(s)@ =~= old(s)@ + decimal(n as nat));
}

fn push_str_chars(s: &mut String, c1: char, c2: char)
    ensures
        final(s)@ == old(s)@ + seq![c1, c2],
{
    push_char(s, c1);
    push_char(s, c2);
    assert(final(s)@ =~= old(s)@ + seq![c1, c2]);
}

/// The id of a snapshot built at `last` with counter value `seq`.
pub fn snapshot_id(last: Option<LogId>, seq: u64) -> (r: String)
    ensures
        r@ == snapshot_id_of(last, seq),
{
    let mut s = String::new();
    match last {
        Some(l) => {
            push_char(&mut s, 'T');
            push_decimal(&mut s, l.leader_id.term);
            push_str_chars(&mut s, '-', 'N');
            push_decimal(&mut s, l.leader_id.node_id);
            push_char(&mut s, '-');
            push_decimal(&mut s, l.index);
            push_char(&mut s, '-');
            push_decimal(&mut s, seq);
        },
        None => {
            push_str_chars(&mut s, '-', '-');
            push_decimal(&mut s, seq);
        },
    }
    assert(s@ =~= snapshot_id_of(last, seq));
    s
}

/// The bounds of the log: the last purged id, and the last id present
/// (falling back to the last purged one on an empty log).
pub struct LogState {
    pub last_purged_log_id: Option<LogId>,
    pub last_log_id: Option<LogId>,
}

/// What a store holds.
pub struct StoreView {
    pub logs: Seq<EntryView>,
    pub vote: Option<Vote>,
    pub last_purged_log_id: Option<LogId>,
    pub snapshot_index: Option<u64>,
    pub snapshot: Option<SnapshotView>,
    pub sm: SmView,
}

/// The durable storage of one Raft node.
pub struct RocksStore {
    logs: LogStore,
    meta: MetaStore,
    state_machine: RocksStateMachine,
}

pub open spec fn snapshot_view_of(s: Option<RocksSnapshot>) -> Option<SnapshotView> {
    match s {
        Some(x) => Some(x@),
        None => None,
    }
}

impl View for RocksStore {
    type V = StoreView;

    closed spec fn view(&self) -> StoreView {
        StoreView {
            logs: self.logs@,
            vote: self.meta.vote,
            last_purged_log_id: self.meta.last_purged_log_id,
            snapshot_index: self.meta.snapshot_index,
            snapshot: snapshot_view_of(self.meta.snapshot),
            sm: self.state_machine@,
        }
    }
}

fn read_err(subject: ErrorSubject) -> (e: StorageError)
    ensures
        e.verb == ErrorVerb::Read,
        e.subject == subject,
{
    StorageError { subject, verb: ErrorVerb::Read }
}

fn response_of(e: &Entry) -> (r: RocksResponse)
    ensures
        r@ == response_for(e@),
{
    match &e.payload {
        EntryPayload::Normal(RocksRequest::Delete { .. }) => RocksResponse::Delete(Ok(())),
        _ => RocksResponse::Put(Ok(())),
    }
}

impl RocksStore {
    /// Log indices ascend; state-machine keys ascend in byte order.
    pub open spec fn wf(&self) -> bool {
        ascending(self@.logs) && keys_ascending(self@.sm.data)
    }

    /// A fresh store: every key space empty.
    pub fn new() -> (r: RocksStore)
        ensures
            r.wf(),
            r@.logs.len() == 0,
            r@.vote.is_none(),
            r@.last_purged_log_id.is_none(),
            r@.snapshot_index.is_none(),
            r@.snapshot.is_none(),
            r@.sm.data.len() == 0,
            r@.sm.last_applied_log.is_none(),
            r@.sm.last_membership.log_id.is_none(),
    {
        RocksStore { logs: LogStore::new(), meta: MetaStore::new(), state_machine: RocksStateMachine::new() }
    }

    /// Log entries with an index in `[start, end)` (`end == None`: no upper
    /// bound), in ascending index order.
    pub fn try_get_log_entries(&self, start: u64, end: Option<u64>) -> (r: Vec<Entry>)
        requires
            self.wf(),
        ensures
            entry_views(r@) == self@.logs.filter(in_range(start, end)),
    {
        self.logs.read_range(start, end)
    }

    /// The last purged log id, and the id of the last entry present or, on
    /// an empty log, the last purged one.
    pub fn get_log_state(&self) -> (r: LogState)
        requires
            self.wf(),
        ensures
            r.last_purged_log_id == self@.last_purged_log_id,
            self@.logs.len() > 0 ==> r.last_log_id == Some(self@.logs.last().log_id),
            self@.logs.len() == 0 ==> r.last_log_id == self@.last_purged_log_id,
    {
        let last = self.logs.last_log_id();
        let last_purged_log_id = self.meta.last_purged_log_id;
        let last_log_id = match last {
            None => last_purged_log_id,
            Some(x) => Some(x),
        };
        LogState { last_purged_log_id, last_log_id }
    }

    /// Records the vote.
    pub fn save_vote(&mut self, vote: &Vote)
        requires
            old(self).wf(),
        ensures
            final(self).wf(),
            final(self)@ == (StoreView { vote: Some(*vote), ..old(self)@ }),
    {
        self.meta.vote = Some(*vote);
    }

    /// The recorded vote, if any.
    pub fn read_vote(&self) -> (r: Option<Vote>)
        ensures
            r == self@.vote,
    {
        self.meta.vote
    }

    /// Writes each entry under its index, in order.
    pub fn append_to_log(&mut self, entries: Vec<Entry>)
        requires
            old(self).wf(),
        ensures
            final(self).wf(),
            final(self)@ == (StoreView {
                logs: put_entries(old(self)@.logs, entry_views(entries@)),
                ..old(self)@
            }),
    {
        self.logs.append(entries);
    }

    /// Removes every entry from `log_id.index` on.
    pub fn delete_conflict_logs_since(&mut self, log_id: LogId)
        requires
            old(self).wf(),
        ensures
            final(self).wf(),
            final(self)@ == (StoreView {
                logs: old(self)@.logs.filter(below(log_id.index)),
                ..old(self)@
            }),
    {
        self.logs.truncate_from(log_id.index);
    }

    /// Records `log_id` as the last purged id, then removes every entry up to
    /// and including its index.
    pub fn purge_logs_upto(&mut self, log_id: LogId)
        requires
            old(self).wf(),
        ensures
            final(self).wf(),
            final(self)@ == (StoreView {
                logs: old(self)@.logs.filter(above(log_id.index)),
                last_purged_log_id: Some(log_id),
                ..old(self)@
            }),
    {
        self.meta.last_purged_log_id = Some(log_id);
        self.logs.purge_through(log_id.index);
    }

    /// The last applied log id and the last applied membership.
    pub fn last_applied_state(&self) -> (r: (Option<LogId>, StoredMembership))
        ensures
            r.0 == self@.sm.last_applied_log,
            r.1@ == self@.sm.last_membership,
    {
        (self.state_machine.get_last_applied_log(), self.state_machine.get_last_membership())
    }

    /// The applied state machine, for local reads.
    pub fn state_machine(&self) -> (r: &RocksStateMachine)
        ensures
            r@ == self@.sm,
            self.wf() ==> r.wf(),
    {
        &self.state_machine
    }

    /// The whole applied state as one value.
    pub fn snapshot_view(&self) -> (r: crate::state_machine::SerializableRocksStateMachine)
        ensures
            r@ == self@.sm,
    {
        self.state_machine.snapshot_view()
    }

    /// The value the state machine holds under `key`; a local read that does
    /// not go through the log.
    pub fn get(&self, key: String) -> (r: Option<String>)
        requires
            self.wf(),
        ensures
            match r {
                Some(v) => crate::state_machine::value_of(self@.sm.data, key@) == Some(v@),
                None => crate::state_machine::value_of(self@.sm.data, key@).is_none(),
            },
    {
        self.state_machine.get(key)
    }

    /// Applies committed entries in order and returns one response per entry.
    pub fn apply_to_state_machine(&mut self, entries: &[Entry]) -> (r: Vec<RocksResponse>)
        requires
            old(self).wf(),
        ensures
            final(self).wf(),
            final(self)@ == (StoreView {
                sm: apply_entries(old(self)@.sm, entry_views(entries@)),
                ..old(self)@
            }),
            r@.len() == entries@.len(),
            forall|i: int| 0 <= i < r@.len() ==> (#[trigger] r@[i])@ == response_for(entries@[i]@),
    {
        let ghost es = entry_views(entries@);
        let mut res: Vec<RocksResponse> = Vec::with_capacity(entries.len());
        let mut i: usize = 0;
        while i < entries.len()
            invariant
                self.wf(),
                i <= entries@.len(),
                es == entry_views(entries@),
                self@ == (StoreView {
                    sm: apply_entries(old(self)@.sm, es.subrange(0, i as int)),
                    ..old(self)@
                }),
                res@.len() == i,
                forall|j: int| 0 <= j < i ==> (#[trigger] res@[j])@ == response_for(entries@[j]@),
            decreases entries@.len() - i,
        {
            let entry = &entries[i];
            self.state_machine.set_last_applied_log(&entry.log_id);
            match &entry.payload {
                EntryPayload::Blank => {},
                EntryPayload::Normal(req) => match req {
                    RocksRequest::Put { key, value } => {
                        self.state_machine.put(key.clone(), value.clone());
                    },
                    RocksRequest::Delete { key } => {
                        self.state_machine.delete(key.clone());
                    },
                },
                EntryPayload::Membership(m) => {
                    self.state_machine.set_last_membership(
                        StoredMembership { log_id: Some(entry.log_id), membership: m.copy() },
                    );
                },
            }
            res.push(response_of(entry));
            assert(es.subrange(0, i + 1).drop_last() =~= es.subrange(0, i as int));
            i = i + 1;
        }
        assert(es.subrange(0, i as int) =~= es);
        res
    }

    /// Serializes the state machine, advances the snapshot counter, records
    /// the snapshot as the current one and returns it. Fails, changing
    /// nothing, only where the counter cannot advance.
    pub fn build_snapshot(&mut self) -> (r: Result<RocksSnapshot, StorageError>)
        requires
            old(self).wf(),
        ensures
            final(self).wf(),
            ({
                let seq = match old(self)@.snapshot_index {
                    Some(n) => n as int + 1,
                    None => 1,
                };
                match r {
                    Ok(s) => {
                        &&& seq <= u64::MAX
                        &&& s@.data == enc_sm(old(self)@.sm)
                        &&& sm_fits(old(self)@.sm)
                        &&& keys_ascending(old(self)@.sm.data)
                        &&& s@.meta.last_log_id == old(self)@.sm.last_applied_log
                        &&& s@.meta.last_membership == old(self)@.sm.last_membership
                        &&& s@.meta.snapshot_id == snapshot_id_of(
                            old(self)@.sm.last_applied_log,
                            seq as u64,
                        )
                        &&& final(self)@ == (StoreView {
                            snapshot_index: Some(seq as u64),
                            snapshot: Some(s@),
                            ..old(self)@
                        })
                    },
                    Err(e) => {
                        &&& seq > u64::MAX
                        &&& e.subject is Store
                        &&& e.verb == ErrorVerb::Write
                        &&& final(self)@ == old(self)@
                    },
                }
            }),
    {
        let view = self.state_machine.snapshot_view();
        let data = encode_state(&view);
        let current = match self.meta.snapshot_index {
            Some(n) => n,
            None => 0,
        };
        if current == u64::MAX {
            return Err(StorageError { subject: ErrorSubject::Store, verb: ErrorVerb::Write });
        }
        let seq = current + 1;
        self.meta.snapshot_index = Some(seq);
        let snapshot_id = snapshot_id(view.last_applied_log, seq);
        let meta = SnapshotMeta {
            last_log_id: view.last_applied_log,
            last_membership: view.last_membership,
            snapshot_id,
        };
        let snapshot = RocksSnapshot { meta: meta.copy(), data: copy_bytes(&data) };
        self.meta.snapshot = Some(snapshot);
        Ok(RocksSnapshot { meta, data })
    }

    /// An empty buffer to receive a snapshot's data into.
    pub fn begin_receiving_snapshot(&self) -> (r: Vec<u8>)
        ensures
            r@.len() == 0,
    {
        Vec::new()
    }

    /// Replaces the state machine with the state that `snapshot` holds and
    /// records the snapshot as the current one. Where the data is not the
    /// snapshot data of any state, fails with a read error on the snapshot
    /// and changes nothing.
    pub fn install_snapshot(&mut self, meta: &SnapshotMeta, snapshot: Vec<u8>) -> (r: Result<
        (),
        StorageError,
    >)
        requires
            old(self).wf(),
        ensures
            final(self).wf(),
            match parse_sm(snapshot@) {
                Some(v) => r is Ok && final(self)@ == (StoreView {
                    sm: installed(v),
                    snapshot: Some(SnapshotView { meta: meta@, data: snapshot@ }),
                    ..old(self)@
                }),
                None => r matches Err(e) && e.verb == ErrorVerb::Read && (match e.subject {
                    ErrorSubject::Snapshot(Some(sig)) => sig.last_log_id == meta.last_log_id
                        && sig.snapshot_id@ == meta.snapshot_id@,
                    _ => false,
                }) && final(self)@ == old(self)@,
            },
    {
        let sm = match decode_state(snapshot.as_slice()) {
            Some(sm) => sm,
            None => {
                return Err(
                    StorageError {
                        subject: ErrorSubject::Snapshot(Some(meta.signature())),
                        verb: ErrorVerb::Read,
                    },
                );
            },
        };
        self.state_machine = RocksStateMachine::from_serializable(sm);
        self.meta.snapshot = Some(RocksSnapshot { meta: meta.copy(), data: snapshot });
        Ok(())
    }

    /// The bytes of every key space, as the embedded engine stores them.
    pub fn image(&self) -> (r: StoreImage)
        requires
            self.wf(),
        ensures
            r@ == image_of(self@),
            store_fits(self@),
    {
        let entries = self.logs.entries();
        let ghost es = self@.logs;
        let mut logs: Vec<(Vec<u8>, Vec<u8>)> = Vec::with_capacity(entries.len());
        let mut i: usize = 0;
        while i < entries.len()
            invariant
                i <= entries@.len(),
                es == crate::log_store::entry_views(entries@),
                records_view(logs@) == log_records(es.subrange(0, i as int)),
                forall|j: int| 0 <= j < i ==> crate::records::payload_fits(#[trigger] es[j].payload),
            decreases entries@.len() - i,
        {
            let ghost before = records_view(logs@);
            logs.push((id_to_bytes(entries[i].log_id.index), encode_entry(&entries[i])));
            assert(records_view(logs@) =~= before.push(crate::image::log_record(es[i as int])));
            assert(log_records(es.subrange(0, i + 1)) =~= log_records(es.subrange(0, i as int)).push(
                crate::image::log_record(es[i as int]),
            ));
            i = i + 1;
        }
        assert(es.subrange(0, i as int) =~= es);
        let vote = match &self.meta.vote {
            Some(v) => Some(encode_vote(v)),
            None => None,
        };
        let last_purged_log_id = match self.meta.last_purged_log_id {
            Some(l) => Some(encode_log_id_record(l)),
            None => None,
        };
        let snapshot_index = match self.meta.snapshot_index {
            Some(n) => Some(id_to_bytes(n)),
            None => None,
        };
        let snapshot = match &self.meta.snapshot {
            Some(sn) => Some(encode_snapshot(sn)),
            None => None,
        };
        let view = self.state_machine.snapshot_view();
        let last_applied_log = match view.last_applied_log {
            Some(l) => Some(encode_log_id_record(l)),
            None => None,
        };
        let last_membership = Some(encode_stored_membership(&view.last_membership));
        let r = StoreImage {
            logs,
            vote,
            last_purged_log_id,
            snapshot_index,
            snapshot,
            sm_data: view.data,
            last_applied_log,
            last_membership,
        };
        r
    }

    /// Reopens a store from the bytes of its key spaces. Fails with a read
    /// error, naming the key space, where a record is malformed, a log key
    /// is not its entry's index, or log indices do not ascend.
    pub fn open(image: &StoreImage) -> (r: Result<RocksStore, StorageError>)
        ensures
            match parse_image(image@) {
                Some(v) => r matches Ok(s) && s.wf() && s@ == v,
                None => r matches Err(e) && e.verb == ErrorVerb::Read && match image_fault(image@) {
                    ImageFault::Logs => e.subject is Logs,
                    ImageFault::Vote => e.subject is Vote,
                    ImageFault::Store => e.subject is Store,
                    ImageFault::Snapshot => e.subject is Snapshot,
                    ImageFault::StateMachine => e.subject is StateMachine,
                },
            },
    {
        let logs = match decode_logs(&image.logs) {
            Some(l) => l,
            None => return Err(read_err(ErrorSubject::Logs)),
        };
        let vote = match &image.vote {
            Some(b) => match decode_vote(b.as_slice()) {
                Some(v) => Some(v),
                None => return Err(read_err(ErrorSubject::Vote)),
            },
            None => None,
        };
        let last_purged_log_id = match &image.last_purged_log_id {
            Some(b) => match decode_log_id_record(b.as_slice()) {
                Some(v) => Some(v),
                None => return Err(read_err(ErrorSubject::Store)),
            },
            None => None,
        };
        let snapshot_index = match &image.snapshot_index {
            Some(b) => match decode_u64_record(b.as_slice()) {
                Some(v) => Some(v),
                None => return Err(read_err(ErrorSubject::Store)),
            },
            None => None,
        };
        let snapshot = match &image.snapshot {
            Some(b) => match decode_snapshot(b.as_slice()) {
                Some(v) => Some(v),
                None => return Err(read_err(ErrorSubject::Snapshot(None))),
            },
            None => None,
        };
        let last_applied_log = match &image.last_applied_log {
            Some(b) => match decode_log_id_record(b.as_slice()) {
                Some(v) => Some(v),
                None => return Err(read_err(ErrorSubject::StateMachine)),
            },
            None => None,
        };
        let last_membership = match &image.last_membership {
            Some(b) => match decode_stored_membership(b.as_slice()) {
                Some(v) => v,
                None => return Err(read_err(ErrorSubject::StateMachine)),
            },
            None => {
                let m = StoredMembership::initial();
                assert(m@.membership.configs =~= initial_membership().membership.configs);
                assert(m@.membership.nodes =~= initial_membership().membership.nodes);
                m
            },
        };
        let state_machine = RocksStateMachine::from_serializable(
            SerializableRocksStateMachine {
                last_applied_log,
                last_membership,
                data: copy_pairs(&image.sm_data),
            },
        );
        let meta = MetaStore { vote, last_purged_log_id, snapshot_index, snapshot };
        Ok(RocksStore { logs, meta, state_machine })
    }

    /// The current snapshot, if one was built or installed.
    pub fn get_current_snapshot(&self) -> (r: Option<RocksSnapshot>)
        ensures
            snapshot_view_of(r) == self@.snapshot,
    {
        match &self.meta.snapshot {
            Some(s) => Some(s.copy()),
            None => None,
        }
    }
}


/// Applying a non-empty batch leaves the last entry's id as the last
/// applied log id.
pub proof fn lemma_apply_sets_last_applied(s: SmView, es: Seq<EntryView>)
    requires
        es.len() > 0,
    ensures
        apply_entries(s, es).last_applied_log == Some(es.last().log_id),
{
}

/// Installing the data of a snapshot built from a state machine gives a
/// state machine with the same view: same last applied id, same membership,
/// same data in the same order.
pub proof fn lemma_build_then_install(v: SmView)
    requires
        keys_ascending(v.data),
        sm_fits(v),
    ensures
        parse_sm(enc_sm(v)) == Some(v),
        installed(v) == v,
{
    crate::snapshot_codec::lemma_snapshot_data_round_trip(v);
    crate::state_machine::lemma_put_kvs_ascending(v.data);
}

} // verus!
