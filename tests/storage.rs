use rocks_raft_kv::codec::{bytes_to_id, id_to_bytes};
use rocks_raft_kv::meta::{ErrorSubject, ErrorVerb, MetaRecord, SnapshotMeta};
use rocks_raft_kv::rocks_client::{RocksRequest, RocksResponse};
use rocks_raft_kv::snapshot_codec::{decode_state, encode_state};
use rocks_raft_kv::state_machine::RocksStateMachine;
use rocks_raft_kv::store::{snapshot_id, RocksStore};
use rocks_raft_kv::types::{Entry, EntryPayload, LogId, Membership, Node, StoredMembership, Vote};

fn blank(term: u64, index: u64) -> Entry {
    Entry { log_id: LogId::new(term, 0, index), payload: EntryPayload::Blank }
}

fn put(term: u64, index: u64, key: &str, value: &str) -> Entry {
    Entry {
        log_id: LogId::new(term, 0, index),
        payload: EntryPayload::Normal(RocksRequest::Put { key: key.to_string(), value: value.to_string() }),
    }
}

fn delete(term: u64, index: u64, key: &str) -> Entry {
    Entry {
        log_id: LogId::new(term, 0, index),
        payload: EntryPayload::Normal(RocksRequest::Delete { key: key.to_string() }),
    }
}

fn indices(entries: &[Entry]) -> Vec<u64> {
    entries.iter().map(|e| e.log_id.index).collect()
}

#[test]
fn single_put_get() {
    let mut store = RocksStore::new();
    let res = store.apply_to_state_machine(&[put(1, 1, "a", "1")]);
    assert_eq!(res.len(), 1);
    assert!(matches!(res[0], RocksResponse::Put(Ok(()))));
    assert_eq!(store.get("a".to_string()), Some("1".to_string()));
    let (last, _) = store.last_applied_state();
    assert_eq!(last.unwrap().index, 1);
}

#[test]
fn conflict_truncation() {
    let mut store = RocksStore::new();
    store.append_to_log((1..=10).map(|i| blank(1, i)).collect());
    store.delete_conflict_logs_since(LogId::new(2, 0, 5));
    assert_eq!(store.get_log_state().last_log_id.unwrap().index, 4);
    assert!(store.try_get_log_entries(5, None).is_empty());
    assert_eq!(indices(&store.try_get_log_entries(0, None)), vec![1, 2, 3, 4]);
}

#[test]
fn snapshot_round_trip() {
    let mut store = RocksStore::new();
    store.apply_to_state_machine(&[put(1, 1, "k1", "v1"), put(1, 2, "k2", "v2"), delete(1, 3, "k1")]);
    let snap = store.build_snapshot().ok().unwrap();
    let mut fresh = RocksStore::new();
    assert!(fresh.install_snapshot(&snap.meta, snap.data.clone()).is_ok());
    assert_eq!(fresh.get("k1".to_string()), None);
    assert_eq!(fresh.get("k2".to_string()), Some("v2".to_string()));
    assert_eq!(fresh.last_applied_state().0, snap.meta.last_log_id);
    assert_eq!(fresh.last_applied_state().0.unwrap().index, 3);
    let current = fresh.get_current_snapshot().unwrap();
    assert_eq!(current.data, snap.data);
    assert_eq!(current.meta.snapshot_id, snap.meta.snapshot_id);
}

#[test]
fn purge_ordering() {
    let mut store = RocksStore::new();
    let entries: Vec<Entry> = (1..=100).map(|i| put(1, i, &format!("k{}", i), &format!("v{}", i))).collect();
    store.append_to_log(entries.clone());
    store.apply_to_state_machine(&entries[..50]);
    let snap = store.build_snapshot().ok().unwrap();
    assert_eq!(snap.meta.last_log_id.unwrap().index, 50);
    store.purge_logs_upto(LogId::new(1, 0, 50));
    let store = RocksStore::open(&store.image()).ok().unwrap();
    let rest = store.try_get_log_entries(0, None);
    assert_eq!(rest.len(), 50);
    assert_eq!(rest[0].log_id.index, 51);
    assert_eq!(store.get_log_state().last_purged_log_id.unwrap().index, 50);
    assert_eq!(store.get_log_state().last_log_id.unwrap().index, 100);
    assert!(store.try_get_log_entries(0, Some(51)).is_empty());
}

#[test]
fn vote_durability() {
    let mut store = RocksStore::new();
    assert_eq!(store.read_vote(), None);
    store.save_vote(&Vote { term: 7, node_id: 3, committed: false });
    let reopened = RocksStore::open(&store.image()).ok().unwrap();
    assert_eq!(reopened.read_vote(), Some(Vote { term: 7, node_id: 3, committed: false }));
}

#[test]
fn read_range_is_exact_and_ascending() {
    let mut store = RocksStore::new();
    store.append_to_log(vec![blank(1, 5), blank(1, 2), blank(1, 9), blank(1, 3)]);
    store.append_to_log(vec![put(2, 3, "x", "y"), blank(2, 7)]);
    assert_eq!(indices(&store.try_get_log_entries(3, Some(8))), vec![3, 5, 7]);
    assert_eq!(indices(&store.try_get_log_entries(0, None)), vec![2, 3, 5, 7, 9]);
    assert!(store.try_get_log_entries(10, None).is_empty());
    let replaced = store.try_get_log_entries(3, Some(4));
    assert_eq!(replaced[0].log_id.leader_id.term, 2);
    assert!(matches!(replaced[0].payload, EntryPayload::Normal(RocksRequest::Put { .. })));
}

#[test]
fn log_state_falls_back_to_last_purged() {
    let mut store = RocksStore::new();
    assert_eq!(store.get_log_state().last_log_id, None);
    store.append_to_log(vec![blank(1, 1), blank(1, 2)]);
    store.purge_logs_upto(LogId::new(1, 0, 2));
    let state = store.get_log_state();
    assert_eq!(state.last_purged_log_id, Some(LogId::new(1, 0, 2)));
    assert_eq!(state.last_log_id, Some(LogId::new(1, 0, 2)));
}

#[test]
fn apply_sets_last_applied_and_responses() {
    let mut store = RocksStore::new();
    let membership = Membership { configs: vec![vec![1, 2, 3]], nodes: vec![Node { id: 1, addr: "127.0.0.1:1".to_string() }] };
    let entries = vec![
        blank(1, 1),
        put(1, 2, "a", "1"),
        Entry { log_id: LogId::new(1, 0, 3), payload: EntryPayload::Membership(membership) },
        delete(1, 4, "a"),
        delete(1, 5, "missing"),
    ];
    let res = store.apply_to_state_machine(&entries);
    assert_eq!(res.len(), 5);
    assert!(matches!(res[0], RocksResponse::Put(Ok(()))));
    assert!(matches!(res[1], RocksResponse::Put(Ok(()))));
    assert!(matches!(res[2], RocksResponse::Put(Ok(()))));
    assert!(matches!(res[3], RocksResponse::Delete(Ok(()))));
    assert!(matches!(res[4], RocksResponse::Delete(Ok(()))));
    let (last, m) = store.last_applied_state();
    assert_eq!(last, Some(LogId::new(1, 0, 5)));
    assert_eq!(m.log_id, Some(LogId::new(1, 0, 3)));
    assert_eq!(m.membership.configs, vec![vec![1, 2, 3]]);
    assert_eq!(m.membership.nodes[0].addr, "127.0.0.1:1");
    assert_eq!(store.get("a".to_string()), None);
}

#[test]
fn snapshot_view_equal_after_install() {
    let mut store = RocksStore::new();
    store.apply_to_state_machine(&[put(3, 1, "b", "2"), put(3, 2, "a", "1"), put(3, 3, "ab", "é"), put(3, 4, "b", "3")]);
    let snap = store.build_snapshot().ok().unwrap();
    let mut fresh = RocksStore::new();
    fresh.install_snapshot(&snap.meta, snap.data.clone()).ok().unwrap();
    let a = store.snapshot_view();
    let b = fresh.snapshot_view();
    assert_eq!(a.data, b.data);
    assert_eq!(a.data, vec![
        ("a".to_string(), "1".to_string()),
        ("ab".to_string(), "é".to_string()),
        ("b".to_string(), "3".to_string()),
    ]);
    assert_eq!(a.last_applied_log, b.last_applied_log);
    assert_eq!(a.last_membership.log_id, b.last_membership.log_id);
}

#[test]
fn install_replaces_existing_data() {
    let mut source = RocksStore::new();
    source.apply_to_state_machine(&[put(1, 1, "x", "1")]);
    let snap = source.build_snapshot().ok().unwrap();
    let mut target = RocksStore::new();
    target.apply_to_state_machine(&[put(1, 1, "y", "2")]);
    target.install_snapshot(&snap.meta, snap.data.clone()).ok().unwrap();
    assert_eq!(target.get("y".to_string()), None);
    assert_eq!(target.get("x".to_string()), Some("1".to_string()));
}

#[test]
fn install_rejects_bad_data() {
    let mut store = RocksStore::new();
    store.apply_to_state_machine(&[put(1, 1, "x", "1")]);
    let meta = SnapshotMeta { last_log_id: None, last_membership: StoredMembership { log_id: None, membership: Membership { configs: vec![], nodes: vec![] } }, snapshot_id: "--1".to_string() };
    let err = store.install_snapshot(&meta, vec![7, 7, 7]).err().unwrap();
    assert_eq!(err.verb, ErrorVerb::Read);
    match err.subject {
        ErrorSubject::Snapshot(Some(sig)) => assert_eq!(sig.snapshot_id, "--1"),
        _ => panic!("wrong subject"),
    }
    assert_eq!(store.get("x".to_string()), Some("1".to_string()));
    assert!(store.get_current_snapshot().is_none());
}

#[test]
fn snapshot_ids_and_counter() {
    let mut store = RocksStore::new();
    let first = store.build_snapshot().ok().unwrap();
    assert_eq!(first.meta.snapshot_id, "--1");
    store.apply_to_state_machine(&[Entry { log_id: LogId::new(2, 1, 5), payload: EntryPayload::Blank }]);
    let second = store.build_snapshot().ok().unwrap();
    assert_eq!(second.meta.snapshot_id, "T2-N1-5-2");
    assert_eq!(snapshot_id(Some(LogId::new(10, 3, 120)), 45), "T10-N3-120-45");
    assert_eq!(snapshot_id(None, 0), "--0");
}

#[test]
fn index_encoding_round_trip() {
    assert_eq!(id_to_bytes(0x0102030405060708), vec![1, 2, 3, 4, 5, 6, 7, 8]);
    assert_eq!(id_to_bytes(0), vec![0; 8]);
    for id in [0u64, 1, 255, 256, 50, u64::MAX, u64::MAX - 1, 1 << 63] {
        assert_eq!(bytes_to_id(&id_to_bytes(id)), id);
    }
    assert!(id_to_bytes(255) < id_to_bytes(256));
}

#[test]
fn state_data_encoding_round_trip() {
    let mut sm = RocksStateMachine::new();
    sm.put("key".to_string(), "välue".to_string());
    sm.set_last_applied_log(&LogId::new(4, 2, 9));
    let view = sm.snapshot_view();
    let bytes = encode_state(&view);
    let back = decode_state(&bytes).unwrap();
    assert_eq!(back.data, vec![("key".to_string(), "välue".to_string())]);
    assert_eq!(back.last_applied_log, Some(LogId::new(4, 2, 9)));
    let mut trailing = bytes.clone();
    trailing.push(0);
    assert!(decode_state(&trailing).is_none());
    assert!(decode_state(&bytes[..bytes.len() - 1]).is_none());
}

#[test]
fn invalid_utf8_is_rejected() {
    let mut sm = RocksStateMachine::new();
    sm.put("k".to_string(), "v".to_string());
    let mut bytes = encode_state(&sm.snapshot_view());
    let last = bytes.len() - 1;
    bytes[last] = 0xff;
    assert!(decode_state(&bytes).is_none());
}

#[test]
fn state_machine_put_get_delete() {
    let mut sm = RocksStateMachine::new();
    assert_eq!(sm.get("a".to_string()), None);
    sm.put("a".to_string(), "1".to_string());
    sm.put("a".to_string(), "2".to_string());
    assert_eq!(sm.get("a".to_string()), Some("2".to_string()));
    sm.delete("a".to_string());
    sm.delete("a".to_string());
    assert_eq!(sm.get("a".to_string()), None);
}

#[test]
fn meta_record_subjects() {
    assert!(matches!(MetaRecord::Vote.subject(None), ErrorSubject::Vote));
    assert!(matches!(MetaRecord::LastPurged.subject(None), ErrorSubject::Store));
    assert!(matches!(MetaRecord::SnapshotIndex.subject(None), ErrorSubject::Store));
    let meta = SnapshotMeta { last_log_id: Some(LogId::new(1, 2, 3)), last_membership: StoredMembership { log_id: None, membership: Membership { configs: vec![], nodes: vec![] } }, snapshot_id: "T1-N2-3-1".to_string() };
    match MetaRecord::Snapshot.subject(Some(&meta)) {
        ErrorSubject::Snapshot(Some(sig)) => {
            assert_eq!(sig.snapshot_id, "T1-N2-3-1");
            assert_eq!(sig.last_log_id, Some(LogId::new(1, 2, 3)));
        }
        _ => panic!("wrong subject"),
    }
}

#[test]
fn meta_record_keys() {
    assert_eq!(MetaRecord::Vote.key(), "vote");
    assert_eq!(MetaRecord::LastPurged.key(), "last_purged_log_id");
    assert_eq!(MetaRecord::SnapshotIndex.key(), "snapshot_index");
    assert_eq!(MetaRecord::Snapshot.key(), "snapshot");
}

#[test]
fn begin_receiving_snapshot_is_empty() {
    let store = RocksStore::new();
    assert!(store.begin_receiving_snapshot().is_empty());
}

#[test]
fn reopen_reproduces_state() {
    let mut store = RocksStore::new();
    let membership = Membership { configs: vec![vec![1, 2], vec![2, 3]], nodes: vec![Node { id: 2, addr: "n2".to_string() }] };
    let entries = vec![
        put(1, 1, "a", "1"),
        Entry { log_id: LogId::new(1, 2, 2), payload: EntryPayload::Membership(membership) },
        delete(1, 3, "a"),
        put(1, 4, "b", "2"),
        blank(2, 5),
    ];
    store.append_to_log(entries.clone());
    store.apply_to_state_machine(&entries[..4]);
    store.save_vote(&Vote { term: 2, node_id: 1, committed: true });
    store.build_snapshot().ok().unwrap();
    store.purge_logs_upto(LogId::new(1, 2, 2));
    let image = store.image();
    let reopened = RocksStore::open(&image).ok().unwrap();
    assert_eq!(indices(&reopened.try_get_log_entries(0, None)), vec![3, 4, 5]);
    assert_eq!(reopened.read_vote(), Some(Vote { term: 2, node_id: 1, committed: true }));
    assert_eq!(reopened.get_log_state().last_purged_log_id, Some(LogId::new(1, 2, 2)));
    assert_eq!(reopened.get("b".to_string()), Some("2".to_string()));
    assert_eq!(reopened.get("a".to_string()), None);
    let (last, m) = reopened.last_applied_state();
    assert_eq!(last, Some(LogId::new(1, 0, 4)));
    assert_eq!(m.membership.configs, vec![vec![1, 2], vec![2, 3]]);
    let snap = reopened.get_current_snapshot().unwrap();
    assert_eq!(snap.meta.snapshot_id, "T1-N0-4-1");
    assert_eq!(snap.data, store.get_current_snapshot().unwrap().data);
    let again = reopened.image();
    assert_eq!(again.logs, image.logs);
    assert_eq!(again.vote, image.vote);
    assert_eq!(again.snapshot, image.snapshot);
    assert_eq!(again.last_membership, image.last_membership);
}

#[test]
fn log_keys_are_big_endian_indices() {
    let mut store = RocksStore::new();
    store.append_to_log(vec![blank(1, 300), blank(1, 2)]);
    let image = store.image();
    assert_eq!(image.logs[0].0, vec![0, 0, 0, 0, 0, 0, 0, 2]);
    assert_eq!(image.logs[1].0, vec![0, 0, 0, 0, 0, 0, 1, 44]);
    assert!(image.logs[0].0 < image.logs[1].0);
}

#[test]
fn open_rejects_malformed_records() {
    let mut store = RocksStore::new();
    store.append_to_log(vec![blank(1, 1), blank(1, 2)]);
    let mut image = store.image();
    image.logs[1].0 = id_to_bytes(7);
    let err = RocksStore::open(&image).err().unwrap();
    assert!(matches!(err.subject, ErrorSubject::Logs));
    assert_eq!(err.verb, ErrorVerb::Read);

    let mut image = store.image();
    image.logs.swap(0, 1);
    assert!(matches!(RocksStore::open(&image).err().unwrap().subject, ErrorSubject::Logs));

    let mut image = store.image();
    image.vote = Some(vec![1, 2, 3]);
    assert!(matches!(RocksStore::open(&image).err().unwrap().subject, ErrorSubject::Vote));

    let mut image = store.image();
    image.snapshot_index = Some(vec![0; 7]);
    assert!(matches!(RocksStore::open(&image).err().unwrap().subject, ErrorSubject::Store));
}

#[test]
fn empty_image_opens_fresh_store() {
    let image = RocksStore::new().image();
    assert!(image.logs.is_empty());
    assert!(image.vote.is_none());
    let store = RocksStore::open(&image).ok().unwrap();
    assert!(store.try_get_log_entries(0, None).is_empty());
    assert_eq!(store.last_applied_state().0, None);
}

#[test]
fn build_fails_when_counter_is_exhausted() {
    let mut image = RocksStore::new().image();
    image.snapshot_index = Some(id_to_bytes(u64::MAX));
    let mut store = RocksStore::open(&image).ok().unwrap();
    let err = store.build_snapshot().err().unwrap();
    assert!(matches!(err.subject, ErrorSubject::Store));
    assert_eq!(err.verb, ErrorVerb::Write);
    assert!(store.get_current_snapshot().is_none());
    assert_eq!(store.image().snapshot_index, Some(id_to_bytes(u64::MAX)));
}

#[test]
fn open_names_the_failing_key_space() {
    let mut image = RocksStore::new().image();
    image.snapshot = Some(vec![9]);
    assert!(matches!(RocksStore::open(&image).err().unwrap().subject, ErrorSubject::Snapshot(None)));

    let mut image = RocksStore::new().image();
    image.last_applied_log = Some(vec![1, 2]);
    assert!(matches!(RocksStore::open(&image).err().unwrap().subject, ErrorSubject::StateMachine));

    let mut image = RocksStore::new().image();
    image.last_membership = Some(vec![]);
    assert!(matches!(RocksStore::open(&image).err().unwrap().subject, ErrorSubject::StateMachine));

    let mut image = RocksStore::new().image();
    image.last_purged_log_id = Some(vec![0]);
    assert!(matches!(RocksStore::open(&image).err().unwrap().subject, ErrorSubject::Store));
}
