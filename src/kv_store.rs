//! The single-node key-value store: ordered user data, and for every change
//! the event that watchers of its key receive.

use vstd::prelude::*;
use crate::rocks_client::copy_string;
use crate::state_machine::{
    KvView, RocksStateMachine, delete_kv, keys_ascending, key_bytes, kv_views, put_kv, value_of,
};

verus! {

/// The kind of change a watch event reports.
#[derive(Clone, Copy, Debug, PartialEq, Eq, Structural)]
pub enum EventType {
    Put,
    Delete,
}

/// A change to one key: its new value (empty for a deletion) and its kind.
#[derive(Clone, Debug)]
pub struct WatchEvent {
    pub key: String,
    pub value: String,
    pub op: EventType,
}

/// The single-node store.
pub struct KvStore {
    data: RocksStateMachine,
}

/// `p` is a byte prefix of `k`.
pub open spec fn starts_with(k: Seq<char>, p: Seq<char>) -> bool {
    key_bytes(p).len() <= key_bytes(k).len() && key_bytes(k).subrange(0, key_bytes(p).len() as int)
        == key_bytes(p)
}

pub open spec fn has_prefix(p: Seq<char>) -> spec_fn(KvView) -> bool {
    |e: KvView| starts_with(e.0, p)
}

fn bytes_start_with(k: &[u8], p: &[u8]) -> (r: bool)
    ensures
        r == (p@.len() <= k@.len() && k@.subrange(0, p@.len() as int) == p@),
{
    if p.len() > k.len() {
        return false;
    }
    let mut i: usize = 0;
    while i < p.len()
        invariant
            p@.len() <= k@.len(),
            i <= p@.len(),
            k@.subrange(0, i as int) == p@.subrange(0, i as int),
        decreases p@.len() - i,
    {
        if k[i] != p[i] {
            assert(k@.subrange(0, p@.len() as int)[i as int] != p@[i as int]);
            return false;
        }
        i = i + 1;
        assert(k@.subrange(0, i as int) =~= p@.subrange(0, i as int));
    }
    assert(p@.subrange(0, i as int) =~= p@);
    true
}

impl KvStore {
    /// The stored pairs, keys ascending in byte order.
    pub closed spec fn contents(&self) -> Seq<KvView> {
        self.data@.data
    }

    pub open spec fn wf(&self) -> bool {
        keys_ascending(self.contents())
    }

    /// An empty store.
    pub fn new() -> (r: KvStore)
        ensures
            r.wf(),
            r.contents().len() == 0,
    {
        KvStore { data: RocksStateMachine::new() }
    }

    /// Sets `key` to `value`; returns the event to publish.
    pub fn put(&mut self, key: String, value: String) -> (r: WatchEvent)
        requires
            old(self).wf(),
        ensures
            final(self).wf(),
            final(self).contents() == put_kv(old(self).contents(), key@, value@),
            r.key@ == key@,
            r.value@ == value@,
            r.op == EventType::Put,
    {
        let event = WatchEvent { key: copy_string(&key), value: copy_string(&value), op: EventType::Put };
        self.data.put(key, value);
        event
    }

    /// The value stored under `key`.
    pub fn get(&self, key: &str) -> (r: Option<String>)
        requires
            self.wf(),
        ensures
            match r {
                Some(v) => value_of(self.contents(), key@) == Some(v@),
                None => value_of(self.contents(), key@).is_none(),
            },
    {
        self.data.get(key.to_owned())
    }

    /// The pairs whose key starts with `prefix`, keys ascending in byte order.
    pub fn prefix_scan(&self, prefix: &str) -> (r: Vec<(String, String)>)
        requires
            self.wf(),
        ensures
            kv_views(r@) == self.contents().filter(has_prefix(prefix@)),
    {
        let all = self.data.snapshot_view().data;
        let pb = prefix.as_bytes();
        let ghost s = kv_views(all@);
        let mut r: Vec<(String, String)> = Vec::new();
        let mut i: usize = 0;
        proof {
            reveal(key_bytes);
        }
        while i < all.len()
            invariant
                i <= all@.len(),
                s == kv_views(all@),
                s == self.contents(),
                pb@ == key_bytes(prefix@),
                kv_views(r@) == s.subrange(0, i as int).filter(has_prefix(prefix@)),
            decreases all@.len() - i,
        {
            proof {
                reveal(Seq::filter);
                reveal(key_bytes);
            }
            let ghost before = kv_views(r@);
            let keep = bytes_start_with(all[i].0.as_str().as_bytes(), pb);
            if keep {
                r.push((copy_string(&all[i].0), copy_string(&all[i].1)));
                assert(kv_views(r@) =~= before.push(s[i as int]));
            } else {
                assert(kv_views(r@) =~= before);
            }
            assert(s.subrange(0, i + 1).drop_last() =~= s.subrange(0, i as int));
            i = i + 1;
        }
        assert(s.subrange(0, i as int) =~= s);
        r
    }

    /// Removes `key`; returns the event to publish.
    pub fn delete(&mut self, key: &str) -> (r: WatchEvent)
        requires
            old(self).wf(),
        ensures
            final(self).wf(),
            final(self).contents() == delete_kv(old(self).contents(), key@),
            r.key@ == key@,
            r.value@.len() == 0,
            r.op == EventType::Delete,
    {
        self.data.delete(key.to_owned());
        WatchEvent { key: key.to_owned(), value: String::new(), op: EventType::Delete }
    }

    /// Removes every pair; returns one deletion event per removed key, keys
    /// ascending in byte order.
    pub fn delete_all(&mut self) -> (r: Vec<WatchEvent>)
        requires
            old(self).wf(),
        ensures
            final(self).wf(),
            final(self).contents().len() == 0,
            r@.len() == old(self).contents().len(),
            forall|i: int|
                0 <= i < r@.len() ==> (#[trigger] r@[i]).key@ == old(self).contents()[i].0
                    && r@[i].value@.len() == 0 && r@[i].op == EventType::Delete,
    {
        let all = self.data.snapshot_view().data;
        let mut events: Vec<WatchEvent> = Vec::with_capacity(all.len());
        let mut i: usize = 0;
        while i < all.len()
            invariant
                i <= all@.len(),
                kv_views(all@) == old(self).contents(),
                events@.len() == i,
                forall|j: int|
                    0 <= j < i ==> (#[trigger] events@[j]).key@ == old(self).contents()[j].0
                        && events@[j].value@.len() == 0 && events@[j].op == EventType::Delete,
            decreases all@.len() - i,
        {
            events.push(
                WatchEvent { key: copy_string(&all[i].0), value: String::new(), op: EventType::Delete },
            );
            i = i + 1;
        }
        self.data = RocksStateMachine::new();
        events
    }
}

/// What a watcher of `watch_key` receives for `event`: the event itself when
/// it concerns that key, nothing otherwise.
pub fn watch_filter(watch_key: &String, event: &WatchEvent) -> (r: Option<WatchEvent>)
    ensures
        event.key@ == watch_key@ ==> (r matches Some(e) && e.key@ == event.key@ && e.value@
            == event.value@ && e.op == event.op),
        event.key@ != watch_key@ ==> r.is_none(),
{
    if event.key == *watch_key {
        Some(WatchEvent { key: copy_string(&event.key), value: copy_string(&event.value), op: event.op })
    } else {
        None
    }
}

} // verus!
