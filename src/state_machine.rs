//! The applied state machine: user data (`sm_data`), kept in ascending key
//! byte order, and the applied-state metadata (`sm_meta`).

use vstd::prelude::*;
use vstd::utf8::{encode_utf8, encode_utf8_decode_utf8};
use crate::key_order::{bytes_lt, bytes_less, lemma_bytes_lt_asymmetric, lemma_bytes_lt_irreflexive, lemma_bytes_lt_total, lemma_bytes_lt_transitive};
use crate::log_store::{lemma_filter_all, lemma_filter_prefix, lemma_filter_suffix};
use crate::rocks_client::copy_string;
use crate::types::{LogId, StoredMembership, StoredMembershipView};

verus! {

/// The bytes of a key: its UTF-8 encoding.
#[verifier::opaque]
pub open spec fn key_bytes(k: Seq<char>) -> Seq<u8> {
    encode_utf8(k)
}

/// A key and its value, as character sequences.
pub type KvView = (Seq<char>, Seq<char>);

/// The views of a sequence of key-value pairs.
pub open spec fn kv_views(s: Seq<(String, String)>) -> Seq<KvView> {
    s.map_values(|p: (String, String)| (p.0@, p.1@))
}

/// Keys strictly ascend in byte order: each key appears once.
pub open spec fn keys_ascending(s: Seq<KvView>) -> bool {
    forall|i: int, j: int|
        0 <= i < j < s.len() ==> bytes_lt(key_bytes(s[i].0), key_bytes(s[j].0))
}

pub open spec fn key_below(k: Seq<char>) -> spec_fn(KvView) -> bool {
    |p: KvView| bytes_lt(key_bytes(p.0), key_bytes(k))
}

pub open spec fn key_above(k: Seq<char>) -> spec_fn(KvView) -> bool {
    |p: KvView| bytes_lt(key_bytes(k), key_bytes(p.0))
}

pub open spec fn key_other(k: Seq<char>) -> spec_fn(KvView) -> bool {
    |p: KvView| p.0 != k
}

/// The data after setting `k` to `v`.
pub open spec fn put_kv(s: Seq<KvView>, k: Seq<char>, v: Seq<char>) -> Seq<KvView> {
    s.filter(key_below(k)) + seq![(k, v)] + s.filter(key_above(k))
}

/// The data after setting each pair of `ps` in turn.
pub open spec fn put_kvs(s: Seq<KvView>, ps: Seq<KvView>) -> Seq<KvView>
    decreases ps.len(),
{
    if ps.len() == 0 {
        s
    } else {
        put_kv(put_kvs(s, ps.drop_last()), ps.last().0, ps.last().1)
    }
}

/// The data after removing `k`.
pub open spec fn delete_kv(s: Seq<KvView>, k: Seq<char>) -> Seq<KvView> {
    s.filter(key_other(k))
}

/// The value stored under `k`, if any.
pub open spec fn value_of(s: Seq<KvView>, k: Seq<char>) -> Option<Seq<char>>
    decreases s.len(),
{
    if s.len() == 0 {
        None
    } else if s.last().0 == k {
        Some(s.last().1)
    } else {
        value_of(s.drop_last(), k)
    }
}

/// What a state machine holds, and what its serializable form holds.
pub struct SmView {
    pub last_applied_log: Option<LogId>,
    pub last_membership: StoredMembershipView,
    pub data: Seq<KvView>,
}

/// The whole applied state as one value: what a snapshot carries.
pub struct SerializableRocksStateMachine {
    pub last_applied_log: Option<LogId>,
    pub last_membership: StoredMembership,
    pub data: Vec<(String, String)>,
}

impl View for SerializableRocksStateMachine {
    type V = SmView;

    open spec fn view(&self) -> SmView {
        SmView {
            last_applied_log: self.last_applied_log,
            last_membership: self.last_membership@,
            data: kv_views(self.data@),
        }
    }
}

/// The applied state machine.
pub struct RocksStateMachine {
    data: Vec<(String, String)>,
    last_applied_log: Option<LogId>,
    last_membership: StoredMembership,
}

impl View for RocksStateMachine {
    type V = SmView;

    closed spec fn view(&self) -> SmView {
        SmView {
            last_applied_log: self.last_applied_log,
            last_membership: self.last_membership@,
            data: kv_views(self.data@),
        }
    }
}

proof fn lemma_encode_injective(a: Seq<char>, b: Seq<char>)
    requires
        key_bytes(a) == key_bytes(b),
    ensures
        a == b,
{
    reveal(key_bytes);
    encode_utf8_decode_utf8(a);
    encode_utf8_decode_utf8(b);
}

/// Copies a key-value pair.
fn copy_pair(p: &(String, String)) -> (r: (String, String))
    ensures
        r.0@ == p.0@,
        r.1@ == p.1@,
{
    (copy_string(&p.0), copy_string(&p.1))
}

/// Copies a list of key-value pairs.
pub fn copy_pairs(v: &Vec<(String, String)>) -> (r: Vec<(String, String)>)
    ensures
        kv_views(r@) == kv_views(v@),
{
    let mut r: Vec<(String, String)> = Vec::with_capacity(v.len());
    let mut i: usize = 0;
    while i < v.len()
        invariant
            i <= v@.len(),
            r@.len() == i,
            forall|j: int| 0 <= j < i ==> #[trigger] r@[j].0@ == v@[j].0@ && r@[j].1@ == v@[j].1@,
        decreases v@.len() - i,
    {
        r.push(copy_pair(&v[i]));
        i = i + 1;
    }
    assert(kv_views(r@) =~= kv_views(v@));
    r
}

impl RocksStateMachine {
    /// Keys are unique and kept in ascending byte order.
    pub open spec fn wf(&self) -> bool {
        keys_ascending(self@.data)
    }

    /// A state machine with nothing applied.
    pub fn new() -> (r: RocksStateMachine)
        ensures
            r.wf(),
            r@.data.len() == 0,
            r@.last_applied_log.is_none(),
            r@.last_membership.log_id.is_none(),
            r@.last_membership.membership.configs.len() == 0,
            r@.last_membership.membership.nodes.len() == 0,
    {
        let r = RocksStateMachine {
            data: Vec::new(),
            last_applied_log: None,
            last_membership: StoredMembership::initial(),
        };
        assert(r@.data =~= Seq::<KvView>::empty());
        r
    }

    /// The value stored under `key`.
    pub fn get(&self, key: String) -> (r: Option<String>)
        requires
            self.wf(),
        ensures
            match r {
                Some(v) => value_of(self@.data, key@) == Some(v@),
                None => value_of(self@.data, key@).is_none(),
            },
    {
        let ghost s = self@.data;
        let mut i: usize = self.data.len();
        assert(s.subrange(0, s.len() as int) =~= s);
        while i > 0
            invariant
                i <= s.len(),
                s == kv_views(self.data@),
                value_of(s, key@) == value_of(s.subrange(0, i as int), key@),
            decreases i,
        {
            let ghost t = s.subrange(0, i as int);
            assert(t.drop_last() =~= s.subrange(0, i - 1));
            if self.data[i - 1].0 == key {
                return Some(copy_string(&self.data[i - 1].1));
            }
            i = i - 1;
        }
        None
    }

    /// The first position whose key is not below `key` in byte order.
    fn position_of(&self, key: &String) -> (p: usize)
        requires
            self.wf(),
        ensures
            p <= self@.data.len(),
            forall|i: int| 0 <= i < p ==> (key_below(key@))(#[trigger] self@.data[i]),
            forall|i: int| p <= i < self@.data.len() ==> !(key_below(key@))(#[trigger] self@.data[i]),
    {
        let ghost s = self@.data;
        let kb = key.as_str().as_bytes();
        proof {
            reveal(key_bytes);
        }
        let mut p: usize = 0;
        while p < self.data.len() && bytes_less(self.data[p].0.as_str().as_bytes(), kb)
            invariant
                self.wf(),
                s == self@.data,
                kb@ == key_bytes(key@),
                p <= s.len(),
                s.len() == self.data@.len(),
                forall|i: int| 0 <= i < p ==> (key_below(key@))(#[trigger] s[i]),
            decreases s.len() - p,
        {
            proof {
                reveal(key_bytes);
            }
            p = p + 1;
        }
        assert forall|i: int| p <= i < s.len() implies !(key_below(key@))(#[trigger] s[i]) by {
            if i > p && bytes_lt(key_bytes(s[i].0), key_bytes(key@)) {
                lemma_bytes_lt_transitive(
                    key_bytes(s[p as int].0),
                    key_bytes(s[i].0),
                    key_bytes(key@),
                );
            }
        }
        p
    }

    /// Sets `key` to `value`.
    pub fn put(&mut self, key: String, value: String)
        requires
            old(self).wf(),
        ensures
            final(self).wf(),
            final(self)@.data == put_kv(old(self)@.data, key@, value@),
            final(self)@.last_applied_log == old(self)@.last_applied_log,
            final(self)@.last_membership == old(self)@.last_membership,
    {
        let ghost s = self@.data;
        let ghost k = key@;
        let ghost v = value@;
        let p = self.position_of(&key);
        proof {
            lemma_filter_prefix(s, p as int, key_below(k));
        }
        let replace = p < self.data.len() && self.data[p].0 == key;
        if replace {
            assert forall|i: int| 0 <= i < s.len() implies (key_above(k))(s[i]) <==> p + 1 <= i by {
                if p + 1 <= i < s.len() {
                    assert(bytes_lt(key_bytes(s[p as int].0), key_bytes(s[i].0)));
                }
                if i < p {
                    lemma_bytes_lt_asymmetric(key_bytes(s[i].0), key_bytes(k));
                }
                if i == p {
                    lemma_bytes_lt_irreflexive(key_bytes(k));
                }
            }
            proof {
                lemma_filter_suffix(s, p + 1, key_above(k));
            }
            let _old = self.data.remove(p);
            self.data.insert(p, (key, value));
            assert(self@.data =~= s.subrange(0, p as int) + seq![(k, v)] + s.subrange(
                p + 1,
                s.len() as int,
            ));
        } else {
            proof {
                if p < s.len() {
                    assert(s[p as int].0 != k);
                    if key_bytes(s[p as int].0) == key_bytes(k) {
                        lemma_encode_injective(s[p as int].0, k);
                    }
                    lemma_bytes_lt_total(key_bytes(s[p as int].0), key_bytes(k));
                }
            }
            assert forall|i: int| 0 <= i < s.len() implies (key_above(k))(s[i]) <==> p <= i by {
                if p < i < s.len() {
                    lemma_bytes_lt_transitive(
                        key_bytes(k),
                        key_bytes(s[p as int].0),
                        key_bytes(s[i].0),
                    );
                }
                if i < p {
                    lemma_bytes_lt_asymmetric(key_bytes(s[i].0), key_bytes(k));
                }
            }
            proof {
                lemma_filter_suffix(s, p as int, key_above(k));
            }
            self.data.insert(p, (key, value));
            assert(self@.data =~= s.subrange(0, p as int) + seq![(k, v)] + s.subrange(
                p as int,
                s.len() as int,
            ));
        }
    }

    /// Removes `key`; removing an absent key changes nothing.
    pub fn delete(&mut self, key: String)
        requires
            old(self).wf(),
        ensures
            final(self).wf(),
            final(self)@.data == delete_kv(old(self)@.data, key@),
            final(self)@.last_applied_log == old(self)@.last_applied_log,
            final(self)@.last_membership == old(self)@.last_membership,
    {
        let ghost s = self@.data;
        let ghost k = key@;
        match self.index_of(&key) {
            Some(i) => {
                assert forall|j: int| 0 <= j < s.len() && j != i implies (key_other(k))(
                    #[trigger] s[j],
                ) by {
                    if j > i {
                        assert(bytes_lt(key_bytes(s[i as int].0), key_bytes(s[j].0)));
                    } else {
                        assert(bytes_lt(key_bytes(s[j].0), key_bytes(s[i as int].0)));
                    }
                    lemma_bytes_lt_irreflexive(key_bytes(k));
                }
                let ghost a = s.subrange(0, i as int);
                let ghost b = s.subrange(i + 1, s.len() as int);
                assert(s =~= a + seq![s[i as int]] + b);
                assert(s.filter(key_other(k)) == a + b) by {
                    reveal(Seq::filter);
                    let x = seq![s[i as int]];
                    lemma_filter_all(a, key_other(k));
                    lemma_filter_all(b, key_other(k));
                    crate::log_store::lemma_filter_none(x, key_other(k));
                    Seq::filter_distributes_over_add(a, x, key_other(k));
                    Seq::filter_distributes_over_add(a + x, b, key_other(k));
                    assert(a + Seq::<KvView>::empty() =~= a);
                }
                let _gone = self.data.remove(i);
                assert(self@.data =~= a + b);
            },
            None => {
                proof {
                    lemma_filter_all(s, key_other(k));
                }
            },
        }
    }

    /// The position of `key`, if it is stored.
    fn index_of(&self, key: &String) -> (r: Option<usize>)
        ensures
            match r {
                Some(i) => i < self@.data.len() && self@.data[i as int].0 == key@,
                None => forall|j: int| 0 <= j < self@.data.len() ==> (key_other(key@))(
                    #[trigger] self@.data[j],
                ),
            },
    {
        let ghost s = self@.data;
        let mut i: usize = 0;
        while i < self.data.len()
            invariant
                s == self@.data,
                s.len() == self.data@.len(),
                i <= s.len(),
                forall|j: int| 0 <= j < i ==> (key_other(key@))(#[trigger] s[j]),
            decreases s.len() - i,
        {
            if self.data[i].0 == *key {
                return Some(i);
            }
            i = i + 1;
        }
        None
    }

    pub fn get_last_applied_log(&self) -> (r: Option<LogId>)
        ensures
            r == self@.last_applied_log,
    {
        self.last_applied_log
    }

    pub fn set_last_applied_log(&mut self, log_id: &LogId)
        ensures
            final(self)@.last_applied_log == Some(*log_id),
            final(self)@.data == old(self)@.data,
            final(self)@.last_membership == old(self)@.last_membership,
    {
        self.last_applied_log = Some(*log_id);
    }

    pub fn get_last_membership(&self) -> (r: StoredMembership)
        ensures
            r@ == self@.last_membership,
    {
        self.last_membership.copy()
    }

    pub fn set_last_membership(&mut self, membership: StoredMembership)
        ensures
            final(self)@.last_membership == membership@,
            final(self)@.data == old(self)@.data,
            final(self)@.last_applied_log == old(self)@.last_applied_log,
    {
        self.last_membership = membership;
    }

    /// The whole applied state as one value, keys in ascending byte order.
    pub fn snapshot_view(&self) -> (r: SerializableRocksStateMachine)
        ensures
            r@ == self@,
    {
        SerializableRocksStateMachine {
            last_applied_log: self.last_applied_log,
            last_membership: self.last_membership.copy(),
            data: copy_pairs(&self.data),
        }
    }

    /// A state machine holding exactly what `sm` holds; where a key occurs
    /// more than once in `sm.data`, its last value counts.
    pub fn from_serializable(sm: SerializableRocksStateMachine) -> (r: RocksStateMachine)
        ensures
            r.wf(),
            r@.last_applied_log == sm@.last_applied_log,
            r@.last_membership == sm@.last_membership,
            r@.data == put_kvs(Seq::<KvView>::empty(), sm@.data),
    {
        let SerializableRocksStateMachine { last_applied_log, last_membership, data } = sm;
        let ghost ps = kv_views(data@);
        let mut r = RocksStateMachine::new();
        assert(r@.data =~= Seq::<KvView>::empty());
        let mut i: usize = 0;
        while i < data.len()
            invariant
                r.wf(),
                i <= data@.len(),
                ps == kv_views(data@),
                r@.data == put_kvs(Seq::<KvView>::empty(), ps.subrange(0, i as int)),
            decreases data@.len() - i,
        {
            let (k, v) = copy_pair(&data[i]);
            r.put(k, v);
            assert(ps.subrange(0, i + 1).drop_last() =~= ps.subrange(0, i as int));
            i = i + 1;
        }
        assert(ps.subrange(0, i as int) =~= ps);
        r.set_last_applied_log_opt(last_applied_log);
        r.set_last_membership(last_membership);
        r
    }

    fn set_last_applied_log_opt(&mut self, log_id: Option<LogId>)
        ensures
            final(self)@.last_applied_log == log_id,
            final(self)@.data == old(self)@.data,
            final(self)@.last_membership == old(self)@.last_membership,
    {
        self.last_applied_log = log_id;
    }
}

/// Setting the pairs of ascending data one by one, starting from nothing,
/// gives that data back.
proof fn lemma_put_kv_last(t: Seq<KvView>, k: Seq<char>, v: Seq<char>)
    requires
        forall|i: int| 0 <= i < t.len() ==> bytes_lt(key_bytes(#[trigger] t[i].0), key_bytes(k)),
    ensures
        put_kv(t, k, v) == t.push((k, v)),
{
    assert forall|i: int| 0 <= i < t.len() implies !(key_above(k))(t[i]) by {
        lemma_bytes_lt_asymmetric(key_bytes(t[i].0), key_bytes(k));
    }
    lemma_filter_all(t, key_below(k));
    crate::log_store::lemma_filter_none(t, key_above(k));
    assert(t + seq![(k, v)] + Seq::<KvView>::empty() =~= t.push((k, v)));
}

/// Setting the pairs of ascending data one by one, starting from nothing,
/// gives that data back.
pub proof fn lemma_put_kvs_ascending(ps: Seq<KvView>)
    requires
        keys_ascending(ps),
    ensures
        put_kvs(Seq::<KvView>::empty(), ps) == ps,
    decreases ps.len(),
{
    if ps.len() > 0 {
        let t = ps.drop_last();
        let last = ps.last();
        assert(keys_ascending(t)) by {
            assert forall|i: int, j: int| 0 <= i < j < t.len() implies bytes_lt(
                key_bytes(t[i].0),
                key_bytes(t[j].0),
            ) by {
                assert(t[i] == ps[i] && t[j] == ps[j]);
            }
        }
        lemma_put_kvs_ascending(t);
        assert forall|i: int| 0 <= i < t.len() implies bytes_lt(
            key_bytes(#[trigger] t[i].0),
            key_bytes(last.0),
        ) by {
            assert(t[i] == ps[i]);
            assert(ps[ps.len() - 1] == last);
        }
        lemma_put_kv_last(t, last.0, last.1);
        assert(t.push((last.0, last.1)) =~= ps);
    }
}


proof fn lemma_value_of_absent(s: Seq<KvView>, k: Seq<char>)
    requires
        forall|i: int| 0 <= i < s.len() ==> (#[trigger] s[i]).0 != k,
    ensures
        value_of(s, k).is_none(),
    decreases s.len(),
{
    if s.len() > 0 {
        assert(s[s.len() - 1] == s.last());
        lemma_value_of_absent(s.drop_last(), k);
    }
}

proof fn lemma_value_of_append(a: Seq<KvView>, b: Seq<KvView>, k: Seq<char>)
    requires
        forall|i: int| 0 <= i < b.len() ==> (#[trigger] b[i]).0 != k,
    ensures
        value_of(a + b, k) == value_of(a, k),
    decreases b.len(),
{
    if b.len() > 0 {
        assert((a + b).drop_last() =~= a + b.drop_last());
        assert((a + b).last() == b[b.len() - 1]);
        lemma_value_of_append(a, b.drop_last(), k);
    } else {
        assert(a + b =~= a);
    }
}

/// Reading a key right after setting it gives the value set; right after
/// deleting it, nothing.
pub proof fn lemma_read_after_write(s: Seq<KvView>, k: Seq<char>, v: Seq<char>)
    ensures
        value_of(put_kv(s, k, v), k) == Some(v),
        value_of(delete_kv(s, k), k).is_none(),
{
    let lo = s.filter(key_below(k));
    let hi = s.filter(key_above(k));
    #[allow(deprecated)]
    s.filter_lemma(key_above(k));
    assert forall|i: int| 0 <= i < hi.len() implies (#[trigger] hi[i]).0 != k by {
        assert((key_above(k))(hi[i]));
        lemma_bytes_lt_irreflexive(key_bytes(k));
    }
    lemma_value_of_append(lo + seq![(k, v)], hi, k);
    assert((lo + seq![(k, v)]).last() == (k, v));
    let d = delete_kv(s, k);
    #[allow(deprecated)]
    s.filter_lemma(key_other(k));
    assert forall|i: int| 0 <= i < d.len() implies (#[trigger] d[i]).0 != k by {
        assert((key_other(k))(d[i]));
    }
    lemma_value_of_absent(d, k);
}

} // verus!
