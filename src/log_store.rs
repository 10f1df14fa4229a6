//! The `logs` key space: entries keyed by their index, kept in ascending
//! index order, with append, range read, conflict truncation and prefix purge.

use vstd::prelude::*;
use crate::types::{Entry, EntryView, LogId};

verus! {

/// The views of a sequence of entries.
pub open spec fn entry_views(s: Seq<Entry>) -> Seq<EntryView> {
    s.map_values(|e: Entry| e@)
}

/// Indices strictly ascend along `s`: at most one entry per index.
pub open spec fn ascending(s: Seq<EntryView>) -> bool {
    forall|i: int, j: int| 0 <= i < j < s.len() ==> s[i].log_id.index < s[j].log_id.index
}

/// Entries whose index lies in `[start, end)`; `None` leaves the range open above.
pub open spec fn in_range(start: u64, end: Option<u64>) -> spec_fn(EntryView) -> bool {
    |e: EntryView|
        start <= e.log_id.index && match end {
            Some(b) => e.log_id.index < b,
            None => true,
        }
}

/// Entries with an index below `k`.
pub open spec fn below(k: u64) -> spec_fn(EntryView) -> bool {
    |e: EntryView| e.log_id.index < k
}

/// Entries with an index above `k`.
pub open spec fn above(k: u64) -> spec_fn(EntryView) -> bool {
    |e: EntryView| e.log_id.index > k
}

/// The log after writing `e` under its index: the entry it replaces, if any, is gone.
pub open spec fn put_entry(s: Seq<EntryView>, e: EntryView) -> Seq<EntryView> {
    s.filter(below(e.log_id.index)) + seq![e] + s.filter(above(e.log_id.index))
}

/// The log after writing each of `es` in turn.
pub open spec fn put_entries(s: Seq<EntryView>, es: Seq<EntryView>) -> Seq<EntryView>
    decreases es.len(),
{
    if es.len() == 0 {
        s
    } else {
        put_entry(put_entries(s, es.drop_last()), es.last())
    }
}

pub proof fn lemma_filter_all<A>(s: Seq<A>, p: spec_fn(A) -> bool)
    requires
        forall|i: int| 0 <= i < s.len() ==> p(s[i]),
    ensures
        s.filter(p) == s,
    decreases s.len(),
{
    reveal(Seq::filter);
    if s.len() > 0 {
        lemma_filter_all(s.drop_last(), p);
        assert(s.drop_last().push(s.last()) =~= s);
    }
}

pub proof fn lemma_filter_none<A>(s: Seq<A>, p: spec_fn(A) -> bool)
    requires
        forall|i: int| 0 <= i < s.len() ==> !p(s[i]),
    ensures
        s.filter(p) == Seq::<A>::empty(),
    decreases s.len(),
{
    reveal(Seq::filter);
    if s.len() > 0 {
        lemma_filter_none(s.drop_last(), p);
    } else {
        assert(s =~= Seq::<A>::empty());
    }
}

/// Where `p` holds exactly on the first `k` elements, filtering keeps those.
pub proof fn lemma_filter_prefix<A>(s: Seq<A>, k: int, p: spec_fn(A) -> bool)
    requires
        0 <= k <= s.len(),
        forall|i: int| 0 <= i < k ==> p(s[i]),
        forall|i: int| k <= i < s.len() ==> !p(s[i]),
    ensures
        s.filter(p) == s.subrange(0, k),
{
    let a = s.subrange(0, k);
    let b = s.subrange(k, s.len() as int);
    assert(s =~= a + b);
    Seq::filter_distributes_over_add(a, b, p);
    lemma_filter_all(a, p);
    lemma_filter_none(b, p);
    assert(a + Seq::<A>::empty() =~= a);
}

/// Where `p` holds exactly from position `k` on, filtering keeps that suffix.
pub proof fn lemma_filter_suffix<A>(s: Seq<A>, k: int, p: spec_fn(A) -> bool)
    requires
        0 <= k <= s.len(),
        forall|i: int| 0 <= i < k ==> !p(s[i]),
        forall|i: int| k <= i < s.len() ==> p(s[i]),
    ensures
        s.filter(p) == s.subrange(k, s.len() as int),
{
    let a = s.subrange(0, k);
    let b = s.subrange(k, s.len() as int);
    assert(s =~= a + b);
    Seq::filter_distributes_over_add(a, b, p);
    lemma_filter_none(a, p);
    lemma_filter_all(b, p);
    assert(Seq::<A>::empty() + b =~= b);
}

/// Filtering keeps the elements in their order, so it keeps indices ascending.
pub proof fn lemma_filter_ascending(s: Seq<EntryView>, p: spec_fn(EntryView) -> bool)
    requires
        ascending(s),
    ensures
        ascending(s.filter(p)),
        forall|i: int| 0 <= i < s.filter(p).len() ==> p(#[trigger] s.filter(p)[i]),
        forall|i: int| 0 <= i < s.len() && p(s[i]) ==> #[trigger] s.filter(p).contains(s[i]),
        forall|i: int| 0 <= i < s.filter(p).len() ==> #[trigger] s.contains(s.filter(p)[i]),
    decreases s.len(),
{
    reveal(Seq::filter);
    #[allow(deprecated)]
    s.filter_lemma(p);
    if s.len() > 0 {
        let t = s.drop_last();
        assert(ascending(t));
        lemma_filter_ascending(t, p);
        let ft = t.filter(p);
        assert forall|i: int| 0 <= i < ft.len() implies ft[i].log_id.index
            < s.last().log_id.index && s.contains(ft[i]) by {
            assert(t.contains(ft[i]));
            let j = choose|j: int| 0 <= j < t.len() && t[j] == ft[i];
            assert(s[j] == ft[i]);
        }
        assert(s[s.len() - 1] == s.last());
    }
}

/// Writing one entry keeps indices ascending.
pub proof fn lemma_put_entry_ascending(s: Seq<EntryView>, e: EntryView)
    requires
        ascending(s),
    ensures
        ascending(put_entry(s, e)),
{
    let k = e.log_id.index;
    let lo = s.filter(below(k));
    let hi = s.filter(above(k));
    lemma_filter_ascending(s, below(k));
    lemma_filter_ascending(s, above(k));
    let t = put_entry(s, e);
    assert forall|i: int, j: int| 0 <= i < j < t.len() implies t[i].log_id.index
        < t[j].log_id.index by {
        if j < lo.len() {
            assert(t[i] == lo[i] && t[j] == lo[j]);
        } else if i >= lo.len() + 1 {
            assert(t[i] == hi[i - lo.len() - 1] && t[j] == hi[j - lo.len() - 1]);
        } else if i < lo.len() {
            assert(t[i] == lo[i]);
            assert((below(k))(lo[i]));
            if j > lo.len() {
                assert(t[j] == hi[j - lo.len() - 1]);
                assert((above(k))(hi[j - lo.len() - 1]));
            }
        } else {
            assert(t[j] == hi[j - lo.len() - 1]);
            assert((above(k))(hi[j - lo.len() - 1]));
        }
    }
}

/// Any run of appends keeps indices ascending.
pub proof fn lemma_put_entries_ascending(s: Seq<EntryView>, es: Seq<EntryView>)
    requires
        ascending(s),
    ensures
        ascending(put_entries(s, es)),
    decreases es.len(),
{
    if es.len() > 0 {
        lemma_put_entries_ascending(s, es.drop_last());
        lemma_put_entry_ascending(put_entries(s, es.drop_last()), es.last());
    }
}

/// After any sequence of appends, reading `[start, end)` yields exactly the
/// stored entries whose index lies in that range, in ascending index order.
pub proof fn lemma_appends_then_read_range(
    s: Seq<EntryView>,
    es: Seq<EntryView>,
    start: u64,
    end: Option<u64>,
)
    requires
        ascending(s),
    ensures
        ({
            let t = put_entries(s, es);
            let r = t.filter(in_range(start, end));
            &&& ascending(r)
            &&& forall|i: int| 0 <= i < r.len() ==> t.contains(#[trigger] r[i]) && (in_range(
                start,
                end,
            ))(r[i])
            &&& forall|i: int| 0 <= i < t.len() && (in_range(start, end))(t[i]) ==> #[trigger] r.contains(
                t[i],
            )
        }),
{
    lemma_put_entries_ascending(s, es);
    lemma_filter_ascending(put_entries(s, es), in_range(start, end));
}

/// After purging through index `k`, no entry with an index of at most `k`
/// remains: reading `[0, b)` for any `b <= k + 1` yields nothing.
pub proof fn lemma_purge_then_read_empty(s: Seq<EntryView>, k: u64, b: u64)
    requires
        b <= k + 1,
    ensures
        s.filter(above(k)).filter(in_range(0, Some(b))) == Seq::<EntryView>::empty(),
{
    let t = s.filter(above(k));
    #[allow(deprecated)]
    s.filter_lemma(above(k));
    assert forall|i: int| 0 <= i < t.len() implies !(in_range(0, Some(b)))(t[i]) by {
        assert((above(k))(t[i]));
    }
    lemma_filter_none(t, in_range(0, Some(b)));
}

/// After deleting conflicts from index `k` on, no entry with an index of at
/// least `k` is readable: reading from any `start >= k` yields nothing.
pub proof fn lemma_conflict_delete_then_read_empty(
    s: Seq<EntryView>,
    k: u64,
    start: u64,
    end: Option<u64>,
)
    requires
        start >= k,
    ensures
        s.filter(below(k)).filter(in_range(start, end)) == Seq::<EntryView>::empty(),
{
    let t = s.filter(below(k));
    #[allow(deprecated)]
    s.filter_lemma(below(k));
    assert forall|i: int| 0 <= i < t.len() implies !(in_range(start, end))(t[i]) by {
        assert((below(k))(t[i]));
    }
    lemma_filter_none(t, in_range(start, end));
}

/// The `logs` key space.
pub struct LogStore {
    entries: Vec<Entry>,
}

impl View for LogStore {
    type V = Seq<EntryView>;

    closed spec fn view(&self) -> Seq<EntryView> {
        entry_views(self.entries@)
    }
}

impl LogStore {
    /// Indices ascend, one entry per index.
    pub open spec fn wf(&self) -> bool {
        ascending(self@)
    }

    /// An empty key space.
    pub fn new() -> (r: LogStore)
        ensures
            r.wf(),
            r@ == Seq::<EntryView>::empty(),
    {
        let r = LogStore { entries: Vec::new() };
        assert(r@ =~= Seq::<EntryView>::empty());
        r
    }

    /// A key space holding `entries`, whose indices ascend.
    pub fn from_ascending(entries: Vec<Entry>) -> (r: LogStore)
        requires
            ascending(entry_views(entries@)),
        ensures
            r.wf(),
            r@ == entry_views(entries@),
    {
        LogStore { entries }
    }

    /// The stored entries, in ascending index order.
    pub fn entries(&self) -> (r: &Vec<Entry>)
        ensures
            entry_views(r@) == self@,
    {
        &self.entries
    }

    /// Number of stored entries.
    pub fn len(&self) -> (r: usize)
        ensures
            r == self@.len(),
    {
        self.entries.len()
    }

    /// The first position whose entry has an index of at least `k`.
    fn position_from(&self, k: u64) -> (p: usize)
        requires
            self.wf(),
        ensures
            p <= self@.len(),
            forall|i: int| 0 <= i < p ==> self@[i].log_id.index < k,
            forall|i: int| p <= i < self@.len() ==> self@[i].log_id.index >= k,
    {
        let mut p: usize = 0;
        while p < self.entries.len() && self.entries[p].log_id.index < k
            invariant
                self.wf(),
                p <= self@.len(),
                self@.len() == self.entries@.len(),
                forall|i: int| 0 <= i < p ==> self@[i].log_id.index < k,
            decreases self@.len() - p,
        {
            p = p + 1;
        }
        assert forall|i: int| p <= i < self@.len() implies self@[i].log_id.index >= k by {
            if i > p {
                assert(self@[p as int].log_id.index < self@[i].log_id.index);
            }
        }
        p
    }

    /// Entries with an index in `[start, end)` (`end == None`: no upper
    /// bound), in ascending index order.
    pub fn read_range(&self, start: u64, end: Option<u64>) -> (r: Vec<Entry>)
        requires
            self.wf(),
        ensures
            entry_views(r@) == self@.filter(in_range(start, end)),
            ascending(entry_views(r@)),
    {
        let mut r: Vec<Entry> = Vec::new();
        let mut i: usize = 0;
        while i < self.entries.len()
            invariant
                i <= self.entries@.len(),
                self@ == entry_views(self.entries@),
                entry_views(r@) == self@.subrange(0, i as int).filter(in_range(start, end)),
            decreases self.entries@.len() - i,
        {
            let idx = self.entries[i].log_id.index;
            let keep = start <= idx && match end {
                Some(b) => idx < b,
                None => true,
            };
            let ghost before = entry_views(r@);
            proof {
                reveal(Seq::filter);
            }
            if keep {
                r.push(self.entries[i].copy());
                assert(entry_views(r@) =~= before.push(self@[i as int]));
            } else {
                assert(entry_views(r@) =~= before);
            }
            assert(self@.subrange(0, i + 1).drop_last() =~= self@.subrange(0, i as int));
            i = i + 1;
        }
        assert(self@.subrange(0, i as int) =~= self@);
        proof { lemma_filter_ascending(self@, in_range(start, end)); }
        r
    }

    /// Writes each entry under its index, in order; a write replaces the entry
    /// that held the index before.
    pub fn append(&mut self, entries: Vec<Entry>)
        requires
            old(self).wf(),
        ensures
            final(self).wf(),
            final(self)@ == put_entries(old(self)@, entry_views(entries@)),
    {
        let ghost es = entry_views(entries@);
        let mut i: usize = 0;
        while i < entries.len()
            invariant
                self.wf(),
                i <= entries@.len(),
                es == entry_views(entries@),
                self@ == put_entries(old(self)@, es.subrange(0, i as int)),
            decreases entries@.len() - i,
        {
            self.put(entries[i].copy());
            assert(es.subrange(0, i + 1).drop_last() =~= es.subrange(0, i as int));
            i = i + 1;
        }
        assert(es.subrange(0, i as int) =~= es);
    }

    /// Writes one entry under its index.
    fn put(&mut self, e: Entry)
        requires
            old(self).wf(),
        ensures
            final(self).wf(),
            final(self)@ == put_entry(old(self)@, e@),
    {
        let k = e.log_id.index;
        let p = self.position_from(k);
        let ghost s = self@;
        let ghost ev = e@;
        proof { lemma_filter_prefix(s, p as int, below(k)); }
        let replace = p < self.entries.len() && self.entries[p].log_id.index == k;
        if replace {
            assert forall|i: int| 0 <= i < s.len() && (above(k))(s[i]) <==> p + 1 <= i < s.len() by {
                if 0 <= i < s.len() && p + 1 <= i {
                    assert(s[p as int].log_id.index < s[i].log_id.index);
                }
            }
            proof { lemma_filter_suffix(s, p + 1, above(k)); }
            let _old = self.entries.remove(p);
            self.entries.insert(p, e);
            assert(self@ =~= s.subrange(0, p as int) + seq![ev] + s.subrange(p + 1, s.len() as int));
        } else {
            proof { lemma_filter_suffix(s, p as int, above(k)); }
            self.entries.insert(p, e);
            assert(self@ =~= s.subrange(0, p as int) + seq![ev] + s.subrange(p as int, s.len() as int));
        }
        assert(ascending(self@)) by {
            assert forall|i: int, j: int| 0 <= i < j < self@.len() implies self@[i].log_id.index
                < self@[j].log_id.index by {
                if replace {
                    if i < p && j > p {
                        assert(s[i].log_id.index < s[j].log_id.index);
                    }
                } else {
                    if i < p && j > p {
                        assert(s[i].log_id.index < s[j - 1].log_id.index);
                    }
                }
            }
        }
    }

    /// Removes every entry with an index of at least `k`.
    pub fn truncate_from(&mut self, k: u64)
        requires
            old(self).wf(),
        ensures
            final(self).wf(),
            final(self)@ == old(self)@.filter(below(k)),
    {
        let p = self.position_from(k);
        proof { lemma_filter_prefix(self@, p as int, below(k)); }
        self.entries.truncate(p);
        assert(self@ =~= old(self)@.subrange(0, p as int));
    }

    /// Removes every entry with an index of at most `k`.
    pub fn purge_through(&mut self, k: u64)
        requires
            old(self).wf(),
        ensures
            final(self).wf(),
            final(self)@ == old(self)@.filter(above(k)),
    {
        let mut p: usize = 0;
        while p < self.entries.len() && self.entries[p].log_id.index <= k
            invariant
                self.wf(),
                p <= self@.len(),
                self@.len() == self.entries@.len(),
                forall|i: int| 0 <= i < p ==> self@[i].log_id.index <= k,
            decreases self@.len() - p,
        {
            p = p + 1;
        }
        assert forall|i: int| p <= i < self@.len() implies (above(k))(self@[i]) by {
            if i > p {
                assert(self@[p as int].log_id.index < self@[i].log_id.index);
            }
        }
        proof { lemma_filter_suffix(self@, p as int, above(k)); }
        let rest = self.entries.split_off(p);
        self.entries = rest;
        assert(self@ =~= old(self)@.subrange(p as int, old(self)@.len() as int));
    }

    /// The id of the entry with the highest index, if any.
    pub fn last_log_id(&self) -> (r: Option<LogId>)
        requires
            self.wf(),
        ensures
            self@.len() == 0 ==> r.is_none(),
            self@.len() > 0 ==> r == Some(self@.last().log_id),
    {
        let n = self.entries.len();
        if n == 0 {
            None
        } else {
            Some(self.entries[n - 1].log_id)
        }
    }
}

} // verus!
