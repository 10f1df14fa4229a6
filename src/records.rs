//! The byte records of the key spaces: a log entry under its big-endian
//! index key, the vote, a log id, a counter, a stored membership and a
//! snapshot. Each reads back exactly what was written.

use vstd::prelude::*;
use crate::codec::{be64, be64_value, lemma_id_round_trip};
use crate::meta::{RocksSnapshot, SnapshotMeta, SnapshotMetaView, SnapshotView};
use crate::rocks_client::{RequestView, RocksRequest};
use crate::snapshot_codec::{
    append_bytes, copy_range, enc_log_id, enc_membership, enc_str, enc_stored_membership,
    get_configs, get_log_id, get_nodes, get_str, get_u64, lemma_parse_log_id,
    lemma_parse_membership, lemma_parse_str, lemma_parse_u64, membership_fits, parse_log_id,
    parse_membership, parse_str, parse_stored_membership, parse_u64, put_log_id, put_membership,
    put_str, put_u64, str_fits, tail, fits,
};
use crate::types::{
    Entry, EntryPayload, EntryView, LogId, Membership, PayloadView,
    StoredMembership, StoredMembershipView, Vote,
};

verus! {

pub open spec fn enc_payload(p: PayloadView) -> Seq<u8> {
    match p {
        PayloadView::Blank => seq![0u8],
        PayloadView::Normal(RequestView::Put { key, value }) => seq![1u8] + enc_str(key) + enc_str(
            value,
        ),
        PayloadView::Normal(RequestView::Delete { key }) => seq![2u8] + enc_str(key),
        PayloadView::Membership(m) => seq![3u8] + enc_membership(m),
    }
}

/// The value stored for a log entry.
pub open spec fn enc_entry(e: EntryView) -> Seq<u8> {
    enc_log_id(Some(e.log_id)) + enc_payload(e.payload)
}

pub open spec fn payload_fits(p: PayloadView) -> bool {
    match p {
        PayloadView::Blank => true,
        PayloadView::Normal(RequestView::Put { key, value }) => str_fits(key) && str_fits(value),
        PayloadView::Normal(RequestView::Delete { key }) => str_fits(key),
        PayloadView::Membership(m) => membership_fits(m),
    }
}

pub open spec fn parse_payload(b: Seq<u8>) -> Option<(PayloadView, Seq<u8>)> {
    if b.len() == 0 {
        None
    } else {
        let r = b.drop_first();
        if b[0] == 0 {
            Some((PayloadView::Blank, r))
        } else if b[0] == 1 {
            match parse_str(r) {
                Some((key, r1)) => match parse_str(r1) {
                    Some((value, r2)) => Some((PayloadView::Normal(RequestView::Put { key, value }), r2)),
                    None => None,
                },
                None => None,
            }
        } else if b[0] == 2 {
            match parse_str(r) {
                Some((key, r1)) => Some((PayloadView::Normal(RequestView::Delete { key }), r1)),
                None => None,
            }
        } else if b[0] == 3 {
            match parse_membership(r) {
                Some((m, r1)) => Some((PayloadView::Membership(m), r1)),
                None => None,
            }
        } else {
            None
        }
    }
}

/// The entry a log value holds, if it is one.
pub open spec fn parse_entry(b: Seq<u8>) -> Option<EntryView> {
    match parse_log_id(b) {
        Some((Some(log_id), r)) => match parse_payload(r) {
            Some((payload, r2)) => if r2.len() == 0 {
                Some(EntryView { log_id, payload })
            } else {
                None
            },
            None => None,
        },
        _ => None,
    }
}

/// The value stored for the vote.
pub open spec fn enc_vote(v: Vote) -> Seq<u8> {
    be64(v.term) + be64(v.node_id) + seq![if v.committed { 1u8 } else { 0u8 }]
}

pub open spec fn parse_vote(b: Seq<u8>) -> Option<Vote> {
    if b.len() == 17 && (b[16] == 0 || b[16] == 1) {
        Some(
            Vote {
                term: be64_value(b),
                node_id: be64_value(b.subrange(8, 16)),
                committed: b[16] == 1,
            },
        )
    } else {
        None
    }
}

/// A log id read from a whole value.
pub open spec fn parse_log_id_record(b: Seq<u8>) -> Option<LogId> {
    match parse_log_id(b) {
        Some((Some(l), r)) => if r.len() == 0 {
            Some(l)
        } else {
            None
        },
        _ => None,
    }
}

/// A counter read from a whole value.
pub open spec fn parse_u64_record(b: Seq<u8>) -> Option<u64> {
    if b.len() == 8 {
        Some(be64_value(b))
    } else {
        None
    }
}

/// A stored membership read from a whole value.
pub open spec fn parse_stored_membership_record(b: Seq<u8>) -> Option<StoredMembershipView> {
    match parse_stored_membership(b) {
        Some((m, r)) => if r.len() == 0 {
            Some(m)
        } else {
            None
        },
        None => None,
    }
}

/// The value stored for the current snapshot.
pub open spec fn enc_snapshot(s: SnapshotView) -> Seq<u8> {
    enc_log_id(s.meta.last_log_id) + (enc_stored_membership(s.meta.last_membership) + (enc_str(
        s.meta.snapshot_id,
    ) + (be64(s.data.len() as u64) + s.data)))
}

pub open spec fn snapshot_fits(s: SnapshotView) -> bool {
    membership_fits(s.meta.last_membership.membership) && str_fits(s.meta.snapshot_id) && fits(
        s.data.len() as int,
    )
}

pub open spec fn parse_snapshot(b: Seq<u8>) -> Option<SnapshotView> {
    match parse_log_id(b) {
        Some((last_log_id, r1)) => match parse_stored_membership(r1) {
            Some((last_membership, r2)) => match parse_str(r2) {
                Some((snapshot_id, r3)) => match parse_u64(r3) {
                    Some((n, r4)) => if r4.len() == n {
                        Some(
                            SnapshotView {
                                meta: SnapshotMetaView { last_log_id, last_membership, snapshot_id },
                                data: r4,
                            },
                        )
                    } else {
                        None
                    },
                    None => None,
                },
                None => None,
            },
            None => None,
        },
        None => None,
    }
}

pub proof fn lemma_entry_round_trip(e: EntryView)
    requires
        payload_fits(e.payload),
    ensures
        parse_entry(enc_entry(e)) == Some(e),
{
    let empty = Seq::<u8>::empty();
    let p = enc_payload(e.payload);
    lemma_parse_log_id(Some(e.log_id), p);
    let r = p.drop_first();
    match e.payload {
        PayloadView::Blank => {},
        PayloadView::Normal(RequestView::Put { key, value }) => {
            assert(r =~= enc_str(key) + (enc_str(value) + empty));
            lemma_parse_str(key, enc_str(value) + empty);
            lemma_parse_str(value, empty);
            assert(enc_str(value) + empty =~= enc_str(value));
        },
        PayloadView::Normal(RequestView::Delete { key }) => {
            assert(r =~= enc_str(key) + empty);
            lemma_parse_str(key, empty);
        },
        PayloadView::Membership(m) => {
            assert(r =~= enc_membership(m) + empty);
            lemma_parse_membership(m, empty);
        },
    }
}

pub proof fn lemma_vote_round_trip(v: Vote)
    ensures
        parse_vote(enc_vote(v)) == Some(v),
{
    let b = enc_vote(v);
    lemma_id_round_trip(v.term);
    lemma_id_round_trip(v.node_id);
    assert(b.subrange(8, 16) =~= be64(v.node_id));
    assert(b[0] == be64(v.term)[0] && b[1] == be64(v.term)[1] && b[2] == be64(v.term)[2] && b[3]
        == be64(v.term)[3]);
    assert(b[4] == be64(v.term)[4] && b[5] == be64(v.term)[5] && b[6] == be64(v.term)[6] && b[7]
        == be64(v.term)[7]);
}

pub proof fn lemma_log_id_record_round_trip(l: LogId)
    ensures
        parse_log_id_record(enc_log_id(Some(l))) == Some(l),
{
    let empty = Seq::<u8>::empty();
    lemma_parse_log_id(Some(l), empty);
    assert(enc_log_id(Some(l)) + empty =~= enc_log_id(Some(l)));
}

pub proof fn lemma_u64_record_round_trip(n: u64)
    ensures
        parse_u64_record(be64(n)) == Some(n),
{
    lemma_id_round_trip(n);
}

pub proof fn lemma_stored_membership_record_round_trip(m: StoredMembershipView)
    requires
        membership_fits(m.membership),
    ensures
        parse_stored_membership_record(enc_stored_membership(m)) == Some(m),
{
    let empty = Seq::<u8>::empty();
    crate::snapshot_codec::lemma_parse_stored_membership(m, empty);
    assert(enc_stored_membership(m) + empty =~= enc_stored_membership(m));
}

#[verifier::spinoff_prover]
pub proof fn lemma_snapshot_record_round_trip(s: SnapshotView)
    requires
        snapshot_fits(s),
    ensures
        parse_snapshot(enc_snapshot(s)) == Some(s),
{
    let d = be64(s.data.len() as u64) + s.data;
    let c = enc_str(s.meta.snapshot_id) + d;
    let b = enc_stored_membership(s.meta.last_membership) + c;
    lemma_parse_u64(s.data.len() as u64, s.data);
    lemma_parse_str(s.meta.snapshot_id, d);
    crate::snapshot_codec::lemma_parse_stored_membership(s.meta.last_membership, c);
    lemma_parse_log_id(s.meta.last_log_id, b);
    assert(parse_log_id(enc_snapshot(s)) == Some((s.meta.last_log_id, b)));
    assert(parse_stored_membership(b) == Some((s.meta.last_membership, c)));
    assert(parse_str(c) == Some((s.meta.snapshot_id, d)));
}


fn get_membership(b: &[u8], pos: usize) -> (r: Option<(Membership, usize)>)
    requires
        pos <= b@.len(),
    ensures
        match parse_membership(tail(b@, pos as int)) {
            Some((v, rest)) => r matches Some((x, p)) && x@ == v && p <= b@.len() && tail(b@, p as int)
                == rest,
            None => r.is_none(),
        },
{
    let (configs, at1) = match get_configs(b, pos) {
        Some(x) => x,
        None => return None,
    };
    let (nodes, at2) = match get_nodes(b, at1) {
        Some(x) => x,
        None => return None,
    };
    Some((Membership { configs, nodes }, at2))
}

fn get_stored_membership(b: &[u8], pos: usize) -> (r: Option<(StoredMembership, usize)>)
    requires
        pos <= b@.len(),
    ensures
        match parse_stored_membership(tail(b@, pos as int)) {
            Some((v, rest)) => r matches Some((x, p)) && x@ == v && p <= b@.len() && tail(b@, p as int)
                == rest,
            None => r.is_none(),
        },
{
    let (log_id, at1) = match get_log_id(b, pos) {
        Some(x) => x,
        None => return None,
    };
    let (membership, at2) = match get_membership(b, at1) {
        Some(x) => x,
        None => return None,
    };
    Some((StoredMembership { log_id, membership }, at2))
}

/// The value stored for a log entry.
pub fn encode_entry(e: &Entry) -> (r: Vec<u8>)
    ensures
        r@ == enc_entry(e@),
        payload_fits(e@.payload),
{
    let mut out: Vec<u8> = Vec::new();
    put_log_id(&mut out, Some(e.log_id));
    let ghost mid = out@;
    match &e.payload {
        EntryPayload::Blank => {
            out.push(0u8);
        },
        EntryPayload::Normal(RocksRequest::Put { key, value }) => {
            out.push(1u8);
            put_str(&mut out, key);
            put_str(&mut out, value);
        },
        EntryPayload::Normal(RocksRequest::Delete { key }) => {
            out.push(2u8);
            put_str(&mut out, key);
        },
        EntryPayload::Membership(m) => {
            out.push(3u8);
            put_membership(&mut out, m);
        },
    }
    assert(out@ =~= enc_entry(e@));
    out
}

/// The entry a log value holds; `None` where it holds none.
pub fn decode_entry(b: &[u8]) -> (r: Option<Entry>)
    ensures
        match parse_entry(b@) {
            Some(v) => r matches Some(x) && x@ == v,
            None => r.is_none(),
        },
{
    assert(tail(b@, 0) =~= b@);
    let (log_id, at1) = match get_log_id(b, 0) {
        Some((Some(l), p)) => (l, p),
        _ => return None,
    };
    if at1 == b.len() {
        return None;
    }
    let ghost t = tail(b@, at1 as int);
    assert(t[0] == b@[at1 as int]);
    assert(t.drop_first() =~= tail(b@, at1 + 1));
    let tag = b[at1];
    let (payload, at2) = if tag == 0 {
        (EntryPayload::Blank, at1 + 1)
    } else if tag == 1 {
        let (key, q1) = match get_str(b, at1 + 1) {
            Some(x) => x,
            None => return None,
        };
        let (value, q2) = match get_str(b, q1) {
            Some(x) => x,
            None => return None,
        };
        (EntryPayload::Normal(RocksRequest::Put { key, value }), q2)
    } else if tag == 2 {
        let (key, q1) = match get_str(b, at1 + 1) {
            Some(x) => x,
            None => return None,
        };
        (EntryPayload::Normal(RocksRequest::Delete { key }), q1)
    } else if tag == 3 {
        let (m, q1) = match get_membership(b, at1 + 1) {
            Some(x) => x,
            None => return None,
        };
        (EntryPayload::Membership(m), q1)
    } else {
        return None;
    };
    if at2 != b.len() {
        return None;
    }
    Some(Entry { log_id, payload })
}

/// The value stored for the vote.
pub fn encode_vote(v: &Vote) -> (r: Vec<u8>)
    ensures
        r@ == enc_vote(*v),
{
    let mut out: Vec<u8> = Vec::new();
    put_u64(&mut out, v.term);
    put_u64(&mut out, v.node_id);
    out.push(if v.committed { 1u8 } else { 0u8 });
    assert(out@ =~= enc_vote(*v));
    out
}

/// The vote a value holds; `None` where it holds none.
pub fn decode_vote(b: &[u8]) -> (r: Option<Vote>)
    ensures
        r == parse_vote(b@),
{
    if b.len() != 17 || (b[16] != 0 && b[16] != 1) {
        return None;
    }
    assert(tail(b@, 0) =~= b@);
    let (term, at1) = get_u64(b, 0).unwrap();
    let (node_id, _p2) = get_u64(b, at1).unwrap();
    assert(tail(b@, 8).subrange(0, 8) =~= b@.subrange(8, 16));
    assert(be64_value(tail(b@, 8)) == be64_value(b@.subrange(8, 16)));
    Some(Vote { term, node_id, committed: b[16] == 1 })
}

/// The value stored for a log id record.
pub fn encode_log_id_record(l: LogId) -> (r: Vec<u8>)
    ensures
        r@ == enc_log_id(Some(l)),
{
    let mut out: Vec<u8> = Vec::new();
    put_log_id(&mut out, Some(l));
    assert(out@ =~= enc_log_id(Some(l)));
    out
}

/// The log id a whole value holds.
pub fn decode_log_id_record(b: &[u8]) -> (r: Option<LogId>)
    ensures
        r == parse_log_id_record(b@),
{
    assert(tail(b@, 0) =~= b@);
    match get_log_id(b, 0) {
        Some((Some(l), p)) => if p == b.len() {
            Some(l)
        } else {
            None
        },
        _ => None,
    }
}

/// The counter a whole value holds.
pub fn decode_u64_record(b: &[u8]) -> (r: Option<u64>)
    ensures
        r == parse_u64_record(b@),
{
    if b.len() != 8 {
        return None;
    }
    assert(tail(b@, 0) =~= b@);
    let (n, _p) = get_u64(b, 0).unwrap();
    Some(n)
}

/// The value stored for a stored membership.
pub fn encode_stored_membership(m: &StoredMembership) -> (r: Vec<u8>)
    ensures
        r@ == enc_stored_membership(m@),
        membership_fits(m@.membership),
{
    let mut out: Vec<u8> = Vec::new();
    put_log_id(&mut out, m.log_id);
    put_membership(&mut out, &m.membership);
    assert(out@ =~= enc_stored_membership(m@));
    out
}

/// The stored membership a whole value holds.
pub fn decode_stored_membership(b: &[u8]) -> (r: Option<StoredMembership>)
    ensures
        match parse_stored_membership_record(b@) {
            Some(v) => r matches Some(x) && x@ == v,
            None => r.is_none(),
        },
{
    assert(tail(b@, 0) =~= b@);
    match get_stored_membership(b, 0) {
        Some((m, p)) => if p == b.len() {
            Some(m)
        } else {
            None
        },
        None => None,
    }
}

/// The value stored for the current snapshot.
pub fn encode_snapshot(s: &RocksSnapshot) -> (r: Vec<u8>)
    ensures
        r@ == enc_snapshot(s@),
        snapshot_fits(s@),
{
    let mut out: Vec<u8> = Vec::new();
    put_log_id(&mut out, s.meta.last_log_id);
    put_log_id(&mut out, s.meta.last_membership.log_id);
    put_membership(&mut out, &s.meta.last_membership.membership);
    put_str(&mut out, &s.meta.snapshot_id);
    put_u64(&mut out, s.data.len() as u64);
    append_bytes(&mut out, s.data.as_slice());
    assert(out@ =~= enc_snapshot(s@));
    out
}

/// The snapshot a whole value holds.
pub fn decode_snapshot(b: &[u8]) -> (r: Option<RocksSnapshot>)
    ensures
        match parse_snapshot(b@) {
            Some(v) => r matches Some(x) && x@ == v,
            None => r.is_none(),
        },
{
    assert(tail(b@, 0) =~= b@);
    let (last_log_id, at1) = match get_log_id(b, 0) {
        Some(x) => x,
        None => return None,
    };
    let (last_membership, at2) = match get_stored_membership(b, at1) {
        Some(x) => x,
        None => return None,
    };
    let (snapshot_id, at3) = match get_str(b, at2) {
        Some(x) => x,
        None => return None,
    };
    let (n, at4) = match get_u64(b, at3) {
        Some(x) => x,
        None => return None,
    };
    if (b.len() - at4) as u64 != n {
        return None;
    }
    let data = copy_range(b, at4, b.len());
    Some(RocksSnapshot { meta: SnapshotMeta { last_log_id, last_membership, snapshot_id }, data })
}

} // verus!
