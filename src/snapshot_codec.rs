//! The byte format of a snapshot's data: the whole applied state, written
//! with length prefixes and big-endian integers, and read back exactly.

use vstd::prelude::*;
use vstd::utf8::{decode_utf8, encode_utf8, encode_utf8_decode_utf8, encode_utf8_valid_utf8, valid_utf8};
use crate::codec::{be64, be64_value, bytes_to_id, id_to_bytes, lemma_id_round_trip};
use crate::state_machine::{KvView, SerializableRocksStateMachine, SmView, kv_views};
use crate::types::{
    LeaderId, LogId, Membership, MembershipView, Node, StoredMembership, StoredMembershipView,
    configs_view, nodes_view,
};

verus! {

/// The bytes of `b` from position `pos` on.
pub open spec fn tail(b: Seq<u8>, pos: int) -> Seq<u8> {
    b.subrange(pos, b.len() as int)
}

/// A length or count that a 64-bit prefix can hold.
pub open spec fn fits(n: int) -> bool {
    0 <= n < 0x1_0000_0000_0000_0000
}

pub open spec fn enc_str(s: Seq<char>) -> Seq<u8> {
    be64(encode_utf8(s).len() as u64) + encode_utf8(s)
}

/// The items' encodings, one after another.
pub open spec fn enc_all<T>(s: Seq<T>, e: spec_fn(T) -> Seq<u8>) -> Seq<u8>
    decreases s.len(),
{
    if s.len() == 0 {
        Seq::empty()
    } else {
        e(s[0]) + enc_all(s.drop_first(), e)
    }
}

/// A count followed by the items' encodings.
pub open spec fn enc_list<T>(s: Seq<T>, e: spec_fn(T) -> Seq<u8>) -> Seq<u8> {
    be64(s.len() as u64) + enc_all(s, e)
}

pub open spec fn enc_u64(n: u64) -> Seq<u8> {
    be64(n)
}

pub open spec fn enc_log_id(l: Option<LogId>) -> Seq<u8> {
    match l {
        None => seq![0u8],
        Some(l) => seq![1u8] + be64(l.leader_id.term) + be64(l.leader_id.node_id) + be64(l.index),
    }
}

pub open spec fn enc_u64_fn() -> spec_fn(u64) -> Seq<u8> {
    |n: u64| enc_u64(n)
}

pub open spec fn enc_ids(c: Seq<u64>) -> Seq<u8> {
    enc_list(c, enc_u64_fn())
}

pub open spec fn enc_ids_fn() -> spec_fn(Seq<u64>) -> Seq<u8> {
    |c: Seq<u64>| enc_ids(c)
}

pub open spec fn enc_node_fn() -> spec_fn((u64, Seq<char>)) -> Seq<u8> {
    |n: (u64, Seq<char>)| enc_node(n)
}

pub open spec fn enc_pair_fn() -> spec_fn(KvView) -> Seq<u8> {
    |p: KvView| enc_pair(p)
}

pub open spec fn enc_node(n: (u64, Seq<char>)) -> Seq<u8> {
    be64(n.0) + enc_str(n.1)
}

pub open spec fn enc_pair(p: KvView) -> Seq<u8> {
    enc_str(p.0) + enc_str(p.1)
}

pub open spec fn enc_membership(m: MembershipView) -> Seq<u8> {
    enc_list(m.configs, enc_ids_fn()) + enc_list(m.nodes, enc_node_fn())
}

pub open spec fn enc_stored_membership(m: StoredMembershipView) -> Seq<u8> {
    enc_log_id(m.log_id) + enc_membership(m.membership)
}

/// The snapshot data of a state.
pub open spec fn enc_sm(v: SmView) -> Seq<u8> {
    enc_log_id(v.last_applied_log) + enc_stored_membership(v.last_membership) + enc_list(
        v.data,
        enc_pair_fn(),
    )
}

pub open spec fn parse_u64(b: Seq<u8>) -> Option<(u64, Seq<u8>)> {
    if b.len() >= 8 {
        Some((be64_value(b), b.subrange(8, b.len() as int)))
    } else {
        None
    }
}

pub open spec fn parse_str(b: Seq<u8>) -> Option<(Seq<char>, Seq<u8>)> {
    match parse_u64(b) {
        Some((n, r)) => if n <= r.len() && valid_utf8(r.subrange(0, n as int)) {
            Some((decode_utf8(r.subrange(0, n as int)), r.subrange(n as int, r.len() as int)))
        } else {
            None
        },
        None => None,
    }
}

/// Reads `n` items with `p`, one after another.
pub open spec fn parse_all<T>(b: Seq<u8>, n: nat, p: spec_fn(Seq<u8>) -> Option<(T, Seq<u8>)>) -> Option<
    (Seq<T>, Seq<u8>),
>
    decreases n,
{
    if n == 0 {
        Some((Seq::empty(), b))
    } else {
        match p(b) {
            Some((x, r)) => match parse_all(r, (n - 1) as nat, p) {
                Some((xs, r2)) => Some((seq![x] + xs, r2)),
                None => None,
            },
            None => None,
        }
    }
}

pub open spec fn parse_list<T>(b: Seq<u8>, p: spec_fn(Seq<u8>) -> Option<(T, Seq<u8>)>) -> Option<
    (Seq<T>, Seq<u8>),
> {
    match parse_u64(b) {
        Some((n, r)) => parse_all(r, n as nat, p),
        None => None,
    }
}

pub open spec fn parse_log_id(b: Seq<u8>) -> Option<(Option<LogId>, Seq<u8>)> {
    if b.len() == 0 {
        None
    } else if b[0] == 0 {
        Some((None, b.drop_first()))
    } else if b[0] == 1 && b.len() >= 25 {
        let r = b.drop_first();
        Some((
            Some(
                LogId {
                    leader_id: LeaderId {
                        term: be64_value(r),
                        node_id: be64_value(r.subrange(8, 16)),
                    },
                    index: be64_value(r.subrange(16, 24)),
                },
            ),
            r.subrange(24, r.len() as int),
        ))
    } else {
        None
    }
}

pub open spec fn parse_u64_fn() -> spec_fn(Seq<u8>) -> Option<(u64, Seq<u8>)> {
    |x: Seq<u8>| parse_u64(x)
}

pub open spec fn parse_ids(b: Seq<u8>) -> Option<(Seq<u64>, Seq<u8>)> {
    parse_list(b, parse_u64_fn())
}

pub open spec fn parse_ids_fn() -> spec_fn(Seq<u8>) -> Option<(Seq<u64>, Seq<u8>)> {
    |x: Seq<u8>| parse_ids(x)
}

pub open spec fn parse_node(b: Seq<u8>) -> Option<((u64, Seq<char>), Seq<u8>)> {
    match parse_u64(b) {
        Some((id, r)) => match parse_str(r) {
            Some((addr, r2)) => Some(((id, addr), r2)),
            None => None,
        },
        None => None,
    }
}

pub open spec fn parse_pair(b: Seq<u8>) -> Option<(KvView, Seq<u8>)> {
    match parse_str(b) {
        Some((k, r)) => match parse_str(r) {
            Some((v, r2)) => Some(((k, v), r2)),
            None => None,
        },
        None => None,
    }
}

pub open spec fn parse_node_fn() -> spec_fn(Seq<u8>) -> Option<((u64, Seq<char>), Seq<u8>)> {
    |x: Seq<u8>| parse_node(x)
}

pub open spec fn parse_pair_fn() -> spec_fn(Seq<u8>) -> Option<(KvView, Seq<u8>)> {
    |x: Seq<u8>| parse_pair(x)
}

pub open spec fn parse_membership(b: Seq<u8>) -> Option<(MembershipView, Seq<u8>)> {
    match parse_list(b, parse_ids_fn()) {
        Some((configs, r)) => match parse_list(r, parse_node_fn()) {
            Some((nodes, r2)) => Some((MembershipView { configs, nodes }, r2)),
            None => None,
        },
        None => None,
    }
}

pub open spec fn parse_stored_membership(b: Seq<u8>) -> Option<(StoredMembershipView, Seq<u8>)> {
    match parse_log_id(b) {
        Some((log_id, r)) => match parse_membership(r) {
            Some((membership, r2)) => Some((StoredMembershipView { log_id, membership }, r2)),
            None => None,
        },
        None => None,
    }
}

/// The state that snapshot data holds, if it is well formed: every part
/// reads back and no byte is left over.
pub open spec fn parse_sm(b: Seq<u8>) -> Option<SmView> {
    match parse_log_id(b) {
        Some((last_applied_log, r)) => match parse_stored_membership(r) {
            Some((last_membership, r2)) => match parse_list(r2, parse_pair_fn()) {
                Some((data, r3)) => if r3.len() == 0 {
                    Some(SmView { last_applied_log, last_membership, data })
                } else {
                    None
                },
                None => None,
            },
            None => None,
        },
        None => None,
    }
}

/// Every string's encoding has a length that its prefix can hold.
pub open spec fn str_fits(s: Seq<char>) -> bool {
    fits(encode_utf8(s).len() as int)
}

pub open spec fn membership_fits(m: MembershipView) -> bool {
    &&& fits(m.configs.len() as int)
    &&& forall|i: int| 0 <= i < m.configs.len() ==> fits(#[trigger] m.configs[i].len() as int)
    &&& fits(m.nodes.len() as int)
    &&& forall|i: int| #![trigger m.nodes[i]] 0 <= i < m.nodes.len() ==> str_fits(m.nodes[i].1)
}

/// Every length and count in the state fits its 64-bit prefix.
pub open spec fn sm_fits(v: SmView) -> bool {
    &&& membership_fits(v.last_membership.membership)
    &&& fits(v.data.len() as int)
    &&& forall|i: int| #![trigger v.data[i]] 0 <= i < v.data.len() ==> str_fits(v.data[i].0) && str_fits(v.data[i].1)
}

proof fn lemma_be64_prefix(b: Seq<u8>, c: Seq<u8>)
    requires
        b.len() >= 8,
    ensures
        be64_value(b + c) == be64_value(b),
{
    assert((b + c)[0] == b[0] && (b + c)[1] == b[1] && (b + c)[2] == b[2] && (b + c)[3] == b[3]);
    assert((b + c)[4] == b[4] && (b + c)[5] == b[5] && (b + c)[6] == b[6] && (b + c)[7] == b[7]);
}

pub proof fn lemma_parse_u64(n: u64, r: Seq<u8>)
    ensures
        parse_u64(be64(n) + r) == Some((n, r)),
{
    lemma_id_round_trip(n);
    lemma_be64_prefix(be64(n), r);
    assert((be64(n) + r).subrange(8, (be64(n) + r).len() as int) =~= r);
}

pub proof fn lemma_parse_str(s: Seq<char>, r: Seq<u8>)
    requires
        str_fits(s),
    ensures
        parse_str(enc_str(s) + r) == Some((s, r)),
{
    let e = encode_utf8(s);
    let n = e.len() as u64;
    assert(enc_str(s) + r =~= be64(n) + (e + r));
    lemma_parse_u64(n, e + r);
    assert((e + r).subrange(0, n as int) =~= e);
    assert((e + r).subrange(n as int, (e + r).len() as int) =~= r);
    encode_utf8_valid_utf8(s);
    encode_utf8_decode_utf8(s);
}

pub proof fn lemma_parse_all<T>(
    s: Seq<T>,
    e: spec_fn(T) -> Seq<u8>,
    p: spec_fn(Seq<u8>) -> Option<(T, Seq<u8>)>,
    rest: Seq<u8>,
)
    requires
        forall|i: int, r: Seq<u8>| 0 <= i < s.len() ==> #[trigger] p(e(s[i]) + r) == Some((s[i], r)),
    ensures
        parse_all(enc_all(s, e) + rest, s.len(), p) == Some((s, rest)),
    decreases s.len(),
{
    if s.len() == 0 {
        assert(Seq::<u8>::empty() + rest =~= rest);
    } else {
        let t = s.drop_first();
        assert forall|i: int, r: Seq<u8>| 0 <= i < t.len() implies #[trigger] p(e(t[i]) + r) == Some(
            (t[i], r),
        ) by {
            assert(t[i] == s[i + 1]);
        }
        lemma_parse_all(t, e, p, rest);
        let tail_bytes = enc_all(t, e) + rest;
        assert(enc_all(s, e) + rest =~= e(s[0]) + tail_bytes);
        assert(p(e(s[0]) + tail_bytes) == Some((s[0], tail_bytes)));
        assert(seq![s[0]] + t =~= s);
    }
}

pub proof fn lemma_parse_list<T>(
    s: Seq<T>,
    e: spec_fn(T) -> Seq<u8>,
    p: spec_fn(Seq<u8>) -> Option<(T, Seq<u8>)>,
    rest: Seq<u8>,
)
    requires
        fits(s.len() as int),
        forall|i: int, r: Seq<u8>| 0 <= i < s.len() ==> #[trigger] p(e(s[i]) + r) == Some((s[i], r)),
    ensures
        parse_list(enc_list(s, e) + rest, p) == Some((s, rest)),
{
    assert(enc_list(s, e) + rest =~= be64(s.len() as u64) + (enc_all(s, e) + rest));
    lemma_parse_u64(s.len() as u64, enc_all(s, e) + rest);
    lemma_parse_all(s, e, p, rest);
}

pub proof fn lemma_parse_log_id(l: Option<LogId>, r: Seq<u8>)
    ensures
        parse_log_id(enc_log_id(l) + r) == Some((l, r)),
{
    let b = enc_log_id(l) + r;
    match l {
        None => {
            assert(b.drop_first() =~= r);
        },
        Some(x) => {
            let t = b.drop_first();
            let a = be64(x.leader_id.term);
            let c = be64(x.leader_id.node_id);
            let d = be64(x.index);
            assert(t =~= a + (c + (d + r)));
            lemma_be64_prefix(a, c + (d + r));
            lemma_id_round_trip(x.leader_id.term);
            assert(t.subrange(8, 16) =~= c);
            lemma_id_round_trip(x.leader_id.node_id);
            assert(t.subrange(16, 24) =~= d);
            lemma_id_round_trip(x.index);
            assert(t.subrange(24, t.len() as int) =~= r);
        },
    }
}

pub proof fn lemma_parse_ids(c: Seq<u64>, r: Seq<u8>)
    requires
        fits(c.len() as int),
    ensures
        parse_ids(enc_ids(c) + r) == Some((c, r)),
{
    assert forall|i: int, r2: Seq<u8>| 0 <= i < c.len() implies #[trigger] (parse_u64_fn())(
        (enc_u64_fn())(c[i]) + r2,
    ) == Some((c[i], r2)) by {
        lemma_parse_u64(c[i], r2);
    }
    lemma_parse_list(c, enc_u64_fn(), parse_u64_fn(), r);
}

#[verifier::spinoff_prover]
pub proof fn lemma_parse_membership(m: MembershipView, r: Seq<u8>)
    requires
        membership_fits(m),
    ensures
        parse_membership(enc_membership(m) + r) == Some((m, r)),
{
    assert forall|i: int, r2: Seq<u8>| 0 <= i < m.configs.len() implies #[trigger] (parse_ids_fn())(
        (enc_ids_fn())(m.configs[i]) + r2,
    ) == Some((m.configs[i], r2)) by {
        lemma_parse_ids(m.configs[i], r2);
    }
    assert forall|i: int, r2: Seq<u8>| 0 <= i < m.nodes.len() implies #[trigger] (parse_node_fn())(
        (enc_node_fn())(m.nodes[i]) + r2,
    ) == Some((m.nodes[i], r2)) by {
        let n = m.nodes[i];
        assert(enc_node(n) + r2 =~= be64(n.0) + (enc_str(n.1) + r2));
        lemma_parse_u64(n.0, enc_str(n.1) + r2);
        lemma_parse_str(n.1, r2);
    }
    let b2 = enc_list(m.nodes, enc_node_fn()) + r;
    assert(enc_membership(m) + r =~= enc_list(m.configs, enc_ids_fn()) + b2);
    lemma_parse_list(m.configs, enc_ids_fn(), parse_ids_fn(), b2);
    lemma_parse_list(m.nodes, enc_node_fn(), parse_node_fn(), r);
}

pub proof fn lemma_parse_pairs(d: Seq<KvView>, r: Seq<u8>)
    requires
        fits(d.len() as int),
        forall|i: int| #![trigger d[i]] 0 <= i < d.len() ==> str_fits(d[i].0) && str_fits(d[i].1),
    ensures
        parse_list(enc_list(d, enc_pair_fn()) + r, parse_pair_fn()) == Some((d, r)),
{
    assert forall|i: int, r2: Seq<u8>| 0 <= i < d.len() implies #[trigger] (parse_pair_fn())(
        (enc_pair_fn())(d[i]) + r2,
    ) == Some((d[i], r2)) by {
        let p = d[i];
        assert(str_fits(p.0) && str_fits(p.1));
        assert(enc_pair(p) + r2 =~= enc_str(p.0) + (enc_str(p.1) + r2));
        lemma_parse_str(p.0, enc_str(p.1) + r2);
        lemma_parse_str(p.1, r2);
    }
    lemma_parse_list(d, enc_pair_fn(), parse_pair_fn(), r);
}

#[verifier::spinoff_prover]
pub proof fn lemma_parse_stored_membership(m: StoredMembershipView, r: Seq<u8>)
    requires
        membership_fits(m.membership),
    ensures
        parse_stored_membership(enc_stored_membership(m) + r) == Some((m, r)),
{
    let b1 = enc_membership(m.membership) + r;
    lemma_parse_membership(m.membership, r);
    lemma_parse_log_id(m.log_id, b1);
    assert(enc_stored_membership(m) + r =~= enc_log_id(m.log_id) + b1);
    assert(parse_log_id(enc_stored_membership(m) + r) == Some((m.log_id, b1)));
    assert(parse_membership(b1) == Some((m.membership, r)));
}

/// Reading the snapshot data of a state gives that state back, wherever
/// every length fits its prefix.
#[verifier::spinoff_prover]
pub proof fn lemma_snapshot_data_round_trip(v: SmView)
    requires
        sm_fits(v),
    ensures
        parse_sm(enc_sm(v)) == Some(v),
{
    let d = enc_list(v.data, enc_pair_fn());
    let empty = Seq::<u8>::empty();
    lemma_parse_pairs(v.data, empty);
    assert(d + empty =~= d);
    lemma_parse_stored_membership(v.last_membership, d);
    let b0 = enc_stored_membership(v.last_membership) + d;
    lemma_parse_log_id(v.last_applied_log, b0);
    assert(enc_sm(v) =~= enc_log_id(v.last_applied_log) + b0);
    assert(parse_log_id(enc_sm(v)) == Some((v.last_applied_log, b0)));
    assert(parse_stored_membership(b0) == Some((v.last_membership, d)));
    assert(parse_list(d, parse_pair_fn()) == Some((v.data, empty)));
}


pub proof fn lemma_enc_all_push<T>(s: Seq<T>, x: T, e: spec_fn(T) -> Seq<u8>)
    ensures
        enc_all(s.push(x), e) == enc_all(s, e) + e(x),
    decreases s.len(),
{
    if s.len() == 0 {
        assert(s.push(x).drop_first() =~= Seq::<T>::empty());
        assert(enc_all(s.push(x).drop_first(), e) == Seq::<u8>::empty());
        assert(s.push(x)[0] == x);
        assert(e(x) + Seq::<u8>::empty() =~= e(x));
        assert(enc_all(s, e) == Seq::<u8>::empty());
        assert(Seq::<u8>::empty() + e(x) =~= e(x));
    } else {
        lemma_enc_all_push(s.drop_first(), x, e);
        assert(s.push(x).drop_first() =~= s.drop_first().push(x));
        assert(s.push(x)[0] == s[0]);
        assert(enc_all(s.push(x), e) == e(s[0]) + enc_all(s.drop_first().push(x), e));
        assert(e(s[0]) + (enc_all(s.drop_first(), e) + e(x)) =~= (e(s[0]) + enc_all(
            s.drop_first(),
            e,
        )) + e(x));
    }
}

/// Relies on String::from_utf8: it succeeds exactly on valid UTF-8, with the
/// characters that the bytes encode.
#[verifier::external_body]
fn string_from_utf8(b: Vec<u8>) -> (r: Option<String>)
    ensures
        r.is_some() <==> valid_utf8(b@),
        r matches Some(s) ==> s@ == decode_utf8(b@),
{
    String::from_utf8(b).ok()
}

pub(crate) fn append_bytes(out: &mut Vec<u8>, b: &[u8])
    ensures
        final(out)@ == old(out)@ + b@,
{
    let ghost start = out@;
    let mut i: usize = 0;
    while i < b.len()
        invariant
            i <= b@.len(),
            out@ == start + b@.subrange(0, i as int),
        decreases b@.len() - i,
    {
        out.push(b[i]);
        i = i + 1;
        assert(out@ =~= start + b@.subrange(0, i as int));
    }
    assert(b@.subrange(0, i as int) =~= b@);
}

pub(crate) fn put_u64(out: &mut Vec<u8>, n: u64)
    ensures
        final(out)@ == old(out)@ + be64(n),
{
    let b = id_to_bytes(n);
    append_bytes(out, b.as_slice());
}

pub(crate) fn put_str(out: &mut Vec<u8>, s: &String)
    ensures
        final(out)@ == old(out)@ + enc_str(s@),
        str_fits(s@),
{
    let b = s.as_str().as_bytes();
    put_u64(out, b.len() as u64);
    append_bytes(out, b);
    assert(final(out)@ =~= old(out)@ + enc_str(s@)) by {
        assert(old(out)@ + be64(b@.len() as u64) + b@ =~= old(out)@ + (be64(b@.len() as u64) + b@));
    }
}

pub(crate) fn put_log_id(out: &mut Vec<u8>, l: Option<LogId>)
    ensures
        final(out)@ == old(out)@ + enc_log_id(l),
{
    match l {
        None => {
            out.push(0u8);
            assert(out@ =~= old(out)@ + enc_log_id(l));
        },
        Some(x) => {
            out.push(1u8);
            put_u64(out, x.leader_id.term);
            put_u64(out, x.leader_id.node_id);
            put_u64(out, x.index);
            assert(out@ =~= old(out)@ + enc_log_id(l));
        },
    }
}

pub(crate) fn put_ids(out: &mut Vec<u8>, c: &Vec<u64>)
    ensures
        final(out)@ == old(out)@ + enc_ids(c@),
        fits(c@.len() as int),
{
    let ghost start = out@;
    put_u64(out, c.len() as u64);
    let mut i: usize = 0;
    while i < c.len()
        invariant
            i <= c@.len(),
            out@ == start + be64(c@.len() as u64) + enc_all(c@.subrange(0, i as int), enc_u64_fn()),
        decreases c@.len() - i,
    {
        put_u64(out, c[i]);
        proof {
            lemma_enc_all_push(c@.subrange(0, i as int), c@[i as int], enc_u64_fn());
            assert(c@.subrange(0, i + 1) =~= c@.subrange(0, i as int).push(c@[i as int]));
        }
        i = i + 1;
    }
    assert(c@.subrange(0, i as int) =~= c@);
}

pub(crate) fn put_node(out: &mut Vec<u8>, n: &Node)
    ensures
        final(out)@ == old(out)@ + enc_node(n@),
        str_fits(n@.1),
{
    put_u64(out, n.id);
    put_str(out, &n.addr);
}

pub(crate) fn put_membership(out: &mut Vec<u8>, m: &Membership)
    ensures
        final(out)@ == old(out)@ + enc_membership(m@),
        membership_fits(m@),
{
    let ghost start = out@;
    let ghost cs = m@.configs;
    put_u64(out, m.configs.len() as u64);
    let mut i: usize = 0;
    while i < m.configs.len()
        invariant
            i <= cs.len(),
            cs == configs_view(m.configs@),
            forall|j: int| 0 <= j < i ==> fits(#[trigger] cs[j].len() as int),
            out@ == start + be64(cs.len() as u64) + enc_all(cs.subrange(0, i as int), enc_ids_fn()),
        decreases cs.len() - i,
    {
        put_ids(out, &m.configs[i]);
        proof {
            lemma_enc_all_push(cs.subrange(0, i as int), cs[i as int], enc_ids_fn());
            assert(cs.subrange(0, i + 1) =~= cs.subrange(0, i as int).push(cs[i as int]));
        }
        i = i + 1;
    }
    assert(cs.subrange(0, i as int) =~= cs);
    let ghost mid = out@;
    let ghost ns = m@.nodes;
    put_u64(out, m.nodes.len() as u64);
    let mut j: usize = 0;
    while j < m.nodes.len()
        invariant
            j <= ns.len(),
            ns == nodes_view(m.nodes@),
            forall|k: int| #![trigger ns[k]] 0 <= k < j ==> str_fits(ns[k].1),
            out@ == mid + be64(ns.len() as u64) + enc_all(ns.subrange(0, j as int), enc_node_fn()),
        decreases ns.len() - j,
    {
        put_node(out, &m.nodes[j]);
        proof {
            lemma_enc_all_push(ns.subrange(0, j as int), ns[j as int], enc_node_fn());
            assert(ns.subrange(0, j + 1) =~= ns.subrange(0, j as int).push(ns[j as int]));
        }
        j = j + 1;
    }
    assert(ns.subrange(0, j as int) =~= ns);
    assert(out@ =~= start + enc_membership(m@));
}

pub(crate) fn put_pairs(out: &mut Vec<u8>, d: &Vec<(String, String)>)
    ensures
        final(out)@ == old(out)@ + enc_list(kv_views(d@), enc_pair_fn()),
        fits(d@.len() as int),
        forall|i: int| #![trigger kv_views(d@)[i]] 0 <= i < d@.len() ==> str_fits(kv_views(d@)[i].0) && str_fits(kv_views(d@)[i].1),
{
    let ghost start = out@;
    let ghost ps = kv_views(d@);
    put_u64(out, d.len() as u64);
    let mut i: usize = 0;
    while i < d.len()
        invariant
            i <= ps.len(),
            ps == kv_views(d@),
            forall|k: int| #![trigger ps[k]] 0 <= k < i ==> str_fits(ps[k].0) && str_fits(ps[k].1),
            out@ == start + be64(ps.len() as u64) + enc_all(ps.subrange(0, i as int), enc_pair_fn()),
        decreases ps.len() - i,
    {
        put_str(out, &d[i].0);
        put_str(out, &d[i].1);
        proof {
            lemma_enc_all_push(ps.subrange(0, i as int), ps[i as int], enc_pair_fn());
            assert(ps.subrange(0, i + 1) =~= ps.subrange(0, i as int).push(ps[i as int]));
        }
        assert(out@ =~= start + be64(ps.len() as u64) + enc_all(ps.subrange(0, i + 1), enc_pair_fn()));
        i = i + 1;
    }
    assert(ps.subrange(0, i as int) =~= ps);
}

/// Writes a state as snapshot data.
pub fn encode_state(sm: &SerializableRocksStateMachine) -> (r: Vec<u8>)
    ensures
        r@ == enc_sm(sm@),
        sm_fits(sm@),
{
    let mut out: Vec<u8> = Vec::new();
    put_log_id(&mut out, sm.last_applied_log);
    put_log_id(&mut out, sm.last_membership.log_id);
    put_membership(&mut out, &sm.last_membership.membership);
    put_pairs(&mut out, &sm.data);
    assert(out@ =~= enc_sm(sm@));
    out
}


pub(crate) fn get_u64(b: &[u8], pos: usize) -> (r: Option<(u64, usize)>)
    requires
        pos <= b@.len(),
    ensures
        match parse_u64(tail(b@, pos as int)) {
            Some((v, rest)) => r matches Some((x, p)) && x == v && p <= b@.len() && tail(b@, p as int)
                == rest,
            None => r.is_none(),
        },
{
    if b.len() - pos < 8 {
        return None;
    }
    let ghost t = tail(b@, pos as int);
    let head = copy_range(b, pos, pos + 8);
    let x = bytes_to_id(head.as_slice());
    assert(head@ =~= t.subrange(0, 8));
    assert(head@[0] == t[0] && head@[1] == t[1] && head@[2] == t[2] && head@[3] == t[3]);
    assert(head@[4] == t[4] && head@[5] == t[5] && head@[6] == t[6] && head@[7] == t[7]);
    assert(t.subrange(8, t.len() as int) =~= tail(b@, pos + 8));
    Some((x, pos + 8))
}

pub(crate) fn copy_range(b: &[u8], from: usize, to: usize) -> (r: Vec<u8>)
    requires
        from <= to <= b@.len(),
    ensures
        r@ == b@.subrange(from as int, to as int),
{
    let mut r: Vec<u8> = Vec::new();
    let mut i: usize = from;
    while i < to
        invariant
            from <= i <= to,
            to <= b@.len(),
            r@ == b@.subrange(from as int, i as int),
        decreases to - i,
    {
        r.push(b[i]);
        i = i + 1;
        assert(r@ =~= b@.subrange(from as int, i as int));
    }
    r
}

pub(crate) fn get_str(b: &[u8], pos: usize) -> (r: Option<(String, usize)>)
    requires
        pos <= b@.len(),
    ensures
        match parse_str(tail(b@, pos as int)) {
            Some((v, rest)) => r matches Some((x, p)) && x@ == v && p <= b@.len() && tail(b@, p as int)
                == rest,
            None => r.is_none(),
        },
{
    let (n, p) = match get_u64(b, pos) {
        Some(x) => x,
        None => return None,
    };
    let ghost r1 = tail(b@, p as int);
    if n > (b.len() - p) as u64 {
        return None;
    }
    let end = p + n as usize;
    let bytes = copy_range(b, p, end);
    assert(bytes@ =~= r1.subrange(0, n as int));
    assert(tail(b@, end as int) =~= r1.subrange(n as int, r1.len() as int));
    match string_from_utf8(bytes) {
        Some(st) => Some((st, end)),
        None => None,
    }
}

pub(crate) fn get_log_id(b: &[u8], pos: usize) -> (r: Option<(Option<LogId>, usize)>)
    requires
        pos <= b@.len(),
    ensures
        match parse_log_id(tail(b@, pos as int)) {
            Some((v, rest)) => r matches Some((x, p)) && x == v && p <= b@.len() && tail(b@, p as int)
                == rest,
            None => r.is_none(),
        },
{
    let ghost t = tail(b@, pos as int);
    if pos == b.len() {
        return None;
    }
    assert(t[0] == b@[pos as int]);
    let tag = b[pos];
    if tag == 0 {
        assert(t.drop_first() =~= tail(b@, pos + 1));
        Some((None, pos + 1))
    } else if tag == 1 && b.len() - pos >= 25 {
        let ghost r = t.drop_first();
        assert(r =~= tail(b@, pos + 1));
        let (term, at1) = get_u64(b, pos + 1).unwrap();
        let (node_id, at2) = get_u64(b, at1).unwrap();
        let (index, at3) = get_u64(b, at2).unwrap();
        assert(r.subrange(8, 16) =~= tail(b@, at1 as int).subrange(0, 8));
        assert(be64_value(tail(b@, at1 as int)) == be64_value(r.subrange(8, 16)));
        assert(r.subrange(16, 24) =~= tail(b@, at2 as int).subrange(0, 8));
        assert(be64_value(tail(b@, at2 as int)) == be64_value(r.subrange(16, 24)));
        assert(r.subrange(24, r.len() as int) =~= tail(b@, at3 as int));
        Some((Some(LogId { leader_id: LeaderId { term, node_id }, index }), at3))
    } else {
        None
    }
}

pub(crate) fn get_ids(b: &[u8], pos: usize) -> (r: Option<(Vec<u64>, usize)>)
    requires
        pos <= b@.len(),
    ensures
        match parse_ids(tail(b@, pos as int)) {
            Some((v, rest)) => r matches Some((x, p)) && x@ == v && p <= b@.len() && tail(b@, p as int)
                == rest,
            None => r.is_none(),
        },
{
    let (n, at0) = match get_u64(b, pos) {
        Some(x) => x,
        None => return None,
    };
    let ghost whole = parse_all(tail(b@, at0 as int), n as nat, parse_u64_fn());
    assert(parse_ids(tail(b@, pos as int)) == whole);
    let mut acc: Vec<u64> = Vec::new();
    assert(acc@ + Seq::<u64>::empty() =~= acc@);
    let mut p = at0;
    let mut i: u64 = 0;
    while i < n
        invariant
            i <= n,
            p <= b@.len(),
            whole == parse_all(tail(b@, at0 as int), n as nat, parse_u64_fn()),
            parse_ids(tail(b@, pos as int)) == whole,
            whole == match parse_all(tail(b@, p as int), (n - i) as nat, parse_u64_fn()) {
                Some((xs, r)) => Some((acc@ + xs, r)),
                None => None,
            },
        decreases n - i,
    {
        let ghost before = acc@;
        match get_u64(b, p) {
            Some((x, at2)) => {
                let ghost t2 = tail(b@, at2 as int);
                assert(whole == match parse_all(t2, (n - i - 1) as nat, parse_u64_fn()) {
                    Some((xs, r)) => Some((before + (seq![x] + xs), r)),
                    None => None,
                });
                acc.push(x);
                assert forall|xs: Seq<u64>| before + (seq![x] + xs) == acc@ + xs by {
                    assert(before + (seq![x] + xs) =~= acc@ + xs);
                }
                p = at2;
                i = i + 1;
            },
            None => {
                assert(parse_all(tail(b@, p as int), (n - i) as nat, parse_u64_fn()).is_none());
                return None;
            },
        }
    }
    assert(acc@ + Seq::<u64>::empty() =~= acc@);
    Some((acc, p))
}


pub(crate) fn get_node(b: &[u8], pos: usize) -> (r: Option<(Node, usize)>)
    requires
        pos <= b@.len(),
    ensures
        match parse_node(tail(b@, pos as int)) {
            Some((v, rest)) => r matches Some((x, p)) && x@ == v && p <= b@.len() && tail(b@, p as int)
                == rest,
            None => r.is_none(),
        },
{
    let (id, at1) = match get_u64(b, pos) {
        Some(x) => x,
        None => return None,
    };
    let (addr, at2) = match get_str(b, at1) {
        Some(x) => x,
        None => return None,
    };
    Some((Node { id, addr }, at2))
}

pub(crate) fn get_pair(b: &[u8], pos: usize) -> (r: Option<((String, String), usize)>)
    requires
        pos <= b@.len(),
    ensures
        match parse_pair(tail(b@, pos as int)) {
            Some((v, rest)) => r matches Some((x, p)) && x.0@ == v.0 && x.1@ == v.1 && p <= b@.len()
                && tail(b@, p as int) == rest,
            None => r.is_none(),
        },
{
    let (k, at1) = match get_str(b, pos) {
        Some(x) => x,
        None => return None,
    };
    let (v, at2) = match get_str(b, at1) {
        Some(x) => x,
        None => return None,
    };
    Some(((k, v), at2))
}

pub(crate) fn get_configs(b: &[u8], pos: usize) -> (r: Option<(Vec<Vec<u64>>, usize)>)
    requires
        pos <= b@.len(),
    ensures
        match parse_list(tail(b@, pos as int), parse_ids_fn()) {
            Some((v, rest)) => r matches Some((x, p)) && configs_view(x@) == v && p <= b@.len() && tail(
                b@,
                p as int,
            ) == rest,
            None => r.is_none(),
        },
{
    let (n, at0) = match get_u64(b, pos) {
        Some(x) => x,
        None => return None,
    };
    let ghost whole = parse_all(tail(b@, at0 as int), n as nat, parse_ids_fn());
    assert(parse_list(tail(b@, pos as int), parse_ids_fn()) == whole);
    let mut acc: Vec<Vec<u64>> = Vec::new();
    assert(configs_view(acc@) + Seq::<Seq<u64>>::empty() =~= configs_view(acc@));
    let mut p = at0;
    let mut i: u64 = 0;
    while i < n
        invariant
            i <= n,
            p <= b@.len(),
            parse_list(tail(b@, pos as int), parse_ids_fn()) == whole,
            whole == match parse_all(tail(b@, p as int), (n - i) as nat, parse_ids_fn()) {
                Some((xs, r)) => Some((configs_view(acc@) + xs, r)),
                None => None,
            },
        decreases n - i,
    {
        let ghost before = configs_view(acc@);
        match get_ids(b, p) {
            Some((x, at2)) => {
                let ghost t2 = tail(b@, at2 as int);
                let ghost xv = x@;
                assert(whole == match parse_all(t2, (n - i - 1) as nat, parse_ids_fn()) {
                    Some((xs, r)) => Some((before + (seq![xv] + xs), r)),
                    None => None,
                });
                acc.push(x);
                assert(configs_view(acc@) =~= before.push(xv));
                assert forall|xs: Seq<Seq<u64>>| before + (seq![xv] + xs) == configs_view(acc@) + xs by {
                    assert(before + (seq![xv] + xs) =~= configs_view(acc@) + xs);
                }
                p = at2;
                i = i + 1;
            },
            None => {
                assert(parse_all(tail(b@, p as int), (n - i) as nat, parse_ids_fn()).is_none());
                return None;
            },
        }
    }
    assert(configs_view(acc@) + Seq::<Seq<u64>>::empty() =~= configs_view(acc@));
    Some((acc, p))
}

pub(crate) fn get_nodes(b: &[u8], pos: usize) -> (r: Option<(Vec<Node>, usize)>)
    requires
        pos <= b@.len(),
    ensures
        match parse_list(tail(b@, pos as int), parse_node_fn()) {
            Some((v, rest)) => r matches Some((x, p)) && nodes_view(x@) == v && p <= b@.len() && tail(
                b@,
                p as int,
            ) == rest,
            None => r.is_none(),
        },
{
    let (n, at0) = match get_u64(b, pos) {
        Some(x) => x,
        None => return None,
    };
    let ghost whole = parse_all(tail(b@, at0 as int), n as nat, parse_node_fn());
    assert(parse_list(tail(b@, pos as int), parse_node_fn()) == whole);
    let mut acc: Vec<Node> = Vec::new();
    assert(nodes_view(acc@) + Seq::<(u64, Seq<char>)>::empty() =~= nodes_view(acc@));
    let mut p = at0;
    let mut i: u64 = 0;
    while i < n
        invariant
            i <= n,
            p <= b@.len(),
            parse_list(tail(b@, pos as int), parse_node_fn()) == whole,
            whole == match parse_all(tail(b@, p as int), (n - i) as nat, parse_node_fn()) {
                Some((xs, r)) => Some((nodes_view(acc@) + xs, r)),
                None => None,
            },
        decreases n - i,
    {
        let ghost before = nodes_view(acc@);
        match get_node(b, p) {
            Some((x, at2)) => {
                let ghost t2 = tail(b@, at2 as int);
                let ghost xv = x@;
                assert(whole == match parse_all(t2, (n - i - 1) as nat, parse_node_fn()) {
                    Some((xs, r)) => Some((before + (seq![xv] + xs), r)),
                    None => None,
                });
                acc.push(x);
                assert(nodes_view(acc@) =~= before.push(xv));
                assert forall|xs: Seq<(u64, Seq<char>)>| before + (seq![xv] + xs) == nodes_view(acc@)
                    + xs by {
                    assert(before + (seq![xv] + xs) =~= nodes_view(acc@) + xs);
                }
                p = at2;
                i = i + 1;
            },
            None => {
                assert(parse_all(tail(b@, p as int), (n - i) as nat, parse_node_fn()).is_none());
                return None;
            },
        }
    }
    assert(nodes_view(acc@) + Seq::<(u64, Seq<char>)>::empty() =~= nodes_view(acc@));
    Some((acc, p))
}

pub(crate) fn get_pairs(b: &[u8], pos: usize) -> (r: Option<(Vec<(String, String)>, usize)>)
    requires
        pos <= b@.len(),
    ensures
        match parse_list(tail(b@, pos as int), parse_pair_fn()) {
            Some((v, rest)) => r matches Some((x, p)) && kv_views(x@) == v && p <= b@.len() && tail(
                b@,
                p as int,
            ) == rest,
            None => r.is_none(),
        },
{
    let (n, at0) = match get_u64(b, pos) {
        Some(x) => x,
        None => return None,
    };
    let ghost whole = parse_all(tail(b@, at0 as int), n as nat, parse_pair_fn());
    assert(parse_list(tail(b@, pos as int), parse_pair_fn()) == whole);
    let mut acc: Vec<(String, String)> = Vec::new();
    assert(kv_views(acc@) + Seq::<KvView>::empty() =~= kv_views(acc@));
    let mut p = at0;
    let mut i: u64 = 0;
    while i < n
        invariant
            i <= n,
            p <= b@.len(),
            parse_list(tail(b@, pos as int), parse_pair_fn()) == whole,
            whole == match parse_all(tail(b@, p as int), (n - i) as nat, parse_pair_fn()) {
                Some((xs, r)) => Some((kv_views(acc@) + xs, r)),
                None => None,
            },
        decreases n - i,
    {
        let ghost before = kv_views(acc@);
        match get_pair(b, p) {
            Some((x, at2)) => {
                let ghost t2 = tail(b@, at2 as int);
                let ghost xv = (x.0@, x.1@);
                assert(whole == match parse_all(t2, (n - i - 1) as nat, parse_pair_fn()) {
                    Some((xs, r)) => Some((before + (seq![xv] + xs), r)),
                    None => None,
                });
                acc.push(x);
                assert(kv_views(acc@) =~= before.push(xv));
                assert forall|xs: Seq<KvView>| before + (seq![xv] + xs) == kv_views(acc@) + xs by {
                    assert(before + (seq![xv] + xs) =~= kv_views(acc@) + xs);
                }
                p = at2;
                i = i + 1;
            },
            None => {
                assert(parse_all(tail(b@, p as int), (n - i) as nat, parse_pair_fn()).is_none());
                return None;
            },
        }
    }
    assert(kv_views(acc@) + Seq::<KvView>::empty() =~= kv_views(acc@));
    Some((acc, p))
}

/// Reads snapshot data back into a state; `None` where the bytes are not
/// the snapshot data of any state.
pub fn decode_state(b: &[u8]) -> (r: Option<SerializableRocksStateMachine>)
    ensures
        match parse_sm(b@) {
            Some(v) => r matches Some(x) && x@ == v,
            None => r.is_none(),
        },
{
    assert(tail(b@, 0) =~= b@);
    let (last_applied_log, at1) = match get_log_id(b, 0) {
        Some(x) => x,
        None => return None,
    };
    let (ml, at2) = match get_log_id(b, at1) {
        Some(x) => x,
        None => return None,
    };
    let (configs, at3) = match get_configs(b, at2) {
        Some(x) => x,
        None => return None,
    };
    let (nodes, at4) = match get_nodes(b, at3) {
        Some(x) => x,
        None => return None,
    };
    let (data, at5) = match get_pairs(b, at4) {
        Some(x) => x,
        None => return None,
    };
    if at5 != b.len() {
        return None;
    }
    let r = SerializableRocksStateMachine {
        last_applied_log,
        last_membership: StoredMembership { log_id: ml, membership: Membership { configs, nodes } },
        data,
    };
    Some(r)
}

} // verus!
