//! Fixed-width big-endian encoding of 64-bit integers, used for log-index keys
//! (byte order matches numeric order) and inside every record encoding.

use vstd::prelude::*;

verus! {

/// The eight big-endian bytes of `n`.
pub open spec fn be64(n: u64) -> Seq<u8> {
    seq![
        (n >> 56u64) as u8,
        (n >> 48u64) as u8,
        (n >> 40u64) as u8,
        (n >> 32u64) as u8,
        (n >> 24u64) as u8,
        (n >> 16u64) as u8,
        (n >> 8u64) as u8,
        n as u8,
    ]
}

/// The integer whose big-endian bytes are the first eight of `b`.
pub open spec fn be64_value(b: Seq<u8>) -> u64
    recommends
        b.len() >= 8,
{
    ((b[0] as u64) << 56u64) | ((b[1] as u64) << 48u64) | ((b[2] as u64) << 40u64) | ((
    b[3] as u64) << 32u64) | ((b[4] as u64) << 24u64) | ((b[5] as u64) << 16u64) | ((
    b[6] as u64) << 8u64) | (b[7] as u64)
}

/// Encodes an index as the key under which its log entry is stored.
pub fn id_to_bytes(id: u64) -> (r: Vec<u8>)
    ensures
        r@ == be64(id),
{
    let mut buf: Vec<u8> = Vec::with_capacity(8);
    buf.push((id >> 56u64) as u8);
    buf.push((id >> 48u64) as u8);
    buf.push((id >> 40u64) as u8);
    buf.push((id >> 32u64) as u8);
    buf.push((id >> 24u64) as u8);
    buf.push((id >> 16u64) as u8);
    buf.push((id >> 8u64) as u8);
    buf.push(id as u8);
    assert(buf@ =~= be64(id));
    buf
}

/// Decodes the index held in the first eight bytes of a log key.
pub fn bytes_to_id(buf: &[u8]) -> (r: u64)
    requires
        buf@.len() >= 8,
    ensures
        r == be64_value(buf@),
{
    ((buf[0] as u64) << 56u64) | ((buf[1] as u64) << 48u64) | ((buf[2] as u64) << 40u64) | ((
    buf[3] as u64) << 32u64) | ((buf[4] as u64) << 24u64) | ((buf[5] as u64) << 16u64) | ((
    buf[6] as u64) << 8u64) | (buf[7] as u64)
}

/// Decoding the encoding of any 64-bit integer gives that integer back.
pub proof fn lemma_id_round_trip(id: u64)
    ensures
        be64_value(be64(id)) == id,
{
    let b = be64(id);
    let b0 = b[0];
    let b1 = b[1];
    let b2 = b[2];
    let b3 = b[3];
    let b4 = b[4];
    let b5 = b[5];
    let b6 = b[6];
    let b7 = b[7];
    assert(((b0 as u64) << 56u64) | ((b1 as u64) << 48u64) | ((b2 as u64) << 40u64) | ((
    b3 as u64) << 32u64) | ((b4 as u64) << 24u64) | ((b5 as u64) << 16u64) | ((b6 as u64)
        << 8u64) | (b7 as u64) == id) by (bit_vector)
        requires
            b0 == (id >> 56u64) as u8,
            b1 == (id >> 48u64) as u8,
            b2 == (id >> 40u64) as u8,
            b3 == (id >> 32u64) as u8,
            b4 == (id >> 24u64) as u8,
            b5 == (id >> 16u64) as u8,
            b6 == (id >> 8u64) as u8,
            b7 == id as u8,
    ;
}

} // verus!
