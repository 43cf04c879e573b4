//! The lobby ↔ game-server message framing: a 4-byte big-endian length
//! prefix followed by that many body bytes.

use vstd::prelude::*;

verus! {

/// The four big-endian bytes of a 32-bit length.
pub open spec fn be32(n: nat) -> Seq<u8> {
    seq![
        (n / 0x1000000 % 256) as u8,
        (n / 0x10000 % 256) as u8,
        (n / 256 % 256) as u8,
        (n % 256) as u8,
    ]
}

/// The length a 4-byte big-endian prefix denotes.
pub open spec fn be32_val(bs: Seq<u8>) -> nat
    recommends
        bs.len() == 4,
{
    (bs[0] * 0x1000000 + bs[1] * 0x10000 + bs[2] * 256 + bs[3]) as nat
}

/// What decoding a framed buffer yields: the payload, when the buffer is
/// exactly one well-formed frame.
pub open spec fn decode_frame_spec(buf: Seq<u8>) -> Option<Seq<u8>> {
    if buf.len() >= 4 && be32_val(buf.take(4)) == buf.len() - 4 {
        Some(buf.skip(4))
    } else {
        None
    }
}

/// The length prefix round-trips for any length that fits 32 bits.
pub proof fn lemma_be32_round_trip(n: nat)
    requires
        n <= u32::MAX,
    ensures
        be32_val(be32(n)) == n,
{
    assert((n / 0x1000000 % 256) * 0x1000000 + (n / 0x10000 % 256) * 0x10000 + (n / 256 % 256)
        * 256 + n % 256 == n) by (nonlinear_arith)
        requires
            n <= 0xFFFFFFFF,
    ;
}

/// Framing then decoding returns the body unchanged.
pub proof fn lemma_frame_round_trip(body: Seq<u8>)
    requires
        body.len() <= u32::MAX,
    ensures
        decode_frame_spec(be32(body.len()) + body) == Some(body),
{
    let buf = be32(body.len()) + body;
    assert(buf.take(4) =~= be32(body.len()));
    lemma_be32_round_trip(body.len());
    assert(buf.skip(4) =~= body);
}

/// Prefix a message body with its big-endian length.
pub fn encode_frame(body: &Vec<u8>) -> (r: Vec<u8>)
    requires
        body@.len() <= u32::MAX,
    ensures
        r@ == be32(body@.len()) + body@,
{
    let n: u32 = body.len() as u32;
    let mut r: Vec<u8> = Vec::new();
    r.push((n / 0x1000000 % 256) as u8);
    r.push((n / 0x10000 % 256) as u8);
    r.push((n / 256 % 256) as u8);
    r.push((n % 256) as u8);
    let mut i: usize = 0;
    while i < body.len()
        invariant
            i <= body@.len(),
            r@ == be32(body@.len()) + body@.take(i as int),
        decreases body@.len() - i,
    {
        r.push(body[i]);
        proof {
            assert(body@.take(i + 1) =~= body@.take(i as int).push(body@[i as int]));
            assert(r@ =~= be32(body@.len()) + body@.take(i + 1));
        }
        i += 1;
    }
    proof {
        assert(body@.take(body@.len() as int) =~= body@);
    }
    r
}

/// Decode a buffer holding exactly one frame; `None` when the prefix and
/// the length do not agree.
pub fn decode_frame(buf: &Vec<u8>) -> (r: Option<Vec<u8>>)
    ensures
        r.deep_view() == decode_frame_spec(buf@),
{
    if buf.len() < 4 {
        return None;
    }
    let b0 = buf[0] as u64;
    let b1 = buf[1] as u64;
    let b2 = buf[2] as u64;
    let b3 = buf[3] as u64;
    let len = b0 * 0x1000000 + b1 * 0x10000 + b2 * 256 + b3;
    proof {
        assert(buf@.take(4)[0] == buf@[0]);
        assert(buf@.take(4)[1] == buf@[1]);
        assert(buf@.take(4)[2] == buf@[2]);
        assert(buf@.take(4)[3] == buf@[3]);
    }
    if len != (buf.len() - 4) as u64 {
        return None;
    }
    let mut payload: Vec<u8> = Vec::new();
    let mut i: usize = 4;
    while i < buf.len()
        invariant
            4 <= i <= buf@.len(),
            payload@ == buf@.subrange(4, i as int),
        decreases buf@.len() - i,
    {
        payload.push(buf[i]);
        proof {
            assert(buf@.subrange(4, i + 1) =~= buf@.subrange(4, i as int).push(buf@[i as int]));
        }
        i += 1;
    }
    proof {
        assert(payload@ =~= buf@.skip(4));
    }
    Some(payload)
}

} // verus!
