//! Variable-length integer codec.
//!
//! A varint is a big-endian base-128 encoding: each byte contributes its low
//! seven bits, most-significant first, and a set high bit marks continuation.
//! Decoding stops (inclusively) at the first byte whose high bit is clear, at
//! the end of the buffer, or after the ninth byte, whichever comes first, so
//! it is total over every buffer.

use vstd::prelude::*;
use vstd::arithmetic::power2::{lemma2_to64, lemma2_to64_rest, lemma_pow2_adds, lemma_pow2_strictly_increases, pow2};

verus! {

/// Value of a big-endian base-128 digit sequence: each byte contributes its
/// low seven bits.
pub open spec fn base128(s: Seq<u8>) -> int
    decreases s.len(),
{
    if s.len() == 0 {
        0
    } else {
        base128(s.drop_last()) * 128 + (s.last() % 128)
    }
}

/// Index just past the last byte a decode started at index `i` consumes:
/// scanning stops after the first byte with a clear high bit, at the buffer
/// end, or once nine bytes have been consumed.
pub open spec fn varint_len_from(b: Seq<u8>, i: int) -> int
    decreases 9 - i,
{
    if i >= b.len() || i >= 9 {
        i
    } else if b[i] < 128 {
        i + 1
    } else {
        varint_len_from(b, i + 1)
    }
}

/// Number of bytes a decode of `b` consumes.
pub open spec fn spec_varint_len(b: Seq<u8>) -> int {
    varint_len_from(b, 0)
}

/// The value a decode of `b` yields.
pub open spec fn spec_varint_value(b: Seq<u8>) -> int {
    base128(b.take(spec_varint_len(b)))
}

pub proof fn lemma_varint_len_from_bounds(b: Seq<u8>, i: int)
    requires
        0 <= i <= 9,
        i <= b.len(),
    ensures
        i <= varint_len_from(b, i),
        varint_len_from(b, i) <= 9,
        varint_len_from(b, i) <= b.len(),
        i < b.len() && i < 9 ==> i + 1 <= varint_len_from(b, i),
    decreases 9 - i,
{
    if i < b.len() && i < 9 && b[i] >= 128 {
        lemma_varint_len_from_bounds(b, i + 1);
    }
}

pub proof fn lemma_varint_len_bounds(b: Seq<u8>)
    ensures
        0 <= spec_varint_len(b) <= 9,
        spec_varint_len(b) <= b.len(),
        b.len() > 0 ==> 1 <= spec_varint_len(b),
{
    lemma_varint_len_from_bounds(b, 0);
}

pub proof fn lemma_base128_bound(s: Seq<u8>)
    ensures
        0 <= base128(s) < pow2((7 * s.len()) as nat),
    decreases s.len(),
{
    lemma2_to64();
    if s.len() == 0 {
    } else {
        lemma_base128_bound(s.drop_last());
        lemma_pow2_adds((7 * (s.len() - 1)) as nat, 7);
    }
}

/// Decode one varint from the start of `buf`, returning the value and the
/// number of bytes consumed. Total: an empty buffer yields `(0, 0)`.
pub fn decode_varint(buf: &[u8]) -> (r: (i64, usize))
    ensures
        r.1 == spec_varint_len(buf@),
        r.0 == spec_varint_value(buf@),
        0 <= r.0,
        r.1 <= 9,
        r.1 <= buf@.len(),
        buf@.len() > 0 ==> 1 <= r.1,
{
    proof {
        lemma_varint_len_bounds(buf@);
        lemma2_to64();
    }
    let mut i: usize = 0;
    let mut res: i64 = 0;
    while i < 9 && i < buf.len()
        invariant_except_break
            i <= 9,
            i <= buf@.len(),
            res == base128(buf@.take(i as int)),
            0 <= res < pow2((7 * i) as nat),
            varint_len_from(buf@, 0) == varint_len_from(buf@, i as int),
        ensures
            res == base128(buf@.take(i as int)),
            i == spec_varint_len(buf@),
        decreases 9 - i,
    {
        let byte = buf[i];
        proof {
            lemma2_to64();
            lemma2_to64_rest();
            lemma_pow2_adds((7 * i) as nat, 7);
            if 7 * i + 7 < 63 {
                lemma_pow2_strictly_increases((7 * i + 7) as nat, 63);
            }
            assert(buf@.take(i + 1).drop_last() =~= buf@.take(i as int));
        }
        i = i + 1;
        res = res * 128 + (byte % 128) as i64;
        if byte < 128 {
            break;
        }
    }
    proof {
        assert(spec_varint_value(buf@) == base128(buf@.take(i as int)));
        lemma_base128_bound(buf@.take(i as int));
    }
    (res, i)
}

/// The continuation bytes (high bit set) that carry the upper digits of `n`.
pub open spec fn spec_encode_cont(n: int) -> Seq<u8>
    decreases n,
{
    if n <= 0 {
        Seq::empty()
    } else {
        spec_encode_cont(n / 128) + seq![(n % 128 + 128) as u8]
    }
}

/// The minimal varint encoding of a non-negative value `n`.
pub open spec fn spec_encode_varint(n: int) -> Seq<u8>
    recommends
        0 <= n,
{
    spec_encode_cont(n / 128) + seq![(n % 128) as u8]
}

pub proof fn lemma_encode_cont_value(m: int)
    requires
        0 <= m,
    ensures
        base128(spec_encode_cont(m)) == m,
        forall|j: int|
            0 <= j < spec_encode_cont(m).len() ==> spec_encode_cont(m)[j] >= 128,
    decreases m,
{
    if m > 0 {
        lemma_encode_cont_value(m / 128);
        let s = spec_encode_cont(m);
        assert(s.drop_last() =~= spec_encode_cont(m / 128));
        assert(s.last() == (m % 128 + 128) as u8);
    }
}

pub proof fn lemma_encode_cont_len(m: int, k: nat)
    requires
        0 <= m < pow2(7 * k),
    ensures
        spec_encode_cont(m).len() <= k,
    decreases k,
{
    if m > 0 {
        lemma_pow2_adds(7 * (k - 1) as nat, 7);
        lemma2_to64();
        lemma_encode_cont_len(m / 128, (k - 1) as nat);
    }
}

proof fn lemma_varint_len_from_run(b: Seq<u8>, i: int)
    requires
        0 <= i < b.len() <= 9,
        forall|j: int| i <= j < b.len() - 1 ==> b[j] >= 128,
        b[b.len() - 1] < 128,
    ensures
        varint_len_from(b, i) == b.len(),
    decreases b.len() - i,
{
    if i < b.len() - 1 {
        lemma_varint_len_from_run(b, i + 1);
    }
}

/// Law: a varint round-trips. For every non-negative value representable in
/// nine encoded bytes — that is, every non-negative 64-bit value — decoding
/// the encoding yields the value back and consumes the entire encoding.
pub proof fn lemma_varint_round_trip(n: int)
    requires
        0 <= n < 0x8000000000000000,
    ensures
        spec_varint_len(spec_encode_varint(n)) == spec_encode_varint(n).len(),
        spec_varint_value(spec_encode_varint(n)) == n,
        1 <= spec_encode_varint(n).len() <= 9,
{
    let e = spec_encode_varint(n);
    lemma_encode_cont_value(n / 128);
    assert(pow2(56) == 0x100000000000000 && pow2(63) == 0x8000000000000000) by {
        lemma2_to64_rest();
    }
    lemma_encode_cont_len(n / 128, 8);
    assert(e.drop_last() =~= spec_encode_cont(n / 128));
    assert(e.last() == (n % 128) as u8);
    assert(base128(e) == n);
    lemma_varint_len_from_run(e, 0);
    assert(e.take(e.len() as int) =~= e);
}

/// Encode a non-negative value as a minimal varint.
pub fn encode_varint(n: i64) -> (r: Vec<u8>)
    requires
        0 <= n,
    ensures
        r@ == spec_encode_varint(n as int),
        1 <= r@.len() <= 9,
{
    proof {
        lemma_varint_round_trip(n as int);
    }
    let mut v = encode_cont(n / 128);
    v.push((n % 128) as u8);
    proof {
        assert(v@ =~= spec_encode_varint(n as int));
    }
    v
}

fn encode_cont(m: i64) -> (r: Vec<u8>)
    requires
        0 <= m,
    ensures
        r@ == spec_encode_cont(m as int),
    decreases m,
{
    if m == 0 {
        Vec::new()
    } else {
        let mut v = encode_cont(m / 128);
        v.push((m % 128 + 128) as u8);
        proof {
            assert(v@ =~= spec_encode_cont(m as int));
        }
        v
    }
}

} // verus!
