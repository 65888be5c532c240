//! Big-endian integer readers over byte buffers.
//!
//! The file format stores every multi-byte field most-significant byte
//! first; record integers are additionally two's-complement signed.

use vstd::prelude::*;
use vstd::arithmetic::power2::{
    lemma2_to64, lemma2_to64_rest, lemma_pow2_adds, lemma_pow2_strictly_increases, pow2,
};

verus! {

/// Big-endian unsigned value of a byte sequence.
pub open spec fn be_uint(s: Seq<u8>) -> int
    decreases s.len(),
{
    if s.len() == 0 {
        0
    } else {
        be_uint(s.drop_last()) * 256 + s.last()
    }
}

/// Big-endian two's-complement signed value of a byte sequence.
pub open spec fn be_int(s: Seq<u8>) -> int {
    if s.len() == 0 {
        0
    } else if be_uint(s) >= pow2((8 * s.len() - 1) as nat) {
        be_uint(s) - pow2((8 * s.len()) as nat)
    } else {
        be_uint(s)
    }
}

pub proof fn lemma_be_uint_bound(s: Seq<u8>)
    ensures
        0 <= be_uint(s) < pow2((8 * s.len()) as nat),
    decreases s.len(),
{
    lemma2_to64();
    if s.len() > 0 {
        lemma_be_uint_bound(s.drop_last());
        lemma_pow2_adds((8 * (s.len() - 1)) as nat, 8);
    }
}

pub proof fn lemma_be_int_bound(s: Seq<u8>)
    requires
        s.len() >= 1,
    ensures
        -pow2((8 * s.len() - 1) as nat) <= be_int(s) < pow2((8 * s.len() - 1) as nat),
{
    lemma_be_uint_bound(s);
    lemma_pow2_adds((8 * s.len() - 1) as nat, 1);
    lemma2_to64();
}

proof fn lemma_be_int_extend(s: Seq<u8>, b: u8)
    requires
        s.len() >= 1,
    ensures
        be_int(s.push(b)) == be_int(s) * 256 + b,
{
    let t = s.push(b);
    assert(t.drop_last() =~= s);
    lemma_be_uint_bound(s);
    lemma_pow2_adds((8 * s.len() - 1) as nat, 8);
    lemma_pow2_adds((8 * s.len()) as nat, 8);
    lemma2_to64();
}

/// Read `w` big-endian bytes at `pos` as an unsigned value.
pub fn read_be_uint(b: &[u8], pos: usize, w: usize) -> (r: u64)
    requires
        w <= 8,
        pos + w <= b@.len(),
    ensures
        r == be_uint(b@.subrange(pos as int, pos + w)),
{
    proof {
        lemma2_to64();
        lemma2_to64_rest();
    }
    let n = b.len();
    let mut acc: u64 = 0;
    let mut k: usize = 0;
    while k < w
        invariant
            k <= w <= 8,
            n == b@.len(),
            pos + w <= n,
            acc == be_uint(b@.subrange(pos as int, pos + k)),
            0 <= acc < pow2((8 * k) as nat),
        decreases w - k,
    {
        proof {
            lemma_pow2_adds((8 * k) as nat, 8);
            if 8 * k + 8 < 64 {
                lemma_pow2_strictly_increases((8 * k + 8) as nat, 64);
            }
            lemma2_to64();
            lemma2_to64_rest();
            assert(b@.subrange(pos as int, pos + k + 1).drop_last() =~= b@.subrange(
                pos as int,
                pos + k,
            ));
        }
        acc = acc * 256 + b[pos + k] as u64;
        k = k + 1;
    }
    acc
}

/// Read `w` big-endian bytes at `pos` as a sign-extended signed value.
pub fn read_be_int(b: &[u8], pos: usize, w: usize) -> (r: i64)
    requires
        1 <= w <= 8,
        pos + w <= b@.len(),
    ensures
        r == be_int(b@.subrange(pos as int, pos + w)),
{
    proof {
        lemma2_to64();
        lemma2_to64_rest();
    }
    let n = b.len();
    let first = b[pos];
    let mut acc: i64 = if first >= 128 {
        first as i64 - 256
    } else {
        first as i64
    };
    proof {
        let s1 = b@.subrange(pos as int, pos + 1);
        assert(be_uint(Seq::<u8>::empty()) == 0);
        assert(s1.drop_last() =~= Seq::<u8>::empty());
        assert(be_uint(s1) == first);
        lemma_be_int_bound(s1);
    }
    let mut k: usize = 1;
    while k < w
        invariant
            1 <= k <= w <= 8,
            n == b@.len(),
            pos + w <= n,
            acc == be_int(b@.subrange(pos as int, pos + k)),
            -pow2((8 * k - 1) as nat) <= acc < pow2((8 * k - 1) as nat),
        decreases w - k,
    {
        proof {
            lemma_pow2_adds((8 * k - 1) as nat, 8);
            if 8 * k + 7 < 63 {
                lemma_pow2_strictly_increases((8 * k + 7) as nat, 63);
            }
            lemma2_to64();
            lemma2_to64_rest();
            assert(b@.subrange(pos as int, pos + k + 1) =~= b@.subrange(pos as int, pos + k).push(
                b@[pos + k],
            ));
            lemma_be_int_extend(b@.subrange(pos as int, pos + k), b@[pos + k]);
            lemma_be_int_bound(b@.subrange(pos as int, pos + k + 1));
        }
        acc = acc * 256 + b[pos + k] as i64;
        k = k + 1;
    }
    acc
}

} // verus!
