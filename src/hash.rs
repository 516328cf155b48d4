//! The table size and the key-to-bucket hash.
use vstd::arithmetic::power2::{lemma2_to64, lemma_pow2_adds, lemma_pow2_pos, pow2};
use vstd::arithmetic::div_mod::lemma_multiply_divide_lt;
use vstd::bits::{lemma_u64_shr_is_div, lemma_u64_shl_is_mul};
use vstd::prelude::*;

verus! {

/// Bucket bits of the default table: 32 buckets, enough for about 96
/// parked threads at a load factor of three.
pub const DEFAULT_BUCKET_BITS: u32 = 5;

/// Bucket bits of the larger table: 128 buckets.
pub const MORE_CONCURRENCY_BUCKET_BITS: u32 = 7;

/// Bucket bits of the reduced table used to explore interleavings: two
/// buckets, so that chosen keys can be made to collide.
pub const MODEL_BUCKET_BITS: u32 = 1;

/// The largest number of bucket bits a table may have.
pub const MAX_BUCKET_BITS: u32 = 16;

/// The 64-bit golden-ratio constant, the integer part of 2^64 / phi.
pub const GOLDEN_RATIO: u64 = 0x9E3779B97F4A7C15;

/// The number of buckets of a table with `bits` bucket bits.
pub open spec fn bucket_count_spec(bits: nat) -> nat {
    pow2(bits)
}

/// The bucket of `key` in a table with `bits` bucket bits: the top `bits`
/// bits of the product of the key and the golden-ratio constant, modulo
/// 2^64 (Fibonacci hashing).
pub open spec fn bucket_index_spec(key: nat, bits: nat) -> nat {
    (((key * (GOLDEN_RATIO as nat)) % pow2(64)) / pow2((64 - bits) as nat)) as nat
}

/// The number of buckets of a table with `bits` bucket bits.
pub fn bucket_count(bits: u32) -> (r: usize)
    requires
        bits <= MAX_BUCKET_BITS,
    ensures
        r == bucket_count_spec(bits as nat),
{
    proof {
        lemma2_to64();
        lemma_u64_shl_is_mul(1, bits as u64);
    }
    (1u64 << bits) as usize
}

/// The bucket that `key` belongs to in a table with `bits` bucket bits.
pub fn bucket_index(key: usize, bits: u32) -> (r: usize)
    requires
        bits <= MAX_BUCKET_BITS,
    ensures
        r == bucket_index_spec(key as nat, bits as nat),
        r < bucket_count_spec(bits as nat),
{
    let product = (key as u64).wrapping_mul(GOLDEN_RATIO);
    let shift: u32 = 64 - bits;
    if shift == 64 {
        proof {
            lemma2_to64();
            lemma_pow2_pos(0);
        }
        return 0;
    }
    proof {
        lemma2_to64();
        lemma_u64_shr_is_div(product, shift as u64);
        lemma_pow2_adds((64 - bits) as nat, bits as nat);
        lemma_pow2_pos((64 - bits) as nat);
        lemma_multiply_divide_lt(product as int, pow2((64 - bits) as nat) as int, pow2(bits as nat) as int);
    }
    (product >> shift) as usize
}

} // verus!
