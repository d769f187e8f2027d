//! The rolling hash of a byte string: the bytes read as the digits of a
//! number in base 31, kept to 64 bits. It is no cryptographic hash.

use vstd::prelude::*;
use vstd::arithmetic::div_mod::{lemma_add_mod_noop, lemma_mul_mod_noop_left, lemma_small_mod};

verus! {

/// The bytes read as the digits of a number in base 31, the first byte
/// being the most significant digit.
pub open spec fn polynomial(bytes: Seq<u8>) -> nat
    decreases bytes.len(),
{
    if bytes.len() == 0 {
        0
    } else {
        polynomial(bytes.drop_last()) * 31 + bytes.last() as nat
    }
}

/// The rolling hash of `bytes`: `polynomial(bytes)` modulo `2^64`.
pub open spec fn rolling_hash(bytes: Seq<u8>) -> u64 {
    (polynomial(bytes) % 0x1_0000_0000_0000_0000) as u64
}

/// One more byte takes the hash `h` of the bytes before it to
/// `h * 31 + byte`, wrapping around at `2^64`.
pub proof fn lemma_rolling_hash_step(bytes: Seq<u8>, byte: u8)
    ensures
        rolling_hash(bytes.push(byte)) == vstd::wrapping::u64_specs::wrapping_add(
            vstd::wrapping::u64_specs::wrapping_mul(rolling_hash(bytes), 31),
            byte as u64,
        ),
{
    let m: int = 0x1_0000_0000_0000_0000;
    let p: int = polynomial(bytes) as int;
    assert(bytes.push(byte).drop_last() =~= bytes);
    assert(polynomial(bytes.push(byte)) == p * 31 + byte);
    let h: int = p % m;
    let scaled: int = (h * 31) % m;
    lemma_mul_mod_noop_left(p, 31, m);
    assert(scaled == (p * 31) % m);
    lemma_add_mod_noop(p * 31, byte as int, m);
    lemma_small_mod(byte as nat, m as nat);
    assert((p * 31 + byte) % m == (scaled + byte) % m);
    if scaled + byte >= m {
        vstd::arithmetic::div_mod::lemma_mod_add_multiples_vanish(scaled + byte - m, m);
        lemma_small_mod((scaled + byte - m) as nat, m as nat);
    } else {
        lemma_small_mod((scaled + byte) as nat, m as nat);
    }
    assert(0 <= h * 31) by (nonlinear_arith)
        requires
            0 <= h,
    ;
}

/// Computes the rolling hash of `data`.
pub fn hash_binary(data: &Vec<u8>) -> (hash: u64)
    ensures
        hash == rolling_hash(data@),
{
    let mut hash: u64 = 0;
    let mut i: usize = 0;
    proof {
        assert(data@.take(0) =~= Seq::empty());
    }
    while i < data.len()
        invariant
            i <= data.len(),
            hash == rolling_hash(data@.take(i as int)),
        decreases data.len() - i,
    {
        proof {
            assert(data@.take(i + 1) =~= data@.take(i as int).push(data@[i as int]));
            lemma_rolling_hash_step(data@.take(i as int), data@[i as int]);
        }
        hash = hash.wrapping_mul(31).wrapping_add(data[i] as u64);
        i = i + 1;
    }
    proof {
        assert(data@.take(i as int) =~= data@);
    }
    hash
}

} // verus!
