//! Threshold derivation and the acceptance rule for digests.
//!
//! A digest is accepted when, read as a big-endian unsigned integer, it is at
//! most `floor((2^256 - 1) / difficulty)`. The comparison is `<=` throughout.

use crate::big_endian::{
    be_bytes_le, be_value, lemma_be_value_bound, lemma_be_value_of_be_bytes,
    lemma_be_value_of_minimal, lemma_byte_len_at_most, minimal_be_bytes,
};
use crate::error::EngineError;
use crate::uint256::{lemma_pow256_values, pow2_256, Uint256};
use num_bigint::BigUint;
use vstd::arithmetic::div_mod::lemma_div_is_ordered_by_denominator;
use vstd::prelude::*;

verus! {

/// The threshold that belongs to a difficulty: `floor((2^256 - 1) / difficulty)`.
pub open spec fn threshold_of(difficulty: nat) -> nat
    recommends
        difficulty > 0,
{
    ((pow2_256() - 1) / (difficulty as int)) as nat
}

/// Whether a digest, read as a big-endian number, is at most the threshold.
pub open spec fn digest_accepted(digest: Seq<u8>, threshold: nat) -> bool {
    be_value(digest) <= threshold
}

/// Divides with `BigUint` of the `num-bigint` crate: both operands are read with
/// `BigUint::from_bytes_be`, the quotient is written with `BigUint::to_bytes_be`.
/// Trusted: the bytes that come back are the floor of the quotient, most
/// significant byte first, in the shortest form (one zero byte for zero, no
/// leading zero byte otherwise). The outside division panics on a zero divisor.
#[verifier::external_body]
fn biguint_div(numerator: &[u8], denominator: &[u8]) -> (quotient: Vec<u8>)
    requires
        be_value(denominator@) != 0,
    ensures
        quotient@ == minimal_be_bytes(be_value(numerator@) / be_value(denominator@)),
{
    (BigUint::from_bytes_be(numerator) / BigUint::from_bytes_be(denominator)).to_bytes_be()
}

/// A higher difficulty never has a higher threshold.
pub proof fn lemma_threshold_monotonic(lower: nat, higher: nat)
    requires
        0 < lower <= higher,
    ensures
        threshold_of(higher) <= threshold_of(lower),
{
    lemma_div_is_ordered_by_denominator(pow2_256() - 1, lower as int, higher as int);
}

/// The threshold of a valid difficulty fits in 256 bits.
pub proof fn lemma_threshold_bound(difficulty: nat)
    requires
        difficulty > 0,
    ensures
        threshold_of(difficulty) < pow2_256(),
{
    lemma_div_is_ordered_by_denominator(pow2_256() - 1, 1, difficulty as int);
}

/// With a difficulty of one the threshold is the largest 256-bit number, so
/// every 32-byte digest is accepted.
pub proof fn lemma_difficulty_one_accepts_all(digest: Seq<u8>)
    requires
        digest.len() == 32,
    ensures
        threshold_of(1) == pow2_256() - 1,
        digest_accepted(digest, threshold_of(1)),
{
    lemma_be_value_bound(digest);
    lemma_pow256_values();
}

/// The threshold for a difficulty: `floor((2^256 - 1) / difficulty)`.
/// A difficulty of zero is rejected with `InvalidDifficulty`.
pub fn threshold(difficulty: &Uint256) -> (r: Result<Uint256, EngineError>)
    ensures
        difficulty@ == 0 ==> r == Err::<Uint256, EngineError>(EngineError::InvalidDifficulty),
        difficulty@ != 0 ==> r is Ok && r->Ok_0@ == threshold_of(difficulty@),
{
    if difficulty.is_zero() {
        return Err(EngineError::InvalidDifficulty);
    }
    let numerator = Uint256::max_value().to_big_endian();
    let denominator = difficulty.to_big_endian();
    proof {
        lemma_pow256_values();
        lemma_be_value_of_be_bytes((pow2_256() - 1) as nat, 32);
        difficulty.lemma_bounded();
        lemma_be_value_of_be_bytes(difficulty@, 32);
    }
    let quotient = biguint_div(numerator.as_slice(), denominator.as_slice());
    proof {
        let q = threshold_of(difficulty@);
        assert(quotient@ == minimal_be_bytes(q));
        lemma_threshold_bound(difficulty@);
        lemma_be_value_of_minimal(q);
        lemma_byte_len_at_most(q, 32);
    }
    match Uint256::from_big_endian(quotient.as_slice()) {
        Some(t) => Ok(t),
        // Not reached: a quotient below 2^256 has at most 32 bytes.
        None => Err(EngineError::InvalidDifficulty),
    }
}

/// Whether a digest meets the threshold: read as a big-endian unsigned integer
/// it is at most the threshold. A digest equal to the threshold is accepted.
pub fn meets_threshold(digest: &[u8; 32], threshold: &Uint256) -> (r: bool)
    ensures
        r == digest_accepted(digest@, threshold@),
{
    let bound = threshold.to_big_endian();
    proof {
        lemma_pow256_values();
        threshold.lemma_bounded();
        lemma_be_value_of_be_bytes(threshold@, 32);
    }
    be_bytes_le(digest.as_slice(), bound.as_slice())
}

} // verus!
