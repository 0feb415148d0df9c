//! 256-bit unsigned integers held as four 64-bit limbs, least significant first.

use crate::big_endian::{be_bytes, be_value, pow256};
use vstd::prelude::*;

verus! {

/// 2^64.
pub open spec fn pow2_64() -> nat {
    0x1_0000_0000_0000_0000nat
}

/// 2^128.
pub open spec fn pow2_128() -> nat {
    0x1_0000_0000_0000_0000_0000_0000_0000_0000nat
}

/// 2^192.
pub open spec fn pow2_192() -> nat {
    0x1_0000_0000_0000_0000_0000_0000_0000_0000_0000_0000_0000_0000nat
}

/// 2^256.
pub open spec fn pow2_256() -> nat {
    0x1_0000_0000_0000_0000_0000_0000_0000_0000_0000_0000_0000_0000_0000_0000_0000_0000nat
}

/// The number that four limbs stand for, least significant limb first.
pub open spec fn limbs_value(l: Seq<u64>) -> nat
    recommends
        l.len() == 4,
{
    l[0] as nat + (l[1] as nat) * pow2_64() + (l[2] as nat) * pow2_128() + (l[3] as nat)
        * pow2_192()
}

/// 256^8, 256^16, 256^24 and 256^32 are 2^64, 2^128, 2^192 and 2^256.
pub proof fn lemma_pow256_values()
    ensures
        pow256(8) == pow2_64(),
        pow256(16) == pow2_128(),
        pow256(24) == pow2_192(),
        pow256(32) == pow2_256(),
{
    reveal_with_fuel(pow256, 9);
    assert(pow256(8) == pow2_64());
    assert(pow256(16) == pow2_64() * pow256(8));
    assert(pow256(24) == pow2_64() * pow256(16));
    assert(pow256(32) == pow2_64() * pow256(24));
}

/// Four limbs stand for a number below 2^256.
pub proof fn lemma_limbs_value_bound(l: Seq<u64>)
    requires
        l.len() == 4,
    ensures
        limbs_value(l) < pow2_256(),
{
    assert((l[1] as nat) * pow2_64() <= (pow2_64() - 1) * pow2_64()) by (nonlinear_arith)
        requires
            (l[1] as nat) <= pow2_64() - 1,
    ;
    assert((l[2] as nat) * pow2_128() <= (pow2_64() - 1) * pow2_128()) by (nonlinear_arith)
        requires
            (l[2] as nat) <= pow2_64() - 1,
    ;
    assert((l[3] as nat) * pow2_192() <= (pow2_64() - 1) * pow2_192()) by (nonlinear_arith)
        requires
            (l[3] as nat) <= pow2_64() - 1,
    ;
}

/// Limb strings are compared as numbers from the most significant limb down:
/// the first limb that differs decides, and equal numbers have equal limbs.
pub proof fn lemma_limbs_value_order(a: Seq<u64>, b: Seq<u64>)
    requires
        a.len() == 4,
        b.len() == 4,
    ensures
        a[3] < b[3] ==> limbs_value(a) < limbs_value(b),
        a[3] == b[3] && a[2] < b[2] ==> limbs_value(a) < limbs_value(b),
        a[3] == b[3] && a[2] == b[2] && a[1] < b[1] ==> limbs_value(a) < limbs_value(b),
        a[3] == b[3] && a[2] == b[2] && a[1] == b[1] && a[0] < b[0] ==> limbs_value(a)
            < limbs_value(b),
        a[3] == b[3] && a[2] == b[2] && a[1] == b[1] && a[0] == b[0] ==> limbs_value(a)
            == limbs_value(b),
{
    let a01 = a[0] as nat + (a[1] as nat) * pow2_64();
    let b01 = b[0] as nat + (b[1] as nat) * pow2_64();
    assert(a01 < pow2_128());
    assert(b01 < pow2_128());
    let a012 = a01 + (a[2] as nat) * pow2_128();
    let b012 = b01 + (b[2] as nat) * pow2_128();
    assert(a012 < pow2_192());
    assert(b012 < pow2_192());
    assert(limbs_value(a) == a012 + (a[3] as nat) * pow2_192());
    assert(limbs_value(b) == b012 + (b[3] as nat) * pow2_192());
    if a[3] < b[3] {
        assert((a[3] as nat) * pow2_192() + pow2_192() <= (b[3] as nat) * pow2_192());
    } else if a[3] == b[3] && a[2] < b[2] {
        assert((a[2] as nat) * pow2_128() + pow2_128() <= (b[2] as nat) * pow2_128());
    } else if a[3] == b[3] && a[2] == b[2] && a[1] < b[1] {
        assert((a[1] as nat) * pow2_64() + pow2_64() <= (b[1] as nat) * pow2_64());
    }
}

/// A 256-bit unsigned integer.
#[derive(Clone, Copy, Debug, PartialEq, Eq)]
pub struct Uint256 {
    /// The four 64-bit limbs, least significant first.
    pub limbs: [u64; 4],
}

impl View for Uint256 {
    type V = nat;

    open spec fn view(&self) -> nat {
        limbs_value(self.limbs@)
    }
}

/// Calls `U256::to_big_endian` of the `ethers` crate on the integer with the
/// given limbs. Trusted: the 32 bytes written are the big-endian digits of the
/// value, most significant byte first.
#[verifier::external_body]
fn u256_to_big_endian(limbs: &[u64; 4]) -> (out: [u8; 32])
    ensures
        out@ == be_bytes(limbs_value(limbs@), 32),
{
    let mut out = [0u8; 32];
    ethers::types::U256(*limbs).to_big_endian(&mut out);
    out
}

/// Calls `U256::from_big_endian` of the `ethers` crate. Trusted: the limbs that
/// come back stand for the number that the bytes spell most significant byte
/// first. The outside function panics on more than 32 bytes.
#[verifier::external_body]
fn u256_from_big_endian(bytes: &[u8]) -> (limbs: [u64; 4])
    requires
        bytes@.len() <= 32,
    ensures
        limbs_value(limbs@) == be_value(bytes@),
{
    ethers::types::U256::from_big_endian(bytes).0
}

/// Calls `U256::overflowing_add` of the `ethers` crate. Trusted: the limbs that
/// come back stand for the sum reduced modulo 2^256, and the flag tells whether
/// the exact sum reached 2^256.
#[verifier::external_body]
fn u256_overflowing_add(a: &[u64; 4], b: &[u64; 4]) -> (r: ([u64; 4], bool))
    ensures
        limbs_value(r.0@) == (limbs_value(a@) + limbs_value(b@)) % pow2_256(),
        r.1 == (limbs_value(a@) + limbs_value(b@) >= pow2_256()),
{
    let (sum, carry) = ethers::types::U256(*a).overflowing_add(ethers::types::U256(*b));
    (sum.0, carry)
}

impl Uint256 {
    /// Every value is below 2^256.
    pub proof fn lemma_bounded(self)
        ensures
            self@ < pow2_256(),
    {
        lemma_limbs_value_bound(self.limbs@);
    }

    /// The largest value, 2^256 - 1.
    pub fn max_value() -> (r: Uint256)
        ensures
            r@ == pow2_256() - 1,
    {
        Uint256 { limbs: [u64::MAX, u64::MAX, u64::MAX, u64::MAX] }
    }

    /// Whether the value is zero.
    pub fn is_zero(&self) -> (r: bool)
        ensures
            r == (self@ == 0),
    {
        proof {
            lemma_limbs_value_order(seq![0u64, 0u64, 0u64, 0u64], self.limbs@);
        }
        self.limbs[0] == 0 && self.limbs[1] == 0 && self.limbs[2] == 0 && self.limbs[3] == 0
    }

    /// The lowest 64 bits of the value.
    pub fn low_u64(&self) -> (r: u64)
        ensures
            r == self@ % pow2_64(),
    {
        proof {
            let hi = self.limbs[1] as nat + (self.limbs[2] as nat) * pow2_64() + (
            self.limbs[3] as nat) * pow2_128();
            assert(self@ == self.limbs[0] as nat + hi * pow2_64());
            assert((self.limbs[0] as nat + hi * pow2_64()) % pow2_64() == self.limbs[0] as nat)
                by (nonlinear_arith)
                requires
                    (self.limbs[0] as nat) < pow2_64(),
                    pow2_64() > 0,
            ;
        }
        self.limbs[0]
    }

    /// Whether the value fits in 64 bits.
    pub fn fits_u64(&self) -> (r: bool)
        ensures
            r == (self@ < pow2_64()),
    {
        proof {
            lemma_limbs_value_order(seq![u64::MAX, 0u64, 0u64, 0u64], self.limbs@);
            lemma_limbs_value_order(self.limbs@, seq![u64::MAX, 0u64, 0u64, 0u64]);
        }
        self.limbs[1] == 0 && self.limbs[2] == 0 && self.limbs[3] == 0
    }

    /// Whether the two values are equal.
    pub fn equals(&self, other: &Uint256) -> (r: bool)
        ensures
            r == (self@ == other@),
    {
        proof {
            lemma_limbs_value_order(self.limbs@, other.limbs@);
            lemma_limbs_value_order(other.limbs@, self.limbs@);
        }
        self.limbs[0] == other.limbs[0] && self.limbs[1] == other.limbs[1] && self.limbs[2]
            == other.limbs[2] && self.limbs[3] == other.limbs[3]
    }

    /// Whether this value is at most `other`.
    pub fn le(&self, other: &Uint256) -> (r: bool)
        ensures
            r == (self@ <= other@),
    {
        proof {
            lemma_limbs_value_order(self.limbs@, other.limbs@);
            lemma_limbs_value_order(other.limbs@, self.limbs@);
        }
        if self.limbs[3] != other.limbs[3] {
            self.limbs[3] < other.limbs[3]
        } else if self.limbs[2] != other.limbs[2] {
            self.limbs[2] < other.limbs[2]
        } else if self.limbs[1] != other.limbs[1] {
            self.limbs[1] < other.limbs[1]
        } else {
            self.limbs[0] <= other.limbs[0]
        }
    }

    /// Zero.
    pub fn zero() -> (r: Uint256)
        ensures
            r@ == 0,
    {
        Uint256 { limbs: [0, 0, 0, 0] }
    }

    /// The 256-bit integer with the value of `x`.
    pub fn from_u64(x: u64) -> (r: Uint256)
        ensures
            r@ == x,
    {
        Uint256 { limbs: [x, 0, 0, 0] }
    }

    /// The 32 big-endian bytes of the value.
    pub fn to_big_endian(&self) -> (out: [u8; 32])
        ensures
            out@ == be_bytes(self@, 32),
    {
        u256_to_big_endian(&self.limbs)
    }

    /// The integer that at most 32 bytes spell most significant byte first;
    /// `None` for a longer string.
    pub fn from_big_endian(bytes: &[u8]) -> (r: Option<Uint256>)
        ensures
            bytes@.len() <= 32 <==> r is Some,
            r matches Some(x) ==> x@ == be_value(bytes@),
    {
        if bytes.len() <= 32 {
            Some(Uint256 { limbs: u256_from_big_endian(bytes) })
        } else {
            None
        }
    }

    /// The sum modulo 2^256, with a flag that tells whether it wrapped.
    pub fn overflowing_add(&self, other: &Uint256) -> (r: (Uint256, bool))
        ensures
            r.0@ == (self@ + other@) % pow2_256(),
            r.1 == (self@ + other@ >= pow2_256()),
    {
        let (limbs, carry) = u256_overflowing_add(&self.limbs, &other.limbs);
        (Uint256 { limbs }, carry)
    }

    /// The sum modulo 2^256.
    pub fn wrapping_add(&self, other: &Uint256) -> (r: Uint256)
        ensures
            r@ == (self@ + other@) % pow2_256(),
    {
        self.overflowing_add(other).0
    }
}

} // verus!
