//! Byte strings read as big-endian numbers: the model that the packed encoding
//! and the comparison of digests are stated over.

use vstd::prelude::*;

verus! {

/// The number that a byte string stands for when read most significant byte first.
pub open spec fn be_value(s: Seq<u8>) -> nat
    decreases s.len(),
{
    if s.len() == 0 {
        0
    } else {
        be_value(s.drop_last()) * 256 + s.last() as nat
    }
}

/// The `len` lowest base-256 digits of `v`, most significant first.
pub open spec fn be_bytes(v: nat, len: nat) -> Seq<u8>
    decreases len,
{
    if len == 0 {
        Seq::<u8>::empty()
    } else {
        be_bytes(v / 256, (len - 1) as nat).push((v % 256) as u8)
    }
}

/// 256 to the power `n`.
pub open spec fn pow256(n: nat) -> nat
    decreases n,
{
    if n == 0 {
        1
    } else {
        256 * pow256((n - 1) as nat)
    }
}

/// `be_bytes` yields exactly `len` bytes.
pub proof fn lemma_be_bytes_len(v: nat, len: nat)
    ensures
        be_bytes(v, len).len() == len,
    decreases len,
{
    if len > 0 {
        lemma_be_bytes_len(v / 256, (len - 1) as nat);
    }
}

/// A byte string of length `n` stands for a number below 256^n.
pub proof fn lemma_be_value_bound(s: Seq<u8>)
    ensures
        be_value(s) < pow256(s.len()),
    decreases s.len(),
{
    if s.len() > 0 {
        lemma_be_value_bound(s.drop_last());
    }
}

/// Reading back the `len` big-endian digits of a number below 256^len gives the number.
pub proof fn lemma_be_value_of_be_bytes(v: nat, len: nat)
    requires
        v < pow256(len),
    ensures
        be_value(be_bytes(v, len)) == v,
    decreases len,
{
    if len > 0 {
        let rest = be_bytes(v / 256, (len - 1) as nat);
        lemma_be_value_of_be_bytes(v / 256, (len - 1) as nat);
        assert(be_bytes(v, len).drop_last() =~= rest);
    }
}

/// Writing the digits of the number that a byte string stands for gives the string back.
pub proof fn lemma_be_bytes_of_be_value(s: Seq<u8>)
    ensures
        be_bytes(be_value(s), s.len()) == s,
    decreases s.len(),
{
    if s.len() > 0 {
        lemma_be_bytes_of_be_value(s.drop_last());
        let v = be_value(s);
        assert(v / 256 == be_value(s.drop_last()));
        assert(v % 256 == s.last() as nat);
        assert(be_bytes(v, s.len()) =~= s);
    }
}

/// 256^n does not shrink as `n` grows, and is never zero.
pub proof fn lemma_pow256_monotonic(m: nat, n: nat)
    requires
        m <= n,
    ensures
        pow256(m) <= pow256(n),
        pow256(m) >= 1,
    decreases n,
{
    if m < n {
        lemma_pow256_monotonic(m, (n - 1) as nat);
    } else if n > 0 {
        lemma_pow256_monotonic((m - 1) as nat, (n - 1) as nat);
    }
}

/// A byte string that starts with a non-zero byte stands for at least 256^(len - 1).
pub proof fn lemma_be_value_leading_byte(s: Seq<u8>)
    requires
        s.len() >= 1,
        s[0] != 0,
    ensures
        be_value(s) >= pow256((s.len() - 1) as nat),
    decreases s.len(),
{
    if s.len() == 1 {
        assert(s.drop_last().len() == 0);
        assert(be_value(s.drop_last()) == 0);
    } else {
        lemma_be_value_leading_byte(s.drop_last());
    }
}

/// Leading zero bytes do not change the number that a byte string stands for.
pub proof fn lemma_be_value_skip_zeros(s: Seq<u8>, k: int)
    requires
        0 <= k <= s.len(),
        forall|j: int| 0 <= j < k ==> s[j] == 0,
    ensures
        be_value(s.skip(k)) == be_value(s),
    decreases s.len(),
{
    if s.len() == 0 {
        assert(s.skip(k) =~= s);
    } else if k == s.len() {
        lemma_be_value_skip_zeros(s.drop_last(), k - 1);
        assert(s.drop_last().skip(k - 1).len() == 0);
        assert(s.skip(k).len() == 0);
    } else {
        lemma_be_value_skip_zeros(s.drop_last(), k);
        assert(s.skip(k).drop_last() =~= s.drop_last().skip(k));
    }
}

/// The number of base-256 digits of `v`; one for zero.
pub open spec fn byte_len(v: nat) -> nat
    decreases v,
{
    if v < 256 {
        1
    } else {
        1 + byte_len(v / 256)
    }
}

/// The shortest big-endian byte string that stands for `v`: no leading zero
/// byte, but one zero byte for zero.
pub open spec fn minimal_be_bytes(v: nat) -> Seq<u8> {
    be_bytes(v, byte_len(v))
}

/// A number has at least one digit, is below 256 to the number of its digits,
/// and, unless it is zero, not below 256 to one less.
pub proof fn lemma_byte_len(v: nat)
    ensures
        byte_len(v) >= 1,
        v < pow256(byte_len(v)),
        v > 0 ==> v >= pow256((byte_len(v) - 1) as nat),
    decreases v,
{
    reveal_with_fuel(pow256, 2);
    if v >= 256 {
        lemma_byte_len(v / 256);
    }
}

/// A number below 256^n has at most `n` digits.
pub proof fn lemma_byte_len_at_most(v: nat, n: nat)
    requires
        n >= 1,
        v < pow256(n),
    ensures
        byte_len(v) <= n,
{
    lemma_byte_len(v);
    if byte_len(v) > n {
        lemma_pow256_monotonic(n, (byte_len(v) - 1) as nat);
    }
}

/// A number from 256^(n - 1) up to, but not including, 256^n has exactly `n` digits.
pub proof fn lemma_byte_len_exact(v: nat, n: nat)
    requires
        n >= 1,
        pow256((n - 1) as nat) <= v < pow256(n),
    ensures
        byte_len(v) == n,
{
    lemma_byte_len(v);
    lemma_byte_len_at_most(v, n);
    if byte_len(v) < n {
        lemma_pow256_monotonic(byte_len(v), (n - 1) as nat);
    }
}

/// Reading the shortest byte string of a number gives the number back.
pub proof fn lemma_be_value_of_minimal(v: nat)
    ensures
        be_value(minimal_be_bytes(v)) == v,
        minimal_be_bytes(v).len() == byte_len(v),
{
    lemma_byte_len(v);
    lemma_be_value_of_be_bytes(v, byte_len(v));
    lemma_be_bytes_len(v, byte_len(v));
}

/// Two byte strings of one length that agree before index `i` and differ at `i`
/// are ordered as numbers the way their bytes at `i` are ordered.
pub proof fn lemma_be_value_first_difference(a: Seq<u8>, b: Seq<u8>, i: int)
    requires
        a.len() == b.len(),
        0 <= i < a.len(),
        forall|j: int| 0 <= j < i ==> a[j] == b[j],
        a[i] < b[i],
    ensures
        be_value(a) < be_value(b),
    decreases a.len(),
{
    if i == a.len() - 1 {
        assert(a.drop_last() =~= b.drop_last());
    } else {
        lemma_be_value_first_difference(a.drop_last(), b.drop_last(), i);
    }
}

/// Whether the number that `a` spells is at most the number that `b` spells,
/// for two big-endian strings of one length.
pub fn be_bytes_le(a: &[u8], b: &[u8]) -> (r: bool)
    requires
        a@.len() == b@.len(),
    ensures
        r == (be_value(a@) <= be_value(b@)),
{
    let n = a.len();
    let mut i: usize = 0;
    while i < n
        invariant
            n == a@.len(),
            n == b@.len(),
            i <= n,
            forall|j: int| 0 <= j < i ==> a@[j] == b@[j],
        decreases n - i,
    {
        if a[i] < b[i] {
            proof {
                lemma_be_value_first_difference(a@, b@, i as int);
            }
            return true;
        }
        if a[i] > b[i] {
            proof {
                lemma_be_value_first_difference(b@, a@, i as int);
            }
            return false;
        }
        i += 1;
    }
    assert(a@ =~= b@);
    true
}

} // verus!
