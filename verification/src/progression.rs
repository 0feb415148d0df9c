//! The order in which candidates are tried: each worker walks an arithmetic
//! progression modulo 2^256, and the workers of one pass split the numbers
//! among them by their remainder modulo the number of workers.

use crate::hash_engine::{encoded_candidate, keccak256, solution_accepted};
use crate::threshold::{lemma_difficulty_one_accepts_all, threshold_of};
use crate::uint256::{pow2_256, pow2_64, Uint256};
use vstd::arithmetic::div_mod::{
    lemma_add_mod_noop, lemma_fundamental_div_mod, lemma_fundamental_div_mod_converse,
    lemma_small_mod,
};
use vstd::prelude::*;

verus! {

/// How far below the hinted candidate the hinted worker starts.
pub const HINT_MARGIN: u64 = 2000;

/// The `k`-th candidate of a progression that starts at `start` and advances
/// by `stride`, in arithmetic modulo 2^256.
pub open spec fn candidate_at(start: nat, stride: nat, k: nat) -> nat {
    (start + k * stride) % pow2_256()
}

/// None of the first `n` candidates of a progression is a solution.
pub open spec fn no_solution_before(
    prefix: Seq<u8>,
    threshold: nat,
    start: nat,
    stride: nat,
    n: nat,
) -> bool {
    forall|k: nat|
        k < n ==> !solution_accepted(prefix, #[trigger] candidate_at(start, stride, k), threshold)
}

/// Whether `candidate` is the first solution among the first `places` places
/// of a progression: it stands at one of them, it is a solution, and no
/// earlier place holds one.
pub open spec fn first_solution(
    prefix: Seq<u8>,
    threshold: nat,
    start: nat,
    stride: nat,
    places: nat,
    candidate: nat,
) -> bool {
    &&& solution_accepted(prefix, candidate, threshold)
    &&& exists|k: nat|
        k < places && #[trigger] candidate_at(start, stride, k) == candidate
            && no_solution_before(prefix, threshold, start, stride, k)
}

/// The progression starts at its start, reduced modulo 2^256.
pub proof fn lemma_candidate_first(start: nat, stride: nat)
    ensures
        candidate_at(start, stride, 0) == start % pow2_256(),
{
    assert(0 * stride == 0) by (nonlinear_arith);
}

/// Each candidate is the one before it plus the stride, modulo 2^256.
pub proof fn lemma_candidate_step(start: nat, stride: nat, k: nat)
    ensures
        candidate_at(start, stride, k + 1) == (candidate_at(start, stride, k) + stride)
            % pow2_256(),
{
    assert((k + 1) * stride == k * stride + stride) by (nonlinear_arith);
    lemma_add_mod_noop((start + k * stride) as int, stride as int, pow2_256() as int);
    lemma_add_mod_noop(
        ((start + k * stride) % pow2_256()) as int,
        stride as int,
        pow2_256() as int,
    );
}

/// A progression that is restarted at its own `a`-th candidate goes on where
/// it was: the `b`-th candidate from there is the `(a + b)`-th from the start.
pub proof fn lemma_candidate_shift(start: nat, stride: nat, a: nat, b: nat)
    ensures
        candidate_at(candidate_at(start, stride, a), stride, b) == candidate_at(
            start,
            stride,
            a + b,
        ),
{
    assert((a + b) * stride == a * stride + b * stride) by (nonlinear_arith);
    lemma_add_mod_noop((start + a * stride) as int, (b * stride) as int, pow2_256() as int);
    lemma_add_mod_noop(
        ((start + a * stride) % pow2_256()) as int,
        (b * stride) as int,
        pow2_256() as int,
    );
}

/// Place `k` of worker `i`, in a first pass of `workers` workers with batches
/// of `batch_size` and no hint, holds the number `i + k * workers`, which is
/// below `workers * batch_size` and has `i` and `k` as remainder and quotient.
proof fn lemma_first_pass_place(workers: nat, batch_size: nat, i: nat, k: nat)
    requires
        i < workers,
        k < batch_size,
        workers * batch_size <= pow2_256(),
    ensures
        candidate_at(i, workers, k) == i + k * workers,
        candidate_at(i, workers, k) < workers * batch_size,
        candidate_at(i, workers, k) % workers == i,
        candidate_at(i, workers, k) / workers == k,
{
    let c = i + k * workers;
    assert(c < workers * batch_size) by (nonlinear_arith)
        requires
            c == i + k * workers,
            i < workers,
            k < batch_size,
    ;
    lemma_small_mod(c, pow2_256());
    lemma_fundamental_div_mod_converse(c as int, workers as int, k as int, i as int);
}

/// Without a hint every worker starts at its own index.
pub proof fn lemma_start_without_hint(worker: nat, hinted: nat)
    ensures
        start_of(worker, hinted, 0) == worker,
{
}

/// The places of one pass are fewer than 2^256, so no candidate of a first
/// pass wraps around.
proof fn lemma_pass_fits(workers: usize, batch_size: usize)
    ensures
        (workers as nat) * (batch_size as nat) <= pow2_256(),
{
    assert((workers as nat) * (batch_size as nat) <= pow2_64() * pow2_64()) by (nonlinear_arith)
        requires
            workers as nat <= pow2_64(),
            batch_size as nat <= pow2_64(),
    ;
}

/// In a first pass of `workers` workers with batches of `batch_size`, every
/// number below `workers * batch_size` is tried: by the worker that its
/// remainder modulo `workers` names, at the place that its quotient names.
pub proof fn lemma_first_pass_covers(workers: usize, batch_size: usize, c: nat)
    requires
        workers > 0,
        c < (workers as nat) * (batch_size as nat),
    ensures
        c % (workers as nat) < workers,
        c / (workers as nat) < batch_size,
        candidate_at(c % (workers as nat), workers as nat, c / (workers as nat)) == c,
{
    let w = workers as nat;
    let b = batch_size as nat;
    lemma_pass_fits(workers, batch_size);
    lemma_fundamental_div_mod(c as int, w as int);
    let q = c / w;
    let r = c % w;
    assert(q < b) by (nonlinear_arith)
        requires
            c == w * q + r,
            r >= 0,
            c < w * b,
            w > 0,
    ;
    assert(w * q == q * w) by (nonlinear_arith);
    lemma_first_pass_place(w, b, r, q);
}

/// In a first pass, worker `i` tries only numbers below
/// `workers * batch_size` whose remainder modulo `workers` is `i`.
pub proof fn lemma_first_pass_residue(workers: usize, batch_size: usize, i: nat, k: nat)
    requires
        i < workers,
        k < batch_size,
    ensures
        candidate_at(i, workers as nat, k) < (workers as nat) * (batch_size as nat),
        candidate_at(i, workers as nat, k) % (workers as nat) == i,
{
    lemma_pass_fits(workers, batch_size);
    lemma_first_pass_place(workers as nat, batch_size as nat, i, k);
}

/// In a first pass no number is tried twice: two places that hold one number
/// are the same place of the same worker.
pub proof fn lemma_first_pass_disjoint(
    workers: usize,
    batch_size: usize,
    i: nat,
    k: nat,
    j: nat,
    m: nat,
)
    requires
        i < workers,
        j < workers,
        k < batch_size,
        m < batch_size,
        candidate_at(i, workers as nat, k) == candidate_at(j, workers as nat, m),
    ensures
        i == j,
        k == m,
{
    lemma_pass_fits(workers, batch_size);
    lemma_first_pass_place(workers as nat, batch_size as nat, i, k);
    lemma_first_pass_place(workers as nat, batch_size as nat, j, m);
}

/// With a difficulty of one, the first candidate of any progression that has
/// a place at all is its first solution, provided its digest has the 32 bytes
/// that every digest computed by `keccak256_opt` has.
pub proof fn lemma_difficulty_one_first_candidate(
    prefix: Seq<u8>,
    start: nat,
    stride: nat,
    places: nat,
)
    requires
        places > 0,
        keccak256(encoded_candidate(prefix, candidate_at(start, stride, 0))).len() == 32,
    ensures
        first_solution(
            prefix,
            threshold_of(1),
            start,
            stride,
            places,
            candidate_at(start, stride, 0),
        ),
{
    lemma_difficulty_one_accepts_all(
        keccak256(encoded_candidate(prefix, candidate_at(start, stride, 0))),
    );
}

/// Where the last search succeeded; it only biases where the next one starts.
#[derive(Clone, Copy, Debug)]
pub struct SuccessHint {
    /// The worker that found the last solution.
    pub worker: usize,
    /// The last solution, or `u64::MAX` if it has more than 64 bits; zero
    /// while there is none.
    pub candidate: u64,
}

/// What the hint keeps of a solution: the solution itself if it fits in 64
/// bits, the largest 64-bit number otherwise.
pub open spec fn hint_of(candidate: nat) -> nat {
    if candidate < pow2_64() {
        candidate
    } else {
        u64::MAX as nat
    }
}

/// What the hint keeps of a solution.
pub fn hint_candidate(candidate: &Uint256) -> (h: u64)
    ensures
        h == hint_of(candidate@),
{
    if candidate.fits_u64() {
        proof {
            lemma_small_mod(candidate@, pow2_64());
        }
        candidate.low_u64()
    } else {
        u64::MAX
    }
}

/// Where a worker starts: the hinted worker starts `HINT_MARGIN` below the
/// hinted candidate (not below zero), shifted by its index; every other
/// worker, and every worker while there is no hint, starts at its index.
pub open spec fn start_of(worker: nat, hint_worker: nat, hint_candidate: nat) -> nat {
    if hint_candidate > 0 && worker == hint_worker {
        if hint_candidate >= HINT_MARGIN {
            (hint_candidate - HINT_MARGIN + worker) as nat
        } else {
            worker
        }
    } else {
        worker
    }
}

/// The first candidate of a worker, given the hint.
pub fn start_offset(worker: usize, hint: &SuccessHint) -> (start: Uint256)
    ensures
        start@ == start_of(worker as nat, hint.worker as nat, hint.candidate as nat),
{
    let own = Uint256::from_u64(worker as u64);
    if hint.candidate > 0 && worker == hint.worker {
        let base: u64 = if hint.candidate >= HINT_MARGIN {
            hint.candidate - HINT_MARGIN
        } else {
            0
        };
        proof {
            lemma_small_mod((base + worker) as nat, pow2_256());
        }
        Uint256::from_u64(base).wrapping_add(&own)
    } else {
        own
    }
}

/// Lays out one batch: `solutions[i]` gets the `i`-th candidate of the
/// progression that starts at `cursor`. Hands back the cursor of the next batch.
pub fn fill_candidates(cursor: Uint256, stride: &Uint256, solutions: &mut Vec<Uint256>) -> (next:
    Uint256)
    ensures
        final(solutions)@.len() == old(solutions)@.len(),
        forall|i: int|
            0 <= i < final(solutions)@.len() ==> (#[trigger] final(solutions)@[i])@
                == candidate_at(cursor@, stride@, i as nat),
        next@ == candidate_at(cursor@, stride@, old(solutions)@.len()),
{
    let n = solutions.len();
    let mut current = cursor;
    let mut i: usize = 0;
    proof {
        cursor.lemma_bounded();
        lemma_candidate_first(cursor@, stride@);
        lemma_small_mod(cursor@, pow2_256());
    }
    while i < n
        invariant
            i <= n,
            n == solutions@.len(),
            current@ == candidate_at(cursor@, stride@, i as nat),
            forall|j: int|
                0 <= j < i ==> (#[trigger] solutions@[j])@ == candidate_at(
                    cursor@,
                    stride@,
                    j as nat,
                ),
        decreases n - i,
    {
        solutions.set(i, current);
        proof {
            lemma_candidate_step(cursor@, stride@, i as nat);
        }
        current = current.wrapping_add(stride);
        i += 1;
    }
    current
}

} // verus!
