//! The hash function, the candidate encoding and the batched hash-and-compare loop.

use crate::big_endian::{be_bytes, lemma_be_bytes_len};
use crate::threshold::{
    digest_accepted, lemma_difficulty_one_accepts_all, meets_threshold, threshold_of,
};
use crate::uint256::Uint256;
use std::sync::atomic::{AtomicBool, AtomicU64, Ordering};
use std::sync::Arc;
use tiny_keccak::{Hasher, Keccak};
use vstd::prelude::*;

verus! {

/// The Keccak-256 digest of a byte string.
pub uninterp spec fn keccak256(input: Seq<u8>) -> Seq<u8>;

/// Hashes with `Keccak::v256` of the `tiny-keccak` crate (`update`, then
/// `finalize` into 32 bytes). Trusted: the digest is a function of the input
/// bytes alone, named `keccak256`.
#[verifier::external_body]
pub fn keccak256_opt(input: &[u8]) -> (digest: [u8; 32])
    ensures
        digest@ == keccak256(input@),
{
    let mut keccak = Keccak::v256();
    let mut result = [0u8; 32];
    keccak.update(input);
    keccak.finalize(&mut result);
    result
}

/// The bytes that are hashed for a candidate: the prefix, then the candidate as
/// 32 big-endian bytes.
pub open spec fn encoded_candidate(prefix: Seq<u8>, candidate: nat) -> Seq<u8> {
    prefix + be_bytes(candidate, 32)
}

/// Whether a candidate solves the task that a prefix and a threshold describe.
pub open spec fn solution_accepted(prefix: Seq<u8>, candidate: nat, threshold: nat) -> bool {
    digest_accepted(keccak256(encoded_candidate(prefix, candidate)), threshold)
}

/// `count` empty buffers, each allocated with room for `capacity` bytes.
pub fn create_encoding_buffers(count: usize, capacity: usize) -> (buffers: Vec<Vec<u8>>)
    ensures
        buffers@.len() == count,
        forall|i: int| 0 <= i < count ==> (#[trigger] buffers@[i])@.len() == 0,
{
    let mut buffers: Vec<Vec<u8>> = Vec::with_capacity(count);
    let mut i: usize = 0;
    while i < count
        invariant
            i <= count,
            buffers@.len() == i,
            forall|j: int| 0 <= j < i ==> (#[trigger] buffers@[j])@.len() == 0,
        decreases count - i,
    {
        buffers.push(Vec::with_capacity(capacity));
        i += 1;
    }
    buffers
}

/// Replaces the contents of `buffer` by the prefix followed by the candidate as
/// 32 big-endian bytes.
pub fn encode_solution(prefix: &[u8], solution: Uint256, buffer: &mut Vec<u8>)
    ensures
        final(buffer)@ == encoded_candidate(prefix@, solution@),
{
    buffer.clear();
    buffer.extend_from_slice(prefix);
    let solution_bytes = solution.to_big_endian();
    buffer.extend_from_slice(solution_bytes.as_slice());
    proof {
        lemma_be_bytes_len(solution@, 32);
        assert(buffer@ =~= prefix@ + be_bytes(solution@, 32));
    }
}

/// Whether the shared flag is set. The answer depends on the other holders of
/// the flag, so nothing is promised of it.
pub(crate) fn stop_requested(solution_found: &Arc<AtomicBool>) -> bool {
    solution_found.load(Ordering::Acquire)
}

/// Adds one hash to the shared total and to the worker's own counter.
pub(crate) fn count_hash(total_hashes: &Arc<AtomicU64>, thread_hashes: &Arc<AtomicU64>) {
    thread_hashes.fetch_add(1, Ordering::Relaxed);
    total_hashes.fetch_add(1, Ordering::Relaxed);
}

/// What one look at an encoded candidate decides.
#[derive(Clone, Copy, Debug, PartialEq, Eq, Structural)]
pub enum Verdict {
    /// The stop flag was seen; the candidate was not hashed.
    Stop,
    /// The candidate's digest meets the threshold.
    Hit,
    /// The candidate's digest is above the threshold.
    Miss,
}

/// The verdict for an encoded candidate, given what the stop flag showed.
pub open spec fn verdict_of(encoded: Seq<u8>, threshold: nat, stop: bool) -> Verdict {
    if stop {
        Verdict::Stop
    } else if digest_accepted(keccak256(encoded), threshold) {
        Verdict::Hit
    } else {
        Verdict::Miss
    }
}

/// Decides one encoded candidate: nothing is hashed once the stop flag was
/// seen; otherwise the candidate is hashed and its digest, which has 32 bytes,
/// compared.
pub fn examine(encoded: &[u8], threshold: &Uint256, stop: bool) -> (v: Verdict)
    ensures
        v == verdict_of(encoded@, threshold@, stop),
        !stop ==> keccak256(encoded@).len() == 32,
{
    if stop {
        return Verdict::Stop;
    }
    let digest = keccak256_opt(encoded);
    if meets_threshold(&digest, threshold) {
        Verdict::Hit
    } else {
        Verdict::Miss
    }
}

/// None of the first `n` buffers holds an accepted candidate.
pub open spec fn no_hit_before(buffers: Seq<Vec<u8>>, threshold: nat, n: int) -> bool {
    forall|j: int| 0 <= j < n ==> !digest_accepted(keccak256(#[trigger] buffers[j]@), threshold)
}

/// How a pass over a batch ended.
#[derive(Clone, Copy, Debug, PartialEq, Eq, Structural)]
pub enum BatchOutcome {
    /// The buffer at this index is the first that holds an accepted candidate.
    Found(usize),
    /// The stop flag was seen before the buffer at this index was hashed.
    Stopped(usize),
    /// Every buffer was hashed and none was accepted.
    Exhausted,
}

/// Whether an outcome is one that a pass over the batch can end with: a hit is
/// the first accepted buffer, and every buffer before a stop, or all of them when
/// the batch is exhausted, was hashed and found above the threshold.
pub open spec fn batch_outcome_holds(
    buffers: Seq<Vec<u8>>,
    threshold: nat,
    outcome: BatchOutcome,
) -> bool {
    match outcome {
        BatchOutcome::Found(i) => {
            &&& i < buffers.len()
            &&& no_hit_before(buffers, threshold, i as int)
            &&& digest_accepted(keccak256(buffers[i as int]@), threshold)
        },
        BatchOutcome::Stopped(i) => i < buffers.len() && no_hit_before(buffers, threshold, i as int),
        BatchOutcome::Exhausted => no_hit_before(buffers, threshold, buffers.len() as int),
    }
}

/// Whether a pass ended at its first place: with a hit or a stop there, or
/// exhausted because there was no place at all.
pub open spec fn decided_at_first_place(outcome: BatchOutcome, places: nat) -> bool {
    match outcome {
        BatchOutcome::Found(i) => i == 0,
        BatchOutcome::Stopped(i) => i == 0,
        BatchOutcome::Exhausted => places == 0,
    }
}

/// Hashes the buffers in order until one is accepted, the stop flag is seen,
/// or the batch ends. The flag is read before every hash, and every hash is
/// counted. With the threshold of difficulty one the first buffer decides.
pub fn scan_batch(
    encoded_buffers: &[Vec<u8>],
    threshold: &Uint256,
    total_hashes: &Arc<AtomicU64>,
    thread_hashes: &Arc<AtomicU64>,
    solution_found: &Arc<AtomicBool>,
) -> (outcome: BatchOutcome)
    ensures
        batch_outcome_holds(encoded_buffers@, threshold@, outcome),
        threshold@ == threshold_of(1) ==> decided_at_first_place(outcome, encoded_buffers@.len()),
{
    let n = encoded_buffers.len();
    let mut i: usize = 0;
    while i < n
        invariant
            n == encoded_buffers@.len(),
            i <= n,
            no_hit_before(encoded_buffers@, threshold@, i as int),
            threshold@ == threshold_of(1) ==> i == 0,
        decreases n - i,
    {
        let stop = stop_requested(solution_found);
        match examine(encoded_buffers[i].as_slice(), threshold, stop) {
            Verdict::Stop => {
                return BatchOutcome::Stopped(i);
            },
            Verdict::Hit => {
                count_hash(total_hashes, thread_hashes);
                return BatchOutcome::Found(i);
            },
            Verdict::Miss => {
                proof {
                    if threshold@ == threshold_of(1) {
                        lemma_difficulty_one_accepts_all(keccak256(encoded_buffers@[i as int]@));
                    }
                }
                count_hash(total_hashes, thread_hashes);
            },
        }
        i += 1;
    }
    BatchOutcome::Exhausted
}

/// Hashes a batch of encoded candidates and hands back the candidate of the
/// first accepted buffer. `None`: the stop flag was read, or no buffer was
/// accepted. With the threshold of difficulty one the first buffer decides.
pub fn compute_hash_batch(
    encoded_buffers: &[Vec<u8>],
    solutions: &[Uint256],
    threshold: &Uint256,
    total_hashes: &Arc<AtomicU64>,
    thread_hashes: &Arc<AtomicU64>,
    solution_found: &Arc<AtomicBool>,
) -> (found: Option<Uint256>)
    requires
        encoded_buffers@.len() <= solutions@.len(),
    ensures
        found matches Some(c) ==> exists|i: int|
            0 <= i < encoded_buffers@.len() && c == solutions@[i] && batch_outcome_holds(
                encoded_buffers@,
                threshold@,
                BatchOutcome::Found(i as usize),
            ),
        encoded_buffers@.len() == 0 ==> found is None,
        threshold@ == threshold_of(1) ==> (found matches Some(c) ==> c == solutions@[0]),
{
    match scan_batch(encoded_buffers, threshold, total_hashes, thread_hashes, solution_found) {
        BatchOutcome::Found(i) => Some(solutions[i]),
        _ => None,
    }
}

} // verus!
