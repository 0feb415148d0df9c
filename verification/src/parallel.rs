//! The multi-worker miner: disjoint candidate progressions, batched search, a
//! shared stop flag, and the hint that seeds the next search.

use crate::error::EngineError;
use crate::hash_engine::{
    count_hash, decided_at_first_place, encode_solution, encoded_candidate, examine, keccak256,
    solution_accepted, stop_requested, verdict_of, BatchOutcome, Verdict,
};
use crate::memory::BufferPool;
use crate::packing::{packed_prefix, solidity_pack_uint_address};
use crate::progression::{
    candidate_at, fill_candidates, first_solution, hint_candidate, lemma_candidate_first,
    lemma_candidate_shift, no_solution_before, start_of, start_offset, SuccessHint,
};
use crate::threshold::{lemma_difficulty_one_accepts_all, threshold, threshold_of};
use crate::uint256::{pow2_256, Uint256};
use rayon::iter::{IntoParallelIterator, ParallelIterator};
use std::ops::{Deref, DerefMut};
use std::sync::atomic::{AtomicBool, AtomicU64, AtomicUsize, Ordering};
use std::sync::Arc;
use vstd::arithmetic::div_mod::lemma_small_mod;
use vstd::prelude::*;

verus! {

/// The candidates tried per batch by a miner made with `ParallelMiner::new`.
pub const DEFAULT_BATCH_SIZE: usize = 32;

/// The bytes reserved per encoding buffer by a miner made with `ParallelMiner::new`.
pub const DEFAULT_BUFFER_SIZE: usize = 65536;

/// One search: the packed prefix and the threshold, both fixed while it runs.
pub struct SearchTask {
    /// The packed nonce and address.
    pub prefix: Vec<u8>,
    /// The largest digest value that is accepted.
    pub threshold: Uint256,
}

/// None of the first `n` candidates is a solution.
pub open spec fn no_solution_among(
    prefix: Seq<u8>,
    threshold: nat,
    candidates: Seq<Uint256>,
    n: int,
) -> bool {
    forall|j: int|
        0 <= j < n ==> !solution_accepted(prefix, (#[trigger] candidates[j])@, threshold)
}

/// Whether an outcome is one that a pass over a batch of candidates can end
/// with: a hit is the first candidate that is a solution, and every candidate
/// before a stop, or all of them when the batch is exhausted, was hashed and
/// is no solution.
pub open spec fn candidates_outcome_holds(
    prefix: Seq<u8>,
    threshold: nat,
    candidates: Seq<Uint256>,
    outcome: BatchOutcome,
) -> bool {
    match outcome {
        BatchOutcome::Found(i) => {
            &&& i < candidates.len()
            &&& no_solution_among(prefix, threshold, candidates, i as int)
            &&& solution_accepted(prefix, candidates[i as int]@, threshold)
        },
        BatchOutcome::Stopped(i) => {
            &&& i < candidates.len()
            &&& no_solution_among(prefix, threshold, candidates, i as int)
        },
        BatchOutcome::Exhausted => no_solution_among(
            prefix,
            threshold,
            candidates,
            candidates.len() as int,
        ),
    }
}

/// Decides one candidate in a pooled buffer: nothing is claimed or hashed once
/// the stop flag was seen; otherwise a buffer is claimed, the candidate is
/// encoded into it, hashed and compared, and the buffer is given back. When
/// the pool has no free buffer, `scratch` takes its place.
pub fn try_candidate(
    task: &SearchTask,
    candidate: Uint256,
    pool: &mut BufferPool<u8>,
    scratch: &mut Vec<u8>,
    stop: bool,
) -> (v: Verdict)
    requires
        old(pool).wf(),
    ensures
        final(pool).wf(),
        final(pool).size() == old(pool).size(),
        final(pool).live() == old(pool).live(),
        final(pool).in_use() == old(pool).in_use(),
        v == verdict_of(encoded_candidate(task.prefix@, candidate@), task.threshold@, stop),
        !stop ==> keccak256(encoded_candidate(task.prefix@, candidate@)).len() == 32,
{
    if stop {
        return Verdict::Stop;
    }
    match pool.get() {
        Some(mut handle) => {
            encode_solution(task.prefix.as_slice(), candidate, handle.deref_mut());
            let v = examine(handle.deref().as_slice(), &task.threshold, false);
            pool.release(handle);
            assert(pool.live() =~= old(pool).live());
            v
        },
        None => {
            encode_solution(task.prefix.as_slice(), candidate, scratch);
            examine(scratch.as_slice(), &task.threshold, false)
        },
    }
}

/// Tries the candidates of a batch in order until one is a solution, the stop
/// flag is seen, or the batch ends. The flag is read before every hash, every
/// hash is counted, and every buffer that was claimed is given back. With the
/// threshold of difficulty one the first candidate decides.
pub fn search_batch(
    task: &SearchTask,
    solutions: &[Uint256],
    pool: &mut BufferPool<u8>,
    scratch: &mut Vec<u8>,
    total_hashes: &Arc<AtomicU64>,
    thread_hashes: &Arc<AtomicU64>,
    solution_found: &Arc<AtomicBool>,
) -> (outcome: BatchOutcome)
    requires
        old(pool).wf(),
    ensures
        final(pool).wf(),
        final(pool).size() == old(pool).size(),
        final(pool).live() == old(pool).live(),
        final(pool).in_use() == old(pool).in_use(),
        candidates_outcome_holds(task.prefix@, task.threshold@, solutions@, outcome),
        task.threshold@ == threshold_of(1) ==> decided_at_first_place(outcome, solutions@.len()),
{
    let n = solutions.len();
    let mut i: usize = 0;
    while i < n
        invariant
            n == solutions@.len(),
            i <= n,
            pool.wf(),
            pool.size() == old(pool).size(),
            pool.live() == old(pool).live(),
            pool.in_use() == old(pool).in_use(),
            no_solution_among(task.prefix@, task.threshold@, solutions@, i as int),
            task.threshold@ == threshold_of(1) ==> i == 0,
        decreases n - i,
    {
        let stop = stop_requested(solution_found);
        match try_candidate(task, solutions[i], pool, scratch, stop) {
            Verdict::Stop => {
                return BatchOutcome::Stopped(i);
            },
            Verdict::Hit => {
                count_hash(total_hashes, thread_hashes);
                return BatchOutcome::Found(i);
            },
            Verdict::Miss => {
                proof {
                    if task.threshold@ == threshold_of(1) {
                        lemma_difficulty_one_accepts_all(
                            keccak256(encoded_candidate(task.prefix@, solutions@[i as int]@)),
                        );
                    }
                }
                count_hash(total_hashes, thread_hashes);
            },
        }
        i += 1;
    }
    BatchOutcome::Exhausted
}

/// How the search of one worker ended.
#[derive(Clone, Copy, Debug, PartialEq, Eq)]
pub enum SearchOutcome {
    /// The candidate at place `index` of batch `batch` is accepted, and no
    /// candidate before it was.
    Found { candidate: Uint256, batch: u64, index: usize },
    /// The stop flag was seen before the candidate at place `index` of batch
    /// `batch` was hashed.
    Stopped { batch: u64, index: usize },
    /// Every candidate of every batch was hashed and none was accepted.
    Exhausted,
}

/// Whether an outcome is one that a worker's search can end with, for a
/// progression from `start` by `stride`, in batches of `batch_size`, over at
/// most `max_batches` batches. The candidates are tried in the order of the
/// progression, so whatever came before the place that the outcome names was
/// hashed and not accepted.
pub open spec fn search_outcome_holds(
    prefix: Seq<u8>,
    threshold: nat,
    start: nat,
    stride: nat,
    batch_size: nat,
    max_batches: nat,
    outcome: SearchOutcome,
) -> bool {
    match outcome {
        SearchOutcome::Found { candidate, batch, index } => {
            &&& batch < max_batches
            &&& index < batch_size
            &&& candidate@ == candidate_at(start, stride, batch as nat * batch_size + index as nat)
            &&& solution_accepted(prefix, candidate@, threshold)
            &&& no_solution_before(
                prefix,
                threshold,
                start,
                stride,
                batch as nat * batch_size + index as nat,
            )
        },
        SearchOutcome::Stopped { batch, index } => {
            &&& batch < max_batches
            &&& index < batch_size
            &&& no_solution_before(
                prefix,
                threshold,
                start,
                stride,
                batch as nat * batch_size + index as nat,
            )
        },
        SearchOutcome::Exhausted => no_solution_before(
            prefix,
            threshold,
            start,
            stride,
            max_batches * batch_size,
        ),
    }
}

/// Whether a search ended at its first place: with the start as its solution,
/// with a stop before anything was hashed, or exhausted because there was no
/// place at all.
pub open spec fn search_decided_at_start(
    outcome: SearchOutcome,
    start: nat,
    batch_size: nat,
    max_batches: nat,
) -> bool {
    match outcome {
        SearchOutcome::Found { candidate, batch, index } => batch == 0 && index == 0
            && candidate@ == start,
        SearchOutcome::Stopped { batch, index } => batch == 0 && index == 0,
        SearchOutcome::Exhausted => batch_size == 0 || max_batches == 0,
    }
}

/// What a batch showed carries over to the progression: if nothing before
/// batch `batch` was a solution and the first `index` candidates of that batch
/// are none, nothing before place `index` of that batch is a solution.
proof fn lemma_batch_extends_search(
    prefix: Seq<u8>,
    threshold: nat,
    start: nat,
    stride: nat,
    batch_size: nat,
    batch: nat,
    candidates: Seq<Uint256>,
    index: nat,
)
    requires
        index <= batch_size,
        candidates.len() == batch_size,
        no_solution_before(prefix, threshold, start, stride, batch * batch_size),
        no_solution_among(prefix, threshold, candidates, index as int),
        forall|i: int|
            0 <= i < batch_size ==> (#[trigger] candidates[i])@ == candidate_at(
                candidate_at(start, stride, batch * batch_size),
                stride,
                i as nat,
            ),
    ensures
        no_solution_before(prefix, threshold, start, stride, batch * batch_size + index),
{
    assert forall|k: nat| k < batch * batch_size + index implies !solution_accepted(
        prefix,
        #[trigger] candidate_at(start, stride, k),
        threshold,
    ) by {
        if k >= batch * batch_size {
            let i = (k - batch * batch_size) as nat;
            lemma_candidate_shift(start, stride, batch * batch_size, i);
            assert(candidates[i as int]@ == candidate_at(start, stride, k));
        }
    }
}

/// What `mine` answers, given what the workers reported and what the shared
/// state showed afterwards. A reported candidate is answered only if it is a
/// solution; failing that, a published candidate is answered if the stop flag
/// is set and the candidate is a solution; failing both, no solution was found.
pub open spec fn settled(
    prefix: Seq<u8>,
    threshold: nat,
    reported: Option<Uint256>,
    stop_seen: bool,
    published: Uint256,
) -> Result<Uint256, EngineError> {
    if reported is Some && solution_accepted(prefix, reported->Some_0@, threshold) {
        Ok(reported->Some_0)
    } else if stop_seen && solution_accepted(prefix, published@, threshold) {
        Ok(published)
    } else {
        Err(EngineError::NoSolutionFound)
    }
}

/// Whether a candidate solves the task: it is encoded, hashed and compared anew.
pub fn check_candidate(task: &SearchTask, candidate: Uint256) -> (accepted: bool)
    ensures
        accepted == solution_accepted(task.prefix@, candidate@, task.threshold@),
{
    let mut encoded: Vec<u8> = Vec::new();
    encode_solution(task.prefix.as_slice(), candidate, &mut encoded);
    match examine(encoded.as_slice(), &task.threshold, false) {
        Verdict::Hit => true,
        _ => false,
    }
}

/// Decides the answer of a search from what the workers reported and what the
/// shared state showed. Nothing is answered that was not checked here.
pub fn settle(
    task: &SearchTask,
    reported: Option<Uint256>,
    stop_seen: bool,
    published: Uint256,
) -> (r: Result<Uint256, EngineError>)
    ensures
        r == settled(task.prefix@, task.threshold@, reported, stop_seen, published),
{
    if let Some(candidate) = reported {
        if check_candidate(task, candidate) {
            return Ok(candidate);
        }
    }
    if stop_seen && check_candidate(task, published) {
        return Ok(published);
    }
    Err(EngineError::NoSolutionFound)
}

/// Runs `search_worker` once for each worker index on the thread pool of the
/// `rayon` crate (`into_par_iter` on the range of indices, `find_map_any`) and
/// hands back one of the candidates that the workers reported, if any did.
/// Nothing is trusted of the result: `mine` checks the candidate again.
#[verifier::external_body]
fn run_workers(miner: &ParallelMiner, task: &SearchTask, hint: &SuccessHint) -> (reported: Option<
    Uint256,
>) {
    (0..miner.num_threads).into_par_iter().find_map_any(
        |worker| miner.search_worker(task, hint, worker),
    )
}

/// The miner: its configuration and the state that its workers share.
#[derive(Clone)]
pub struct ParallelMiner {
    /// The number of workers.
    pub num_threads: usize,
    /// The number of candidates that a worker encodes and hashes per batch.
    pub batch_size: usize,
    /// The capacity that each encoding buffer is allocated with.
    pub buffer_size: usize,
    /// The number of batches after which a worker gives up.
    pub max_batches: u64,
    /// The hashes computed since the last reset, by all workers together.
    pub total_hashes: Arc<AtomicU64>,
    /// The stop flag: set once a solution is published, or from outside to end
    /// the search early.
    pub solution_found: Arc<AtomicBool>,
    /// Taken by the one worker that may publish its solution.
    pub claimed: Arc<AtomicBool>,
    /// The published solution, as four limbs, least significant first.
    pub found_solution: Arc<[AtomicU64; 4]>,
    /// The hint: the worker that found the last solution.
    pub last_successful_thread: Arc<AtomicUsize>,
    /// The hint: the last solution, or `u64::MAX` if it has more than 64 bits;
    /// zero while there is none.
    pub last_solution_range: Arc<AtomicU64>,
}

impl ParallelMiner {
    /// A miner with `threads` workers, batches of 32 candidates, 64 KiB per
    /// encoding buffer, no bound on the batches short of `u64::MAX`, and fresh
    /// shared state.
    pub fn new(threads: usize) -> (miner: ParallelMiner)
        ensures
            miner.num_threads == threads,
            miner.batch_size == DEFAULT_BATCH_SIZE,
            miner.buffer_size == DEFAULT_BUFFER_SIZE,
            miner.max_batches == u64::MAX,
    {
        ParallelMiner {
            num_threads: threads,
            batch_size: DEFAULT_BATCH_SIZE,
            buffer_size: DEFAULT_BUFFER_SIZE,
            max_batches: u64::MAX,
            total_hashes: Arc::new(AtomicU64::new(0)),
            solution_found: Arc::new(AtomicBool::new(false)),
            claimed: Arc::new(AtomicBool::new(false)),
            found_solution: Arc::new(
                [AtomicU64::new(0), AtomicU64::new(0), AtomicU64::new(0), AtomicU64::new(0)],
            ),
            last_successful_thread: Arc::new(AtomicUsize::new(0)),
            last_solution_range: Arc::new(AtomicU64::new(0)),
        }
    }

    /// Clears the stop flag, the claim, the hash counter and the published
    /// solution. The hint is kept.
    pub fn reset(&self) {
        self.solution_found.store(false, Ordering::Relaxed);
        self.claimed.store(false, Ordering::Relaxed);
        self.total_hashes.store(0, Ordering::Relaxed);
        self.found_solution[0].store(0, Ordering::Relaxed);
        self.found_solution[1].store(0, Ordering::Relaxed);
        self.found_solution[2].store(0, Ordering::Relaxed);
        self.found_solution[3].store(0, Ordering::Relaxed);
    }

    /// The hashes computed since the last reset.
    pub fn hash_count(&self) -> u64 {
        self.total_hashes.load(Ordering::Relaxed)
    }

    /// Searches one progression: from `start`, by a stride of `num_threads`,
    /// in batches of `batch_size`, over at most `max_batches` batches. The stop
    /// flag is read before every hash. The candidates are encoded in the
    /// buffers of a pool of the worker's own. With the threshold of difficulty
    /// one the start itself is the solution, unless the flag was set before.
    pub fn search_progression(
        &self,
        task: &SearchTask,
        start: Uint256,
        thread_hashes: &Arc<AtomicU64>,
    ) -> (outcome: SearchOutcome)
        ensures
            search_outcome_holds(
                task.prefix@,
                task.threshold@,
                start@,
                self.num_threads as nat,
                self.batch_size as nat,
                self.max_batches as nat,
                outcome,
            ),
            task.threshold@ == threshold_of(1) ==> search_decided_at_start(
                outcome,
                start@,
                self.batch_size as nat,
                self.max_batches as nat,
            ),
    {
        let ghost prefix = task.prefix@;
        let ghost limit = task.threshold@;
        let ghost stride_n = self.num_threads as nat;
        let ghost size = self.batch_size as nat;
        let stride = Uint256::from_u64(self.num_threads as u64);
        let mut pool: BufferPool<u8> = BufferPool::new(self.batch_size, self.buffer_size);
        let mut scratch: Vec<u8> = Vec::new();
        let mut solutions: Vec<Uint256> = Vec::with_capacity(self.batch_size);
        let mut filled: usize = 0;
        while filled < self.batch_size
            invariant
                filled <= self.batch_size,
                solutions@.len() == filled,
            decreases self.batch_size - filled,
        {
            solutions.push(Uint256::zero());
            filled += 1;
        }
        let mut cursor = start;
        let mut batch: u64 = 0;
        proof {
            start.lemma_bounded();
            lemma_candidate_first(start@, stride_n);
            lemma_small_mod(start@, pow2_256());
            assert(0 * size == 0) by (nonlinear_arith);
        }
        while batch < self.max_batches
            invariant
                prefix == task.prefix@,
                limit == task.threshold@,
                stride_n == self.num_threads as nat,
                size == self.batch_size as nat,
                stride@ == stride_n,
                batch <= self.max_batches,
                pool.wf(),
                pool.in_use() == 0,
                solutions@.len() == size,
                cursor@ == candidate_at(start@, stride_n, batch as nat * size),
                no_solution_before(prefix, limit, start@, stride_n, batch as nat * size),
                limit == threshold_of(1) ==> batch == 0,
                start@ < pow2_256(),
            decreases self.max_batches - batch,
        {
            if self.batch_size == 0 {
                proof {
                    assert(self.max_batches as nat * size == 0) by (nonlinear_arith)
                        requires
                            size == 0,
                    ;
                }
                return SearchOutcome::Exhausted;
            }
            let next = fill_candidates(cursor, &stride, &mut solutions);
            let scanned = search_batch(
                task,
                solutions.as_slice(),
                &mut pool,
                &mut scratch,
                &self.total_hashes,
                thread_hashes,
                &self.solution_found,
            );
            proof {
                let index: nat = match scanned {
                    BatchOutcome::Found(i) => i as nat,
                    BatchOutcome::Stopped(i) => i as nat,
                    BatchOutcome::Exhausted => size,
                };
                lemma_batch_extends_search(
                    prefix,
                    limit,
                    start@,
                    stride_n,
                    size,
                    batch as nat,
                    solutions@,
                    index,
                );
                lemma_candidate_shift(start@, stride_n, batch as nat * size, index);
                assert((batch + 1) as nat * size == batch as nat * size + size)
                    by (nonlinear_arith);
            }
            match scanned {
                BatchOutcome::Found(i) => {
                    return SearchOutcome::Found { candidate: solutions[i], batch, index: i };
                },
                BatchOutcome::Stopped(i) => {
                    return SearchOutcome::Stopped { batch, index: i };
                },
                BatchOutcome::Exhausted => {},
            }
            cursor = next;
            batch += 1;
        }
        SearchOutcome::Exhausted
    }

    /// The hint that the last successful search left.
    pub fn load_hint(&self) -> SuccessHint {
        SuccessHint {
            worker: self.last_successful_thread.load(Ordering::Relaxed),
            candidate: self.last_solution_range.load(Ordering::Relaxed),
        }
    }

    /// The published solution, as the shared state holds it now.
    pub fn published_solution(&self) -> Uint256 {
        Uint256 {
            limbs: [
                self.found_solution[0].load(Ordering::Relaxed),
                self.found_solution[1].load(Ordering::Relaxed),
                self.found_solution[2].load(Ordering::Relaxed),
                self.found_solution[3].load(Ordering::Relaxed),
            ],
        }
    }

    /// Tries to publish a solution. The one caller that takes the claim stores
    /// the candidate and the hint and then sets the stop flag, so that whoever
    /// sees the flag set by a worker can read the candidate; every later caller
    /// is turned away and its candidate dropped. Tells whether this caller won.
    fn publish(&self, worker: usize, candidate: &Uint256, hint_candidate: u64) -> bool {
        match self.claimed.compare_exchange(false, true, Ordering::AcqRel, Ordering::Acquire) {
            Ok(_) => {
                self.found_solution[0].store(candidate.limbs[0], Ordering::Relaxed);
                self.found_solution[1].store(candidate.limbs[1], Ordering::Relaxed);
                self.found_solution[2].store(candidate.limbs[2], Ordering::Relaxed);
                self.found_solution[3].store(candidate.limbs[3], Ordering::Relaxed);
                self.last_successful_thread.store(worker, Ordering::Relaxed);
                self.last_solution_range.store(hint_candidate, Ordering::Relaxed);
                self.solution_found.store(true, Ordering::Release);
                true
            },
            Err(_) => false,
        }
    }

    /// The work of one worker: it reports the first solution among the places of
    /// its progression, and only if it won the claim to publish it. Nothing comes
    /// back where there is no place, a stop was read, or the claim was lost.
    pub fn search_worker(&self, task: &SearchTask, hint: &SuccessHint, worker: usize) -> (reported:
        Option<Uint256>)
        ensures
            reported matches Some(c) ==> first_solution(
                task.prefix@,
                task.threshold@,
                start_of(worker as nat, hint.worker as nat, hint.candidate as nat),
                self.num_threads as nat,
                self.max_batches as nat * self.batch_size as nat,
                c@,
            ),
            self.max_batches == 0 || self.batch_size == 0 ==> reported is None,
            task.threshold@ == threshold_of(1) ==> (reported matches Some(c) ==> c@ == start_of(
                worker as nat,
                hint.worker as nat,
                hint.candidate as nat,
            )),
    {
        let thread_hashes = Arc::new(AtomicU64::new(0));
        let start = start_offset(worker, hint);
        let outcome = self.search_progression(task, start, &thread_hashes);
        let won = match outcome {
            SearchOutcome::Found { candidate, batch, index } => {
                proof {
                    let size = self.batch_size as nat;
                    let place = batch as nat * size + index as nat;
                    assert(place < self.max_batches as nat * size) by (nonlinear_arith)
                        requires
                            place == batch as nat * size + index as nat,
                            (batch as nat) < self.max_batches as nat,
                            (index as nat) < size,
                    ;
                    assert(candidate_at(start@, self.num_threads as nat, place) == candidate@);
                }
                self.publish(worker, &candidate, hint_candidate(&candidate))
            },
            _ => false,
        };
        report(outcome, won)
    }

    /// Searches for a candidate whose digest, hashed behind the packed nonce
    /// and address, is at most `floor((2^256 - 1) / difficulty)`.
    ///
    /// A difficulty of zero is rejected before anything else is looked at, then
    /// an address that does not have 20 bytes. Otherwise the workers search
    /// until one of them publishes a solution, the stop flag is set from
    /// outside, or every worker has exhausted its batches. The candidate that
    /// is answered was checked once more after the workers ended.
    pub fn mine(&self, nonce: Uint256, address: &[u8], difficulty: Uint256) -> (r: Result<
        Uint256,
        EngineError,
    >)
        ensures
            difficulty@ == 0 ==> r == Err::<Uint256, EngineError>(EngineError::InvalidDifficulty),
            difficulty@ != 0 && address@.len() != 20 ==> r == Err::<Uint256, EngineError>(
                EngineError::EncodingFailure,
            ),
            difficulty@ != 0 && address@.len() == 20 ==> match r {
                Ok(c) => solution_accepted(
                    packed_prefix(nonce@, address@),
                    c@,
                    threshold_of(difficulty@),
                ),
                Err(e) => e == EngineError::NoSolutionFound,
            },
    {
        let limit = match threshold(&difficulty) {
            Ok(t) => t,
            Err(e) => {
                return Err(e);
            },
        };
        let prefix = match solidity_pack_uint_address(nonce, address) {
            Ok(p) => p,
            Err(e) => {
                return Err(e);
            },
        };
        let task = SearchTask { prefix, threshold: limit };
        let hint = self.load_hint();
        let reported = run_workers(self, &task, &hint);
        let stop_seen = stop_requested(&self.solution_found);
        let published = self.published_solution();
        settle(&task, reported, stop_seen, published)
    }

    /// Sets the stop flag, so that every worker ends within one batch.
    pub fn request_stop(&self) {
        self.solution_found.store(true, Ordering::Release);
    }
}

/// What a worker reports, given how its search ended and whether it won the
/// claim: the solution that it found, if it won; nothing otherwise.
pub open spec fn report_of(outcome: SearchOutcome, won: bool) -> Option<Uint256> {
    match outcome {
        SearchOutcome::Found { candidate, batch, index } => if won {
            Some(candidate)
        } else {
            None
        },
        _ => None,
    }
}

/// What a worker reports, given how its search ended and whether it won the
/// claim.
pub fn report(outcome: SearchOutcome, won: bool) -> (reported: Option<Uint256>)
    ensures
        reported == report_of(outcome, won),
{
    match outcome {
        SearchOutcome::Found { candidate, batch, index } => if won {
            Some(candidate)
        } else {
            None
        },
        _ => None,
    }
}

} // verus!
