use pow_miner::hash_engine::{
    compute_hash_batch, create_encoding_buffers, encode_solution, examine, keccak256_opt,
    scan_batch, BatchOutcome, Verdict,
};
use pow_miner::uint256::Uint256;
use std::sync::atomic::{AtomicBool, AtomicU64, Ordering};
use std::sync::Arc;

fn hex(bytes: &[u8]) -> String {
    let mut s = String::new();
    for b in bytes {
        s.push_str(&format!("{:02x}", b));
    }
    s
}

fn counters() -> (Arc<AtomicU64>, Arc<AtomicU64>, Arc<AtomicBool>) {
    (Arc::new(AtomicU64::new(0)), Arc::new(AtomicU64::new(0)), Arc::new(AtomicBool::new(false)))
}

fn encoded(prefix: &[u8], candidates: &[u64]) -> (Vec<Vec<u8>>, Vec<Uint256>) {
    let mut buffers = create_encoding_buffers(candidates.len(), 84);
    let mut solutions = Vec::new();
    for (i, c) in candidates.iter().enumerate() {
        let s = Uint256::from_u64(*c);
        encode_solution(prefix, s, &mut buffers[i]);
        solutions.push(s);
    }
    (buffers, solutions)
}

fn digest_as_threshold(buffer: &[u8]) -> Uint256 {
    Uint256::from_big_endian(&keccak256_opt(buffer)).unwrap()
}

#[test]
fn keccak256_of_the_empty_string() {
    assert_eq!(
        hex(&keccak256_opt(&[])),
        "c5d2460186f7233c927e7db2dcc703c0e500b653ca82273b7bfad8045d85a470"
    );
}

#[test]
fn keccak256_of_abc() {
    assert_eq!(
        hex(&keccak256_opt(b"abc")),
        "4e03657aea45a94fc7d47ba826c8d667c0d1e6e33a64a036ec44f58fa12d6c45"
    );
}

#[test]
fn keccak256_of_a_32_byte_input_is_not_the_input() {
    let input = [7u8; 32];
    assert_ne!(keccak256_opt(&input), input);
}

#[test]
fn create_encoding_buffers_gives_empty_buffers_with_room() {
    let buffers = create_encoding_buffers(5, 100);
    assert_eq!(buffers.len(), 5);
    for b in buffers.iter() {
        assert!(b.is_empty());
        assert!(b.capacity() >= 100);
    }
    assert!(create_encoding_buffers(0, 10).is_empty());
}

#[test]
fn encode_solution_appends_32_big_endian_bytes() {
    let mut buffer = Vec::new();
    encode_solution(&[0xaa, 0xbb], Uint256::from_u64(0x0102), &mut buffer);
    let mut expected = vec![0xaa, 0xbb];
    expected.extend_from_slice(&[0u8; 30]);
    expected.extend_from_slice(&[1, 2]);
    assert_eq!(buffer, expected);
}

#[test]
fn encode_solution_clears_what_the_buffer_held() {
    let mut buffer = vec![9u8; 200];
    encode_solution(&[1, 2, 3], Uint256::zero(), &mut buffer);
    assert_eq!(buffer.len(), 35);
    assert_eq!(&buffer[..3], &[1, 2, 3]);
    assert_eq!(&buffer[3..], &[0u8; 32]);
}

#[test]
fn encode_solution_with_an_empty_prefix() {
    let mut buffer = Vec::new();
    encode_solution(&[], Uint256::max_value(), &mut buffer);
    assert_eq!(buffer, vec![0xffu8; 32]);
}

#[test]
fn examine_stops_without_hashing_when_the_flag_was_seen() {
    assert_eq!(examine(b"anything", &Uint256::max_value(), true), Verdict::Stop);
}

#[test]
fn examine_hits_and_misses() {
    assert_eq!(examine(b"anything", &Uint256::max_value(), false), Verdict::Hit);
    assert_eq!(examine(b"anything", &Uint256::zero(), false), Verdict::Miss);
}

#[test]
fn examine_accepts_a_digest_exactly_at_the_threshold() {
    let t = digest_as_threshold(b"boundary");
    assert_eq!(examine(b"boundary", &t, false), Verdict::Hit);
    let (above, _) = t.overflowing_add(&Uint256::from_u64(1));
    assert_eq!(examine(b"boundary", &above, false), Verdict::Hit);
    // one below the digest
    let below = Uint256::from_big_endian(&{
        let mut d = keccak256_opt(b"boundary");
        let mut i = 31;
        loop {
            if d[i] > 0 {
                d[i] -= 1;
                break;
            }
            d[i] = 0xff;
            i -= 1;
        }
        d
    })
    .unwrap();
    assert_eq!(examine(b"boundary", &below, false), Verdict::Miss);
}

#[test]
fn scan_batch_finds_the_first_accepted_buffer() {
    let (buffers, _) = encoded(b"prefix", &[10, 11, 12, 13]);
    // accept exactly the digests up to that of buffer 2, if it is the smallest so far
    let digests: Vec<Uint256> = buffers.iter().map(|b| digest_as_threshold(b)).collect();
    let mut smallest = 0;
    for i in 1..digests.len() {
        if !digests[smallest].le(&digests[i]) {
            smallest = i;
        }
    }
    let (total, own, flag) = counters();
    let outcome = scan_batch(&buffers, &digests[smallest], &total, &own, &flag);
    assert_eq!(outcome, BatchOutcome::Found(smallest));
    assert_eq!(total.load(Ordering::Relaxed), smallest as u64 + 1);
    assert_eq!(own.load(Ordering::Relaxed), smallest as u64 + 1);
}

#[test]
fn scan_batch_with_the_maximum_threshold_finds_the_first_buffer() {
    let (buffers, _) = encoded(b"p", &[1, 2, 3]);
    let (total, own, flag) = counters();
    assert_eq!(
        scan_batch(&buffers, &Uint256::max_value(), &total, &own, &flag),
        BatchOutcome::Found(0)
    );
    assert_eq!(total.load(Ordering::Relaxed), 1);
}

#[test]
fn scan_batch_exhausts_a_batch_without_a_hit() {
    let (buffers, _) = encoded(b"p", &[1, 2, 3]);
    let (total, own, flag) = counters();
    assert_eq!(
        scan_batch(&buffers, &Uint256::zero(), &total, &own, &flag),
        BatchOutcome::Exhausted
    );
    assert_eq!(total.load(Ordering::Relaxed), 3);
    assert_eq!(own.load(Ordering::Relaxed), 3);
}

#[test]
fn scan_batch_stops_at_once_when_the_flag_is_set() {
    let (buffers, _) = encoded(b"p", &[1, 2, 3]);
    let (total, own, flag) = counters();
    flag.store(true, Ordering::SeqCst);
    assert_eq!(
        scan_batch(&buffers, &Uint256::max_value(), &total, &own, &flag),
        BatchOutcome::Stopped(0)
    );
    assert_eq!(total.load(Ordering::Relaxed), 0);
}

#[test]
fn scan_batch_of_nothing_is_exhausted() {
    let (total, own, flag) = counters();
    let none: Vec<Vec<u8>> = Vec::new();
    assert_eq!(
        scan_batch(&none, &Uint256::max_value(), &total, &own, &flag),
        BatchOutcome::Exhausted
    );
}

#[test]
fn compute_hash_batch_hands_back_the_candidate_of_the_hit() {
    let (buffers, solutions) = encoded(b"prefix", &[40, 41, 42]);
    let (total, own, flag) = counters();
    let found = compute_hash_batch(&buffers, &solutions, &Uint256::max_value(), &total, &own, &flag);
    assert_eq!(found.unwrap().limbs, [40, 0, 0, 0]);
}

#[test]
fn compute_hash_batch_gives_none_without_a_hit_or_after_a_stop() {
    let (buffers, solutions) = encoded(b"prefix", &[40, 41, 42]);
    let (total, own, flag) = counters();
    assert!(compute_hash_batch(&buffers, &solutions, &Uint256::zero(), &total, &own, &flag)
        .is_none());
    assert_eq!(total.load(Ordering::Relaxed), 3);
    flag.store(true, Ordering::SeqCst);
    assert!(compute_hash_batch(&buffers, &solutions, &Uint256::max_value(), &total, &own, &flag)
        .is_none());
    assert_eq!(total.load(Ordering::Relaxed), 3);
}

#[test]
fn compute_hash_batch_of_nothing_gives_none() {
    let (total, own, flag) = counters();
    let none: Vec<Vec<u8>> = Vec::new();
    let solutions = vec![Uint256::from_u64(1)];
    assert!(compute_hash_batch(&none, &solutions, &Uint256::max_value(), &total, &own, &flag)
        .is_none());
    assert_eq!(total.load(Ordering::Relaxed), 0);
}

#[test]
fn compute_hash_batch_with_difficulty_one_gives_the_first_candidate() {
    let (buffers, solutions) = encoded(b"any prefix", &[77, 78, 79]);
    let (total, own, flag) = counters();
    let found = compute_hash_batch(&buffers, &solutions, &Uint256::max_value(), &total, &own, &flag);
    assert_eq!(found, Some(Uint256::from_u64(77)));
    assert_eq!(total.load(Ordering::Relaxed), 1);
    assert_eq!(own.load(Ordering::Relaxed), 1);
}

#[test]
fn compute_hash_batch_hands_back_the_candidate_at_the_place_of_the_hit() {
    let (buffers, solutions) = encoded(b"prefix", &[10, 11, 12, 13, 14, 15]);
    let digests: Vec<Uint256> = buffers.iter().map(|b| digest_as_threshold(b)).collect();
    let mut smallest = 0;
    for i in 1..digests.len() {
        if !digests[smallest].le(&digests[i]) {
            smallest = i;
        }
    }
    let (total, own, flag) = counters();
    let found = compute_hash_batch(&buffers, &solutions, &digests[smallest], &total, &own, &flag);
    assert_eq!(found, Some(solutions[smallest]));
    assert_eq!(total.load(Ordering::Relaxed), smallest as u64 + 1);
}
