use ore_miner::digest::{digest_le, hash_candidate, nonce_le_bytes};
use std::sync::atomic::{AtomicBool, Ordering};

use ore_miner::search::{
    run_worker, scan, search, worker_spans, ResultSlot, Round, Solution, Span, Step, Worker, WorkerStatus,
    CHECK_INTERVAL,
};

fn round_with(challenge_seed: u8, first_difficulty_byte: u8) -> Round {
    let mut challenge = [0u8; 32];
    let mut identity = [0u8; 32];
    for i in 0..32 {
        challenge[i] = challenge_seed.wrapping_mul(31).wrapping_add(i as u8);
        identity[i] = (i as u8).wrapping_mul(7).wrapping_add(3);
    }
    let mut difficulty = [0xFFu8; 32];
    difficulty[0] = first_difficulty_byte;
    Round { challenge, difficulty, identity }
}

fn recomputed(round: &Round, nonce: u64) -> [u8; 32] {
    let mut data = Vec::new();
    data.extend_from_slice(&round.challenge);
    data.extend_from_slice(&round.identity);
    data.extend_from_slice(&nonce.to_le_bytes());
    solana_sdk::keccak::hash(&data).to_bytes()
}

fn assert_valid(round: &Round, s: &Solution) {
    assert_eq!(s.digest, recomputed(round, s.nonce));
    assert!(s.digest <= round.difficulty);
}

#[test]
fn digest_le_orders_big_endian() {
    let a = [7u8; 32];
    assert!(digest_le(&a, &a));
    let mut b = a;
    b[0] = 8;
    assert!(digest_le(&a, &b));
    assert!(!digest_le(&b, &a));
    let mut c = a;
    c[31] = 6;
    assert!(digest_le(&c, &a));
    assert!(!digest_le(&a, &c));
    let mut d = [0u8; 32];
    d[0] = 1;
    let mut e = [0xFFu8; 32];
    e[0] = 0;
    assert!(digest_le(&e, &d));
    assert!(!digest_le(&d, &e));
}

#[test]
fn nonce_bytes_are_little_endian() {
    assert_eq!(nonce_le_bytes(0x0102030405060708), [8, 7, 6, 5, 4, 3, 2, 1]);
    assert_eq!(nonce_le_bytes(0), [0; 8]);
    assert_eq!(nonce_le_bytes(u64::MAX), [0xFF; 8]);
}

#[test]
fn candidate_hash_is_keccak_of_concatenation() {
    let round = round_with(5, 0xFF);
    for nonce in [0u64, 1, 99, u64::MAX] {
        let d = hash_candidate(&round.challenge, &round.identity, nonce);
        assert_eq!(d, recomputed(&round, nonce));
        assert_ne!(d, round.challenge);
    }
    assert_ne!(
        hash_candidate(&round.challenge, &round.identity, 1),
        hash_candidate(&round.challenge, &round.identity, 2)
    );
}

#[test]
fn one_worker_spans_everything() {
    let spans = worker_spans(1);
    assert_eq!(spans, vec![Span { first: 0, last: u64::MAX }]);
}

#[test]
fn spans_are_disjoint_and_cover() {
    let stride = u64::MAX / 4;
    assert_eq!(stride, 4611686018427387903);
    let spans = worker_spans(4);
    assert_eq!(spans.len(), 4);
    for i in 0..4 {
        assert_eq!(spans[i].first, i as u64 * stride);
    }
    for i in 0..3 {
        assert_eq!(spans[i].last + 1, spans[i + 1].first);
    }
    assert_eq!(spans[0].first, 0);
    assert_eq!(spans[3].last, u64::MAX);
    let spans = worker_spans(3);
    assert_eq!(spans[1].first, u64::MAX / 3);
    assert_eq!(spans[2].last, u64::MAX);
}

#[test]
fn scan_returns_first_qualifying_nonce() {
    let easy = round_with(1, 0xFF);
    let s = scan(&easy, 40, 50).unwrap();
    assert_eq!(s.nonce, 40);
    assert_valid(&easy, &s);

    let moderate = round_with(2, 0x0F);
    let s = scan(&moderate, 0, 100_000).unwrap();
    assert_valid(&moderate, &s);
    for n in 0..s.nonce {
        assert!(recomputed(&moderate, n) > moderate.difficulty);
    }
}

#[test]
fn scan_of_a_range_without_solution_is_none() {
    let mut impossible = round_with(3, 0);
    impossible.difficulty = [0; 32];
    assert!(scan(&impossible, 0, 200).is_none());
    assert!(scan(&impossible, u64::MAX - 3, u64::MAX).is_none());
}

#[test]
fn search_result_meets_difficulty() {
    for seed in 0..6u8 {
        for first in [0xFFu8, 0x7F, 0x10, 0x01] {
            let round = round_with(seed, first);
            let s = search(&round, 1).unwrap();
            assert_valid(&round, &s);
            let s = search(&round, 3).unwrap();
            assert_valid(&round, &s);
        }
    }
}

#[test]
fn worker_count_changes_no_correctness() {
    let round = round_with(9, 0x00);
    let one = search(&round, 1).unwrap();
    let many = search(&round, 8).unwrap();
    assert_valid(&round, &one);
    assert_valid(&round, &many);
}

#[test]
fn easiest_difficulty_takes_nonce_zero() {
    let round = round_with(4, 0xFF);
    assert_eq!(search(&round, 1).unwrap().nonce, 0);
    assert_eq!(search(&round, 16).unwrap().nonce, 0);
}

#[test]
fn worker_stops_when_told() {
    let round = round_with(6, 0xFF);
    let mut w = Worker::new(round, Span { first: 10, last: 20 });
    assert!(matches!(w.step(true), Step::Stopped));
    assert_eq!(w.status, WorkerStatus::Stopped);
}

#[test]
fn worker_steps_through_its_span() {
    let mut round = round_with(7, 0);
    round.difficulty = [0; 32];
    let mut w = Worker::new(round, Span { first: 100, last: 100 + CHECK_INTERVAL + 4 });
    assert!(matches!(w.step(false), Step::Continue));
    assert_eq!(w.next, 100 + CHECK_INTERVAL);
    assert_eq!(w.status, WorkerStatus::Scanning);
    assert!(matches!(w.step(false), Step::Exhausted));
    assert_eq!(w.status, WorkerStatus::Exhausted);

    let easy = round_with(7, 0xFF);
    let mut w = Worker::new(easy, Span { first: u64::MAX - 2, last: u64::MAX });
    match w.step(false) {
        Step::Found(s) => {
            assert_eq!(s.nonce, u64::MAX - 2);
            assert_valid(&easy, &s);
        }
        _ => panic!("expected a solution"),
    }
    assert_eq!(w.status, WorkerStatus::Solved);
}

#[test]
fn result_slot_keeps_first_offer() {
    let round = round_with(8, 0xFF);
    let offers: Vec<Solution> = (0..5u64)
        .map(|n| Solution { digest: recomputed(&round, n), nonce: n })
        .collect();
    let mut slot = ResultSlot::new();
    assert!(slot.winner.is_none());
    let mut accepted = 0;
    for s in [offers[3], offers[1], offers[4], offers[0], offers[2]] {
        if slot.offer(s) {
            accepted += 1;
        }
    }
    assert_eq!(accepted, 1);
    let w = slot.winner.unwrap();
    assert_eq!(w.nonce, 3);
    assert_valid(&round, &w);
}

#[test]
fn worker_thread_body_raises_flag_on_success() {
    let round = round_with(10, 0x20);
    let found = AtomicBool::new(false);
    match run_worker(round, Span { first: 500, last: 1_000_000 }, &found) {
        Step::Found(s) => {
            assert!(s.nonce >= 500);
            assert_valid(&round, &s);
        }
        _ => panic!("expected a solution"),
    }
    assert!(found.load(Ordering::Relaxed));
}

#[test]
fn worker_thread_body_stops_on_raised_flag() {
    let round = round_with(11, 0xFF);
    let found = AtomicBool::new(true);
    assert!(matches!(run_worker(round, Span { first: 0, last: 10 }, &found), Step::Stopped));
}

#[test]
fn worker_thread_body_exhausts_span() {
    let mut round = round_with(12, 0);
    round.difficulty = [0; 32];
    let found = AtomicBool::new(false);
    assert!(matches!(run_worker(round, Span { first: 7, last: 300 }, &found), Step::Exhausted));
    assert!(!found.load(Ordering::Relaxed));
}
