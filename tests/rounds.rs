use memhammer::round::check_aggregate;
use memhammer::slots::Fault;
use memhammer::slots::SlotArray;
use memhammer::worker::run_burst;
use memhammer::worker::step_at;
use memhammer::worker::worker_step;
use memhammer::BURST_SIZE;
use std::sync::atomic::AtomicUsize;
use std::sync::atomic::Ordering;
use std::time::Duration;
use std::time::Instant;

fn slot_sum(slots: &SlotArray) -> u128 {
    (0..slots.len()).map(|i| slots.counter(i) as u128).sum()
}

#[test]
fn new_array_numbers_its_slots() {
    let slots = SlotArray::new(1024);
    assert_eq!(slots.len(), 1024);
    for i in 0..1024 {
        assert_eq!(slots.identity(i), i as u32);
        assert_eq!(slots.counter(i), 0);
    }
    assert_eq!(slots.verify_identities(), Ok(()));
    assert_eq!(slots.counter_total(), 0);
}

#[test]
fn from_block_bytes_lays_out_the_block() {
    let slots = SlotArray::from_block_bytes(8192).unwrap();
    assert_eq!(slots.len(), 1024);
    assert_eq!(slots.identity(1023), 1023);
    assert!(matches!(SlotArray::from_block_bytes(7), Err(memhammer::layout::LayoutError::NoSlots)));
}

#[test]
fn hit_increments_one_counter() {
    let slots = SlotArray::new(4);
    assert_eq!(slots.hit(2), Ok(()));
    assert_eq!(slots.hit(2), Ok(()));
    assert_eq!(slots.hit(0), Ok(()));
    assert_eq!(slots.counter(0), 1);
    assert_eq!(slots.counter(1), 0);
    assert_eq!(slots.counter(2), 2);
    assert_eq!(slots.counter_total(), 3);
}

#[test]
fn aggregate_check_exact_values() {
    assert_eq!(BURST_SIZE, 1 << 20);
    assert_eq!(check_aggregate(0, 0), Ok(0));
    assert_eq!(check_aggregate(1 << 20, 1), Ok(1));
    assert_eq!(check_aggregate(3 << 20, 3), Ok(3));
    assert_eq!(
        check_aggregate((1 << 20) - 1, 1),
        Err(Fault::AggregateMismatch { total: (1 << 20) - 1, iterations: 1 })
    );
    assert_eq!(
        check_aggregate((1 << 20) + 1, 1),
        Err(Fault::AggregateMismatch { total: (1 << 20) + 1, iterations: 1 })
    );
    assert_eq!(
        check_aggregate(u128::MAX, usize::MAX),
        Err(Fault::AggregateMismatch { total: u128::MAX, iterations: usize::MAX })
    );
}

#[test]
fn one_burst_adds_exactly_a_burst() {
    let slots = SlotArray::new(1024);
    let iterations = AtomicUsize::new(0);
    let mut rng = rand::thread_rng();
    assert_eq!(run_burst(&slots, &iterations, &mut rng).0, Ok(()));
    assert_eq!(iterations.load(Ordering::Acquire), 1);
    assert_eq!(slots.counter_total(), BURST_SIZE as u128);
    assert_eq!(slot_sum(&slots), BURST_SIZE as u128);
    assert_eq!(slots.finish_round(&iterations), Ok(1));
}

#[test]
fn single_slot_takes_every_increment() {
    let slots = SlotArray::new(1);
    let iterations = AtomicUsize::new(0);
    let mut rng = rand::thread_rng();
    assert_eq!(run_burst(&slots, &iterations, &mut rng).0, Ok(()));
    assert_eq!(slots.counter(0), BURST_SIZE as u32);
}

#[test]
fn unbalanced_counters_are_reported() {
    let slots = SlotArray::new(16);
    let iterations = AtomicUsize::new(0);
    let mut rng = rand::thread_rng();
    assert_eq!(run_burst(&slots, &iterations, &mut rng).0, Ok(()));
    assert_eq!(slots.hit(3), Ok(()));
    assert_eq!(
        slots.finish_round(&iterations),
        Err(Fault::AggregateMismatch { total: (1 << 20) + 1, iterations: 1 })
    );
    iterations.fetch_add(1, Ordering::Relaxed);
    assert_eq!(
        slots.finish_round(&iterations),
        Err(Fault::AggregateMismatch { total: (1 << 20) + 1, iterations: 2 })
    );
}

#[test]
fn step_after_deadline_does_nothing() {
    let slots = SlotArray::new(8);
    let iterations = AtomicUsize::new(0);
    let mut rng = rand::thread_rng();
    let past = Instant::now();
    assert_eq!(worker_step(&slots, &iterations, &past, &mut rng), Ok(false));
    assert_eq!(iterations.load(Ordering::Acquire), 0);
    assert_eq!(slots.counter_total(), 0);
}

#[test]
fn one_worker_short_window_balances() {
    let slots = SlotArray::new(1024);
    let iterations = AtomicUsize::new(0);
    let mut rng = rand::thread_rng();
    let finish = Instant::now() + Duration::from_millis(300);
    let mut steps: usize = 0;
    while worker_step(&slots, &iterations, &finish, &mut rng).unwrap() {
        steps += 1;
    }
    assert!(steps >= 1);
    let n = iterations.load(Ordering::Acquire);
    assert_eq!(n, steps);
    assert_eq!(slots.finish_round(&iterations), Ok(n));
    assert_eq!(slots.counter_total(), (n * BURST_SIZE) as u128);
    assert_eq!(slots.verify_identities(), Ok(()));
}

#[test]
fn eight_workers_on_shared_slots_balance() {
    let slots = SlotArray::new(1024);
    let iterations = AtomicUsize::new(0);
    let mut rngs: Vec<_> = (0..8).map(|_| rand::thread_rng()).collect();
    let mut running = vec![true; 8];
    let finish = Instant::now() + Duration::from_millis(200);
    while running.iter().any(|r| *r) {
        for w in 0..8 {
            if running[w] {
                running[w] = worker_step(&slots, &iterations, &finish, &mut rngs[w]).unwrap();
            }
        }
    }
    let n = iterations.load(Ordering::Acquire);
    assert!(n >= 1);
    assert_eq!(slots.finish_round(&iterations), Ok(n));
    assert_eq!(slot_sum(&slots), (n * BURST_SIZE) as u128);
}

#[test]
fn rounds_in_sequence_each_balance() {
    let slots = SlotArray::new(256);
    let iterations = AtomicUsize::new(0);
    let mut rng = rand::thread_rng();
    let mut last = 0;
    for _ in 0..3 {
        let finish = Instant::now() + Duration::from_millis(100);
        while worker_step(&slots, &iterations, &finish, &mut rng).unwrap() {}
        let n = slots.finish_round(&iterations).unwrap();
        assert!(n >= last);
        assert_eq!(slots.counter_total(), (n * BURST_SIZE) as u128);
        last = n;
    }
}

#[test]
fn corrupted_identity_is_detected_by_scan() {
    let mut slots = SlotArray::new(1024);
    slots.corrupt_identity(517, 9);
    assert_eq!(slots.identity(517), 9);
    assert_eq!(slots.check_identity(516), Ok(()));
    assert_eq!(slots.check_identity(517), Err(Fault::IdentityCorruption { index: 517, found: 9 }));
    assert_eq!(slots.verify_identities(), Err(Fault::IdentityCorruption { index: 517, found: 9 }));
    assert_eq!(slots.hit(517), Err(Fault::IdentityCorruption { index: 517, found: 9 }));
}

#[test]
fn corrupted_identity_stops_a_worker_mid_run() {
    let mut slots = SlotArray::new(4);
    let iterations = AtomicUsize::new(0);
    let mut rng = rand::thread_rng();
    let finish = Instant::now() + Duration::from_secs(10);
    assert_eq!(worker_step(&slots, &iterations, &finish, &mut rng), Ok(true));
    slots.corrupt_identity(2, 99);
    let r = worker_step(&slots, &iterations, &finish, &mut rng);
    assert_eq!(r, Err(Fault::IdentityCorruption { index: 2, found: 99 }));
    assert_eq!(iterations.load(Ordering::Acquire), 2);
    assert!(slots.finish_round(&iterations).is_err());
}

#[test]
fn step_past_deadline_runs_nothing() {
    let slots = SlotArray::new(16);
    let iterations = AtomicUsize::new(0);
    let mut rng = rand::thread_rng();
    assert_eq!(step_at(&slots, &iterations, false, &mut rng), Ok(false));
    assert_eq!(iterations.load(Ordering::Acquire), 0);
    assert_eq!(slots.counter_total(), 0);
}

#[test]
fn step_before_deadline_runs_one_burst() {
    let slots = SlotArray::new(16);
    let iterations = AtomicUsize::new(0);
    let mut rng = rand::thread_rng();
    assert_eq!(step_at(&slots, &iterations, true, &mut rng), Ok(true));
    assert_eq!(iterations.load(Ordering::Acquire), 1);
    assert_eq!(slots.counter_total(), BURST_SIZE as u128);
    assert_eq!(slots.finish_round(&iterations), Ok(1));
}

#[test]
fn step_on_fully_corrupted_array_fails() {
    let mut slots = SlotArray::new(2);
    slots.corrupt_identity(0, 7);
    slots.corrupt_identity(1, 7);
    let iterations = AtomicUsize::new(0);
    let mut rng = rand::thread_rng();
    let r = step_at(&slots, &iterations, true, &mut rng);
    assert!(matches!(r, Err(Fault::IdentityCorruption { found: 7, .. })));
    assert_eq!(slots.counter_total(), 1);
}
