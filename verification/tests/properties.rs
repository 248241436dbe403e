use collatz::nonzero::NonZero;
use collatz::{Steps, Transformations};

fn nz(v: u64) -> NonZero {
    NonZero::new(v).unwrap()
}

fn oeis_steps() -> Vec<u32> {
    vec![
        0, 1, 7, 2, 5, 8, 16, 3, 19, 6, 14, 9, 9, 17, 17, 4, 12, 20, 20, 7, 7, 15, 15, 10, 23, 10,
        111, 18, 18, 18, 106, 5, 26, 13, 13, 21, 21, 21, 34, 8, 109, 8, 29, 16, 16, 16, 104, 11,
        24, 24, 24, 11, 11, 112, 112, 19, 32, 19, 32, 19, 19, 107, 107, 6, 27, 27, 27, 14, 14, 14,
        102, 22,
    ]
}

#[test]
fn oracle_equivalence_on_small_values() {
    for n in 1u64..=5000 {
        assert_eq!(collatz::steps::alpha(nz(n)), collatz::steps::omega(nz(n)));
    }
}

#[test]
fn oracle_equivalence_on_overflowing_values() {
    // 3n + 1 leaves 64-bit range on the first odd step.
    let huge = u64::MAX;
    assert_eq!(collatz::steps::alpha(nz(huge)), None);
    assert_eq!(collatz::steps::omega(nz(huge)), None);
}

#[test]
fn known_sequence_conformance() {
    let expected = oeis_steps();
    for n in 1u64..=72 {
        let idx = (n - 1) as usize;
        assert_eq!(collatz::steps::omega(nz(n)), Some(expected[idx]));
    }
}

#[test]
fn trajectory_termination_invariant() {
    for n in 1u64..=500 {
        let t = nz(n).transformations_to_one().unwrap();
        let steps = nz(n).steps_to_one().unwrap();
        assert_eq!(t.last().unwrap().get(), 1);
        assert_eq!(t.len() as u64, steps + 1);
    }
}

#[test]
fn base_case() {
    assert_eq!(collatz::steps::omega(nz(1)), Some(0));
    assert_eq!(nz(1).steps_to_one(), Some(0));
    assert_eq!(nz(1).transformations_to_one().unwrap(), vec![nz(1)]);
}

#[test]
fn record_monotonicity() {
    let records = collatz::bouncy_numbers::calculate_bouncy_sequence(nz(1), nz(1000)).unwrap();
    assert!(records.len() >= 2);
    for w in records.windows(2) {
        assert!(w[0].1 < w[1].1);
        assert!(w[0].0 < w[1].0);
    }
    // The first scanned value always opens the record list.
    assert_eq!(records[0], (1, 0));
}

#[test]
fn record_max_consistency() {
    for stop in [2u64, 3, 10, 27, 100, 1000] {
        let records = collatz::bouncy_numbers::calculate_bouncy_sequence(nz(1), nz(stop)).unwrap();
        let max = collatz::bouncy_numbers::alpha(nz(1), nz(stop)).unwrap();
        assert_eq!(*records.last().unwrap(), max);
    }
}

#[test]
fn worked_example() {
    let t = nz(4).transformations_to_one().unwrap();
    assert_eq!(t, vec![nz(4), nz(2), nz(1)]);
    // 7 is the record holder among 1..=8 with 16 steps; 9 beats it with 19,
    // as the reference sequence shows.
    assert_eq!(collatz::bouncy_numbers::alpha(nz(1), nz(9)), Some((7, 16)));
    assert_eq!(collatz::bouncy_numbers::alpha(nz(1), nz(10)), Some((9, 19)));
}

#[test]
fn range_scan_agreement() {
    let scanned = collatz::steps_range::omega(nz(1), nz(73));
    assert_eq!(scanned.len(), 72);
    for (idx, item) in scanned.iter().enumerate() {
        let n = 1 + idx as u64;
        assert_eq!(*item, collatz::steps::omega(nz(n)));
    }
    let scanned_naive = collatz::steps_range::alpha(nz(1), nz(73));
    assert_eq!(scanned, scanned_naive);
}

#[test]
fn odd_only_fast_path_equivalence() {
    // Ranges holding a single odd value: the odd-only scan and the full
    // scan see the same elements and must answer alike.
    for start in [3u64, 5, 7, 9, 27] {
        let a = collatz::check_range::omega(nz(start), nz(start + 1));
        let b = collatz::check_range::omega_all_odds(nz(start), nz(start + 1));
        assert_eq!(a, b);
    }
    // A wider sweep over odd starts only.
    assert!(collatz::check_range::omega_all_odds(nz(1), nz(1001)));
}

#[test]
fn range_checks_hold_on_small_ranges() {
    assert!(collatz::check_range::alpha(nz(1), nz(1000)));
    assert!(collatz::check_range::omega(nz(1), nz(1000)));
    // Vacuously true on an empty range.
    assert!(collatz::check_range::alpha(nz(5), nz(5)));
    assert!(collatz::check_range::omega(nz(5), nz(5)));
}
