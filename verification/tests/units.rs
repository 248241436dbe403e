use collatz::nonzero::NonZero;
use collatz::{Rules, Steps};

fn nz(v: u64) -> NonZero {
    NonZero::new(v).unwrap()
}

#[test]
fn construction_rejects_zero() {
    assert!(NonZero::new(0).is_none());
    let five = NonZero::new(5).unwrap();
    assert_eq!(five.get(), 5);
    assert!(five.is_odd());
    assert!(!five.is_even());
}

#[test]
fn trailing_zero_helpers() {
    assert_eq!(nz(12).trailing_zeros(), 2);
    assert_eq!(nz(12).without_trailing_zeros(), nz(3));
    assert_eq!(nz(7).trailing_zeros(), 0);
    assert_eq!(nz(7).without_trailing_zeros(), nz(7));
    assert_eq!(collatz::divide_while_even(nz(40)), Some(nz(5)));
    assert_eq!(collatz::divide_while_even(nz(1)), Some(nz(1)));
}

#[test]
fn odd_rule_applies_and_overflows() {
    assert_eq!(collatz::rules::odd_rule(nz(3)), Some(nz(10)));
    assert_eq!(collatz::rules::odd_rule(nz(1)), Some(nz(4)));
    // 3n + 1 cannot be represented for the largest odd value.
    assert_eq!(collatz::rules::odd_rule(nz(u64::MAX)), None);
}

#[test]
fn even_rule_halves() {
    assert_eq!(collatz::rules::even_rule(nz(10)), nz(5));
    assert_eq!(collatz::rules::even_rule(nz(2)), nz(1));
}

#[test]
fn basic_rule_dispatches_on_parity() {
    assert_eq!(collatz::rules::basic(nz(3)), Some(nz(10)));
    assert_eq!(collatz::rules::basic(nz(10)), Some(nz(5)));
    assert_eq!(collatz::rules::basic(nz(u64::MAX)), None);
}

#[test]
fn halve_odds_packs_two_steps() {
    assert_eq!(collatz::rules::halve_odds(nz(5)), Some(nz(8)));
    assert_eq!(collatz::rules::halve_odds(nz(6)), Some(nz(3)));
    assert_eq!(collatz::rules::halve_odds(nz(u64::MAX)), None);
}

#[test]
fn trailing_zero_rules_strip_at_once() {
    assert_eq!(collatz::rules::trailing_zeros(nz(3)), Some(nz(5)));
    assert_eq!(collatz::rules::trailing_zeros(nz(12)), Some(nz(3)));
    assert_eq!(collatz::rules::trailing_zeros_num_is_odd(nz(3)), Some(nz(5)));
    assert_eq!(collatz::rules::trailing_zeros_num_is_odd(nz(u64::MAX)), None);
    assert_eq!(collatz::rules::trailing_zeros_num_is_even(nz(12)), Some(nz(3)));
}

#[test]
fn trait_rules_match_free_rules() {
    assert_eq!(nz(3).odd_rule(), Some(nz(10)));
    assert_eq!(nz(10).even_rule(), nz(5));
    assert_eq!(nz(3).rules(), Some(nz(10)));
    assert_eq!(nz(10).rules(), Some(nz(5)));
    assert_eq!(nz(5).rules_halve_odds(), Some(nz(8)));
    assert_eq!(nz(3).rules_remove_trailing_zeros(), Some(nz(5)));
    assert_eq!(nz(12).rules_remove_trailing_zeros(), Some(nz(3)));
}

#[test]
fn decrease_counts_one_step_at_a_time() {
    // 3 -> 10 -> 5 -> 16 -> 8 -> 4 -> 2: six applications to get below 3.
    assert_eq!(collatz::decrease_steps::alpha(nz(3)), Some(6));
    // An even value halves below itself at once.
    assert_eq!(collatz::decrease_steps::alpha(nz(4)), Some(1));
}

#[test]
fn decrease_counts_batched() {
    assert_eq!(nz(4).steps_to_decrease(), Some(1));
    // The batched scan only compares at odd values: 3 -> 10 -> 5 -> 16 ->
    // 8 -> 4 -> 2 -> 1 stops at the odd 1 after seven applications.
    assert_eq!(nz(3).steps_to_decrease(), Some(7));
    assert_eq!(nz(3).steps_to_decrease_for_odd_number(), Some(7));
    // 1 -> 4 -> 2 -> 1: the batch ends at 1, not above the start.
    assert_eq!(nz(1).steps_to_decrease_for_odd_number(), Some(3));
}

#[test]
fn fall_checks_converge_and_overflow() {
    assert!(collatz::fall::alpha(nz(1)));
    assert!(collatz::fall::alpha(nz(27)));
    assert!(!collatz::fall::alpha(nz(u64::MAX)));
    assert!(collatz::fall::omega(nz(1)));
    assert!(collatz::fall::omega(nz(2)));
    assert!(collatz::fall::omega(nz(3)));
    assert!(collatz::fall::omega(nz(27)));
    assert!(!collatz::fall::omega(nz(u64::MAX)));
}

#[test]
fn step_counters_specialized_entries() {
    assert_eq!(collatz::steps::omega_n_is_odd(nz(27)), Some(111));
    assert_eq!(collatz::steps::omega_n_is_even(nz(64)), Some(6));
    assert_eq!(nz(27).steps_to_one_for_odd_number(), Some(111));
    assert_eq!(nz(64).steps_to_one_for_even_number(), Some(6));
}

#[test]
fn record_search_reports_overflow() {
    let lo = NonZero::new(u64::MAX - 1).unwrap();
    let hi = NonZero::new(u64::MAX).unwrap();
    assert_eq!(collatz::bouncy_numbers::alpha(lo, hi), None);
    assert_eq!(collatz::bouncy_numbers::calculate_bouncy_sequence(lo, hi), None);
}

#[test]
fn range_map_on_empty_range() {
    assert_eq!(collatz::steps_range::omega(nz(5), nz(5)).len(), 0);
    assert_eq!(collatz::steps_range::alpha(nz(7), nz(5)).len(), 0);
}
