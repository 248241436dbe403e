use collatz::nonzero::NonZero;
use collatz::{Steps, Transformations};

fn oeis_steps() -> Vec<u64> {
    // Number of steps to reach 1 for integers 1..=72 (according to the
    // Online Encyclopedia of Integer Sequences).
    vec![
        0, 1, 7, 2, 5, 8, 16, 3, 19, 6, 14, 9, 9, 17, 17, 4, 12, 20, 20, 7, 7, 15, 15, 10, 23, 10,
        111, 18, 18, 18, 106, 5, 26, 13, 13, 21, 21, 21, 34, 8, 109, 8, 29, 16, 16, 16, 104, 11,
        24, 24, 24, 11, 11, 112, 112, 19, 32, 19, 32, 19, 19, 107, 107, 6, 27, 27, 27, 14, 14, 14,
        102, 22,
    ]
}

#[test]
fn step_counts_for_integers_are_correct() {
    let one = NonZero::new(1).unwrap();
    assert_eq!(one.steps_to_one(), Some(0));
    assert_eq!(one.steps_to_one_for_odd_number(), Some(0));
}

#[test]
fn step_counts_for_ranges_are_correct() {
    let start: u64 = 1;
    let stop: u64 = 73;
    let steps: Vec<u64> = (start..stop)
        .map(|n| NonZero::new(n).unwrap().steps_to_one().unwrap())
        .collect();
    assert_eq!(steps, oeis_steps());

    let steps_again: Vec<u64> = (start..stop)
        .map(|n| NonZero::new(n).unwrap().steps_to_one().unwrap())
        .collect();
    assert_eq!(steps_again, oeis_steps());
}

#[test]
fn transformations_for_numbers_are_correct() {
    let n = NonZero::new(4u64).unwrap();
    let transforms = n.transformations_to_one().unwrap();
    let expected_transformations: Vec<NonZero> = [4u64, 2, 1]
        .into_iter()
        .map(|x| NonZero::new(x).unwrap())
        .collect();
    assert_eq!(transforms, expected_transformations);
}
