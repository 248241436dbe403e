//! Computations around the Collatz (3n+1) rule for non-zero unsigned integers:
//! single rule applications, full trajectories down to 1, optimized step
//! counters, range scans, and running-maximum ("bouncy") record tracking.
//!
//! Every executable function carries a contract stated over the mathematical
//! model in [`model`]: `next_value` is one rule application, `iterate` its
//! k-fold repetition, and the counters are pinned to `reaches_one_in`, the
//! first index at which a trajectory hits 1.

use vstd::prelude::*;

pub mod bouncy_numbers;
pub mod check_range;
pub mod decrease_steps;
pub mod fall;
pub mod model;
pub mod nonzero;
pub mod rules;
pub mod steps;
pub mod steps_range;
pub mod traits;

verus! {

use crate::model::{
    counts_steps,
    iterate,
    next_value,
    odd_part,
};
use crate::nonzero::NonZero;
pub use crate::traits::{Rules, Steps, Transformations};

impl Rules for NonZero {
    fn odd_rule(self) -> (r: Option<NonZero>) {
        crate::rules::odd_rule(self)
    }

    fn even_rule(self) -> (r: NonZero) {
        crate::rules::even_rule(self)
    }

    fn rules(self) -> (r: Option<NonZero>) {
        crate::rules::basic(self)
    }

    fn rules_halve_odds(self) -> (r: Option<NonZero>) {
        crate::rules::halve_odds(self)
    }

    fn rules_remove_trailing_zeros(self) -> (r: Option<NonZero>) {
        crate::rules::trailing_zeros(self)
    }
}

impl Steps for NonZero {
    fn steps_to_one(self) -> (r: Option<u64>) {
        if self.is_even() {
            self.steps_to_one_for_even_number()
        } else {
            self.steps_to_one_for_odd_number()
        }
    }

    fn steps_to_one_for_even_number(self) -> (r: Option<u64>) {
        crate::steps::count_even_steps(self, u64::MAX)
    }

    fn steps_to_one_for_odd_number(self) -> (r: Option<u64>) {
        crate::steps::count_odd_steps(self.get(), u64::MAX)
    }

    fn steps_to_decrease(self) -> (r: Option<u64>) {
        if self.is_even() {
            Some(1)
        } else {
            self.steps_to_decrease_for_odd_number()
        }
    }

    fn steps_to_decrease_for_odd_number(self) -> (r: Option<u64>) {
        crate::decrease_steps::decrease_engine(self.get())
    }
}

impl Transformations for NonZero {
    fn transformations_to_one(&self) -> (r: Option<Vec<NonZero>>) {
        let ghost nn = self@ as nat;
        let mut v: Vec<NonZero> = Vec::new();
        let mut m: NonZero = *self;
        let mut steps: u64 = 0;
        v.push(m);
        while m.get() != 1
            invariant
                nn == self@ as nat,
                v@.len() == steps as nat + 1,
                m@ as nat == iterate(nn, steps as nat),
                forall|i: int|
                    0 <= i < v@.len() ==> (#[trigger] v@[i])@ as nat == iterate(nn, i as nat),
                forall|j: nat| j < steps as nat ==> iterate(nn, j) != 1,
            decreases u64::MAX - steps,
        {
            let ghost s = steps as nat;
            let ghost c = m@ as nat;
            m = match crate::rules::basic(m) {
                Some(x) => x,
                None => {
                    proof {
                        assert(c % 2 == 1);
                        crate::steps::overflow_refutes(nn, s, c, u64::MAX as nat);
                    }
                    return None;
                },
            };
            steps = match steps.checked_add(1) {
                Some(t) => t,
                None => {
                    proof {
                        crate::steps::counter_refutes(nn, s, c, u64::MAX as nat);
                    }
                    return None;
                },
            };
            v.push(m);
            proof {
                crate::model::lemma_iterate_add(nn, s, 1);
                assert(iterate(c, 1) == iterate(next_value(c), 0));
                assert(iterate(nn, s + 1) == next_value(c));
            }
        }
        proof {
            assert forall|j: nat| j <= steps as nat implies iterate(nn, j) <= u64::MAX as nat by {
                assert(v@[j as int]@ as nat == iterate(nn, j));
            }
            assert(counts_steps(nn, steps as nat, u64::MAX as nat));
        }
        Some(v)
    }
}

/// Divides out every factor of two, returning the odd part of the value.
/// The result is `None` only if the trailing-zero count cannot be represented,
/// which cannot happen for 64-bit values; the `Option` keeps the conversion
/// failure explicit in the signature.
pub fn divide_while_even(n: NonZero) -> (r: Option<NonZero>)
    ensures
        r is Some,
        r matches Some(m) ==> m@ as nat == odd_part(n@ as nat),
{
    Some(n.without_trailing_zeros())
}

} // verus!
