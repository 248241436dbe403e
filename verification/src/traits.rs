//! The capability interface of the library: rule application, step
//! counting and trajectory capture, for any type viewed as a non-zero
//! 64-bit value.

use vstd::prelude::*;

verus! {

use crate::model::{
    counts_steps,
    converges,
    iterate,
    next_value,
    odd_part,
    valid_count64,
    valid_odd_decrease64,
};

/// The rule transformations of the Collatz conjecture.
pub trait Rules: Sized + View<V = u64> {
    /// Returns `3n + 1`; valid only for odd values. `None` exactly when the
    /// result would not fit in 64 bits.
    fn odd_rule(self) -> (r: Option<Self>)
        requires
            self@ % 2 == 1,
        ensures
            r is Some <==> 3 * (self@ as int) + 1 <= u64::MAX,
            r matches Some(m) ==> m@ as nat == next_value(self@ as nat),
    ;

    /// Returns `n / 2`; valid only for even values, where the division is
    /// exact.
    fn even_rule(self) -> (r: Self)
        requires
            self@ % 2 == 0,
        ensures
            r@ as nat == next_value(self@ as nat),
    ;

    /// One application of the rule, dispatching on parity.
    fn rules(self) -> (r: Option<Self>)
        ensures
            r is Some <==> next_value(self@ as nat) <= u64::MAX as nat,
            r matches Some(m) ==> m@ as nat == next_value(self@ as nat),
    ;

    /// Like `rules`, but an odd value is halved once more after the odd
    /// rule: two rule applications in one dispatch, so a caller counting
    /// steps must account for both.
    fn rules_halve_odds(self) -> (r: Option<Self>)
        ensures
            self@ % 2 == 1 ==> (r is Some <==> 3 * (self@ as int) + 1 <= u64::MAX),
            self@ % 2 == 1 ==> (r matches Some(m) ==> m@ as nat == iterate(self@ as nat, 2)),
            self@ % 2 == 0 ==> r is Some,
            self@ % 2 == 0 ==> (r matches Some(m) ==> m@ as nat == iterate(self@ as nat, 1)),
    ;

    /// One application of the odd rule where due, then every trailing
    /// factor of two stripped at once.
    fn rules_remove_trailing_zeros(self) -> (r: Option<Self>)
        ensures
            self@ % 2 == 1 ==> (r is Some <==> 3 * (self@ as int) + 1 <= u64::MAX),
            self@ % 2 == 0 ==> r is Some,
            r matches Some(m) ==> m@ as nat == odd_part(next_value(self@ as nat)),
    ;
}

/// Step counters: how many rule applications a value needs.
pub trait Steps: Sized + View<V = u64> {
    /// Counts rule applications until the value reaches 1.
    fn steps_to_one(self) -> (r: Option<u64>)
        ensures
            valid_count64(self@ as nat, r),
    ;

    /// Like `steps_to_one`, specialized to an even start: the trailing
    /// zero bits are stripped first, one counted step per halving.
    fn steps_to_one_for_even_number(self) -> (r: Option<u64>)
        requires
            self@ % 2 == 0,
        ensures
            valid_count64(self@ as nat, r),
    ;

    /// Like `steps_to_one`, specialized to an odd start.
    fn steps_to_one_for_odd_number(self) -> (r: Option<u64>)
        requires
            self@ % 2 == 1,
        ensures
            valid_count64(self@ as nat, r),
    ;

    /// Counts rule applications until the value no longer exceeds its
    /// starting point: one halving for an even start, the batched odd scan
    /// otherwise.
    fn steps_to_decrease(self) -> (r: Option<u64>)
        ensures
            self@ % 2 == 0 ==> r == Some(1u64),
            self@ % 2 == 1 ==> valid_odd_decrease64(self@ as nat, r),
    ;

    /// The batched decrease scan for an odd start: each round applies the
    /// odd rule and strips the trailing zeros, counting `z + 1` steps, and
    /// the running value is compared against the start after every round.
    fn steps_to_decrease_for_odd_number(self) -> (r: Option<u64>)
        requires
            self@ % 2 == 1,
        ensures
            valid_odd_decrease64(self@ as nat, r),
    ;
}

/// Trajectory capture: every value a number passes on its way down to 1.
pub trait Transformations: Rules {
    /// The full trajectory from the value down to 1, inclusive on both
    /// ends; `None` exactly when some step would leave 64-bit range or the
    /// trajectory outruns a `u64` step counter.
    fn transformations_to_one(&self) -> (r: Option<Vec<Self>>)
        ensures
            r is Some <==> converges(self@ as nat, u64::MAX as nat),
            r matches Some(v) ==> {
                &&& v@.len() >= 1
                &&& forall|i: int|
                    0 <= i < v@.len() ==> (#[trigger] v@[i])@ as nat == iterate(
                        self@ as nat,
                        i as nat,
                    )
                &&& v@[v@.len() - 1]@ == 1
                &&& counts_steps(self@ as nat, (v@.len() - 1) as nat, u64::MAX as nat)
            },
    ;
}

} // verus!
