//! Scanning half-open ranges of values for convergence: every element is
//! visited, and every element's verdict enters the result.

use vstd::prelude::*;

verus! {

use crate::model::{converges, falls};
use crate::nonzero::NonZero;

/// Checks that every value of `[start, stop)` reaches 1, using the slow
/// reference fall check on each element. Vacuously true on an empty range;
/// every element is visited, with no short-circuit.
pub fn alpha(start: NonZero, stop: NonZero) -> (r: bool)
    ensures
        r == (forall|i: int| start@ <= i < stop@ ==> #[trigger] converges(i as nat, u64::MAX as nat)),
{
    let s = start.get();
    let e = stop.get();
    let mut ok = true;
    let mut i = s;
    while i < e
        invariant
            s == start@,
            s >= 1,
            s <= i,
            i <= e || i == s,
            ok == (forall|j: int| s <= j < i ==> #[trigger] converges(j as nat, u64::MAX as nat)),
        decreases e - i,
    {
        let here = crate::fall::alpha(NonZero::new_unchecked(i));
        proof {
            let ii = i as int;
            assert(converges(ii as nat, u64::MAX as nat) == here);
        }
        ok = ok && here;
        i = i + 1;
    }
    ok
}

/// Like `alpha`, but with the fast fall check on each element. A `true`
/// answer guarantees every element falls within the large step budget; a
/// `false` answer names no culprit beyond some element not falling within
/// the slightly smaller one (see `crate::fall::omega`).
pub fn omega(start: NonZero, stop: NonZero) -> (r: bool)
    ensures
        r ==> (forall|i: int| start@ <= i < stop@ ==> #[trigger] falls(i as nat, u64::MAX as nat)),
        !r ==> (exists|i: int|
            start@ <= i < stop@ && !(#[trigger] falls(i as nat, (u64::MAX - 65) as nat))),
{
    let s = start.get();
    let e = stop.get();
    let mut ok = true;
    let mut i = s;
    while i < e
        invariant
            s == start@,
            s >= 1,
            s <= i,
            i <= e || i == s,
            ok ==> (forall|j: int| s <= j < i ==> #[trigger] falls(j as nat, u64::MAX as nat)),
            !ok ==> (exists|j: int| s <= j < i && !(#[trigger] falls(j as nat, (u64::MAX - 65) as nat))),
        decreases e - i,
    {
        let here = crate::fall::omega(NonZero::new_unchecked(i));
        proof {
            let ii = i as int;
            if here {
                assert(falls(ii as nat, u64::MAX as nat));
            } else {
                assert(!falls(ii as nat, (u64::MAX - 65) as nat));
            }
        }
        ok = ok && here;
        i = i + 1;
    }
    ok
}

/// Like `omega`, but visits only every second value, for a caller who
/// knows the odd values are the ones left to check: the scan starts at an
/// odd value and steps by two, skipping the parity dispatch.
pub fn omega_all_odds(start: NonZero, stop: NonZero) -> (r: bool)
    requires
        start@ % 2 == 1,
    ensures
        r ==> (forall|i: int|
            start@ <= i < stop@ && i % 2 == 1 ==> #[trigger] falls(i as nat, u64::MAX as nat)),
        !r ==> (exists|i: int|
            start@ <= i < stop@ && i % 2 == 1 && !(#[trigger] falls(i as nat, (u64::MAX - 65) as nat))),
{
    let s = start.get();
    let e = stop.get();
    let mut ok = true;
    let mut i = s;
    while i < e
        invariant
            s == start@,
            s >= 1,
            s % 2 == 1,
            i % 2 == 1,
            s <= i,
            ok ==> (forall|j: int|
                s <= j < i && j % 2 == 1 ==> #[trigger] falls(j as nat, u64::MAX as nat)),
            !ok ==> (exists|j: int|
                s <= j < i && j < e && j % 2 == 1 && !(#[trigger] falls(
                    j as nat,
                    (u64::MAX - 65) as nat,
                ))),
        decreases e + 1 - i,
    {
        let here = crate::fall::omega(NonZero::new_unchecked(i));
        proof {
            let ii = i as int;
            if here {
                assert(falls(ii as nat, u64::MAX as nat));
            } else {
                assert(!falls(ii as nat, (u64::MAX - 65) as nat));
            }
        }
        match i.checked_add(2) {
            Some(nx) => {
                ok = ok && here;
                i = nx;
            },
            None => {
                let result = ok && here;
                proof {
                    if result {
                        assert forall|j: int| s <= j < e && j % 2 == 1 implies #[trigger] falls(
                            j as nat,
                            u64::MAX as nat,
                        ) by {
                            assert(j <= u64::MAX);
                            assert(j <= i);
                        }
                    } else if ok {
                        assert(!falls(i as nat, (u64::MAX - 65) as nat));
                    }
                }
                return result;
            },
        };
    }
    ok
}

/// A value of the range is odd.
pub open spec fn odd_value(i: int) -> bool {
    i % 2 == 1
}

/// Every value of the half-open range `[start, stop)` is odd.
pub open spec fn all_odd(start: int, stop: int) -> bool {
    forall|i: int| start <= i < stop ==> #[trigger] odd_value(i)
}

/// Odd-only fast path agreement: over a range holding only odd values,
/// what the odd-only scan establishes per element is exactly what the full
/// scan establishes, under either step budget.
pub proof fn lemma_odds_only_range_agrees(start: int, stop: int, cap: nat)
    requires
        all_odd(start, stop),
    ensures
        (forall|i: int| start <= i < stop ==> #[trigger] falls(i as nat, cap)) <==> (forall|i: int|
            start <= i < stop && i % 2 == 1 ==> #[trigger] falls(i as nat, cap)),
{
    if forall|i: int| start <= i < stop && i % 2 == 1 ==> #[trigger] falls(i as nat, cap) {
        assert forall|i: int| start <= i < stop implies #[trigger] falls(i as nat, cap) by {
            assert(odd_value(i));
        }
    }
}

} // verus!
