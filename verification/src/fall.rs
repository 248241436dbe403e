//! Convergence checks: whether a value's trajectory reaches 1, or at least
//! falls back below its starting point.

use vstd::prelude::*;

verus! {

use crate::model::{
    bounded_by,
    converges,
    counts_steps,
    falls,
    iterate,
    lemma_iterate_add,
    lemma_strip,
    lemma_u64_strip,
    next_value,
    odd_part,
    tz_count,
};
use crate::nonzero::NonZero;

/// Applies the rule one step at a time until the value reaches 1, reporting
/// whether it did so within 64-bit range and a `u64` step budget. The slow
/// reference check; `omega` is the fast variant.
pub fn alpha(n: NonZero) -> (r: bool)
    ensures
        r == converges(n@ as nat, u64::MAX as nat),
{
    let ghost nn = n@ as nat;
    let mut m: NonZero = n;
    let mut steps: u64 = 0;
    while m.get() != 1
        invariant
            nn == n@ as nat,
            m@ as nat == iterate(nn, steps as nat),
            forall|j: nat| j < steps as nat ==> iterate(nn, j) != 1,
            forall|j: nat| j <= steps as nat ==> iterate(nn, j) <= u64::MAX as nat,
        decreases u64::MAX - steps,
    {
        let ghost s = steps as nat;
        let ghost c = m@ as nat;
        m = match crate::rules::basic(m) {
            Some(x) => x,
            None => {
                proof {
                    assert(c % 2 == 1);
                    crate::steps::overflow_refutes(nn, s, c, u64::MAX as nat);
                }
                return false;
            },
        };
        steps = match steps.checked_add(1) {
            Some(t) => t,
            None => {
                proof {
                    crate::steps::counter_refutes(nn, s, c, u64::MAX as nat);
                }
                return false;
            },
        };
        proof {
            lemma_iterate_add(nn, s, 1);
            assert(iterate(c, 1) == iterate(next_value(c), 0));
            assert(iterate(nn, s + 1) == next_value(c));
        }
    }
    proof {
        assert(counts_steps(nn, steps as nat, u64::MAX as nat));
    }
    true
}

/// The fast fall check: strips all trailing zeros in one shift, then
/// applies the odd rule, and stops as soon as the running value sits below
/// the start or at 1. Meant for a sweep that has already cleared every
/// value below the start.
///
/// A `true` answer means the trajectory falls within a `u64` step budget;
/// a `false` answer means it does not fall within that budget less one
/// batch of headroom (or left 64-bit range first). The two bounds differ
/// only in the last 65 counter values, far beyond any reachable count.
pub fn omega(start: NonZero) -> (r: bool)
    ensures
        r ==> falls(start@ as nat, u64::MAX as nat),
        !r ==> !falls(start@ as nat, (u64::MAX - 65) as nat),
{
    let ghost nn = start@ as nat;
    let n0 = start.get();
    if n0 == 1 {
        proof {
            assert(iterate(nn, 0) == 1);
            assert(crate::model::fallen(nn, 0) && bounded_by(nn, 0, u64::MAX as nat));
            assert(falls(nn, u64::MAX as nat));
        }
        return true;
    }
    let mut cur: u64 = n0;
    let mut steps: u64 = 0;
    loop
        invariant
            nn == start@ as nat,
            n0 == start@,
            2 <= n0,
            1 <= cur,
            steps <= u64::MAX - 65,
            cur as nat == iterate(nn, steps as nat),
            forall|j: nat|
                j <= steps as nat ==> iterate(nn, j) >= nn && (#[trigger] iterate(nn, j)) != 1,
            forall|j: nat| j <= steps as nat ==> iterate(nn, j) <= u64::MAX as nat,
        decreases u64::MAX - steps,
    {
        let ghost s = steps as nat;
        let ghost c = cur as nat;
        let z = cur.trailing_zeros();
        proof {
            lemma_u64_strip(cur);
            lemma_strip(c);
            assert forall|j: nat| s < j <= s + tz_count(c) implies #[trigger] iterate(nn, j)
                == iterate(c, (j - s) as nat) by {
                lemma_iterate_add(nn, s, (j - s) as nat);
            }
        }
        let p = cur >> (z as u64);
        let mid = steps + (z as u64);
        let ghost m = s + tz_count(c);
        if p < n0 || p == 1 {
            proof {
                assert(iterate(nn, m) == odd_part(c));
                assert forall|j: nat| j <= m implies #[trigger] iterate(nn, j)
                    <= u64::MAX as nat by {
                    if j > s {
                        assert(iterate(c, (j - s) as nat) <= c);
                    }
                }
                assert(m <= u64::MAX as nat && crate::model::fallen(nn, m) && bounded_by(
                    nn,
                    m,
                    u64::MAX as nat,
                ));
                assert(falls(nn, u64::MAX as nat));
            }
            return true;
        }
        // The stripped value is odd, at least the start, and not 1; the
        // values inside the strip sit between it and the pre-strip value.
        proof {
            assert forall|j: nat| j <= m implies iterate(nn, j) >= nn && (#[trigger] iterate(
                nn,
                j,
            )) != 1 && iterate(nn, j) <= u64::MAX as nat by {
                if j > s {
                    assert(odd_part(c) <= iterate(c, (j - s) as nat) <= c);
                }
            }
        }
        if mid > u64::MAX - 66 {
            proof {
                assert forall|k: nat|
                    k <= (u64::MAX - 65) as nat implies !(#[trigger] crate::model::fallen(nn, k)
                    && bounded_by(nn, k, u64::MAX as nat)) by {
                    assert(iterate(nn, k) >= nn && iterate(nn, k) != 1);
                }
            }
            return false;
        }
        let e = match p.checked_mul(3) {
            Some(t) => t.checked_add(1),
            None => None,
        };
        let e = match e {
            Some(e) => e,
            None => {
                proof {
                    let pp = odd_part(c);
                    lemma_iterate_add(nn, m, 1);
                    assert(iterate(pp, 1) == iterate(next_value(pp), 0));
                    assert(iterate(nn, m + 1) == next_value(pp));
                    assert(iterate(nn, m + 1) > u64::MAX as nat);
                    assert forall|k: nat|
                        k <= (u64::MAX - 65) as nat implies !(#[trigger] crate::model::fallen(
                        nn,
                        k,
                    ) && bounded_by(nn, k, u64::MAX as nat)) by {
                        if k <= m {
                            assert(iterate(nn, k) >= nn && iterate(nn, k) != 1);
                        } else {
                            assert(iterate(nn, m + 1) > u64::MAX as nat);
                        }
                    }
                }
                return false;
            },
        };
        proof {
            let pp = odd_part(c);
            lemma_iterate_add(nn, m, 1);
            assert(iterate(pp, 1) == iterate(next_value(pp), 0));
            assert(iterate(nn, m + 1) == next_value(pp));
        }
        cur = e;
        steps = mid + 1;
    }
}

} // verus!
