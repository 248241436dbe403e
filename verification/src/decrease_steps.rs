//! Counting how many rule applications a value needs to drop below its
//! starting point.

use vstd::prelude::*;

verus! {

use crate::model::{
    drop_counts,
    iterate,
    lemma_iterate_add,
    next_value,
    odd_decrease_counts,
    odd_part,
    tz_count,
    valid_drop32,
    valid_odd_decrease64,
};
use crate::nonzero::NonZero;

/// Applies the rule one step at a time until the value first drops below
/// its starting point, counting each application.
pub fn alpha(n: NonZero) -> (r: Option<u32>)
    ensures
        valid_drop32(n@ as nat, r),
{
    let ghost nn = n@ as nat;
    let n0 = n.get();
    let mut m: NonZero = n;
    let mut steps: u32 = 0;
    while m.get() >= n0
        invariant
            nn == n@ as nat,
            n0 == n@,
            1 <= n0,
            m@ as nat == iterate(nn, steps as nat),
            forall|j: nat| j < steps as nat ==> iterate(nn, j) >= nn,
            forall|j: nat| j <= steps as nat ==> iterate(nn, j) <= u64::MAX as nat,
        decreases u32::MAX - steps,
    {
        let ghost s = steps as nat;
        let ghost c = m@ as nat;
        m = match crate::rules::basic(m) {
            Some(x) => x,
            None => {
                proof {
                    assert forall|k: nat| !(#[trigger] drop_counts(nn, k, u32::MAX as nat)) by {
                        if k <= s {
                            assert(iterate(nn, k) >= nn);
                        } else {
                            lemma_iterate_add(nn, s, 1);
                            assert(iterate(c, 1) == iterate(next_value(c), 0));
                            assert(iterate(nn, s + 1) == next_value(c));
                            assert(iterate(nn, s + 1) > u64::MAX as nat);
                        }
                    }
                }
                return None;
            },
        };
        steps = match steps.checked_add(1) {
            Some(t) => t,
            None => {
                proof {
                    assert forall|k: nat| !(#[trigger] drop_counts(nn, k, u32::MAX as nat)) by {
                        if k < s {
                            assert(iterate(nn, k) >= nn);
                        }
                    }
                }
                return None;
            },
        };
        proof {
            lemma_iterate_add(nn, s, 1);
            assert(iterate(c, 1) == iterate(next_value(c), 0));
            assert(iterate(nn, s + 1) == next_value(c));
        }
    }
    proof {
        assert(drop_counts(nn, steps as nat, u32::MAX as nat));
    }
    Some(steps)
}

/// The batched decrease scan core for an odd start: each round applies the
/// odd rule and strips the trailing zeros, counting `z + 1` steps, then
/// compares the running value against the start.
pub(crate) fn decrease_engine(n0: u64) -> (r: Option<u64>)
    requires
        n0 % 2 == 1,
    ensures
        valid_odd_decrease64(n0 as nat, r),
{
    let ghost nn = n0 as nat;
    let mut cur: u64 = n0;
    let mut steps: u64 = 0;
    while steps == 0 || cur > n0
        invariant
            nn == n0 as nat,
            cur % 2 == 1,
            cur as nat == iterate(nn, steps as nat),
            steps == 0 ==> cur == n0,
            forall|j: nat|
                1 <= j < steps as nat && (#[trigger] iterate(nn, j)) % 2 == 1 ==> iterate(nn, j)
                    > nn,
            forall|j: nat| j <= steps as nat ==> iterate(nn, j) <= u64::MAX as nat,
        decreases u64::MAX - steps,
    {
        let ghost s = steps as nat;
        let ghost c = cur as nat;
        let e = {
            let tripled = match cur.checked_mul(3) {
                Some(t) => t,
                None => {
                    proof {
                        decrease_overflow_refutes(nn, s, c);
                    }
                    return None;
                },
            };
            match tripled.checked_add(1) {
                Some(e) => e,
                None => {
                    proof {
                        decrease_overflow_refutes(nn, s, c);
                    }
                    return None;
                },
            }
        };
        proof {
            crate::steps::lemma_batch(nn, s, c);
        }
        let z = e.trailing_zeros();
        proof {
            crate::model::lemma_u64_strip(e);
        }
        let zp1 = (z as u64) + 1;
        let total = match steps.checked_add(zp1) {
            Some(t) => t,
            None => {
                proof {
                    let ghost ez = tz_count(e as nat);
                    assert forall|k: nat|
                        !(#[trigger] odd_decrease_counts(nn, k, u64::MAX as nat)) by {
                        if 1 <= k <= s {
                            if iterate(nn, k) % 2 == 1 {
                                assert(iterate(nn, k) > nn);
                            }
                        } else if k > s && k <= u64::MAX as nat {
                            assert(k < s + ez + 1);
                            assert(iterate(nn, k) % 2 == 0);
                        }
                    }
                }
                return None;
            },
        };
        proof {
            let ghost ez = tz_count(e as nat);
            assert forall|j: nat|
                1 <= j < total as nat && (#[trigger] iterate(nn, j)) % 2 == 1 implies iterate(
                nn,
                j,
            ) > nn by {
                if j > s {
                    assert(j < s + ez + 1 ==> iterate(nn, j) % 2 == 0);
                }
            }
            assert forall|j: nat| j <= total as nat implies iterate(nn, j) <= u64::MAX as nat by {
                if j > s && j < total as nat {
                    assert(iterate(nn, j) <= e as nat);
                }
                if j == total as nat {
                    assert(iterate(nn, j) == odd_part(e as nat));
                }
            }
        }
        cur = e >> (z as u64);
        steps = total;
    }
    proof {
        assert(odd_decrease_counts(nn, steps as nat, u64::MAX as nat));
    }
    Some(steps)
}

/// Refutation for the overflow exit of the decrease scan: the running odd
/// value still sits at or above the start, and its odd-rule image leaves
/// 64-bit range, so no batched stop index exists at all.
proof fn decrease_overflow_refutes(nn: nat, s: nat, c: nat)
    requires
        c % 2 == 1,
        iterate(nn, s) == c,
        s == 0 ==> c == nn,
        s >= 1 ==> c > nn,
        3 * c + 1 > u64::MAX as nat,
        forall|j: nat| 1 <= j < s && (#[trigger] iterate(nn, j)) % 2 == 1 ==> iterate(nn, j) > nn,
    ensures
        !(exists|k: nat| odd_decrease_counts(nn, k, u64::MAX as nat)),
{
    assert forall|k: nat| !(#[trigger] odd_decrease_counts(nn, k, u64::MAX as nat)) by {
        if 1 <= k && k <= s {
            if iterate(nn, k) % 2 == 1 {
                assert(iterate(nn, k) > nn);
            }
        } else if k > s {
            lemma_iterate_add(nn, s, 1);
            assert(iterate(c, 1) == iterate(next_value(c), 0));
            assert(iterate(nn, s + 1) == next_value(c));
            assert(iterate(nn, s + 1) > u64::MAX as nat);
        }
    }
}

} // verus!
