//! Step counters: how many rule applications a value needs to reach 1,
//! from the naive one-step-at-a-time oracle to the trailing-zero-batched
//! counter.

use vstd::prelude::*;

verus! {

use crate::model::{
    converges,
    counts_steps,
    iterate,
    lemma_iterate_add,
    lemma_strip,
    lemma_u64_strip,
    next_value,
    odd_part,
    tz_count,
    valid_count32,
};
use crate::nonzero::NonZero;

/// One batched round from an odd value `c` sitting `s` steps into the
/// trajectory of `n0`: the odd rule sends `c` to `e = 3c + 1`, and the
/// following `tz_count(e)` halvings land on `odd_part(e)`. All values in
/// between are even, at least 2 and at most `e`.
pub(crate) proof fn lemma_batch(n0: nat, s: nat, c: nat)
    requires
        c % 2 == 1,
        iterate(n0, s) == c,
        3 * c + 1 <= u64::MAX as nat,
    ensures
        ({
            let e = 3 * c + 1;
            let z = tz_count(e);
            iterate(n0, s + z + 1) == odd_part(e) && odd_part(e) % 2 == 1 && 1 <= odd_part(e)
                <= e && forall|j: nat|
                s < j < s + z + 1 ==> (#[trigger] iterate(n0, j)) % 2 == 0 && 2 <= iterate(n0, j)
                    <= e
        }),
{
    let e = 3 * c + 1;
    let z = tz_count(e);
    assert(next_value(c) == e);
    lemma_strip(e);
    assert forall|j: nat| s < j <= s + z + 1 implies #[trigger] iterate(n0, j) == iterate(
        e,
        (j - s - 1) as nat,
    ) by {
        lemma_iterate_add(n0, s, (j - s) as nat);
        assert(iterate(c, (j - s) as nat) == iterate(e, (j - s - 1) as nat));
    }
    assert(iterate(n0, s + z + 1) == iterate(e, z));
}

/// The batched counter core: counts rule applications from an odd start to
/// 1, taking each `3n + 1` together with the `z` halvings it enables as
/// `z + 1` steps. Reports `None` as soon as a value would leave 64-bit
/// range or the count would pass `cap`.
pub(crate) fn count_odd_steps(n0: u64, cap: u64) -> (r: Option<u64>)
    requires
        n0 % 2 == 1,
    ensures
        match r {
            Some(k) => counts_steps(n0 as nat, k as nat, cap as nat),
            None => !converges(n0 as nat, cap as nat),
        },
{
    let mut cur: u64 = n0;
    let mut steps: u64 = 0;
    while cur != 1
        invariant
            cur % 2 == 1,
            steps <= cap,
            cur as nat == iterate(n0 as nat, steps as nat),
            forall|j: nat| j < steps as nat ==> iterate(n0 as nat, j) != 1,
            forall|j: nat| j <= steps as nat ==> iterate(n0 as nat, j) <= u64::MAX as nat,
        decreases cap - steps,
    {
        let ghost nn = n0 as nat;
        let ghost s = steps as nat;
        let ghost c = cur as nat;
        let e = {
            let tripled = match cur.checked_mul(3) {
                Some(t) => t,
                None => {
                    proof {
                        overflow_refutes(nn, s, c, cap as nat);
                    }
                    return None;
                },
            };
            match tripled.checked_add(1) {
                Some(e) => e,
                None => {
                    proof {
                        overflow_refutes(nn, s, c, cap as nat);
                    }
                    return None;
                },
            }
        };
        proof {
            lemma_batch(nn, s, c);
        }
        let z = e.trailing_zeros();
        proof {
            lemma_u64_strip(e);
        }
        let zp1 = (z as u64) + 1;
        let total = match steps.checked_add(zp1) {
            Some(t) if t <= cap => t,
            _ => {
                proof {
                    let ghost ez = tz_count(e as nat);
                    assert forall|k: nat| !(#[trigger] counts_steps(nn, k, cap as nat)) by {
                        if k <= s {
                            assert(iterate(nn, k) != 1);
                        } else if k <= cap as nat {
                            assert(k < s + ez + 1);
                            assert(iterate(nn, k) % 2 == 0 && iterate(nn, k) >= 2);
                        }
                    }
                }
                return None;
            },
        };
        proof {
            let ghost ez = tz_count(e as nat);
            assert forall|j: nat| j < total as nat implies iterate(nn, j) != 1 by {
                if j > s {
                    assert(iterate(nn, j) % 2 == 0 && iterate(nn, j) >= 2);
                }
            }
            assert forall|j: nat| j <= total as nat implies iterate(nn, j) <= u64::MAX as nat by {
                if j > s && j < total as nat {
                    assert(iterate(nn, j) <= e as nat);
                }
                if j == total as nat {
                    assert(iterate(nn, j) == odd_part(e as nat));
                }
            }
        }
        cur = e >> (z as u64);
        steps = total;
    }
    Some(steps)
}

/// Refutation for the overflow exit: with `3c + 1` past 64-bit range at
/// step `s` and no 1 seen so far, no capped count exists at all.
pub(crate) proof fn overflow_refutes(nn: nat, s: nat, c: nat, cap: nat)
    requires
        c % 2 == 1,
        c != 1,
        iterate(nn, s) == c,
        3 * c + 1 > u64::MAX as nat,
        forall|j: nat| j < s ==> iterate(nn, j) != 1,
    ensures
        !converges(nn, cap),
{
    assert forall|k: nat| !(#[trigger] counts_steps(nn, k, cap)) by {
        if k <= s {
            assert(iterate(nn, k) != 1);
        } else {
            lemma_iterate_add(nn, s, 1);
            assert(iterate(c, 1) == iterate(next_value(c), 0));
            assert(iterate(nn, s + 1) == next_value(c));
            assert(iterate(nn, s + 1) > u64::MAX as nat);
        }
    }
}

/// The naive oracle: applies the rule one step at a time, counting each
/// application. Slow but obviously aligned with the model; the faster
/// counters must agree with it exactly.
pub fn alpha(n: NonZero) -> (r: Option<u32>)
    ensures
        valid_count32(n@ as nat, r),
{
    let ghost nn = n@ as nat;
    let mut cur: u64 = n.get();
    let mut steps: u32 = 0;
    while cur != 1
        invariant
            nn == n@ as nat,
            cur >= 1,
            cur as nat == iterate(nn, steps as nat),
            forall|j: nat| j < steps as nat ==> iterate(nn, j) != 1,
            forall|j: nat| j <= steps as nat ==> iterate(nn, j) <= u64::MAX as nat,
        decreases u32::MAX - steps,
    {
        let ghost s = steps as nat;
        let ghost c = cur as nat;
        if cur % 2 == 1 {
            let tripled = match cur.checked_mul(3) {
                Some(t) => t,
                None => {
                    proof {
                        overflow_refutes(nn, s, c, u32::MAX as nat);
                    }
                    return None;
                },
            };
            cur = match tripled.checked_add(1) {
                Some(e) => e,
                None => {
                    proof {
                        overflow_refutes(nn, s, c, u32::MAX as nat);
                    }
                    return None;
                },
            };
            steps = match steps.checked_add(1) {
                Some(t) => t,
                None => {
                    proof {
                        counter_refutes(nn, s, c, u32::MAX as nat);
                    }
                    return None;
                },
            };
            proof {
                lemma_iterate_add(nn, s, 1);
                assert(iterate(c, 1) == iterate(next_value(c), 0));
                assert(iterate(nn, s + 1) == next_value(c));
            }
        }
        let ghost s2 = steps as nat;
        let ghost c2 = cur as nat;
        cur = cur / 2;
        steps = match steps.checked_add(1) {
            Some(t) => t,
            None => {
                proof {
                    assert(c2 != 1);
                    counter_refutes(nn, s2, c2, u32::MAX as nat);
                }
                return None;
            },
        };
        proof {
            lemma_iterate_add(nn, s2, 1);
            assert(iterate(c2, 1) == iterate(next_value(c2), 0));
            assert(iterate(nn, s2 + 1) == next_value(c2));
        }
    }
    Some(steps)
}

/// Refutation for the counter exit: `cap` steps are already behind us
/// without meeting 1, so no count at most `cap` exists.
pub(crate) proof fn counter_refutes(nn: nat, s: nat, c: nat, cap: nat)
    requires
        s >= cap,
        c != 1,
        iterate(nn, s) == c,
        forall|j: nat| j < s ==> iterate(nn, j) != 1,
    ensures
        !converges(nn, cap),
{
    assert forall|k: nat| !(#[trigger] counts_steps(nn, k, cap)) by {
        if k < s {
            assert(iterate(nn, k) != 1);
        }
    }
}

/// Counts steps to 1, dispatching on parity to the specialized counters.
pub fn omega(n: NonZero) -> (r: Option<u32>)
    ensures
        valid_count32(n@ as nat, r),
{
    if n.is_odd() {
        omega_n_is_odd(n)
    } else {
        omega_n_is_even(n)
    }
}

/// The even-entry counter core: strips the trailing zero bits first, one
/// counted step per halving, then hands the odd part to the batched core.
pub(crate) fn count_even_steps(n: NonZero, cap: u64) -> (r: Option<u64>)
    requires
        n@ % 2 == 0,
    ensures
        match r {
            Some(k) => counts_steps(n@ as nat, k as nat, cap as nat),
            None => !converges(n@ as nat, cap as nat),
        },
{
    let ghost nn = n@ as nat;
    let z = n.trailing_zeros();
    let p = n.without_trailing_zeros();
    let ghost zz = z as nat;
    let ghost pp = p@ as nat;
    proof {
        lemma_strip(nn);
        assert forall|j: nat| j <= zz implies iterate(nn, j) <= u64::MAX as nat by {
            if j < zz {
                assert(iterate(nn, j) % 2 == 0 && 2 <= iterate(nn, j) <= nn);
            }
        }
    }
    if (z as u64) > cap {
        proof {
            assert forall|k: nat| !(#[trigger] counts_steps(nn, k, cap as nat)) by {
                if k <= cap as nat {
                    assert(iterate(nn, k) % 2 == 0 && 2 <= iterate(nn, k));
                }
            }
        }
        return None;
    }
    let rest = count_odd_steps(p.get(), cap - (z as u64));
    match rest {
        Some(k) => {
            let total = (z as u64) + k;
            proof {
                crate::model::lemma_shift(nn, zz, k as nat);
                crate::model::lemma_bounded_shift(nn, zz, k as nat, u64::MAX as nat);
            }
            Some(total)
        },
        None => {
            proof {
                assert forall|k: nat| !(#[trigger] counts_steps(nn, k, cap as nat)) by {
                    if k < zz {
                        assert(iterate(nn, k) % 2 == 0 && 2 <= iterate(nn, k));
                    } else {
                        crate::model::lemma_shift(nn, zz, (k - zz) as nat);
                        crate::model::lemma_bounded_shift(nn, zz, (k - zz) as nat, u64::MAX as nat);
                        assert(!counts_steps(pp, (k - zz) as nat, (cap - z) as nat));
                    }
                }
            }
            None
        },
    }
}

/// Counts steps for an even start through the even-entry core.
pub fn omega_n_is_even(n: NonZero) -> (r: Option<u32>)
    requires
        n@ % 2 == 0,
    ensures
        valid_count32(n@ as nat, r),
{
    match count_even_steps(n, u32::MAX as u64) {
        Some(k) => Some(k as u32),
        None => None,
    }
}

/// Counts steps for an odd start through the batched counter core.
pub fn omega_n_is_odd(n: NonZero) -> (r: Option<u32>)
    requires
        n@ % 2 == 1,
    ensures
        valid_count32(n@ as nat, r),
{
    match count_odd_steps(n.get(), u32::MAX as u64) {
        Some(k) => Some(k as u32),
        None => None,
    }
}

/// Oracle equivalence: the step-count contract pins the result, so any two
/// counters meeting it — the naive `alpha` and the batched `omega` among
/// them — report identical results on every input.
pub proof fn lemma_oracle_equivalence(n: nat, r1: Option<u32>, r2: Option<u32>)
    requires
        valid_count32(n, r1),
        valid_count32(n, r2),
    ensures
        r1 == r2,
{
    match (r1, r2) {
        (Some(k1), Some(k2)) => {
            crate::model::lemma_step_count_unique(n, k1 as nat, k2 as nat);
        },
        (Some(k1), None) => {
            assert(counts_steps(n, k1 as nat, u32::MAX as nat));
        },
        (None, Some(k2)) => {
            assert(counts_steps(n, k2 as nat, u32::MAX as nat));
        },
        (None, None) => {},
    }
}

} // verus!
