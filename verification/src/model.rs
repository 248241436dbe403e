//! The mathematical model of the Collatz rule: one step, iterated steps,
//! first arrival at 1, trailing-zero batching, and the lemmas relating them.

use vstd::prelude::*;

verus! {

use vstd::arithmetic::power2::pow2;
use vstd::std_specs::bits::{axiom_u64_trailing_zeros, u64_trailing_zeros};

/// One application of the rule: an even number is halved, an odd number is
/// sent to `3n + 1`.
pub open spec fn next_value(n: nat) -> nat {
    if n % 2 == 0 {
        n / 2
    } else {
        3 * n + 1
    }
}

/// The value reached after `k` rule applications starting from `n`.
pub open spec fn iterate(n: nat, k: nat) -> nat
    decreases k,
{
    if k == 0 {
        n
    } else {
        iterate(next_value(n), (k - 1) as nat)
    }
}

/// `n` reaches 1 for the first time after exactly `k` rule applications.
pub open spec fn reaches_one_in(n: nat, k: nat) -> bool {
    iterate(n, k) == 1 && forall|j: nat| j < k ==> iterate(n, j) != 1
}

/// Every value within the first `k` steps from `n` stays at or below `bound`.
pub open spec fn bounded_by(n: nat, k: nat, bound: nat) -> bool {
    forall|j: nat| j <= k ==> iterate(n, j) <= bound
}

/// `k` is a step count that a counter capped at `cap` can report for `n`:
/// the trajectory reaches 1 first at step `k`, stays within 64-bit range,
/// and the count itself fits below the cap.
pub open spec fn counts_steps(n: nat, k: nat, cap: nat) -> bool {
    k <= cap && reaches_one_in(n, k) && bounded_by(n, k, u64::MAX as nat)
}

/// Some step count at most `cap` is reportable for `n`.
pub open spec fn converges(n: nat, cap: nat) -> bool {
    exists|k: nat| counts_steps(n, k, cap)
}

/// The number of rule applications `n` needs to reach 1. Meaningful whenever
/// some `reaches_one_in(n, k)` holds; then pinned to `k` by `lemma_step_count`.
pub open spec fn step_count(n: nat) -> nat {
    choose|k: nat| reaches_one_in(n, k)
}

/// What a counter returning `Option<u32>` must report for `n`.
pub open spec fn valid_count32(n: nat, r: Option<u32>) -> bool {
    match r {
        Some(k) => counts_steps(n, k as nat, u32::MAX as nat),
        None => !converges(n, u32::MAX as nat),
    }
}

/// What a counter returning `Option<u64>` must report for `n`.
pub open spec fn valid_count64(n: nat, r: Option<u64>) -> bool {
    match r {
        Some(k) => counts_steps(n, k as nat, u64::MAX as nat),
        None => !converges(n, u64::MAX as nat),
    }
}

/// After exactly `k` steps the trajectory of `n` first drops below `n`.
pub open spec fn drops_in(n: nat, k: nat) -> bool {
    iterate(n, k) < n && forall|j: nat| j < k ==> iterate(n, j) >= n
}

/// `k` is a drop count that a counter capped at `cap` can report for `n`.
pub open spec fn drop_counts(n: nat, k: nat, cap: nat) -> bool {
    k <= cap && drops_in(n, k) && bounded_by(n, k, u64::MAX as nat)
}

/// What a decrease counter returning `Option<u32>` must report for `n`.
pub open spec fn valid_drop32(n: nat, r: Option<u32>) -> bool {
    match r {
        Some(k) => drop_counts(n, k as nat, u32::MAX as nat),
        None => !(exists|k: nat| drop_counts(n, k, u32::MAX as nat)),
    }
}

/// At step `k` the trajectory of `n` sits below `n` or at 1.
pub open spec fn fallen(n: nat, k: nat) -> bool {
    iterate(n, k) < n || iterate(n, k) == 1
}

/// Within `cap` steps and 64-bit range, the trajectory of `n` reaches a
/// value below `n` or the value 1.
pub open spec fn falls(n: nat, cap: nat) -> bool {
    exists|k: nat| k <= cap && fallen(n, k) && bounded_by(n, k, u64::MAX as nat)
}

/// After exactly `k` steps the batched decrease scan from an odd `n` stops:
/// the value at `k` is odd and no greater than `n`, while every odd value
/// met strictly between start and stop stayed above `n`.
pub open spec fn odd_decrease_in(n: nat, k: nat) -> bool {
    1 <= k && iterate(n, k) % 2 == 1 && iterate(n, k) <= n && forall|j: nat|
        1 <= j < k && (#[trigger] iterate(n, j)) % 2 == 1 ==> iterate(n, j) > n
}

/// `k` is a batched decrease count that a counter capped at `cap` can
/// report for `n`.
pub open spec fn odd_decrease_counts(n: nat, k: nat, cap: nat) -> bool {
    k <= cap && odd_decrease_in(n, k) && bounded_by(n, k, u64::MAX as nat)
}

/// What the batched decrease counter returning `Option<u64>` must report.
pub open spec fn valid_odd_decrease64(n: nat, r: Option<u64>) -> bool {
    match r {
        Some(k) => odd_decrease_counts(n, k as nat, u64::MAX as nat),
        None => !(exists|k: nat| odd_decrease_counts(n, k, u64::MAX as nat)),
    }
}

/// The odd part of `n`: what remains after dividing out every factor of two.
pub open spec fn odd_part(n: nat) -> nat
    decreases n,
{
    if n == 0 {
        0
    } else if n % 2 == 0 {
        odd_part(n / 2)
    } else {
        n
    }
}

/// How many factors of two `n` carries: its count of trailing zero bits.
pub open spec fn tz_count(n: nat) -> nat
    decreases n,
{
    if n == 0 {
        0
    } else if n % 2 == 0 {
        1 + tz_count(n / 2)
    } else {
        0
    }
}

/// A trajectory hits 1 at one index only: first arrival is unique.
pub proof fn lemma_step_count_unique(n: nat, k1: nat, k2: nat)
    requires
        reaches_one_in(n, k1),
        reaches_one_in(n, k2),
    ensures
        k1 == k2,
{
    if k1 < k2 {
        assert(iterate(n, k1) != 1);
    }
    if k2 < k1 {
        assert(iterate(n, k2) != 1);
    }
}

/// `step_count` names the index of first arrival at 1.
pub proof fn lemma_step_count(n: nat, k: nat)
    requires
        reaches_one_in(n, k),
    ensures
        step_count(n) == k,
{
    let kk = choose|j: nat| reaches_one_in(n, j);
    assert(reaches_one_in(n, kk));
    lemma_step_count_unique(n, kk, k);
}

/// Trajectory termination: a trajectory of `len` values ending at the
/// first 1 pairs with a reported step count `k` as `len == k + 1`; with
/// the contracts of the trajectory walker and the step counters, the
/// trajectory always ends at 1 and has one more entry than the count.
pub proof fn lemma_trajectory_length(n: nat, len: nat, k: nat)
    requires
        len >= 1,
        reaches_one_in(n, (len - 1) as nat),
        reaches_one_in(n, k),
    ensures
        len == k + 1,
{
    lemma_step_count_unique(n, (len - 1) as nat, k);
}

/// Splitting an iteration: `a + b` steps from `n` land where `b` steps from
/// the `a`-step point land.
pub proof fn lemma_iterate_add(n: nat, a: nat, b: nat)
    ensures
        iterate(n, a + b) == iterate(iterate(n, a), b),
    decreases a,
{
    if a > 0 {
        lemma_iterate_add(next_value(n), (a - 1) as nat, b);
    }
}

/// Halving an even number `tz_count` times in a row reaches its odd part;
/// every value on the way is even, at least 2, and at most the start.
pub proof fn lemma_strip(e: nat)
    requires
        e >= 1,
    ensures
        iterate(e, tz_count(e)) == odd_part(e),
        odd_part(e) % 2 == 1,
        1 <= odd_part(e) <= e,
        forall|j: nat|
            j < tz_count(e) ==> (#[trigger] iterate(e, j)) % 2 == 0 && 2 <= iterate(e, j) <= e
                && odd_part(e) <= iterate(e, j),
    decreases e,
{
    if e % 2 == 0 {
        let h = e / 2;
        lemma_strip(h);
        assert(next_value(e) == h);
        assert(iterate(e, tz_count(e)) == iterate(h, tz_count(h)));
        assert forall|j: nat|
            j < tz_count(e) implies (#[trigger] iterate(e, j)) % 2 == 0 && 2 <= iterate(e, j)
            <= e && odd_part(e) <= iterate(e, j) by {
            if j == 0 {
                assert(iterate(e, j) == e);
            } else {
                assert(iterate(e, j) == iterate(h, (j - 1) as nat));
            }
        }
    }
}

/// Shifting a prefix: when the first `z` steps from `n` avoid 1, first
/// arrival after `z + k` steps is first arrival in `k` steps from the
/// `z`-step point.
pub proof fn lemma_shift(n: nat, z: nat, k: nat)
    requires
        forall|j: nat| j < z ==> iterate(n, j) != 1,
    ensures
        reaches_one_in(n, z + k) <==> reaches_one_in(iterate(n, z), k),
{
    let p = iterate(n, z);
    assert forall|j: nat| true implies iterate(n, z + j) == #[trigger] iterate(p, j) by {
        lemma_iterate_add(n, z, j);
    }
    if reaches_one_in(n, z + k) {
        assert(iterate(p, k) == 1);
        assert forall|j: nat| j < k implies #[trigger] iterate(p, j) != 1 by {
            assert(iterate(n, z + j) != 1);
        }
    }
    if reaches_one_in(p, k) {
        assert(iterate(n, z + k) == 1);
        assert forall|j: nat| j < z + k implies #[trigger] iterate(n, j) != 1 by {
            if j >= z {
                assert(iterate(p, (j - z) as nat) != 1);
                assert(z + ((j - z) as nat) == j);
            }
        }
    }
}

/// Shifting a prefix, for the bound: when the first `z` steps stay within
/// `bound`, the whole of `z + k` steps does iff the remaining `k` steps do.
pub proof fn lemma_bounded_shift(n: nat, z: nat, k: nat, bound: nat)
    requires
        forall|j: nat| j <= z ==> iterate(n, j) <= bound,
    ensures
        bounded_by(n, z + k, bound) <==> bounded_by(iterate(n, z), k, bound),
{
    let p = iterate(n, z);
    assert forall|j: nat| true implies iterate(n, z + j) == #[trigger] iterate(p, j) by {
        lemma_iterate_add(n, z, j);
    }
    if bounded_by(n, z + k, bound) {
        assert forall|j: nat| j <= k implies #[trigger] iterate(p, j) <= bound by {
            assert(iterate(n, z + j) <= bound);
        }
    }
    if bounded_by(p, k, bound) {
        assert forall|j: nat| j <= z + k implies #[trigger] iterate(n, j) <= bound by {
            if j > z {
                assert(iterate(p, (j - z) as nat) <= bound);
                assert(z + ((j - z) as nat) == j);
            }
        }
    }
}

/// An odd number times a power of two has that power's exponent as its
/// trailing-zero count and the odd number as its odd part.
pub proof fn lemma_pow2_decompose(m: nat, z: nat)
    requires
        m % 2 == 1,
    ensures
        tz_count(m * pow2(z)) == z,
        odd_part(m * pow2(z)) == m,
    decreases z,
{
    vstd::arithmetic::power2::lemma_pow2_pos(z);
    if z == 0 {
        assert(pow2(0) == 1) by {
            vstd::arithmetic::power2::lemma2_to64();
        }
        assert(m * 1 == m);
    } else {
        vstd::arithmetic::power2::lemma_pow2_unfold(z);
        let n = m * pow2(z);
        let h = m * pow2((z - 1) as nat);
        assert(n == h * 2) by {
            vstd::arithmetic::mul::lemma_mul_is_associative(
                m as int,
                pow2((z - 1) as nat) as int,
                2,
            );
        }
        assert(n % 2 == 0 && n / 2 == h) by {
            vstd::arithmetic::div_mod::lemma_div_multiples_vanish(h as int, 2);
            vstd::arithmetic::div_mod::lemma_mod_multiples_basic(h as int, 2);
        }
        lemma_pow2_decompose(m, (z - 1) as nat);
    }
}

/// The machine trailing-zero count of a non-zero `u64` agrees with
/// `tz_count`, and shifting it out yields the odd part.
pub proof fn lemma_u64_strip(n: u64)
    requires
        n != 0,
    ensures
        u64_trailing_zeros(n) < 64,
        u64_trailing_zeros(n) as nat == tz_count(n as nat),
        (n >> (u64_trailing_zeros(n) as u64)) as nat == odd_part(n as nat),
{
    axiom_u64_trailing_zeros(n);
    let z = u64_trailing_zeros(n) as u64;
    let s = n >> z;
    assert(s % 2 == 1) by (bit_vector)
        requires
            s & 1u64 == 1u64,
    ;
    assert((n >> z) << z == n) by (bit_vector)
        requires
            z < 64,
            n << ((64u64 - z) as u64) == 0,
    ;
    vstd::bits::lemma_u64_shr_is_div(n, z);
    assert(s as nat == n as nat / pow2(z as nat));
    vstd::arithmetic::power2::lemma_pow2_pos(z as nat);
    assert(s as nat * pow2(z as nat) <= n as nat) by {
        vstd::arithmetic::div_mod::lemma_fundamental_div_mod(n as int, pow2(z as nat) as int);
        vstd::arithmetic::div_mod::lemma_mod_bound(n as int, pow2(z as nat) as int);
        vstd::arithmetic::mul::lemma_mul_is_commutative(pow2(z as nat) as int, s as int);
    }
    vstd::bits::lemma_u64_shl_is_mul(s, z);
    assert(s as nat * pow2(z as nat) == n as nat);
    lemma_pow2_decompose(s as nat, z as nat);
}

} // verus!
