//! The atomic rule transformations: `3n + 1` for odd values, halving for
//! even ones, and the batched variants built from them.

use vstd::prelude::*;

verus! {

use crate::model::{iterate, next_value, odd_part};
use crate::nonzero::NonZero;

/// Returns `3n + 1`; valid only for odd `n`. `None` exactly when `3n + 1`
/// does not fit in 64 bits.
pub fn odd_rule(n: NonZero) -> (r: Option<NonZero>)
    requires
        n@ % 2 == 1,
    ensures
        r is Some <==> 3 * (n@ as int) + 1 <= u64::MAX,
        r matches Some(m) ==> m@ as nat == next_value(n@ as nat),
{
    let v = n.get();
    let tripled = match v.checked_mul(3) {
        Some(t) => t,
        None => {
            return None;
        },
    };
    let s = match tripled.checked_add(1) {
        Some(s) => s,
        None => {
            return None;
        },
    };
    Some(NonZero::new_unchecked(s))
}

/// Returns `n / 2`; valid only for even `n`, where the division is exact.
pub fn even_rule(n: NonZero) -> (r: NonZero)
    requires
        n@ % 2 == 0,
    ensures
        r@ as nat == next_value(n@ as nat),
{
    let v = n.get();
    NonZero::new_unchecked(v / 2)
}

/// One application of the rule, dispatching on parity: the canonical
/// single-step transform.
pub fn basic(n: NonZero) -> (r: Option<NonZero>)
    ensures
        r is Some <==> next_value(n@ as nat) <= u64::MAX,
        r matches Some(m) ==> m@ as nat == next_value(n@ as nat),
{
    if n.is_odd() {
        odd_rule(n)
    } else {
        Some(even_rule(n))
    }
}

/// Like `basic`, but an odd value is also halved once more: `3n + 1` is
/// always even, so this packs two rule applications into one dispatch.
pub fn halve_odds(n: NonZero) -> (r: Option<NonZero>)
    ensures
        n@ % 2 == 1 ==> (r is Some <==> 3 * (n@ as int) + 1 <= u64::MAX),
        n@ % 2 == 1 ==> (r matches Some(m) ==> m@ as nat == iterate(n@ as nat, 2)),
        n@ % 2 == 0 ==> r is Some,
        n@ % 2 == 0 ==> (r matches Some(m) ==> m@ as nat == iterate(n@ as nat, 1)),
{
    if n.is_odd() {
        let m = match odd_rule(n) {
            Some(m) => m,
            None => {
                return None;
            },
        };
        proof {
            let x = n@ as nat;
            assert(iterate(x, 2) == iterate(next_value(x), 1));
            assert(iterate(next_value(x), 1) == iterate(next_value(next_value(x)), 0));
        }
        Some(even_rule(m))
    } else {
        proof {
            let x = n@ as nat;
            assert(iterate(x, 1) == iterate(next_value(x), 0));
        }
        Some(even_rule(n))
    }
}

/// One application of the rule, then every trailing factor of two stripped
/// in a single shift: the performance-critical primitive.
pub fn trailing_zeros(n: NonZero) -> (r: Option<NonZero>)
    ensures
        r is Some <==> next_value(n@ as nat) <= u64::MAX,
        r matches Some(m) ==> m@ as nat == odd_part(next_value(n@ as nat)),
{
    let m = match basic(n) {
        Some(m) => m,
        None => {
            return None;
        },
    };
    crate::divide_while_even(m)
}

/// Like `trailing_zeros` for a value known to be odd: `3n + 1`, then strip.
pub fn trailing_zeros_num_is_odd(n: NonZero) -> (r: Option<NonZero>)
    requires
        n@ % 2 == 1,
    ensures
        r is Some <==> 3 * (n@ as int) + 1 <= u64::MAX,
        r matches Some(m) ==> m@ as nat == odd_part(next_value(n@ as nat)),
{
    let m = match odd_rule(n) {
        Some(m) => m,
        None => {
            return None;
        },
    };
    crate::divide_while_even(m)
}

/// Like `trailing_zeros` for a value known to be even: only the strip is
/// needed, and it cannot fail.
pub fn trailing_zeros_num_is_even(n: NonZero) -> (r: Option<NonZero>)
    requires
        n@ % 2 == 0,
    ensures
        r is Some,
        r matches Some(m) ==> m@ as nat == odd_part(n@ as nat),
{
    crate::divide_while_even(n)
}

} // verus!
