//! A non-zero unsigned 64-bit value: the entry precondition of every rule
//! application, since 0 has no Collatz trajectory.

use vstd::prelude::*;

verus! {

use crate::model::{lemma_strip, lemma_u64_strip, odd_part, tz_count};

/// An unsigned 64-bit integer that is never zero.
#[derive(Clone, Copy, Debug, PartialEq, Eq, Structural)]
pub struct NonZero {
    v: u64,
}

impl View for NonZero {
    type V = u64;

    closed spec fn view(&self) -> u64 {
        self.v
    }
}

impl NonZero {
    #[verifier::type_invariant]
    spec fn inv(self) -> bool {
        self.v != 0
    }

    /// Checked construction: zero is rejected, never wrapped.
    pub fn new(value: u64) -> (r: Option<NonZero>)
        ensures
            r is Some <==> value != 0,
            r matches Some(m) ==> m@ == value,
    {
        if value == 0 {
            None
        } else {
            Some(NonZero { v: value })
        }
    }

    /// Construction without a run-time check; callers prove the value
    /// non-zero instead.
    pub fn new_unchecked(value: u64) -> (r: NonZero)
        requires
            value != 0,
        ensures
            r@ == value,
    {
        NonZero { v: value }
    }

    /// The wrapped value, known to be non-zero.
    pub fn get(&self) -> (r: u64)
        ensures
            r == self@,
            r != 0,
    {
        proof {
            use_type_invariant(self);
        }
        self.v
    }

    pub fn is_odd(&self) -> (r: bool)
        ensures
            r == (self@ % 2 == 1),
    {
        self.v % 2 == 1
    }

    pub fn is_even(&self) -> (r: bool)
        ensures
            r == (self@ % 2 == 0),
    {
        self.v % 2 == 0
    }

    /// The count of trailing zero bits; at most 63 since the value is not 0.
    pub fn trailing_zeros(&self) -> (r: u32)
        ensures
            r as nat == tz_count(self@ as nat),
            r < 64,
    {
        proof {
            use_type_invariant(self);
            lemma_u64_strip(self.v);
        }
        self.v.trailing_zeros()
    }

    /// Shifts out every trailing zero bit at once, yielding the odd part.
    pub fn without_trailing_zeros(self) -> (r: NonZero)
        ensures
            r@ as nat == odd_part(self@ as nat),
            r@ % 2 == 1,
            r@ <= self@,
    {
        proof {
            use_type_invariant(&self);
            lemma_u64_strip(self.v);
            lemma_strip(self.v as nat);
        }
        let z = self.v.trailing_zeros();
        NonZero { v: self.v >> (z as u64) }
    }
}

} // verus!
