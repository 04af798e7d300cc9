//! Silver, the game's currency: amounts that add up and multiply, and that
//! stay at the largest amount once a sum or a product has passed it.

use std::ops::{Add, AddAssign, Mul};
use vstd::prelude::*;
use vstd::std_specs::ops::{AddSpecImpl, MulSpecImpl};

verus! {

/// A number held to what 64 bits can count: the number itself, or the
/// largest 64-bit number where it is beyond that.
pub open spec fn saturated(n: nat) -> u64 {
    if n > u64::MAX {
        u64::MAX
    } else {
        n as u64
    }
}

/// The product of two numbers, held to 64 bits.
pub fn product(a: u64, b: u64) -> (p: u64)
    ensures
        p == saturated(a as nat * b as nat),
{
    match a.checked_mul(b) {
        Some(p) => p,
        None => u64::MAX,
    }
}

/// An amount of silver.
#[derive(Copy, Clone, Debug)]
pub struct Silver(u64);

impl View for Silver {
    type V = nat;

    open spec fn view(&self) -> nat {
        self.spec_value() as nat
    }
}

impl Silver {
    /// The amount as a number.
    pub closed spec fn spec_value(&self) -> u64 {
        self.0
    }

    /// The amount of silver that a number stands for.
    pub closed spec fn of(v: u64) -> Silver {
        Silver(v)
    }

    /// `of` and `spec_value` undo each other.
    pub broadcast proof fn lemma_of_value(v: u64)
        ensures
            (#[trigger] Silver::of(v))@ == v,
    {
    }

    /// Two amounts with the same number are the same amount.
    pub proof fn lemma_value_eq(a: Silver, b: Silver)
        requires
            a@ == b@,
        ensures
            a == b,
    {
    }

    /// Wraps an amount.
    pub fn new(data: u64) -> (s: Self)
        ensures
            s == Silver::of(data),
            s@ == data,
    {
        Silver(data)
    }

    /// The wrapped amount.
    #[verifier::when_used_as_spec(spec_value)]
    pub fn value(&self) -> (v: u64)
        ensures
            v == self.spec_value(),
    {
        self.0
    }
}

impl Default for Silver {
    fn default() -> (s: Self)
        ensures
            s@ == 0,
    {
        Silver(0)
    }
}

impl AddSpecImpl for Silver {
    open spec fn obeys_add_spec() -> bool {
        true
    }

    open spec fn add_req(self, rhs: Silver) -> bool {
        true
    }

    open spec fn add_spec(self, rhs: Silver) -> Silver {
        Silver::of(saturated(self@ + rhs@))
    }
}

impl Add for Silver {
    type Output = Silver;

    /// The sum of two amounts, held to 64 bits.
    fn add(self, rhs: Silver) -> Silver {
        Silver(self.0.saturating_add(rhs.0))
    }
}

impl AddAssign for Silver {
    /// Adds an amount to this one; the sum is held to 64 bits.
    fn add_assign(&mut self, rhs: Silver)
        ensures
            *final(self) == Silver::of(saturated(old(self)@ + rhs@)),
    {
        self.0 = self.0.saturating_add(rhs.0);
    }
}

impl MulSpecImpl for Silver {
    open spec fn obeys_mul_spec() -> bool {
        true
    }

    open spec fn mul_req(self, rhs: Silver) -> bool {
        true
    }

    open spec fn mul_spec(self, rhs: Silver) -> Silver {
        Silver::of(saturated(self@ * rhs@))
    }
}

impl Mul for Silver {
    type Output = Silver;

    /// The product of two amounts, held to 64 bits.
    fn mul(self, rhs: Silver) -> Silver {
        Silver(product(self.0, rhs.0))
    }
}

impl MulSpecImpl<Silver> for u64 {
    open spec fn obeys_mul_spec() -> bool {
        true
    }

    open spec fn mul_req(self, rhs: Silver) -> bool {
        true
    }

    open spec fn mul_spec(self, rhs: Silver) -> Silver {
        Silver::of(saturated(self as nat * rhs@))
    }
}

impl Mul<Silver> for u64 {
    type Output = Silver;

    /// So many times an amount, held to 64 bits.
    fn mul(self, rhs: Silver) -> Silver {
        Silver(product(self, rhs.0))
    }
}

} // verus!
