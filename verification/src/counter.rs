use vstd::prelude::*;
use std::ops::Add;

verus! {

/// A number that can be added to, with another of its kind or with a plain number.
#[derive(Clone, Copy, Debug, PartialEq, Eq, Structural)]
pub struct Foo(pub u64);

impl vstd::std_specs::ops::AddSpecImpl for Foo {
    open spec fn obeys_add_spec() -> bool {
        true
    }

    open spec fn add_req(self, other: Self) -> bool {
        self.0 + other.0 <= u64::MAX
    }

    open spec fn add_spec(self, other: Self) -> Self {
        Foo((self.0 + other.0) as u64)
    }
}

impl Add for Foo {
    type Output = Self;

    fn add(self, other: Self) -> (r: Self) {
        Foo(self.0 + other.0)
    }
}

impl vstd::std_specs::ops::AddSpecImpl<u64> for Foo {
    open spec fn obeys_add_spec() -> bool {
        true
    }

    open spec fn add_req(self, rhs: u64) -> bool {
        self.0 + rhs <= u64::MAX
    }

    open spec fn add_spec(self, rhs: u64) -> Self::Output {
        Foo((self.0 + rhs) as u64)
    }
}

impl Add<u64> for Foo {
    type Output = Self;

    fn add(self, rhs: u64) -> (r: Self::Output) {
        Foo(self.0 + rhs)
    }
}

impl vstd::std_specs::ops::AddSpecImpl<Foo> for u64 {
    open spec fn obeys_add_spec() -> bool {
        true
    }

    open spec fn add_req(self, rhs: Foo) -> bool {
        self + rhs.0 <= u64::MAX
    }

    open spec fn add_spec(self, rhs: Foo) -> Self::Output {
        (self + rhs.0) as u64
    }
}

impl Add<Foo> for u64 {
    type Output = Self;

    fn add(self, rhs: Foo) -> (r: Self::Output) {
        self + rhs.0
    }
}

impl Foo {
    /// Adds `rhs` to the number in place.
    pub fn add_assign(&mut self, rhs: Self)
        requires
            old(self).0 + rhs.0 <= u64::MAX,
        ensures
            final(self).0 == old(self).0 + rhs.0,
    {
        self.0 += rhs.0
    }
}

} // verus!
