use vstd::prelude::*;

verus! {

/// A balance: a non-negative amount of money.
pub type Money = u32;

/// An amount of money that is strictly greater than zero.
#[derive(Clone, Copy, Debug, PartialEq, Eq, Structural)]
pub struct NonZeroMoney {
    amount: u32,
}

impl NonZeroMoney {
    /// Every value of the type holds a positive amount.
    #[verifier::type_invariant]
    spec fn positive(self) -> bool {
        self.amount > 0
    }

    /// The amount as a mathematical integer.
    pub closed spec fn value(self) -> nat {
        self.amount as nat
    }

    /// Builds an amount from `amount`, refusing zero.
    pub fn new(amount: u32) -> (r: Option<NonZeroMoney>)
        ensures
            amount == 0 <==> r.is_none(),
            r.is_some() ==> r.unwrap().value() == amount,
    {
        if amount == 0 {
            None
        } else {
            Some(NonZeroMoney { amount })
        }
    }

    /// The amount held, which is never zero.
    pub fn get(self) -> (r: u32)
        ensures
            r > 0,
            r == self.value(),
    {
        proof {
            use_type_invariant(self);
        }
        self.amount
    }
}

} // verus!
