use vstd::prelude::*;
use std::ops::{Add, Mul};
use vstd::std_specs::ops::{AddSpec, MulSpec};
use crate::matrix::{can_add_each, can_dot, dot};

verus! {

/// A type of numbers: values that can be added and multiplied and have a default.
pub trait Num: Add<Output = Self> + Mul<Output = Self> + Default + Sized + Clone {

}

impl Num for u32 {

}

/// A vector of `N` numbers.
pub struct Vector<E: Num, const N: usize> {
    pub holder: [E; N],
}

impl<E: Num + Copy, const N: usize> Vector<E, N> {
    /// The vector of the numbers of `array`.
    pub fn from(array: [E; N]) -> (r: Vector<E, N>)
        ensures
            r.holder == array,
    {
        Vector { holder: array }
    }

    /// The vector of one number.
    pub fn new1(x: E) -> (r: Vector<E, 1>)
        ensures
            r.holder@ == seq![x],
    {
        let r = Vector::from([x]);
        assert(r.holder@ =~= seq![x]);
        r
    }

    /// The vector of two numbers.
    pub fn new2(x: E, y: E) -> (r: Vector<E, 2>)
        ensures
            r.holder@ == seq![x, y],
    {
        let r = Vector::from([x, y]);
        assert(r.holder@ =~= seq![x, y]);
        r
    }

    /// The vector of three numbers.
    pub fn new3(x: E, y: E, z: E) -> (r: Vector<E, 3>)
        ensures
            r.holder@ == seq![x, y, z],
    {
        let r = Vector::from([x, y, z]);
        assert(r.holder@ =~= seq![x, y, z]);
        r
    }

    /// The square of the length of the vector: the sum of the squares of its numbers,
    /// taken from the default value on.
    pub fn len(&self) -> (r: E)
        requires
            <E as AddSpec>::obeys_add_spec(),
            <E as MulSpec>::obeys_mul_spec(),
            forall|zero: E|
                call_ensures(E::default, (), zero) ==> #[trigger] can_dot(
                    zero,
                    self.holder@,
                    self.holder@,
                ),
        ensures
            exists|zero: E|
                #![trigger call_ensures(E::default, (), zero)]
                call_ensures(E::default, (), zero) && r == dot(zero, self.holder@, self.holder@),
    {
        let zero: E = E::default();
        let mut acc: E = zero;
        let ghost all = self.holder@;
        let mut i: usize = 0;
        assert(all.take(0) =~= Seq::<E>::empty());
        while i < N
            invariant
                0 <= i <= N,
                all == self.holder@,
                all.len() == N,
                <E as AddSpec>::obeys_add_spec(),
                <E as MulSpec>::obeys_mul_spec(),
                can_dot(zero, all, all),
                acc == dot(zero, all.take(i as int), all.take(i as int)),
            decreases N - i,
        {
            let x: E = self.holder[i];
            assert(all[i as int] == x);
            assert(all.take(i + 1).drop_last() =~= all.take(i as int));
            acc = acc + x * x;
            i += 1;
        }
        assert(all.take(N as int) =~= all);
        acc
    }

    /// The vector of the sums of the numbers of `self` and of `b` at the same place.
    /// The vector itself stays as it is.
    pub fn sum(&mut self, b: Vector<E, N>) -> (r: Vector<E, N>)
        requires
            <E as AddSpec>::obeys_add_spec(),
            can_add_each(old(self).holder@, b.holder@),
        ensures
            final(self).holder == old(self).holder,
            forall|i: int|
                0 <= i < N ==> #[trigger] r.holder@[i] == old(self).holder@[i].add_spec(
                    b.holder@[i],
                ),
    {
        let mut holder: [E; N] = [E::default();N];
        let mut i: usize = 0;
        while i < N
            invariant
                0 <= i <= N,
                self.holder == old(self).holder,
                <E as AddSpec>::obeys_add_spec(),
                can_add_each(self.holder@, b.holder@),
                forall|k: int|
                    0 <= k < i ==> #[trigger] holder@[k] == self.holder@[k].add_spec(b.holder@[k]),
            decreases N - i,
        {
            let e: E = self.holder[i];
            assert(self.holder@[i as int] == e);
            holder[i] = e + b.holder[i];
            i += 1;
        }
        Vector::from(holder)
    }

    /// The vector of the products of the numbers of `self` with `b`.
    pub fn scalar_mul(&self, b: E) -> (r: Vector<E, N>)
        requires
            <E as MulSpec>::obeys_mul_spec(),
            forall|i: int| 0 <= i < N ==> (#[trigger] self.holder@[i]).mul_req(b),
        ensures
            forall|i: int| 0 <= i < N ==> #[trigger] r.holder@[i] == self.holder@[i].mul_spec(b),
    {
        let mut holder: [E; N] = [E::default();N];
        let mut i: usize = 0;
        while i < N
            invariant
                0 <= i <= N,
                <E as MulSpec>::obeys_mul_spec(),
                forall|k: int| 0 <= k < N ==> (#[trigger] self.holder@[k]).mul_req(b),
                forall|k: int| 0 <= k < i ==> #[trigger] holder@[k] == self.holder@[k].mul_spec(b),
            decreases N - i,
        {
            let e: E = self.holder[i];
            assert(self.holder@[i as int] == e);
            holder[i] = e * b;
            i += 1;
        }
        Vector::from(holder)
    }
}

} // verus!
