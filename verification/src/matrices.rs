use vstd::prelude::*;
use std::ops::{Add, Mul};
use vstd::std_specs::ops::{AddSpec, MulSpec};
use crate::matrix::{can_multiply, product_of, Matrix};

verus! {

/// Matrices of one size whose elements are borrowed.
pub struct Matrices<'a, 'b, T, const M: usize, const N: usize>(pub Vec<&'a Matrix<&'b T, M, N>>);

impl<'a, 'b, T, const M: usize, const N: usize> std::ops::Deref for Matrices<'a, 'b, T, M, N> {
    type Target = Vec<&'a Matrix<&'b T, M, N>>;

    /// The matrices as a vector.
    fn deref(&self) -> (r: &Self::Target)
        ensures
            r@ == self.0@,
    {
        &self.0
    }
}

/// The elements of all matrices of `matrices`, one matrix after the other and each
/// of them row by row.
pub open spec fn values_of<T, const M: usize, const N: usize>(
    matrices: Seq<&Matrix<&T, M, N>>,
) -> Seq<T>
    decreases matrices.len(),
{
    if matrices.len() == 0 {
        Seq::empty()
    } else {
        values_of(matrices.drop_last()) + matrices.last().elements().map_values(|elem: &T| *elem)
    }
}

/// The sum of `zero` and the elements of `values`, taken one after the other.
pub open spec fn total<T: Add<Output = T>>(zero: T, values: Seq<T>) -> T
    decreases values.len(),
{
    if values.len() == 0 {
        zero
    } else {
        total(zero, values.drop_last()).add_spec(values.last())
    }
}

/// Whether the sums of [`total`] can all be taken.
pub open spec fn can_total<T: Add<Output = T>>(zero: T, values: Seq<T>) -> bool {
    forall|i: int| 0 <= i < values.len() ==> #[trigger] total(zero, values.take(i)).add_req(values[i])
}

impl<'a, 'b, T, const M: usize, const N: usize> Matrices<'a, 'b, T, M, N> {
    /// The elements of all matrices, one matrix after the other.
    pub open spec fn values(&self) -> Seq<T> {
        values_of(self.0@)
    }

    /// The matrices of `vec`, in its order.
    pub fn new(vec: Vec<&'a Matrix<&'b T, M, N>>) -> (r: Matrices<'a, 'b, T, M, N>)
        ensures
            r.0@ == vec@,
    {
        Matrices(vec)
    }

    /// The matrix at place `index`.
    pub fn my_index(&self, index: usize) -> (r: &'a Matrix<&'b T, M, N>)
        requires
            index < self.0@.len(),
        ensures
            r == self.0@[index as int],
    {
        self.0[index]
    }

    /// The number of matrices.
    pub fn len(&self) -> (r: usize)
        ensures
            r == self.0@.len(),
    {
        self.0.len()
    }

    /// Whether there is no matrix at all.
    pub fn is_empty(&self) -> (r: bool)
        ensures
            r == (self.0@.len() == 0),
    {
        self.0.len() == 0
    }

    /// The sum of the elements of all matrices, taken from the default value on.
    pub fn sum_el(self) -> (r: T) where T: Copy + Default + Add<Output = T>
        requires
            T::obeys_add_spec(),
            forall|zero: T| call_ensures(T::default, (), zero) ==> #[trigger] can_total(zero, self.values()),
        ensures
            exists|zero: T|
                #![trigger call_ensures(T::default, (), zero)]
                call_ensures(T::default, (), zero) && r == total(zero, self.values()),
    {
        let zero: T = T::default();
        let mut ret: T = zero;
        let ghost all = self.values();
        let mut k: usize = 0;
        assert(values_of(self.0@.take(0)) =~= Seq::<T>::empty());
        while k < self.0.len()
            invariant
                0 <= k <= self.0@.len(),
                all == values_of(self.0@),
                T::obeys_add_spec(),
                can_total(zero, all),
                values_of(self.0@.take(k as int)).len() <= all.len(),
                values_of(self.0@.take(k as int)) == all.take(values_of(self.0@.take(k as int)).len() as int),
                ret == total(zero, values_of(self.0@.take(k as int))),
            decreases self.0@.len() - k,
        {
            let matrix: &Matrix<&T, M, N> = self.0[k];
            let elems: &[&T] = matrix.as_slice();
            let ghost before = values_of(self.0@.take(k as int));
            let ghost current = matrix.elements().map_values(|elem: &T| *elem);
            assert(self.0@.take(k + 1).drop_last() =~= self.0@.take(k as int));
            assert(values_of(self.0@.take(k + 1)) == before + current);
            proof {
                lemma_values_prefix(self.0@, k + 1);
            }
            let mut i: usize = 0;
            assert(before + current.take(0) =~= before);
            while i < elems.len()
                invariant
                    0 <= i <= elems@.len(),
                    elems@.len() == current.len(),
                    forall|j: int| 0 <= j < elems@.len() ==> *(#[trigger] elems@[j]) == current[j],
                    T::obeys_add_spec(),
                    can_total(zero, all),
                    before + current == all.take((before + current).len() as int),
                    (before + current).len() <= all.len(),
                    ret == total(zero, before + current.take(i as int)),
                decreases elems@.len() - i,
            {
                let ghost at = before.len() + i;
                assert(all.take(at) =~= before + current.take(i as int));
                assert((before + current)[at] == current[i as int]);
                assert(all.take((before + current).len() as int)[at] == all[at]);
                assert(all[at] == current[i as int]);
                assert((before + current.take(i + 1)).drop_last() =~= before + current.take(i as int));
                ret = ret + *elems[i];
                i += 1;
            }
            assert(current.take(current.len() as int) =~= current);
            k += 1;
        }
        assert(self.0@.take(self.0@.len() as int) =~= self.0@);
        ret
    }
}

impl<'a, 'b, T, const M: usize, const N: usize> Matrices<'a, 'b, T, M, N> {
    /// The product of the elements of all matrices, taken from the first element on.
    pub fn mul_el(self) -> (r: T) where T: Copy + Mul<Output = T>
        requires
            self.0@.len() > 0,
            M * N > 0,
            T::obeys_mul_spec(),
            can_multiply(self.values()),
        ensures
            r == product_of(self.values()),
    {
        let ghost all = self.values();
        let first: &[&T] = self.0[0].as_slice();
        let mut buf: T = *first[0];
        let mut non_first_time: bool = false;
        let mut k: usize = 0;
        assert(values_of(self.0@.take(0)) =~= Seq::<T>::empty());
        proof {
            assert(self.0@.take(1).drop_last() =~= self.0@.take(0));
            lemma_values_prefix(self.0@, 1);
            let head = self.0@[0].elements().map_values(|elem: &T| *elem);
            assert(values_of(self.0@.take(1)) =~= head);
            assert(all[0] == head[0]);
            assert(all.take(1).drop_last() =~= Seq::<T>::empty());
        }
        while k < self.0.len()
            invariant
                0 <= k <= self.0@.len(),
                all == values_of(self.0@),
                all.len() > 0,
                M * N > 0,
                T::obeys_mul_spec(),
                can_multiply(all),
                values_of(self.0@.take(k as int)).len() <= all.len(),
                values_of(self.0@.take(k as int)) == all.take(values_of(self.0@.take(k as int)).len() as int),
                non_first_time == (values_of(self.0@.take(k as int)).len() > 0),
                !non_first_time ==> buf == all[0],
                non_first_time ==> buf == product_of(values_of(self.0@.take(k as int))),
            decreases self.0@.len() - k,
        {
            let matrix: &Matrix<&T, M, N> = self.0[k];
            let elems: &[&T] = matrix.as_slice();
            let ghost before = values_of(self.0@.take(k as int));
            let ghost current = matrix.elements().map_values(|elem: &T| *elem);
            assert(self.0@.take(k + 1).drop_last() =~= self.0@.take(k as int));
            assert(values_of(self.0@.take(k + 1)) == before + current);
            proof {
                lemma_values_prefix(self.0@, k + 1);
            }
            let mut i: usize = 0;
            assert(before + current.take(0) =~= before);
            while i < elems.len()
                invariant
                    0 <= i <= elems@.len(),
                    elems@.len() == current.len(),
                    forall|j: int| 0 <= j < elems@.len() ==> *(#[trigger] elems@[j]) == current[j],
                    T::obeys_mul_spec(),
                    can_multiply(all),
                    all.len() > 0,
                    before + current == all.take((before + current).len() as int),
                    (before + current).len() <= all.len(),
                    non_first_time == ((before + current.take(i as int)).len() > 0),
                    !non_first_time ==> buf == all[0],
                    non_first_time ==> buf == product_of(before + current.take(i as int)),
                decreases elems@.len() - i,
            {
                let ghost at = before.len() + i;
                assert(all.take(at) =~= before + current.take(i as int));
                assert((before + current)[at] == current[i as int]);
                assert(all.take((before + current).len() as int)[at] == all[at]);
                assert(all[at] == current[i as int]);
                assert((before + current.take(i + 1)).drop_last() =~= before + current.take(i as int));
                if non_first_time {
                    buf = buf * *elems[i];
                } else {
                    non_first_time = true;
                }
                i += 1;
            }
            assert(current.take(current.len() as int) =~= current);
            k += 1;
        }
        assert(self.0@.take(self.0@.len() as int) =~= self.0@);
        buf
    }
}

/// The elements of the first matrices are the first elements of all of them.
pub proof fn lemma_values_prefix<T, const M: usize, const N: usize>(
    matrices: Seq<&Matrix<&T, M, N>>,
    k: int,
)
    requires
        0 <= k <= matrices.len(),
    ensures
        values_of(matrices.take(k)).len() <= values_of(matrices).len(),
        values_of(matrices.take(k)) == values_of(matrices).take(
            values_of(matrices.take(k)).len() as int,
        ),
    decreases matrices.len() - k,
{
    if k == matrices.len() {
        assert(matrices.take(k) =~= matrices);
        assert(values_of(matrices).take(values_of(matrices).len() as int) =~= values_of(matrices));
    } else {
        lemma_values_prefix(matrices, k + 1);
        assert(matrices.take(k + 1).drop_last() =~= matrices.take(k));
        let longer = values_of(matrices.take(k + 1));
        let shorter = values_of(matrices.take(k));
        assert(shorter =~= longer.take(shorter.len() as int));
        assert(shorter =~= values_of(matrices).take(shorter.len() as int));
    }
}

} // verus!
