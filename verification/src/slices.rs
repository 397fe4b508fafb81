use vstd::prelude::*;
use vstd::slice::slice_subrange;
use vstd::std_specs::cmp::PartialEqSpec;

verus! {

/// One of two things.
#[derive(Debug)]
pub enum Either<A, B> {
    Left(A),
    Right(B),
}

impl<A: PartialEq, B: PartialEq> PartialEq for Either<A, B> {
    /// Two values are equal where they are of the same side and what they hold is equal.
    fn eq(&self, other: &Self) -> (r: bool) {
        match self {
            Either::Left(a) => {
                if let Either::Left(a1) = other {
                    a == a1
                } else {
                    false
                }
            },
            Either::Right(b) => {
                if let Either::Right(b1) = other {
                    b == b1
                } else {
                    false
                }
            },
        }
    }
}

impl<A: PartialEq, B: PartialEq> vstd::std_specs::cmp::PartialEqSpecImpl for Either<A, B> {
    open spec fn obeys_eq_spec() -> bool {
        <A as PartialEqSpec>::obeys_eq_spec() && <B as PartialEqSpec>::obeys_eq_spec()
    }

    open spec fn eq_spec(&self, other: &Self) -> bool {
        match (self, other) {
            (Either::Left(a), Either::Left(a1)) => PartialEqSpec::eq_spec(a, a1),
            (Either::Right(b), Either::Right(b1)) => PartialEqSpec::eq_spec(b, b1),
            _ => false,
        }
    }
}

/// A mutable reference to the first part of the pair where `flag` is set, to the
/// second part where it is not.
pub fn get_elem<A, B>(pair: &mut (A, B), flag: bool) -> (r: Either<&mut A, &mut B>)
    ensures
        flag ==> r is Left && *r->Left_0 == old(pair).0 && *final(pair) == (
            *final(r->Left_0),
            old(pair).1,
        ),
        !flag ==> r is Right && *r->Right_0 == old(pair).1 && *final(pair) == (
            old(pair).0,
            *final(r->Right_0),
        ),
{
    if flag {
        Either::Left(&mut pair.0)
    } else {
        Either::Right(&mut pair.1)
    }
}

/// A mutable reference to the element at place `n`.
pub fn get_nth<T>(slice: &mut [T], n: usize) -> (r: &mut T)
    requires
        n < old(slice)@.len(),
    ensures
        *r == old(slice)@[n as int],
        final(slice)@ == old(slice)@.update(n as int, *final(r)),
{
    &mut slice[n]
}

/// A mutable reference to the element at place `n`, counted from the end.
pub fn get_nth_reverse<T>(slice: &mut [T], n: usize) -> (r: &mut T)
    requires
        n < old(slice)@.len(),
    ensures
        *r == old(slice)@[old(slice)@.len() - 1 - n],
        final(slice)@ == old(slice)@.update(old(slice)@.len() - 1 - n, *final(r)),
{
    let i: usize = slice.len() - 1 - n;
    &mut slice[i]
}

/// The first `n` elements and the others.
pub fn split_slice<T>(slice: &[T], n: usize) -> (r: (&[T], &[T]))
    requires
        n <= slice@.len(),
    ensures
        r.0@ == slice@.take(n as int),
        r.1@ == slice@.skip(n as int),
{
    let first: &[T] = slice_subrange(slice, 0, n);
    let second: &[T] = slice_subrange(slice, n, slice.len());
    assert(first@ =~= slice@.take(n as int));
    assert(second@ =~= slice@.skip(n as int));
    (first, second)
}

/// The size of the first three of the four parts that a slice of `len` elements is
/// cut into: a quarter of it, and one where it has fewer than four elements.
pub open spec fn part_size(len: nat) -> nat {
    if len / 4 > 0 {
        len / 4
    } else {
        1
    }
}

/// Where part `i` of the four parts of a slice of `len` elements begins.
pub open spec fn part_start(len: nat, i: nat) -> nat {
    if i * part_size(len) < len {
        i * part_size(len)
    } else {
        len
    }
}

/// Part `i` of the four parts of `elements`: the first three hold `part_size`
/// elements each, as far as there are any, and the fourth holds what is left.
pub open spec fn part<T>(elements: Seq<T>, i: nat) -> Seq<T> {
    if i < 3 {
        elements.subrange(part_start(elements.len(), i) as int, part_start(elements.len(), i + 1) as int)
    } else {
        elements.skip(part_start(elements.len(), 3) as int)
    }
}

/// The slice cut into four parts that are as equal as they can be.
pub fn get_slice_array<T>(slice: &[T]) -> (r: [&[T]; 4])
    ensures
        forall|i: nat| i < 4 ==> (#[trigger] r@[i as int])@ == part(slice@, i),
{
    let len: usize = slice.len();
    let part_size: usize = if len / 4 > 0 {
        len / 4
    } else {
        1
    };
    let b1: usize = if part_size < len {
        part_size
    } else {
        len
    };
    let b2: usize = if len - b1 > part_size {
        b1 + part_size
    } else {
        len
    };
    let b3: usize = if len - b2 > part_size {
        b2 + part_size
    } else {
        len
    };
    assert(b1 == part_start(len as nat, 1));
    assert(b2 == part_start(len as nat, 2)) by (nonlinear_arith)
        requires
            part_size == self::part_size(len as nat),
            b1 == part_start(len as nat, 1),
            b2 == if len - b1 > part_size {
                b1 + part_size
            } else {
                len as int
            },
    ;
    assert(b3 == part_start(len as nat, 3)) by (nonlinear_arith)
        requires
            part_size == self::part_size(len as nat),
            b2 == part_start(len as nat, 2),
            b1 == part_start(len as nat, 1),
            b3 == if len - b2 > part_size {
                b2 + part_size
            } else {
                len as int
            },
    ;
    let p0: &[T] = slice_subrange(slice, 0, b1);
    let p1: &[T] = slice_subrange(slice, b1, b2);
    let p2: &[T] = slice_subrange(slice, b2, b3);
    let p3: &[T] = slice_subrange(slice, b3, len);
    assert(p3@ =~= slice@.skip(b3 as int));
    let ret: [&[T]; 4] = [p0, p1, p2, p3];
    assert forall|i: nat| i < 4 implies (#[trigger] ret@[i as int])@ == part(slice@, i) by {
        assert(part_start(len as nat, 0) == 0);
        if i == 0 {
        } else if i == 1 {
        } else if i == 2 {
        } else {
        }
    }
    ret
}

} // verus!
