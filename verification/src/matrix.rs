use vstd::prelude::*;
use std::ops::{Add, Mul};
use vstd::std_specs::ops::{AddSpec, MulSpec};

verus! {

/// Calls `f` with every pair of a row below `M` and a column below `N`, row by row.
pub fn for_each_m_n<F, const M: usize, const N: usize>(f: F) where F: Fn(usize, usize)
    requires
        forall|row: usize, col: usize| row < M && col < N ==> call_requires(f, (row, col)),
    ensures
        forall|row: usize, col: usize| row < M && col < N ==> call_ensures(f, (row, col), ()),
{
    let mut row: usize = 0;
    while row < M
        invariant
            0 <= row <= M,
            forall|r: usize, c: usize| r < M && c < N ==> call_requires(f, (r, c)),
            forall|r: usize, c: usize| r < row && c < N ==> call_ensures(f, (r, c), ()),
        decreases M - row,
    {
        let mut col: usize = 0;
        while col < N
            invariant
                0 <= col <= N,
                row < M,
                forall|r: usize, c: usize| r < M && c < N ==> call_requires(f, (r, c)),
                forall|r: usize, c: usize| r < row && c < N ==> call_ensures(f, (r, c), ()),
                forall|c: usize| c < col ==> call_ensures(f, (row, c), ()),
            decreases N - col,
        {
            f(row, col);
            col += 1;
        }
        row += 1;
    }
}

/// Whether the place is the first one of a matrix.
pub fn is_first_element(row: usize, col: usize) -> (r: bool)
    ensures
        r == (row == 0 && col == 0),
{
    row == 0 && col == 0
}

/// Whether the place is any but the first one of a matrix.
pub fn non_first_element(row: usize, col: usize) -> (r: bool)
    ensures
        r == !(row == 0 && col == 0),
{
    !is_first_element(row, col)
}

/// The sum of `elements`, taken one after the other from the first on.
pub open spec fn sum_of<T: Add<Output = T>>(elements: Seq<T>) -> T
    decreases elements.len(),
{
    if elements.len() <= 1 {
        elements[0]
    } else {
        sum_of(elements.drop_last()).add_spec(elements.last())
    }
}

/// Whether the sums of `elements` can be taken one after the other, from the first on.
pub open spec fn can_sum<T: Add<Output = T>>(elements: Seq<T>) -> bool {
    forall|i: int|
        1 <= i < elements.len() ==> #[trigger] sum_of(elements.take(i)).add_req(elements[i])
}

/// The product of `elements`, taken one after the other from the first on.
pub open spec fn product_of<T: Mul<Output = T>>(elements: Seq<T>) -> T
    decreases elements.len(),
{
    if elements.len() <= 1 {
        elements[0]
    } else {
        product_of(elements.drop_last()).mul_spec(elements.last())
    }
}

/// Whether the products of `elements` can be taken one after the other, from the
/// first on.
pub open spec fn can_multiply<T: Mul<Output = T>>(elements: Seq<T>) -> bool {
    forall|i: int|
        1 <= i < elements.len() ==> #[trigger] product_of(elements.take(i)).mul_req(elements[i])
}

/// Whether `acc` can come of folding `entries` step by step, `step` saying which
/// results a step can have: the first step is taken with nothing and the first
/// entry, every further step with what came of the entries before and the next
/// entry.
pub open spec fn folds_by<T>(
    step: spec_fn(Option<&T>, MatrixIterEntry<&T>, T) -> bool,
    entries: Seq<MatrixIterEntry<&T>>,
    acc: T,
) -> bool
    decreases entries.len(),
{
    if entries.len() <= 1 {
        step(None, entries[0], acc)
    } else {
        exists|before: T|
            folds_by(step, entries.drop_last(), before) && #[trigger] step(
                Some(&before),
                entries.last(),
                acc,
            )
    }
}

/// Whether `acc` can come of folding `entries` with `f`: of calling it with nothing
/// and the first entry, and then with what came of the entries before and the next
/// entry.
pub open spec fn folds_to<T, F>(f: F, entries: Seq<MatrixIterEntry<&T>>, acc: T) -> bool where
    F: Fn(Option<&T>, MatrixIterEntry<&T>) -> T,
 {
    folds_by(
        |before: Option<&T>, entry: MatrixIterEntry<&T>, out: T|
            call_ensures(f, (before, entry), out),
        entries,
        acc,
    )
}

/// An element of a matrix together with its place.
pub struct MatrixIterEntry<T> {
    pub row: usize,
    pub col: usize,
    pub elem: T,
}

/// A matrix of `M` rows and `N` columns. Its elements are kept row by row.
#[derive(Debug, PartialEq, Eq)]
pub struct Matrix<T, const M: usize, const N: usize> {
    cells: Vec<T>,
}

/// The place in a row-by-row list of the element in row `row` and column `col` of
/// a matrix with `n` columns.
pub open spec fn place(n: int, row: int, col: int) -> int {
    row * n + col
}

/// Every place of a matrix of `m` rows and `n` columns lies in its list, and
/// different places are different there.
pub proof fn lemma_place_in_range(m: int, n: int, row: int, col: int)
    requires
        0 <= row < m,
        0 <= col < n,
    ensures
        0 <= place(n, row, col) < m * n,
        place(n, row, col) / n == row,
        place(n, row, col) % n == col,
{
    assert(0 <= row * n + col < m * n && (row * n + col) / n == row && (row * n + col) % n
        == col) by (nonlinear_arith)
        requires
            0 <= row < m,
            0 <= col < n,
    ;
}

impl<T, const M: usize, const N: usize> Matrix<T, M, N> {
    /// There are as many elements as the matrix has places.
    #[verifier::type_invariant]
    spec fn sized(&self) -> bool {
        self.cells@.len() == M * N
    }

    /// The elements of the matrix row by row.
    pub closed spec fn elements(&self) -> Seq<T> {
        self.cells@
    }

    /// The element in row `row` and column `col`.
    pub open spec fn at(&self, row: int, col: int) -> T {
        self.elements()[place(N as int, row, col)]
    }

    /// The element in row `row` and column `col`.
    pub fn get(&self, row: usize, col: usize) -> (r: &T)
        requires
            row < M,
            col < N,
        ensures
            *r == self.at(row as int, col as int),
            self.elements().len() == M * N,
    {
        proof {
            use_type_invariant(self);
            lemma_place_in_range(M as int, N as int, row as int, col as int);
            assert(0 <= row * N <= row * N + col < self.cells@.len()) by (nonlinear_arith)
                requires
                    0 <= place(N as int, row as int, col as int) < self.cells@.len(),
                    0 <= col,
                    0 <= row,
                    0 <= N,
            ;
        }
        let len: usize = self.cells.len();
        assert(row * N + col < len);
        &self.cells[row * N + col]
    }

    /// The elements of the matrix row by row.
    pub fn as_slice(&self) -> (r: &[T])
        ensures
            r@ == self.elements(),
            r@.len() == M * N,
    {
        proof {
            use_type_invariant(self);
        }
        self.cells.as_slice()
    }

    /// The matrix whose elements, row by row, are copies of those of `array`.
    pub fn from_array<const L: usize>(array: &[T; L]) -> (r: Matrix<T, M, N>) where T: Clone
        requires
            L == M * N,
        ensures
            r.elements().len() == L,
            forall|i: int| 0 <= i < L ==> cloned(array[i], #[trigger] r.elements()[i]),
    {
        let mut cells: Vec<T> = Vec::new();
        let mut i: usize = 0;
        while i < L
            invariant
                0 <= i <= L,
                cells@.len() == i,
                forall|k: int| 0 <= k < i ==> cloned(array[k], #[trigger] cells@[k]),
            decreases L - i,
        {
            cells.push(array[i].clone());
            i += 1;
        }
        Matrix { cells }
    }

    /// The elements of the matrix with their places, row by row.
    pub fn into_iter(self) -> (r: Vec<MatrixIterEntry<T>>)
        ensures
            r@.len() == M * N,
            r@.len() == self.elements().len(),
            forall|i: int|
                0 <= i < r@.len() ==> (#[trigger] r@[i]).elem == self.elements()[i] && place(
                    N as int,
                    r@[i].row as int,
                    r@[i].col as int,
                ) == i && r@[i].row < M && r@[i].col < N,
    {
        proof {
            use_type_invariant(&self);
        }
        let ghost all = self.cells@;
        let mut turned: Vec<T> = turned(self.cells);
        let mut ret: Vec<MatrixIterEntry<T>> = Vec::new();
        let mut row: usize = 0;
        let mut col: usize = 0;
        assert(N == 0 ==> M * N == 0) by (nonlinear_arith);
        while turned.len() > 0
            invariant
                all.len() == M * N,
                ret@.len() + turned@.len() == all.len(),
                forall|i: int| 0 <= i < turned@.len() ==> turned@[i] == all[all.len() - 1 - i],
                ret@.len() == place(N as int, row as int, col as int),
                col < N || turned@.len() == 0,
                row <= M,
                forall|i: int|
                    0 <= i < ret@.len() ==> (#[trigger] ret@[i]).elem == all[i] && place(
                        N as int,
                        ret@[i].row as int,
                        ret@[i].col as int,
                    ) == i && ret@[i].row < M && ret@[i].col < N,
            decreases turned.len(),
        {
            assert(row < M) by (nonlinear_arith)
                requires
                    row * N + col < M * N,
                    col < N,
            ;
            let elem = turned.pop().unwrap();
            ret.push(MatrixIterEntry { row, col, elem });
            if col + 1 < N {
                col += 1;
            } else {
                assert((row + 1) * N + 0 == row * N + col + 1) by (nonlinear_arith)
                    requires
                        col + 1 == N,
                ;
                col = 0;
                row += 1;
            }
        }
        ret
    }

    /// The element at place `i` of the row-by-row list, borrowed, with its row and
    /// its column.
    pub open spec fn entry(&self, i: int) -> MatrixIterEntry<&T> {
        MatrixIterEntry {
            row: (i / (N as int)) as usize,
            col: (i % (N as int)) as usize,
            elem: &self.elements()[i],
        }
    }

    /// Calls `f` with every element and its place, row by row.
    pub fn for_each<F>(&self, f: F) where F: Fn(MatrixIterEntry<&T>)
        requires
            forall|i: int| 0 <= i < M * N ==> call_requires(f, (#[trigger] self.entry(i),)),
        ensures
            forall|i: int| 0 <= i < M * N ==> call_ensures(f, (#[trigger] self.entry(i),), ()),
    {
        proof {
            use_type_invariant(self);
        }
        let mut i: usize = 0;
        while i < self.cells.len()
            invariant
                0 <= i <= self.cells@.len(),
                self.cells@.len() == M * N,
                forall|k: int| 0 <= k < M * N ==> call_requires(f, (#[trigger] self.entry(k),)),
                forall|k: int| 0 <= k < i ==> call_ensures(f, (#[trigger] self.entry(k),), ()),
            decreases self.cells@.len() - i,
        {
            assert(N > 0) by (nonlinear_arith)
                requires
                    i < M * N,
            ;
            let entry = MatrixIterEntry { row: i / N, col: i % N, elem: &self.cells[i] };
            assert(entry == self.entry(i as int));
            f(entry);
            i += 1;
        }
    }

    /// The elements, borrowed, with their places, row by row.
    pub open spec fn entries(&self) -> Seq<MatrixIterEntry<&T>> {
        Seq::new(self.elements().len(), |i: int| self.entry(i))
    }

    /// Whether `acc` can come of folding the first `count` elements with `f`, row by
    /// row.
    pub open spec fn folded<F>(&self, f: F, count: int, acc: T) -> bool where
        F: Fn(Option<&T>, MatrixIterEntry<&T>) -> T,
     {
        folds_to(f, self.entries().take(count), acc)
    }

    /// What folding the first `count` elements means, one step at a time: one element
    /// is folded by the call with nothing and that element, and one more element by
    /// the call with what came of the elements before it.
    pub proof fn lemma_folded_unfolds<F>(&self, f: F, count: int, acc: T) where
        F: Fn(Option<&T>, MatrixIterEntry<&T>) -> T,

        requires
            1 <= count <= self.elements().len(),
        ensures
            count == 1 ==> self.folded(f, count, acc) == call_ensures(
                f,
                (None, self.entry(0)),
                acc,
            ),
            count > 1 ==> self.folded(f, count, acc) == (exists|before: T|
                self.folded(f, count - 1, before) && #[trigger] call_ensures(
                    f,
                    (Some(&before), self.entry(count - 1)),
                    acc,
                )),
    {
        let taken = self.entries().take(count);
        let step = |prev: Option<&T>, entry: MatrixIterEntry<&T>, out: T|
            call_ensures(f, (prev, entry), out);
        assert(taken.last() == self.entry(count - 1));
        assert(taken[0] == self.entry(0));
        if count > 1 {
            assert(taken.drop_last() =~= self.entries().take(count - 1));
            if self.folded(f, count, acc) {
                let before = choose|before: T|
                    folds_by(step, taken.drop_last(), before) && #[trigger] step(
                        Some(&before),
                        taken.last(),
                        acc,
                    );
                assert(self.folded(f, count - 1, before) && call_ensures(
                    f,
                    (Some(&before), self.entry(count - 1)),
                    acc,
                ));
            }
            if exists|before: T|
                self.folded(f, count - 1, before) && #[trigger] call_ensures(
                    f,
                    (Some(&before), self.entry(count - 1)),
                    acc,
                ) {
                let before = choose|before: T|
                    self.folded(f, count - 1, before) && #[trigger] call_ensures(
                        f,
                        (Some(&before), self.entry(count - 1)),
                        acc,
                    );
                assert(folds_by(step, taken.drop_last(), before));
                assert(step(Some(&before), taken.last(), acc));
            }
        }
    }

    /// One more call of `f` folds one more element.
    proof fn lemma_folded_step<F>(&self, f: F, count: int, before: T, acc: T) where
        F: Fn(Option<&T>, MatrixIterEntry<&T>) -> T,

        requires
            1 <= count < self.elements().len(),
            self.folded(f, count, before),
            call_ensures(f, (Some(&before), self.entry(count)), acc),
        ensures
            self.folded(f, count + 1, acc),
    {
        let longer = self.entries().take(count + 1);
        let step = |prev: Option<&T>, entry: MatrixIterEntry<&T>, out: T|
            call_ensures(f, (prev, entry), out);
        assert(longer.drop_last() =~= self.entries().take(count));
        assert(longer.last() == self.entry(count));
        assert(folds_by(step, longer.drop_last(), before));
        assert(step(Some(&before), longer.last(), acc));
    }

    /// Folds the elements with `f`, row by row: `f` is called with nothing and the
    /// first element, and then with what it returned last and the next element. `f`
    /// has to accept the first element, and each further element together with
    /// whatever can have come of folding the elements before it.
    pub fn fold<F>(&self, f: F) -> (r: T) where F: Fn(Option<&T>, MatrixIterEntry<&T>) -> T
        requires
            M * N > 0,
            call_requires(f, (None, self.entry(0))),
            forall|before: T, i: int|
                1 <= i < M * N && #[trigger] self.folded(f, i, before) ==> call_requires(
                    f,
                    (Some(&before), self.entry(i)),
                ),
        ensures
            folds_to(f, self.entries(), r),
    {
        proof {
            use_type_invariant(self);
        }
        assert(N > 0) by (nonlinear_arith)
            requires
                0 < M * N,
        ;
        let first = MatrixIterEntry { row: 0, col: 0, elem: &self.cells[0] };
        assert(first == self.entry(0));
        assert(self.entries().take(1)[0] == self.entry(0));
        let mut acc: T = f(None, first);
        let mut i: usize = 1;
        while i < self.cells.len()
            invariant
                1 <= i <= self.cells@.len(),
                self.cells@.len() == M * N,
                N > 0,
                forall|before: T, k: int|
                    1 <= k < M * N && #[trigger] self.folded(f, k, before) ==> call_requires(
                        f,
                        (Some(&before), self.entry(k)),
                    ),
                self.folded(f, i as int, acc),
            decreases self.cells@.len() - i,
        {
            let entry = MatrixIterEntry { row: i / N, col: i % N, elem: &self.cells[i] };
            assert(entry == self.entry(i as int));
            let ghost before = acc;
            acc = f(Some(&acc), entry);
            proof {
                self.lemma_folded_step(f, i as int, before, acc);
            }
            i += 1;
        }
        assert(self.entries().take(self.cells@.len() as int) =~= self.entries());
        acc
    }

    /// The product of all elements, taken row by row.
    pub fn fold_mul(&self) -> (r: T) where T: Copy + Mul<Output = T>
        requires
            M * N > 0,
            T::obeys_mul_spec(),
            can_multiply(self.elements()),
        ensures
            r == product_of(self.elements()),
    {
        proof {
            use_type_invariant(self);
        }
        let mut acc: T = self.cells[0];
        let mut i: usize = 1;
        assert(self.cells@.take(1).drop_last() =~= Seq::<T>::empty());
        while i < self.cells.len()
            invariant
                1 <= i <= self.cells@.len(),
                T::obeys_mul_spec(),
                can_multiply(self.cells@),
                acc == product_of(self.cells@.take(i as int)),
            decreases self.cells@.len() - i,
        {
            assert(self.cells@.take(i + 1).drop_last() =~= self.cells@.take(i as int));
            acc = acc * self.cells[i];
            i += 1;
        }
        assert(self.cells@.take(self.cells@.len() as int) =~= self.cells@);
        acc
    }

    /// The sum of all elements, taken row by row.
    pub fn fold_sum(&self) -> (r: T) where T: Copy + Add<Output = T>
        requires
            M * N > 0,
            T::obeys_add_spec(),
            can_sum(self.elements()),
        ensures
            r == sum_of(self.elements()),
    {
        proof {
            use_type_invariant(self);
        }
        let mut acc: T = self.cells[0];
        let mut i: usize = 1;
        assert(self.cells@.take(1).drop_last() =~= Seq::<T>::empty());
        while i < self.cells.len()
            invariant
                1 <= i <= self.cells@.len(),
                T::obeys_add_spec(),
                can_sum(self.cells@),
                acc == sum_of(self.cells@.take(i as int)),
            decreases self.cells@.len() - i,
        {
            assert(self.cells@.take(i + 1).drop_last() =~= self.cells@.take(i as int));
            acc = acc + self.cells[i];
            i += 1;
        }
        assert(self.cells@.take(self.cells@.len() as int) =~= self.cells@);
        acc
    }

    /// The matrix of the products of the elements with `v`.
    pub fn mul_scalar(self, v: T) -> (r: Self) where T: Copy + Mul<Output = T>
        requires
            T::obeys_mul_spec(),
            forall|i: int| 0 <= i < self.elements().len() ==> (#[trigger] self.elements()[i]).mul_req(v),
        ensures
            r.elements().len() == self.elements().len(),
            forall|i: int|
                0 <= i < r.elements().len() ==> #[trigger] r.elements()[i] == self.elements()[i].mul_spec(
                    v,
                ),
    {
        proof {
            use_type_invariant(&self);
        }
        let mut cells: Vec<T> = Vec::new();
        let mut i: usize = 0;
        while i < self.cells.len()
            invariant
                0 <= i <= self.cells@.len(),
                cells@.len() == i,
                T::obeys_mul_spec(),
                forall|k: int|
                    0 <= k < self.elements().len() ==> (#[trigger] self.elements()[k]).mul_req(v),
                forall|k: int| 0 <= k < i ==> #[trigger] cells@[k] == self.elements()[k].mul_spec(v),
            decreases self.cells@.len() - i,
        {
            assert(self.cells@[i as int] == self.elements()[i as int]);
            cells.push(self.cells[i] * v);
            i += 1;
        }
        Matrix { cells }
    }
}

impl<T, const M: usize, const N: usize> Default for Matrix<T, M, N> where T: Default {
    /// The matrix whose every element is the default of its type.
    fn default() -> (r: Self)
        ensures
            r.elements().len() == M * N,
            forall|i: int|
                0 <= i < r.elements().len() ==> call_ensures(
                    T::default,
                    (),
                    #[trigger] r.elements()[i],
                ),
    {
        let mut cells: Vec<T> = Vec::new();
        let mut row: usize = 0;
        while row < M
            invariant
                0 <= row <= M,
                cells@.len() == row * N,
                forall|i: int| 0 <= i < cells@.len() ==> call_ensures(T::default, (), #[trigger] cells@[i]),
            decreases M - row,
        {
            let mut col: usize = 0;
            while col < N
                invariant
                    0 <= col <= N,
                    cells@.len() == row * N + col,
                    forall|i: int|
                        0 <= i < cells@.len() ==> call_ensures(T::default, (), #[trigger] cells@[i]),
                decreases N - col,
            {
                cells.push(T::default());
                col += 1;
            }
            assert((row + 1) * N == row * N + N) by (nonlinear_arith);
            row += 1;
        }
        Matrix { cells }
    }
}

/// The elements of `base` after each entry of `entries`, one after the other, has
/// been put at its place in the row-by-row list of a matrix with `n` columns: where
/// two entries name one place, the later one stays.
pub open spec fn placed<T>(base: Seq<T>, entries: Seq<MatrixIterEntry<T>>, n: int) -> Seq<T>
    decreases entries.len(),
{
    if entries.len() == 0 {
        base
    } else {
        placed(base, entries.drop_last(), n).update(
            place(n, entries.last().row as int, entries.last().col as int),
            entries.last().elem,
        )
    }
}

/// The elements of `items` in the opposite order.
fn turned<T>(items: Vec<T>) -> (r: Vec<T>)
    ensures
        r@ == items@.reverse(),
{
    let mut items = items;
    let ghost all = items@;
    let mut ret: Vec<T> = Vec::new();
    while items.len() > 0
        invariant
            items@.len() + ret@.len() == all.len(),
            forall|i: int| 0 <= i < items@.len() ==> items@[i] == all[i],
            forall|i: int| 0 <= i < ret@.len() ==> ret@[i] == all[all.len() - 1 - i],
        decreases items.len(),
    {
        let last = items.pop().unwrap();
        ret.push(last);
    }
    assert(ret@ =~= all.reverse());
    ret
}

impl<T: Default, const M: usize, const N: usize> Matrix<T, M, N> {
    /// The matrix that holds each element of `entries` at its place and the default
    /// of its type at every other place.
    pub fn from_iter(entries: Vec<MatrixIterEntry<T>>) -> (r: Self)
        requires
            forall|i: int| 0 <= i < entries@.len() ==> (#[trigger] entries@[i]).row < M && entries@[i].col < N,
        ensures
            r.elements().len() == M * N,
            exists|base: Seq<T>|
                {
                    &&& #[trigger] base.len() == M * N
                    &&& forall|i: int| 0 <= i < base.len() ==> call_ensures(T::default, (), #[trigger] base[i])
                    &&& r.elements() == placed(base, entries@, N as int)
                },
    {
        let ret: Matrix<T, M, N> = Matrix::default();
        let ghost base = ret.elements();
        let ghost all = entries@;
        let mut cells: Vec<T> = ret.cells;
        let mut rest: Vec<MatrixIterEntry<T>> = turned(entries);
        assert(all.take(0) =~= Seq::<MatrixIterEntry<T>>::empty());
        while rest.len() > 0
            invariant
                base.len() == M * N,
                cells@.len() == M * N,
                rest@.len() <= all.len(),
                forall|i: int| 0 <= i < all.len() ==> (#[trigger] all[i]).row < M && all[i].col < N,
                forall|i: int| 0 <= i < rest@.len() ==> rest@[i] == all[all.len() - 1 - i],
                cells@ == placed(base, all.take(all.len() - rest@.len()), N as int),
            decreases rest.len(),
        {
            let ghost done = all.len() - rest@.len();
            let entry = rest.pop().unwrap();
            assert(entry == all[done]);
            assert(all.take(done + 1).drop_last() =~= all.take(done));
            proof {
                lemma_place_in_range(M as int, N as int, entry.row as int, entry.col as int);
                assert(0 <= entry.row * N <= entry.row * N + entry.col < cells@.len()) by (nonlinear_arith)
                    requires
                        0 <= place(N as int, entry.row as int, entry.col as int) < cells@.len(),
                        0 <= entry.col,
                        0 <= entry.row,
                        0 <= N,
                ;
            }
            let len: usize = cells.len();
            let at: usize = entry.row * N + entry.col;
            cells[at] = entry.elem;
        }
        assert(all.take(all.len() as int) =~= all);
        Matrix { cells }
    }
}

impl<T, const M: usize, const N: usize> vstd::std_specs::core::IndexSpecImpl<(usize, usize)> for Matrix<T, M, N> {
    /// A place can be asked for where its row and its column exist.
    open spec fn index_req(&self, index: &(usize, usize)) -> bool {
        index.0 < M && index.1 < N
    }
}

impl<T, const M: usize, const N: usize> std::ops::Index<(usize, usize)> for Matrix<T, M, N> {
    type Output = T;

    /// The element in the row and the column of `index`.
    fn index(&self, index: (usize, usize)) -> (r: &T)
        ensures
            *r == self.at(index.0 as int, index.1 as int),
    {
        self.get(index.0, index.1)
    }
}

/// Whether the elements of `left` and `right` can be added place by place.
pub open spec fn can_add_each<T: Add<Output = T>>(left: Seq<T>, right: Seq<T>) -> bool {
    left.len() == right.len() && forall|i: int|
        0 <= i < left.len() ==> (#[trigger] left[i]).add_req(right[i])
}

impl<T: Copy + Add<Output = T>, const M: usize, const N: usize> vstd::std_specs::ops::AddSpecImpl for Matrix<T, M, N> {
    /// What `add` returns is stated over its elements: that two matrices with the
    /// same elements are the same matrix is not known.
    open spec fn obeys_add_spec() -> bool {
        false
    }

    /// Two matrices can be added where the elements follow what is written for
    /// their sum and can be added place by place.
    open spec fn add_req(self, rhs: Self) -> bool {
        T::obeys_add_spec() && can_add_each(self.elements(), rhs.elements())
    }

    /// A matrix whose elements are the sums of the elements at the same place.
    open spec fn add_spec(self, rhs: Self) -> Self {
        choose|sum: Self|
            #![trigger sum.elements()]
            sum.elements().len() == self.elements().len() && forall|i: int|
                0 <= i < sum.elements().len() ==> #[trigger] sum.elements()[i]
                    == self.elements()[i].add_spec(rhs.elements()[i])
    }
}

impl<T: Copy + Add<Output = T>, const M: usize, const N: usize> Add for Matrix<T, M, N> {
    type Output = Self;

    /// The matrix of the sums of the elements at the same place.
    fn add(self, rhs: Self) -> (r: Self)
        ensures
            r.elements().len() == self.elements().len(),
            forall|i: int|
                0 <= i < r.elements().len() ==> #[trigger] r.elements()[i] == self.elements()[i].add_spec(
                    rhs.elements()[i],
                ),
    {
        proof {
            use_type_invariant(&self);
            use_type_invariant(&rhs);
        }
        let mut cells: Vec<T> = Vec::new();
        let mut i: usize = 0;
        while i < self.cells.len()
            invariant
                0 <= i <= self.cells@.len(),
                cells@.len() == i,
                T::obeys_add_spec(),
                can_add_each(self.elements(), rhs.elements()),
                forall|k: int|
                    0 <= k < i ==> #[trigger] cells@[k] == self.elements()[k].add_spec(
                        rhs.elements()[k],
                    ),
            decreases self.cells@.len() - i,
        {
            assert(self.cells@[i as int] == self.elements()[i as int]);
            cells.push(self.cells[i] + rhs.cells[i]);
            i += 1;
        }
        Matrix { cells }
    }
}

/// The sum of the products of the elements of `left` and `right` at the same place,
/// taken one after the other from `zero` on.
pub open spec fn dot<T: Add<Output = T> + Mul<Output = T>>(
    zero: T,
    left: Seq<T>,
    right: Seq<T>,
) -> T
    decreases left.len(),
{
    if left.len() == 0 {
        zero
    } else {
        dot(zero, left.drop_last(), right.drop_last()).add_spec(
            left.last().mul_spec(right.last()),
        )
    }
}

/// Whether the products and the sums of [`dot`] can all be taken.
pub open spec fn can_dot<T: Add<Output = T> + Mul<Output = T>>(
    zero: T,
    left: Seq<T>,
    right: Seq<T>,
) -> bool {
    left.len() == right.len() && forall|i: int|
        0 <= i < left.len() ==> (#[trigger] left[i]).mul_req(right[i]) && dot(
            zero,
            left.take(i),
            right.take(i),
        ).add_req(left[i].mul_spec(right[i]))
}

impl<T, const M: usize, const N: usize> Matrix<T, M, N> {
    /// The elements of row `row`, from the first column on.
    pub open spec fn row_of(&self, row: int) -> Seq<T> {
        Seq::new(N as nat, |col: int| self.at(row, col))
    }

    /// The elements of column `col`, from the first row on.
    pub open spec fn col_of(&self, col: int) -> Seq<T> {
        Seq::new(M as nat, |row: int| self.at(row, col))
    }
}

/// Whether the product of two matrices can be taken: the elements follow what is
/// written for their sum and their product, and the products and sums for every
/// place of the result can be taken, whatever the default value is from which
/// they start.
pub open spec fn can_multiply_each<
    T: Default + Add<Output = T> + Mul<Output = T>,
    const M: usize,
    const N: usize,
    const P: usize,
>(left: Matrix<T, M, N>, right: Matrix<T, N, P>) -> bool {
    &&& <T as AddSpec>::obeys_add_spec()
    &&& <T as MulSpec>::obeys_mul_spec()
    &&& forall|zero: T, row: int, col: int|
        call_ensures(T::default, (), zero) && 0 <= row < M && 0 <= col < P ==> #[trigger] can_dot(
            zero,
            left.row_of(row),
            right.col_of(col),
        )
}

impl<T: Copy + Default + Add<Output = T> + Mul<Output = T>, const M: usize, const N: usize, const P: usize> vstd::std_specs::ops::MulSpecImpl<Matrix<T, N, P>> for Matrix<T, M, N> {
    /// What `mul` returns is stated over its elements: that two matrices with the
    /// same elements are the same matrix is not known.
    open spec fn obeys_mul_spec() -> bool {
        false
    }

    /// Two matrices can be multiplied where [`can_multiply_each`] holds of them.
    open spec fn mul_req(self, rhs: Matrix<T, N, P>) -> bool {
        can_multiply_each(self, rhs)
    }

    /// A matrix whose element in each row and column is the sum of the products of
    /// that row of `self` and that column of `rhs`, taken from a default value on.
    open spec fn mul_spec(self, rhs: Matrix<T, N, P>) -> Matrix<T, M, P> {
        choose|product: Matrix<T, M, P>|
            #![trigger product.elements()]
            product.elements().len() == M * P && exists|zero: T|
                #![trigger call_ensures(T::default, (), zero)]
                call_ensures(T::default, (), zero) && forall|row: int, col: int|
                    0 <= row < M && 0 <= col < P ==> #[trigger] product.at(row, col) == dot(
                        zero,
                        self.row_of(row),
                        rhs.col_of(col),
                    )
    }
}

impl<T: Copy + Default + Add<Output = T> + Mul<Output = T>, const M: usize, const N: usize, const P: usize> Mul<Matrix<T, N, P>> for Matrix<T, M, N> {
    type Output = Matrix<T, M, P>;

    /// The product of the two matrices: the element in row `row` and column `col` is
    /// the sum of the products of the elements of row `row` of `self` and of column
    /// `col` of `rhs`, taken from the default value on.
    fn mul(self, rhs: Matrix<T, N, P>) -> (r: Matrix<T, M, P>)
        ensures
            r.elements().len() == M * P,
            exists|zero: T|
                #![trigger call_ensures(T::default, (), zero)]
                call_ensures(T::default, (), zero) && forall|row: int, col: int|
                    0 <= row < M && 0 <= col < P ==> #[trigger] r.at(row, col) == dot(
                        zero,
                        self.row_of(row),
                        rhs.col_of(col),
                    ),
    {
        let zero: T = T::default();
        let mut cells: Vec<T> = Vec::new();
        let mut row: usize = 0;
        while row < M
            invariant
                0 <= row <= M,
                call_ensures(T::default, (), zero),
                can_multiply_each(self, rhs),
                cells@.len() == row * P,
                forall|k: int|
                    0 <= k < cells@.len() ==> #[trigger] cells@[k] == dot(
                        zero,
                        self.row_of(k / (P as int)),
                        rhs.col_of(k % (P as int)),
                    ),
            decreases M - row,
        {
            let mut col: usize = 0;
            while col < P
                invariant
                    0 <= col <= P,
                    row < M,
                    call_ensures(T::default, (), zero),
                    can_multiply_each(self, rhs),
                    cells@.len() == row * P + col,
                    forall|k: int|
                        0 <= k < cells@.len() ==> #[trigger] cells@[k] == dot(
                            zero,
                            self.row_of(k / (P as int)),
                            rhs.col_of(k % (P as int)),
                        ),
                decreases P - col,
            {
                let ghost left = self.row_of(row as int);
                let ghost right = rhs.col_of(col as int);
                assert(can_dot(zero, left, right));
                let mut mul_sum_row_col: T = zero;
                let mut i: usize = 0;
                assert(left.take(0) =~= Seq::<T>::empty());
                while i < N
                    invariant
                        0 <= i <= N,
                        row < M,
                        col < P,
                        left == self.row_of(row as int),
                        right == rhs.col_of(col as int),
                        can_dot(zero, left, right),
                        <T as AddSpec>::obeys_add_spec(),
                        <T as MulSpec>::obeys_mul_spec(),
                        mul_sum_row_col == dot(zero, left.take(i as int), right.take(i as int)),
                    decreases N - i,
                {
                    let a: T = *self.get(row, i);
                    let b: T = *rhs.get(i, col);
                    assert(left[i as int] == a);
                    assert(right[i as int] == b);
                    assert(left.take(i + 1).drop_last() =~= left.take(i as int));
                    assert(right.take(i + 1).drop_last() =~= right.take(i as int));
                    mul_sum_row_col = mul_sum_row_col + a * b;
                    i += 1;
                }
                assert(left.take(N as int) =~= left);
                assert(right.take(N as int) =~= right);
                proof {
                    lemma_place_in_range(M as int, P as int, row as int, col as int);
                }
                cells.push(mul_sum_row_col);
                col += 1;
            }
            assert((row + 1) * P == row * P + P) by (nonlinear_arith);
            row += 1;
        }
        let r: Matrix<T, M, P> = Matrix { cells };
        assert forall|row: int, col: int| 0 <= row < M && 0 <= col < P implies #[trigger] r.at(
            row,
            col,
        ) == dot(zero, self.row_of(row), rhs.col_of(col)) by {
            lemma_place_in_range(M as int, P as int, row, col);
        }
        r
    }
}

} // verus!
