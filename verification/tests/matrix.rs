use std::ops::Mul;

use bank_ledger::matrices::Matrices;
use bank_ledger::matrix::{
    for_each_m_n, is_first_element, non_first_element, Matrix, MatrixIterEntry,
};

#[test]
fn test_my_index_should_work() {
    let array = [&0, &1, &2, &3, &4, &5];

    let m1: Matrix<&i32, 2, 3> = Matrix::from_array(&array);
    let m2: Matrix<&i32, 2, 3> = Matrix::from_array(&array);
    let should_be_m1: &Matrix<&i32, 2, 3>;
    let should_be_m2: &Matrix<&i32, 2, 3>;
    {
        let actual = Matrices::new(vec![&m1, &m2]);
        should_be_m1 = actual.my_index(0);
        should_be_m2 = actual.my_index(1);
    }
    assert_eq!(should_be_m1, &m1);
    assert_eq!(should_be_m2, &m2)
}

#[test]
fn test_deref_should_work() {
    let array = [&0, &1, &2, &3, &4, &5];

    let m1: Matrix<&i32, 2, 3> = Matrix::from_array(&array);
    let m2: Matrix<&i32, 2, 3> = Matrix::from_array(&array);
    let should_be_m1: &Matrix<&i32, 2, 3>;
    let should_be_m2: &Matrix<&i32, 2, 3>;

    {
        let actual = Matrices::new(vec![&m1, &m2]);
        should_be_m1 = actual[0];
        should_be_m2 = actual[1];
    }
    assert_eq!(should_be_m1, &m1);
    assert_eq!(should_be_m2, &m2);
}

#[test]
fn test_sum_el_should_work() {
    let array = [&0, &1, &2, &3, &4, &5];
    let should_be_sum: i32 = 2 * (0 + 1 + 2 + 3 + 4 + 5);
    let left: Matrix<&i32, 2, 3> = Matrix::from_array(&array);
    let right: Matrix<&i32, 2, 3> = Matrix::from_array(&array);

    let actual = Matrices::new(vec![&left, &right]);
    let actual_sum = actual.sum_el();
    assert_eq!(actual_sum, should_be_sum)
}

#[test]
fn test_mul_el_should_work() {
    let array = [&1, &2, &3, &4, &5, &6];
    let should_be_mul: i32 = array.iter().fold(1, |acc, el| acc * *el * *el);
    println!("{}", should_be_mul);
    let left: Matrix<&i32, 2, 3> = Matrix::from_array(&array);
    let right: Matrix<&i32, 2, 3> = Matrix::from_array(&array);
    let actual = Matrices::new(vec![&left, &right]);

    let actual_mul = actual.mul_el();
    assert_eq!(actual_mul, should_be_mul);

    let array1 = [&1, &4, &3, &4, &5, &6];
    let array2 = [&3, &4, &3, &7, &12, &6];
    let should_be_mul: i32 = 1 * 4 * 3 * 4 * 5 * 6 * 3 * 4 * 3 * 7 * 12 * 6;
    let m1: Matrix<&i32, 2, 3> = Matrix::<&i32, 2, 3>::from_array(&array1);
    let m2: Matrix<&i32, 2, 3> = Matrix::from_array(&array2);
    let actual = Matrices::new(vec![&m1, &m2]);
    let actual_mul = actual.mul_el();
    assert_eq!(actual_mul, should_be_mul);

    let should_be_mul: i32 = 0;
    let m1: Matrix<&i32, 2, 3> = Matrix::from_array(&[&0, &4, &3, &4, &5, &6]);
    let m2: Matrix<&i32, 2, 3> = Matrix::from_array(&[&3, &4, &3, &7, &12, &6]);
    let m3: Matrix<&i32, 2, 3> = Matrix::from_array(&[&3, &4, &3, &7, &12, &6]);
    let actual = Matrices::new(vec![&m1, &m2, &m3]);

    let actual_mul = actual.mul_el();
    assert_eq!(actual_mul, should_be_mul)
}

#[test]
fn matrices_know_their_number() {
    let m1: Matrix<i32, 1, 1> = Matrix::from_array(&[1]);
    let r1 = &m1;
    let of_refs: Matrix<&i32, 1, 1> = Matrix::from_array(&[r1.get(0, 0)]);
    let some = Matrices::new(vec![&of_refs, &of_refs, &of_refs]);
    assert_eq!(some.len(), 3);
    assert!(!some.is_empty());
    let none: Matrices<i32, 1, 1> = Matrices::new(Vec::new());
    assert_eq!(none.len(), 0);
    assert!(none.is_empty());
    assert_eq!(none.sum_el(), 0);
}

#[test]
fn test_default() {
    let matrix = Matrix::<i32, 2, 3>::default();
    for entry in matrix.into_iter() {
        assert_eq!(entry.elem, i32::default())
    }
}

#[test]
fn test_from_array() {
    let m1 = Matrix::<i32, 2, 3>::from_array(&[1, 2, 3, 4, 5, 6]);
    assert!(m1[(0, 0)] == 1);
    assert!(m1[(1, 2)] == 6);
    assert!(*m1.get(0, 0) == 1);
    assert!(*m1.get(1, 2) == 6);
    assert_eq!(m1.as_slice(), &[1, 2, 3, 4, 5, 6]);
    println!("{:?}", m1);
}

#[test]
fn test_fold() {
    let array = [1, 2, 3, 4, 5, 6];
    let m1 = Matrix::<i32, 2, 3>::from_array(&array);
    let actual = m1.fold(|prev, entry| match prev {
        Some(acc) => acc + entry.elem,
        None => entry.elem + 0,
    });

    assert_eq!(actual, array.iter().sum());

    let array = [1, 2, 3, 4, 5, 6];
    let m1 = Matrix::<i32, 2, 3>::from_array(&array);
    let actual = m1.fold(|prev, entry| match prev {
        Some(acc) => acc * entry.elem,
        None => entry.elem * 1,
    });

    assert_eq!(actual, array.iter().product());
}

#[test]
fn fold_sum_and_fold_mul_take_every_element_once() {
    let m1 = Matrix::<i32, 2, 3>::from_array(&[1, 2, 3, 4, 5, 6]);
    assert_eq!(m1.fold_sum(), 21);
    assert_eq!(m1.fold_mul(), 720);
    let single = Matrix::<i32, 1, 1>::from_array(&[-7]);
    assert_eq!(single.fold_sum(), -7);
    assert_eq!(single.fold_mul(), -7);
}

#[test]
fn matrix_test_into_iter() {
    let initial: Matrix<i32, 2, 3> = Matrix::<i32, 2, 3>::from_array(&[1, 2, 3, 4, 5, 6]);
    for MatrixIterEntry { row, col, elem } in initial.into_iter() {
        println!("row[{}],col[{}],el[{}]", row, col, elem)
    }

    let initial = Matrix::<&str, 2, 3>::from_array(&["a", "b", "c", "d", "i", "f"]);
    for MatrixIterEntry { row, col, elem } in initial.into_iter() {
        println!("row[{}],col[{}],el[{}]", row, col, elem)
    }

    let initial = Matrix::<String, 2, 3>::from_array(&[
        "A".to_string(),
        "B".to_string(),
        "C".to_string(),
        "D".to_string(),
        "I".to_string(),
        "F".to_string(),
    ]);

    let actual: Matrix<String, 2, 3> = Matrix::from_iter(initial.into_iter());

    println!("{:?}", actual);
    assert!(true)
}

#[test]
fn entries_come_row_by_row_with_their_places() {
    let initial: Matrix<i32, 2, 3> = Matrix::from_array(&[1, 2, 3, 4, 5, 6]);
    let places: Vec<(usize, usize, i32)> =
        initial.into_iter().into_iter().map(|entry| (entry.row, entry.col, entry.elem)).collect();
    assert_eq!(places, vec![(0, 0, 1), (0, 1, 2), (0, 2, 3), (1, 0, 4), (1, 1, 5), (1, 2, 6)]);
    let rebuilt: Matrix<i32, 2, 3> = Matrix::from_iter(vec![
        MatrixIterEntry { row: 1, col: 2, elem: 9 },
        MatrixIterEntry { row: 0, col: 1, elem: 7 },
        MatrixIterEntry { row: 1, col: 2, elem: 8 },
    ]);
    assert_eq!(rebuilt, Matrix::from_array(&[0, 7, 0, 0, 0, 8]));
}

#[test]
fn test_add_should_work() {
    let left: Matrix<i32, 2, 3> = Matrix::<i32, 2, 3>::from_array(&[0, 1, 2, 3, 4, 5]);
    let right: Matrix<i32, 2, 3> = Matrix::<i32, 2, 3>::from_array(&[0, 1, 2, 3, 4, 5]);

    let actual: Matrix<i32, 2, 3> = left + right;

    for MatrixIterEntry { row, col, elem } in actual.into_iter() {
        println!("elem[{}] ", elem);
        assert_eq!((col + row * 3) * 2, elem as usize);
    }
}

#[test]
fn test_mul_should_work() {
    let left: Matrix<i32, 2, 3> = Matrix::<i32, 2, 3>::from_array(&[0, 1, 2, 3, 4, 5]);
    let right: Matrix<i32, 3, 2> = Matrix::<i32, 3, 2>::from_array(&[0, 1, 2, 3, 4, 5]);
    let actual: Matrix<i32, 2, 2> = left.mul(right);
    println!("{:?}", actual);
    assert_eq!(actual, Matrix::<i32, 2, 2>::from_array(&[10, 13, 28, 40]));

    let left = Matrix::<i32, 2, 3>::from_array(&[1, 2, 4, 2, 0, 3]);
    let right = Matrix::<i32, 3, 2>::from_array(&[2, 5, 1, 3, 1, 1]);
    let actual: Matrix<i32, 2, 2> = left.mul(right);
    println!("{:?}", actual);
    assert_eq!(actual, Matrix::<i32, 2, 2>::from_array(&[8, 15, 7, 13]));
}

#[test]
fn test_mul_scalar_should_work() {
    let left: Matrix<i32, 2, 3> = Matrix::<i32, 2, 3>::from_array(&[0, 1, 2, 3, 4, 5]);
    let actual = left.mul_scalar(42);
    println!("{:?}", actual);
    assert_eq!(actual, Matrix::<i32, 2, 3>::from_array(&[0, 42, 84, 126, 168, 210]));

    let left: Matrix<i32, 2, 3> = Matrix::<i32, 2, 3>::from_array(&[5, 4, 3, 2, 1, 0]);
    let actual = left.mul_scalar(-2);
    println!("{:?}", actual);
    assert_eq!(actual, Matrix::<i32, 2, 3>::from_array(&[-10, -8, -6, -4, -2, 0]));

    let left: Matrix<i32, 2, 3> = Matrix::<i32, 2, 3>::from_array(&[5, 4, 3, 2, 1, 0]);
    let actual = left.mul_scalar(0);
    println!("{:?}", actual);
    assert_eq!(actual, Matrix::<i32, 2, 3>::default());

    let array = [5, 4, 3, 2, 1, 0];
    let left: Matrix<i32, 2, 3> = Matrix::<i32, 2, 3>::from_array(&array);
    let actual = left.mul_scalar(1);
    println!("{:?}", actual);
    assert_eq!(actual, Matrix::<i32, 2, 3>::from_array(&array));
}

#[test]
fn the_first_place_is_row_zero_and_column_zero() {
    assert!(is_first_element(0, 0));
    assert!(!is_first_element(0, 1));
    assert!(!is_first_element(1, 0));
    assert!(!non_first_element(0, 0));
    assert!(non_first_element(2, 3));
    let seen = std::cell::RefCell::new(Vec::new());
    for_each_m_n::<_, 2, 2>(|row, col| seen.borrow_mut().push((row, col)));
    assert_eq!(seen.into_inner(), vec![(0, 0), (0, 1), (1, 0), (1, 1)]);
    let m1 = Matrix::<i32, 2, 2>::from_array(&[1, 2, 3, 4]);
    let sum = std::cell::Cell::new(0);
    m1.for_each(|entry| sum.set(sum.get() + entry.elem * (entry.row as i32 + 1)));
    assert_eq!(sum.get(), 1 + 2 + 6 + 8);
}
