use cons_list::fib::{even_fibs, lib_fib_squares, map_fib};
use cons_list::list::{Error, List, Value};
use cons_list::matrix::{dot_product, matrix_times_matrix, matrix_times_vector, transpose};

fn ints(xs: &[i64]) -> List {
    let v: Vec<i64> = xs.to_vec();
    List::from_ints(&v)
}

fn matrix(rows: &[&[i64]]) -> List {
    let mut vals: Vec<Value> = Vec::new();
    for row in rows {
        vals.push(Value::List(ints(row)));
    }
    List::from_values(vals)
}

#[test]
fn test_even_fibs() {
    let expect = ints(&[0, 2, 8, 34]);
    let odd_fib = even_fibs(10).unwrap();
    assert!(odd_fib.equals(&expect));
}

#[test]
fn test_lib_fib_squares() {
    let fib_sq = lib_fib_squares(10).unwrap();
    let expect = ints(&[0, 1, 1, 4, 9, 25, 64, 169, 441, 1156, 3025]);
    assert!(fib_sq.equals(&expect));
}

#[test]
fn test_2_37() {
    let v = ints(&[1, 2, 3, 4]);
    let w = ints(&[4, 3, 2, 1]);
    assert_eq!(dot_product(&v, &w).unwrap(), 20);

    let v = ints(&[3, 2, 1]);
    let m = matrix(&[&[1, 2, 3], &[3, 5, 6], &[7, 8, 9]]);
    let expect = ints(&[10, 25, 46]);
    assert!(matrix_times_vector(&m, &v).unwrap().equals(&expect));

    let m = matrix(&[&[1, 2, 3, 4], &[4, 5, 6, 7], &[8, 9, 10, 11]]);
    let expect = matrix(&[&[1, 4, 8], &[2, 5, 9], &[3, 6, 10], &[4, 7, 11]]);
    let tran = transpose(&m).unwrap();
    assert!(tran.equals(&expect));

    let m = matrix(&[&[1, 2], &[3, 4], &[5, 6]]);
    let n = matrix(&[&[1, 2, 3], &[4, 5, 6]]);
    let expect = matrix(&[&[9, 12, 15], &[19, 26, 33], &[29, 40, 51]]);
    let result = matrix_times_matrix(&m, &n).unwrap();
    assert!(result.equals(&expect));
}

#[test]
fn test_transpose_involution_concrete() {
    let m = matrix(&[&[1, 2, 3], &[4, 5, 6]]);
    let back = transpose(&transpose(&m).unwrap()).unwrap();
    assert!(back.equals(&m));
}

#[test]
fn test_transpose_errors() {
    let ragged = matrix(&[&[1, 2], &[3]]);
    assert!(matches!(
        transpose(&ragged),
        Err(Error::StructuralPrecondition)
    ));
    let nested = List::from_values(vec![Value::List(List::from_values(vec![
        Value::List(ints(&[1])),
    ]))]);
    assert!(matches!(transpose(&nested), Err(Error::TypeMismatch)));
}

#[test]
fn test_dot_product_errors() {
    let v = ints(&[1, 2, 3]);
    let w = ints(&[1, 2]);
    assert!(matches!(
        dot_product(&v, &w),
        Err(Error::StructuralPrecondition)
    ));
    let v = List::from_values(vec![Value::List(ints(&[1]))]);
    let w = ints(&[1]);
    assert!(matches!(dot_product(&v, &w), Err(Error::TypeMismatch)));
    let big = ints(&[i64::MAX, 1]);
    let twos = ints(&[2, 1]);
    assert!(matches!(dot_product(&big, &twos), Err(Error::Overflow)));
}

#[test]
fn test_fib_memo_protocol() {
    let mut memo = map_fib();
    assert_eq!(memo.call(0).unwrap(), 0);
    assert_eq!(memo.call(1).unwrap(), 1);
    assert_eq!(memo.call(2).unwrap(), 1);
    assert_eq!(memo.call(3).unwrap(), 2);
    assert_eq!(memo.call(4).unwrap(), 3);
    assert_eq!(memo.call(2).unwrap(), 1);
    assert!(matches!(memo.call(9), Err(Error::StructuralPrecondition)));
    assert!(matches!(memo.call(-1), Err(Error::StructuralPrecondition)));
}

#[test]
fn test_fib_overflow() {
    assert!(matches!(even_fibs(95), Err(Error::Overflow)));
    assert!(matches!(lib_fib_squares(50), Err(Error::Overflow)));
}
