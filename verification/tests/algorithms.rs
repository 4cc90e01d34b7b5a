use cons_list::algo::{
    acc_map, accumulate_n, append, count_leaves, enumerate_interval, enumerate_tree, filter,
    fold_left, fold_right, horner_eval, length,
};
use cons_list::list::{Error, List, Value};
use cons_list::ops::{self, ComposeFn, ConsOp, MinusOp, MulOp, OddPred, PlusOp, SquareFn};

fn ints(xs: &[i64]) -> List {
    let v: Vec<i64> = xs.to_vec();
    List::from_ints(&v)
}

#[test]
fn test_map_square() {
    let l = ints(&[1, 2, 3, 4, 5]);
    let expect = ints(&[1, 4, 9, 16, 25]);
    let result = acc_map(&SquareFn, l).unwrap();
    assert!(result.equals(&expect));
}

#[test]
fn test_filter_odd() {
    let l = ints(&[1, 2, 3, 4, 5]);
    let expect = ints(&[1, 3, 5]);
    let result = filter(&OddPred, l).unwrap();
    assert!(result.equals(&expect));
}

#[test]
fn test_accumulate() {
    let l = ints(&[1, 2, 3, 4, 5]);
    let result = fold_left(&PlusOp, 0, l).unwrap();
    assert_eq!(result, 15);

    let l = ints(&[1, 2, 3, 4, 5]);
    let result = fold_left(&MulOp, 1, l).unwrap();
    assert_eq!(result, 120);

    let l = ints(&[1, 2, 3, 4, 5]);
    let expect = ints(&[1, 2, 3, 4, 5]);
    let rebuilt = fold_left(&ConsOp, List::empty(), l).unwrap();
    assert!(rebuilt.equals(&expect));
}

#[test]
fn test_enumerate_interval() {
    let expect = ints(&[2, 3, 4, 5, 6, 7]);
    assert!(enumerate_interval(2, 7).equals(&expect));
}

#[test]
fn test_enumerate_tree() {
    let tree = List::from_values(vec![
        Value::Int(1),
        Value::List(List::from_values(vec![
            Value::Int(2),
            Value::List(ints(&[3, 4])),
        ])),
        Value::Int(5),
    ]);
    let expect = ints(&[1, 2, 3, 4, 5]);
    assert!(enumerate_tree(tree).equals(&expect));
}

#[test]
fn test_sum_odd_squares() {
    let tree = List::from_values(vec![
        Value::Int(1),
        Value::List(List::from_values(vec![
            Value::Int(2),
            Value::List(ints(&[3, 4])),
        ])),
        Value::Int(5),
    ]);
    let flat = enumerate_tree(tree);
    let odd = filter(&OddPred, flat).unwrap();
    let squared = acc_map(&SquareFn, odd).unwrap();
    let total = fold_left(&PlusOp, 0, squared).unwrap();
    assert_eq!(total, 35);
}

#[test]
fn test_2_33() {
    let l1 = ints(&[1, 2, 3, 4, 5]);
    let expect = ints(&[1, 4, 9, 16, 25]);
    assert!(acc_map(&SquareFn, l1).unwrap().equals(&expect));

    let l1 = ints(&[1, 2]);
    let l2 = ints(&[3, 4, 5]);
    let expect = ints(&[1, 2, 3, 4, 5]);
    assert!(append(l1, l2).equals(&expect));

    let l1 = ints(&[1, 2, 3, 4, 5]);
    assert_eq!(length(&l1), 5);
}

#[test]
fn test_2_34() {
    let coef = ints(&[1, 3, 0, 5, 0, 1]);
    assert_eq!(horner_eval(2, &coef).unwrap(), 79);
}

#[test]
fn test_2_35() {
    let a = List::from_values(vec![
        Value::List(ints(&[1, 2])),
        Value::Int(3),
        Value::Int(4),
    ]);
    assert_eq!(a.len(), 3);
    assert_eq!(count_leaves(&a), 4);

    let aa = List::from_values(vec![
        Value::List(ints(&[1, 2])),
        Value::Int(3),
        Value::Int(4),
    ]);
    let ab = List::from_values(vec![
        Value::List(ints(&[1, 2])),
        Value::Int(3),
        Value::Int(4),
    ]);
    let b = List::from_values(vec![Value::List(aa), Value::List(ab)]);
    assert_eq!(count_leaves(&b), 8);
}

#[test]
fn test_accumulate_n() {
    let l = List::from_values(vec![
        Value::List(ints(&[1, 2, 3])),
        Value::List(ints(&[4, 5, 6])),
        Value::List(ints(&[7, 8, 9])),
        Value::List(ints(&[10, 11, 12])),
    ]);
    let expect = ints(&[22, 26, 30]);
    assert!(accumulate_n(&PlusOp, &0, &l).unwrap().equals(&expect));
}

#[test]
fn test_accumulate_n_ragged_rejected() {
    let l = List::from_values(vec![
        Value::List(ints(&[1, 2])),
        Value::List(ints(&[3])),
    ]);
    assert!(matches!(
        accumulate_n(&PlusOp, &0, &l),
        Err(Error::StructuralPrecondition)
    ));
    let m = List::from_values(vec![Value::Int(1), Value::List(ints(&[2]))]);
    assert!(matches!(
        accumulate_n(&PlusOp, &0, &m),
        Err(Error::StructuralPrecondition)
    ));
}

#[test]
fn test_map_fusion_concrete() {
    let l = ints(&[1, 2, 3]);
    let twice = acc_map(&SquareFn, acc_map(&SquareFn, l).unwrap()).unwrap();
    let l = ints(&[1, 2, 3]);
    let composed = acc_map(
        &ComposeFn { f: SquareFn, g: SquareFn },
        l,
    )
    .unwrap();
    assert!(twice.equals(&composed));
    assert!(twice.equals(&ints(&[1, 16, 81])));
}

#[test]
fn test_filter_keeps_order_and_length() {
    let l = ints(&[5, 2, 1, 4, 3]);
    let kept = filter(&OddPred, l).unwrap();
    assert!(kept.equals(&ints(&[5, 1, 3])));
    assert_eq!(length(&kept), 3);
    let empty = filter(&OddPred, ints(&[2, 4])).unwrap();
    assert_eq!(length(&empty), 0);
}

#[test]
fn test_fold_left_right_agree_for_plus() {
    let l = ints(&[1, 2, 3, 4, 5]);
    let left = fold_left(&PlusOp, 0, l).unwrap();
    let l = ints(&[1, 2, 3, 4, 5]);
    let right = fold_right(&PlusOp, 0, l).unwrap();
    assert_eq!(left, right);
    assert_eq!(left, 15);
}

#[test]
fn test_fold_left_right_differ_for_minus() {
    let l = ints(&[1, 2, 3, 4, 5]);
    let left = fold_left(&MinusOp, 0, l).unwrap();
    let l = ints(&[1, 2, 3, 4, 5]);
    let right = fold_right(&MinusOp, 0, l).unwrap();
    assert_eq!(left, -15);
    assert_eq!(right, 3);
    assert_ne!(left, right);
}

#[test]
fn test_append_length_additive() {
    let a = ints(&[1, 2, 3]);
    let b = ints(&[4, 5]);
    let la = length(&a);
    let lb = length(&b);
    let joined = append(a, b);
    assert_eq!(length(&joined), la + lb);

    let e = List::empty();
    let c = ints(&[9]);
    assert_eq!(length(&append(e, c)), 1);
    assert_eq!(length(&append(ints(&[9]), List::empty())), 1);
    assert_eq!(length(&append(List::empty(), List::empty())), 0);
}

#[test]
fn test_type_mismatch_errors() {
    let nested = List::from_values(vec![Value::List(ints(&[1]))]);
    assert!(matches!(
        acc_map(&SquareFn, nested),
        Err(Error::TypeMismatch)
    ));
    let nested = List::from_values(vec![Value::List(ints(&[1]))]);
    assert!(matches!(filter(&OddPred, nested), Err(Error::TypeMismatch)));
    assert!(matches!(
        ops::square(&Value::List(List::empty())),
        Err(Error::TypeMismatch)
    ));
    assert!(matches!(
        ops::list_cons(List::empty(), Value::List(List::empty())),
        Err(Error::TypeMismatch)
    ));
}

#[test]
fn test_overflow_errors() {
    assert!(matches!(
        ops::plus(i64::MAX, &Value::Int(1)),
        Err(Error::Overflow)
    ));
    assert!(matches!(
        ops::minus(i64::MIN, &Value::Int(1)),
        Err(Error::Overflow)
    ));
    assert!(matches!(
        ops::mul(i64::MAX, &Value::Int(2)),
        Err(Error::Overflow)
    ));
    assert!(matches!(
        ops::square(&Value::Int(i64::MAX)),
        Err(Error::Overflow)
    ));
    assert_eq!(ops::plus(40, &Value::Int(2)).unwrap(), 42);
    assert_eq!(
        ops::plus(40, &Value::List(List::empty())).unwrap(),
        40
    );
}

#[test]
fn test_empty_traversals() {
    assert_eq!(length(&enumerate_interval(5, 2)), 0);
    assert_eq!(length(&enumerate_tree(List::empty())), 0);
    assert_eq!(count_leaves(&List::empty()), 0);
    assert_eq!(fold_left(&PlusOp, 7, List::empty()).unwrap(), 7);
    assert_eq!(fold_right(&PlusOp, 7, List::empty()).unwrap(), 7);
    assert!(acc_map(&SquareFn, List::empty()).unwrap().equals(&List::empty()));
    let cols = accumulate_n(&PlusOp, &0, &List::empty()).unwrap();
    assert_eq!(length(&cols), 0);
}

#[test]
fn test_horner_rejects_nested_coefficient() {
    let coef = List::from_values(vec![Value::Int(1), Value::List(ints(&[2]))]);
    assert!(matches!(horner_eval(2, &coef), Err(Error::TypeMismatch)));
}
