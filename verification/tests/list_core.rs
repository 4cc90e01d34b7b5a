use cons_list::list::{Error, List, Value};

fn ints(xs: &[i64]) -> List {
    let v: Vec<i64> = xs.to_vec();
    List::from_ints(&v)
}

#[test]
fn test_build_and_drain_roundtrip() {
    let l = List::from_values(vec![
        Value::Int(1),
        Value::List(ints(&[2, 3])),
        Value::Int(4),
    ]);
    assert_eq!(l.len(), 3);
    let back = l.into_values();
    assert_eq!(back.len(), 3);
    assert!(matches!(back[0], Value::Int(1)));
    assert!(matches!(back[2], Value::Int(4)));
    match &back[1] {
        Value::List(inner) => assert!(inner.equals(&ints(&[2, 3]))),
        Value::Int(_) => panic!("expected a nested list"),
    }
}

#[test]
fn test_car_cdr_and_empty_errors() {
    let empty = List::empty();
    assert!(matches!(empty.car_ref(), Err(Error::EmptyInput)));
    assert!(matches!(List::empty().cdr(), Err(Error::EmptyInput)));
    assert!(matches!(List::empty().uncons(), Err(Error::EmptyInput)));

    let l = ints(&[7, 8, 9]);
    match l.car_ref() {
        Ok(v) => assert!(matches!(v, Value::Int(7))),
        Err(_) => panic!("car of a non-empty list"),
    }
    let (head, rest) = l.uncons().unwrap();
    assert!(matches!(head, Value::Int(7)));
    assert!(rest.equals(&ints(&[8, 9])));
}

#[test]
fn test_set_cdr_replaces_tail() {
    let mut l = ints(&[1, 2, 3]);
    l.set_cdr(ints(&[10, 20]));
    assert!(l.equals(&ints(&[1, 10, 20])));
    l.set_cdr(List::empty());
    assert!(l.equals(&ints(&[1])));
}

#[test]
fn test_push_prepend_reverse_get() {
    let l = ints(&[2, 3]).prepend(Value::Int(1)).push(Value::Int(4));
    assert!(l.equals(&ints(&[1, 2, 3, 4])));
    assert!(l.reverse().equals(&ints(&[4, 3, 2, 1])));

    let m = ints(&[5, 6, 7]);
    match m.get(1) {
        Ok(v) => assert!(matches!(v, Value::Int(6))),
        Err(_) => panic!("index within range"),
    }
    assert!(matches!(m.get(3), Err(Error::StructuralPrecondition)));
}

#[test]
fn test_swap_at_mutates_in_place() {
    let mut l = ints(&[1, 2, 3]);
    let old = l.swap_at(1, Value::Int(20)).unwrap();
    assert!(matches!(old, Value::Int(2)));
    assert!(l.equals(&ints(&[1, 20, 3])));
    assert!(matches!(
        l.swap_at(3, Value::Int(9)),
        Err(Error::StructuralPrecondition)
    ));
    assert!(l.equals(&ints(&[1, 20, 3])));
}

#[test]
fn test_equals_and_duplicate() {
    let a = List::from_values(vec![Value::Int(1), Value::List(ints(&[2, 3]))]);
    let b = List::from_values(vec![Value::Int(1), Value::List(ints(&[2, 3]))]);
    let c = List::from_values(vec![Value::Int(1), Value::List(ints(&[2, 4]))]);
    assert!(a.equals(&b));
    assert!(!a.equals(&c));
    assert!(!a.equals(&ints(&[1, 2])));
    let d = a.duplicate();
    assert!(a.equals(&d));
}
