//! Operators handed to the higher-order algorithms: fold operators over an
//! accumulator type, element transformers for `acc_map`, and predicates for
//! `filter`, each paired with the spec function that pins down its result.

use vstd::prelude::*;

use crate::list::Error;
use crate::list::List;
use crate::list::Value;
use crate::list::copy_value;

verus! {

/// An accumulator type together with its mathematical model: folds are
/// specified over the model, not over the machine representation.
pub trait Accum: Sized {
    type M;

    spec fn model(self) -> Self::M;

    /// A fresh accumulator with the same model, so one initial value can
    /// seed several folds.
    fn dup(&self) -> (r: Self)
        ensures
            r.model() == self.model(),
    ;
}

impl Accum for i64 {
    type M = int;

    open spec fn model(self) -> int {
        self as int
    }

    fn dup(&self) -> (r: i64) {
        *self
    }
}

impl Accum for List {
    type M = Seq<Value>;

    open spec fn model(self) -> Seq<Value> {
        self@
    }

    fn dup(&self) -> (r: List) {
        List::duplicate(self)
    }
}

/// The model of a fallible accumulator result.
pub open spec fn model_res<A: Accum>(r: Result<A, Error>) -> Result<A::M, Error> {
    match r {
        Ok(a) => Ok(a.model()),
        Err(e) => Err(e),
    }
}

/// A binary operator for left folds: it combines an accumulator with one
/// list element, or reports why it cannot.
pub trait FoldOp<A: Accum> {
    spec fn spec_call(&self, acc: A::M, v: Value) -> Result<A::M, Error>;

    fn call(&self, acc: A, v: &Value) -> (r: Result<A, Error>)
        ensures
            model_res(r) == self.spec_call(acc.model(), *v),
    ;
}

/// A binary operator for right folds: it combines one list element with an
/// accumulator already folded over the elements to its right.
pub trait FoldRightOp<A: Accum> {
    spec fn spec_call(&self, v: Value, acc: A::M) -> Result<A::M, Error>;

    fn call(&self, v: &Value, acc: A) -> (r: Result<A, Error>)
        ensures
            model_res(r) == self.spec_call(*v, acc.model()),
    ;
}

/// An element transformer for `acc_map`.
pub trait MapFn {
    spec fn spec_call(&self, v: Value) -> Result<Value, Error>;

    fn call(&self, v: &Value) -> (r: Result<Value, Error>)
        ensures
            r == self.spec_call(*v),
    ;
}

/// An element test for `filter`.
pub trait Predicate {
    spec fn spec_call(&self, v: Value) -> Result<bool, Error>;

    fn call(&self, v: &Value) -> (r: Result<bool, Error>)
        ensures
            r == self.spec_call(*v),
    ;
}

/// An accumulator whose final value can be stored back into a list cell,
/// as `accumulate_n` does with each column result.
pub trait Store: Accum {
    /// Whether `v` is the stored form of the model `m`.
    spec fn wraps(m: Self::M, v: Value) -> bool;

    fn wrap(self) -> (v: Value)
        ensures
            Self::wraps(self.model(), v),
    ;
}

impl Store for i64 {
    open spec fn wraps(m: int, v: Value) -> bool {
        v == Value::Int(m as i64)
    }

    fn wrap(self) -> (v: Value) {
        Value::Int(self)
    }
}

impl Store for List {
    open spec fn wraps(m: Seq<Value>, v: Value) -> bool {
        v matches Value::List(l) && l@ == m
    }

    fn wrap(self) -> (v: Value) {
        Value::List(self)
    }
}

/// Addition that skips non-scalar elements, as the accumulate operators do.
pub open spec fn spec_plus(acc: int, v: Value) -> Result<int, Error> {
    match v {
        Value::Int(x) => if i64::MIN <= acc + x <= i64::MAX {
            Ok(acc + x)
        } else {
            Err(Error::Overflow)
        },
        Value::List(_) => Ok(acc),
    }
}

pub fn plus(acc: i64, v: &Value) -> (r: Result<i64, Error>)
    ensures
        model_res(r) == spec_plus(acc as int, *v),
{
    match v {
        Value::Int(x) => match acc.checked_add(*x) {
            Some(s) => Ok(s),
            None => Err(Error::Overflow),
        },
        Value::List(_) => Ok(acc),
    }
}

/// Subtraction that skips non-scalar elements.
pub open spec fn spec_minus(acc: int, v: Value) -> Result<int, Error> {
    match v {
        Value::Int(x) => if i64::MIN <= acc - x <= i64::MAX {
            Ok(acc - x)
        } else {
            Err(Error::Overflow)
        },
        Value::List(_) => Ok(acc),
    }
}

pub fn minus(acc: i64, v: &Value) -> (r: Result<i64, Error>)
    ensures
        model_res(r) == spec_minus(acc as int, *v),
{
    match v {
        Value::Int(x) => match acc.checked_sub(*x) {
            Some(s) => Ok(s),
            None => Err(Error::Overflow),
        },
        Value::List(_) => Ok(acc),
    }
}

/// Multiplication that skips non-scalar elements.
pub open spec fn spec_mul(acc: int, v: Value) -> Result<int, Error> {
    match v {
        Value::Int(x) => if i64::MIN <= acc * x <= i64::MAX {
            Ok(acc * x)
        } else {
            Err(Error::Overflow)
        },
        Value::List(_) => Ok(acc),
    }
}

pub fn mul(acc: i64, v: &Value) -> (r: Result<i64, Error>)
    ensures
        model_res(r) == spec_mul(acc as int, *v),
{
    match v {
        Value::Int(x) => match acc.checked_mul(*x) {
            Some(s) => Ok(s),
            None => Err(Error::Overflow),
        },
        Value::List(_) => Ok(acc),
    }
}

/// Tail-appends a scalar element to the accumulator list; non-scalar
/// elements are skipped.
pub open spec fn spec_cons(s: Seq<Value>, v: Value) -> Seq<Value> {
    if v is Int {
        s.push(v)
    } else {
        s
    }
}

pub fn cons(acc: List, v: Value) -> (r: List)
    ensures
        r@ == spec_cons(acc@, v),
{
    match v {
        Value::Int(_) => acc.push(v),
        Value::List(_) => acc,
    }
}

/// Tail-appends a scalar element to the accumulator list; a non-scalar
/// element is a type mismatch.
pub open spec fn spec_list_cons(s: Seq<Value>, v: Value) -> Result<Seq<Value>, Error> {
    match v {
        Value::Int(_) => Ok(s.push(v)),
        Value::List(_) => Err(Error::TypeMismatch),
    }
}

pub fn list_cons(acc: List, v: Value) -> (r: Result<List, Error>)
    ensures
        model_res(r) == spec_list_cons(acc@, v),
{
    match v {
        Value::Int(_) => Ok(acc.push(v)),
        Value::List(_) => Err(Error::TypeMismatch),
    }
}

/// Squares a scalar element; a nested list is a type mismatch.
pub open spec fn spec_square(v: Value) -> Result<Value, Error> {
    match v {
        Value::Int(x) => if x * x <= i64::MAX {
            Ok(Value::Int((x * x) as i64))
        } else {
            Err(Error::Overflow)
        },
        Value::List(_) => Err(Error::TypeMismatch),
    }
}

pub fn square(v: &Value) -> (r: Result<Value, Error>)
    ensures
        r == spec_square(*v),
{
    match v {
        Value::Int(x) => {
            proof {
                assert((*x) * (*x) >= 0) by (nonlinear_arith);
            }
            match x.checked_mul(*x) {
                Some(s) => Ok(Value::Int(s)),
                None => Err(Error::Overflow),
            }
        }
        Value::List(_) => Err(Error::TypeMismatch),
    }
}

/// Whether a scalar element is odd; a nested list is a type mismatch.
pub open spec fn spec_is_odd(v: Value) -> Result<bool, Error> {
    match v {
        Value::Int(x) => Ok(x % 2 != 0),
        Value::List(_) => Err(Error::TypeMismatch),
    }
}

pub fn is_odd(v: &Value) -> (r: Result<bool, Error>)
    ensures
        r == spec_is_odd(*v),
{
    match v {
        Value::Int(x) => match x.checked_rem_euclid(2) {
            Some(m) => Ok(m != 0),
            None => unreached(),
        },
        Value::List(_) => Err(Error::TypeMismatch),
    }
}

/// Whether a scalar element is even; a nested list is a type mismatch.
pub open spec fn spec_is_even(v: Value) -> Result<bool, Error> {
    match v {
        Value::Int(x) => Ok(x % 2 == 0),
        Value::List(_) => Err(Error::TypeMismatch),
    }
}

pub fn is_even(v: &Value) -> (r: Result<bool, Error>)
    ensures
        r == spec_is_even(*v),
{
    match is_odd(v) {
        Ok(b) => Ok(!b),
        Err(e) => Err(e),
    }
}

/// The `plus` operator, for folds.
pub struct PlusOp;

impl FoldOp<i64> for PlusOp {
    open spec fn spec_call(&self, acc: int, v: Value) -> Result<int, Error> {
        spec_plus(acc, v)
    }

    fn call(&self, acc: i64, v: &Value) -> (r: Result<i64, Error>) {
        plus(acc, v)
    }
}

impl FoldRightOp<i64> for PlusOp {
    open spec fn spec_call(&self, v: Value, acc: int) -> Result<int, Error> {
        spec_plus(acc, v)
    }

    fn call(&self, v: &Value, acc: i64) -> (r: Result<i64, Error>) {
        plus(acc, v)
    }
}

/// The `minus` operator, for folds. As a right-fold operator it subtracts
/// the already-folded accumulator from the element.
pub struct MinusOp;

impl FoldOp<i64> for MinusOp {
    open spec fn spec_call(&self, acc: int, v: Value) -> Result<int, Error> {
        spec_minus(acc, v)
    }

    fn call(&self, acc: i64, v: &Value) -> (r: Result<i64, Error>) {
        minus(acc, v)
    }
}

impl FoldRightOp<i64> for MinusOp {
    open spec fn spec_call(&self, v: Value, acc: int) -> Result<int, Error> {
        match v {
            Value::Int(x) => if i64::MIN <= x - acc <= i64::MAX {
                Ok(x - acc)
            } else {
                Err(Error::Overflow)
            },
            Value::List(_) => Ok(acc),
        }
    }

    fn call(&self, v: &Value, acc: i64) -> (r: Result<i64, Error>) {
        match v {
            Value::Int(x) => match x.checked_sub(acc) {
                Some(s) => Ok(s),
                None => Err(Error::Overflow),
            },
            Value::List(_) => Ok(acc),
        }
    }
}

/// The `mul` operator, for folds.
pub struct MulOp;

impl FoldOp<i64> for MulOp {
    open spec fn spec_call(&self, acc: int, v: Value) -> Result<int, Error> {
        spec_mul(acc, v)
    }

    fn call(&self, acc: i64, v: &Value) -> (r: Result<i64, Error>) {
        crate::ops::mul(acc, v)
    }
}

impl FoldRightOp<i64> for MulOp {
    open spec fn spec_call(&self, v: Value, acc: int) -> Result<int, Error> {
        spec_mul(acc, v)
    }

    fn call(&self, v: &Value, acc: i64) -> (r: Result<i64, Error>) {
        crate::ops::mul(acc, v)
    }
}

/// The `cons` operator, for folds that rebuild a list.
pub struct ConsOp;

impl FoldOp<List> for ConsOp {
    open spec fn spec_call(&self, acc: Seq<Value>, v: Value) -> Result<Seq<Value>, Error> {
        Ok(spec_cons(acc, v))
    }

    fn call(&self, acc: List, v: &Value) -> (r: Result<List, Error>) {
        match v {
            Value::Int(x) => Ok(acc.push(Value::Int(*x))),
            Value::List(_) => Ok(acc),
        }
    }
}

/// The `list_cons` operator, for folds that rebuild a list and reject
/// non-scalar elements.
pub struct ListConsOp;

impl FoldOp<List> for ListConsOp {
    open spec fn spec_call(&self, acc: Seq<Value>, v: Value) -> Result<Seq<Value>, Error> {
        spec_list_cons(acc, v)
    }

    fn call(&self, acc: List, v: &Value) -> (r: Result<List, Error>) {
        list_cons(acc, copy_value(v))
    }
}

/// The `square` transformer, for `acc_map`.
pub struct SquareFn;

impl MapFn for SquareFn {
    open spec fn spec_call(&self, v: Value) -> Result<Value, Error> {
        spec_square(v)
    }

    fn call(&self, v: &Value) -> (r: Result<Value, Error>) {
        square(v)
    }
}

/// Applies `f`, then `g` to what `f` produced; an error from either stops
/// the composition.
pub struct ComposeFn<F, G> {
    pub f: F,
    pub g: G,
}

impl<F: MapFn, G: MapFn> MapFn for ComposeFn<F, G> {
    open spec fn spec_call(&self, v: Value) -> Result<Value, Error> {
        match self.f.spec_call(v) {
            Ok(w) => self.g.spec_call(w),
            Err(e) => Err(e),
        }
    }

    fn call(&self, v: &Value) -> (r: Result<Value, Error>) {
        match self.f.call(v) {
            Ok(w) => self.g.call(&w),
            Err(e) => Err(e),
        }
    }
}

/// The `is_odd` test, for `filter`.
pub struct OddPred;

impl Predicate for OddPred {
    open spec fn spec_call(&self, v: Value) -> Result<bool, Error> {
        spec_is_odd(v)
    }

    fn call(&self, v: &Value) -> (r: Result<bool, Error>) {
        is_odd(v)
    }
}

/// The `is_even` test, for `filter`.
pub struct EvenPred;

impl Predicate for EvenPred {
    open spec fn spec_call(&self, v: Value) -> Result<bool, Error> {
        spec_is_even(v)
    }

    fn call(&self, v: &Value) -> (r: Result<bool, Error>) {
        is_even(v)
    }
}

} // verus!
