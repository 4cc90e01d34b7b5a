//! The higher-order list algorithms: left and right folds, map, filter,
//! append, length, interval enumeration, tree flattening, and column-wise
//! accumulation over a list of rows.

use vstd::prelude::*;

use crate::list::Cell;
use crate::list::Error;
use crate::list::List;
use crate::list::Value;
use crate::list::as_list;
use crate::list::chain_view;
use crate::list::copy_chain;
use crate::list::copy_value;
use crate::ops::Accum;
use crate::ops::FoldOp;
use crate::ops::FoldRightOp;
use crate::ops::MapFn;
use crate::ops::Predicate;
use crate::ops::Store;
use crate::ops::model_res;

verus! {

/// The strictly left-associative fold: `op(..op(op(init, e1), e2).., en)`,
/// stopping at the first element the operator rejects.
pub open spec fn spec_fold_left<A: Accum, F: FoldOp<A>>(
    op: &F,
    acc: A::M,
    s: Seq<Value>,
) -> Result<A::M, Error>
    decreases s.len(),
{
    if s.len() == 0 {
        Ok(acc)
    } else {
        match op.spec_call(acc, s[0]) {
            Ok(a) => spec_fold_left(op, a, s.drop_first()),
            Err(e) => Err(e),
        }
    }
}

/// The strictly right-associative fold: `op(e1, op(e2, ..op(en, init)..))`,
/// stopping at the first rejection found while unwinding from the right.
pub open spec fn spec_fold_right<A: Accum, F: FoldRightOp<A>>(
    op: &F,
    init: A::M,
    s: Seq<Value>,
) -> Result<A::M, Error>
    decreases s.len(),
{
    if s.len() == 0 {
        Ok(init)
    } else {
        match spec_fold_right(op, init, s.drop_first()) {
            Ok(a) => op.spec_call(s[0], a),
            Err(e) => Err(e),
        }
    }
}

/// Iterative left fold over the chain, in forward order, constant stack.
pub fn fold_left<A: Accum, F: FoldOp<A>>(op: &F, init: A, l: List) -> (r: Result<A, Error>)
    ensures
        model_res(r) == spec_fold_left(op, init.model(), l@),
{
    let ghost g: Seq<Value> = l@;
    let ghost im: A::M = init.model();
    let mut acc = init;
    let mut rest = l;
    #[verifier::loop_isolation(false)]
    while !rest.is_empty()
        invariant
            spec_fold_left(op, im, g) == spec_fold_left(op, acc.model(), rest@),
        decreases rest@.len(),
    {
        let ghost r_old: Seq<Value> = rest@;
        let ghost a_old: A::M = acc.model();
        let h = rest.head.take();
        match h {
            Some(c) => {
                let cc = *c;
                proof {
                    assert(r_old =~= seq![cc.value] + chain_view(cc.next));
                    assert(r_old[0] == cc.value);
                    assert(r_old.drop_first() =~= chain_view(cc.next));
                }
                match op.call(acc, &cc.value) {
                    Ok(a) => {
                        proof {
                            assert(op.spec_call(a_old, cc.value) == Ok::<A::M, Error>(a.model()));
                            assert(spec_fold_left(op, a_old, r_old) == spec_fold_left(
                                op,
                                a.model(),
                                chain_view(cc.next),
                            ));
                        }
                        acc = a;
                        rest = List { head: cc.next };
                    }
                    Err(e) => {
                        proof {
                            assert(op.spec_call(a_old, cc.value) == Err::<A::M, Error>(e));
                            assert(spec_fold_left(op, a_old, r_old) == Err::<A::M, Error>(e));
                            assert(spec_fold_left(op, im, g) == Err::<A::M, Error>(e));
                            assert(model_res(Err::<A, Error>(e)) == spec_fold_left(op, im, g));
                        }
                        return Err(e);
                    }
                }
            }
            None => unreached(),
        }
    }
    Ok(acc)
}

fn fold_right_chain<A: Accum, F: FoldRightOp<A>>(op: &F, init: A, o: Option<Box<Cell>>) -> (r:
    Result<A, Error>)
    ensures
        model_res(r) == spec_fold_right(op, init.model(), chain_view(o)),
    decreases o,
{
    match o {
        None => Ok(init),
        Some(c) => {
            let cc = *c;
            proof {
                assert(chain_view(o) =~= seq![cc.value] + chain_view(cc.next));
                assert(chain_view(o).drop_first() =~= chain_view(cc.next));
            }
            match fold_right_chain(op, init, cc.next) {
                Ok(a) => op.call(&cc.value, a),
                Err(e) => Err(e),
            }
        }
    }
}

/// Right fold by recursive descent to the last element, applying the
/// operator while unwinding; stack depth is proportional to the length.
pub fn fold_right<A: Accum, F: FoldRightOp<A>>(op: &F, init: A, l: List) -> (r: Result<A, Error>)
    ensures
        model_res(r) == spec_fold_right(op, init.model(), l@),
{
    fold_right_chain(op, init, l.head)
}

/// Applies the transformer to every element in order; the first rejected
/// element stops the traversal with its error.
pub open spec fn spec_map<F: MapFn>(p: &F, s: Seq<Value>) -> Result<Seq<Value>, Error>
    decreases s.len(),
{
    if s.len() == 0 {
        Ok(Seq::empty())
    } else {
        match p.spec_call(s[0]) {
            Ok(v) => match spec_map(p, s.drop_first()) {
                Ok(t) => Ok(seq![v] + t),
                Err(e) => Err(e),
            },
            Err(e) => Err(e),
        }
    }
}

fn map_chain<F: MapFn>(p: &F, o: Option<Box<Cell>>) -> (r: Result<List, Error>)
    ensures
        model_res(r) == spec_map(p, chain_view(o)),
    decreases o,
{
    match o {
        None => Ok(List::empty()),
        Some(c) => {
            let cc = *c;
            proof {
                assert(chain_view(o) =~= seq![cc.value] + chain_view(cc.next));
                assert(chain_view(o).drop_first() =~= chain_view(cc.next));
            }
            match p.call(&cc.value) {
                Ok(v) => match map_chain(p, cc.next) {
                    Ok(t) => {
                        let out = t.prepend(v);
                        Ok(out)
                    }
                    Err(e) => Err(e),
                },
                Err(e) => Err(e),
            }
        }
    }
}

/// Map as a fold that rebuilds a fresh chain: applies `p` to every element,
/// preserving order and length.
pub fn acc_map<F: MapFn>(p: &F, l: List) -> (r: Result<List, Error>)
    ensures
        model_res(r) == spec_map(p, l@),
        (r matches Ok(m) ==> m@.len() == l@.len()),
{
    let r = map_chain(p, l.head);
    proof {
        lemma_spec_map_len(p, l@);
    }
    r
}

/// A successful map keeps the length of its input.
pub proof fn lemma_spec_map_len<F: MapFn>(p: &F, s: Seq<Value>)
    ensures
        spec_map(p, s) matches Ok(t) ==> t.len() == s.len(),
    decreases s.len(),
{
    if s.len() > 0 {
        lemma_spec_map_len(p, s.drop_first());
    }
}

/// Keeps the elements the predicate accepts, in their original relative
/// order; the first element the predicate rejects with an error stops the
/// traversal.
pub open spec fn spec_filter<P: Predicate>(p: &P, s: Seq<Value>) -> Result<Seq<Value>, Error>
    decreases s.len(),
{
    if s.len() == 0 {
        Ok(Seq::empty())
    } else {
        match p.spec_call(s[0]) {
            Ok(true) => match spec_filter(p, s.drop_first()) {
                Ok(t) => Ok(seq![s[0]] + t),
                Err(e) => Err(e),
            },
            Ok(false) => spec_filter(p, s.drop_first()),
            Err(e) => Err(e),
        }
    }
}

fn filter_chain<P: Predicate>(p: &P, o: Option<Box<Cell>>) -> (r: Result<List, Error>)
    ensures
        model_res(r) == spec_filter(p, chain_view(o)),
    decreases o,
{
    match o {
        None => Ok(List::empty()),
        Some(c) => {
            let cc = *c;
            proof {
                assert(chain_view(o) =~= seq![cc.value] + chain_view(cc.next));
                assert(chain_view(o).drop_first() =~= chain_view(cc.next));
            }
            match p.call(&cc.value) {
                Ok(true) => match filter_chain(p, cc.next) {
                    Ok(t) => Ok(t.prepend(cc.value)),
                    Err(e) => Err(e),
                },
                Ok(false) => filter_chain(p, cc.next),
                Err(e) => Err(e),
            }
        }
    }
}

/// Keeps the elements the predicate accepts, preserving relative order.
pub fn filter<P: Predicate>(p: &P, l: List) -> (r: Result<List, Error>)
    ensures
        model_res(r) == spec_filter(p, l@),
{
    filter_chain(p, l.head)
}

/// Extends `l1`'s tail with every element of `l2`, in order; the first
/// operand's identity is consumed.
pub fn append(l1: List, l2: List) -> (r: List)
    ensures
        r@ == l1@ + l2@,
        r@.len() == l1@.len() + l2@.len(),
{
    l1.append_list(l2)
}

/// Counts the cells of the chain by full traversal.
pub fn length(l: &List) -> (n: usize)
    requires
        l@.len() <= usize::MAX,
    ensures
        n == l@.len(),
{
    l.len()
}

/// The integer scalars `low`, `low + 1`, .., `high`, in order; empty when
/// `low > high`.
pub open spec fn interval_view(low: int, high: int) -> Seq<Value> {
    if low > high {
        Seq::empty()
    } else {
        Seq::new((high - low + 1) as nat, |i: int| Value::Int((low + i) as i64))
    }
}

/// Builds the list of the integers from `low` through `high`, in order.
pub fn enumerate_interval(low: i64, high: i64) -> (r: List)
    requires
        low > i64::MIN,
    ensures
        r@ == interval_view(low as int, high as int),
{
    let mut out = List::empty();
    if low > high {
        return out;
    }
    let mut k: i64 = high;
    while k >= low
        invariant
            low > i64::MIN,
            low - 1 <= k <= high,
            out@ == interval_view(k as int + 1, high as int),
        decreases k - low + 1,
    {
        out = out.prepend(Value::Int(k));
        proof {
            assert(out@ =~= interval_view(k as int, high as int));
        }
        k = k - 1;
    }
    out
}

/// The leaves of a value: a scalar is one leaf; a nested list contributes
/// the leaves of its elements, in order.
pub open spec fn flat_val(v: Value) -> Seq<Value>
    decreases v,
{
    match v {
        Value::Int(_) => seq![v],
        Value::List(l) => flat_chain(l.head),
    }
}

/// The leaves of a chain, in left-to-right, depth-first order.
pub open spec fn flat_chain(o: Option<Box<Cell>>) -> Seq<Value>
    decreases o,
{
    match o {
        None => Seq::empty(),
        Some(c) => flat_val(c.value) + flat_chain(c.next),
    }
}

fn flatten_chain(o: Option<Box<Cell>>) -> (r: List)
    ensures
        r@ == flat_chain(o),
    decreases o,
{
    match o {
        None => List::empty(),
        Some(c) => {
            let cc = *c;
            proof {
                assert(flat_chain(o) == flat_val(cc.value) + flat_chain(cc.next));
            }
            let rest = flatten_chain(cc.next);
            match cc.value {
                Value::Int(x) => {
                    let out = rest.prepend(Value::Int(x));
                    proof {
                        assert(flat_val(Value::Int(x)) =~= seq![Value::Int(x)]);
                        assert(out@ =~= flat_chain(o));
                    }
                    out
                }
                Value::List(inner) => {
                    let flat_inner = flatten_chain(inner.head);
                    let out = flat_inner.append_list(rest);
                    proof {
                        assert(flat_val(Value::List(inner)) == flat_chain(inner.head));
                        assert(out@ =~= flat_chain(o));
                    }
                    out
                }
            }
        }
    }
}

/// Flattens a nested structure into one flat chain of scalars, in
/// left-to-right, depth-first order. An empty input yields an empty output.
pub fn enumerate_tree(l: List) -> (r: List)
    ensures
        r@ == flat_chain(l.head),
{
    flatten_chain(l.head)
}

fn count_chain(o: &Option<Box<Cell>>) -> (n: usize)
    requires
        flat_chain(*o).len() <= usize::MAX,
    ensures
        n == flat_chain(*o).len(),
    decreases o,
{
    match o {
        None => 0,
        Some(c) => {
            proof {
                assert(flat_chain(*o).len() == flat_val(c.value).len() + flat_chain(
                    c.next,
                ).len());
            }
            let here = match &c.value {
                Value::Int(_) => 1,
                Value::List(inner) => count_chain(&inner.head),
            };
            let rest = count_chain(&c.next);
            here + rest
        }
    }
}

/// Counts the leaves of a nested structure: the number of scalars reachable
/// depth-first.
pub fn count_leaves(l: &List) -> (n: usize)
    requires
        flat_chain(l.head).len() <= usize::MAX,
    ensures
        n == flat_chain(l.head).len(),
{
    count_chain(&l.head)
}

/// Horner evaluation of a polynomial at `x`, coefficients in order of
/// ascending degree: `a0 + x * (a1 + x * (a2 + ..))`, every intermediate
/// product and sum held to the scalar range. A non-scalar coefficient is a
/// type mismatch.
pub open spec fn spec_horner(x: int, s: Seq<Value>) -> Result<int, Error>
    decreases s.len(),
{
    if s.len() == 0 {
        Ok(0)
    } else {
        match s[0] {
            Value::List(_) => Err(Error::TypeMismatch),
            Value::Int(a) => match spec_horner(x, s.drop_first()) {
                Err(e) => Err(e),
                Ok(sub) => if !(i64::MIN <= x * sub <= i64::MAX) {
                    Err(Error::Overflow)
                } else if !(i64::MIN <= a + x * sub <= i64::MAX) {
                    Err(Error::Overflow)
                } else {
                    Ok(a + x * sub)
                },
            },
        }
    }
}

fn horner_chain(x: i64, o: &Option<Box<Cell>>) -> (r: Result<i64, Error>)
    ensures
        model_res(r) == spec_horner(x as int, chain_view(*o)),
    decreases o,
{
    match o {
        None => Ok(0),
        Some(c) => {
            proof {
                assert(chain_view(*o) =~= seq![c.value] + chain_view(c.next));
                assert(chain_view(*o).drop_first() =~= chain_view(c.next));
            }
            match &c.value {
                Value::List(_) => Err(Error::TypeMismatch),
                Value::Int(a) => match horner_chain(x, &c.next) {
                    Err(e) => Err(e),
                    Ok(sub) => match x.checked_mul(sub) {
                        None => Err(Error::Overflow),
                        Some(p) => match a.checked_add(p) {
                            None => Err(Error::Overflow),
                            Some(s) => Ok(s),
                        },
                    },
                },
            }
        }
    }
}

/// Evaluates a polynomial at `x` by Horner's rule; the coefficient list
/// starts with the constant term.
pub fn horner_eval(x: i64, coef: &List) -> (r: Result<i64, Error>)
    ensures
        model_res(r) == spec_horner(x as int, coef@),
{
    horner_chain(x, &coef.head)
}

/// The column count of a list of rows: the length of its first row.
pub open spec fn ncols(rows: Seq<Value>) -> int {
    if rows.len() == 0 {
        0
    } else {
        as_list(rows[0])@.len() as int
    }
}

/// Every element is a nested list, and every row has the first row's length.
pub open spec fn rows_rectangular(rows: Seq<Value>) -> bool {
    forall|i: int|
        0 <= i < rows.len() ==> (#[trigger] rows[i]) is List && as_list(rows[i])@.len() == ncols(
            rows,
        )
}

/// Column `j` of a list of rows: the `j`-th element of every row, top to
/// bottom.
pub open spec fn column(rows: Seq<Value>, j: int) -> Seq<Value> {
    Seq::new(rows.len(), |i: int| as_list(rows[i])@[j])
}

fn same_len(x: &Option<Box<Cell>>, y: &Option<Box<Cell>>) -> (b: bool)
    ensures
        b == (chain_view(*x).len() == chain_view(*y).len()),
    decreases x,
{
    match (x, y) {
        (None, None) => true,
        (Some(cx), Some(cy)) => same_len(&cx.next, &cy.next),
        (None, Some(cy)) => {
            proof {
                assert(chain_view(*y).len() > 0);
            }
            false
        }
        (Some(cx), None) => {
            proof {
                assert(chain_view(*x).len() > 0);
            }
            false
        }
    }
}

fn check_rows(o: &Option<Box<Cell>>, first: &List) -> (b: bool)
    ensures
        b == (forall|i: int|
            0 <= i < chain_view(*o).len() ==> (#[trigger] chain_view(*o)[i]) is List && as_list(
                chain_view(*o)[i],
            )@.len() == first@.len()),
    decreases o,
{
    match o {
        None => true,
        Some(c) => {
            proof {
                assert(chain_view(*o) =~= seq![c.value] + chain_view(c.next));
            }
            match &c.value {
                Value::Int(_) => {
                    proof {
                        assert(chain_view(*o)[0] == c.value);
                    }
                    false
                }
                Value::List(row) => {
                    let head_ok = same_len(&row.head, &first.head);
                    if !head_ok {
                        proof {
                            assert(chain_view(*o)[0] == c.value);
                            assert(as_list(c.value) == *row);
                        }
                        false
                    } else {
                        let rest_ok = check_rows(&c.next, first);
                        proof {
                            if rest_ok {
                                assert forall|i: int|
                                    0 <= i < chain_view(*o).len() implies (#[trigger] chain_view(
                                    *o,
                                )[i]) is List && as_list(chain_view(*o)[i])@.len()
                                    == first@.len() by {
                                    if i == 0 {
                                        assert(chain_view(*o)[0] == c.value);
                                        assert(as_list(c.value) == *row);
                                    } else {
                                        assert(chain_view(*o)[i] == chain_view(c.next)[i - 1]);
                                    }
                                }
                            } else {
                                let i0 = choose|i: int|
                                    !(0 <= i < chain_view(c.next).len() ==> (
                                    #[trigger] chain_view(c.next)[i]) is List && as_list(
                                        chain_view(c.next)[i],
                                    )@.len() == first@.len());
                                assert(chain_view(*o)[i0 + 1] == chain_view(c.next)[i0]);
                            }
                        }
                        rest_ok
                    }
                }
            }
        }
    }
}

/// Decides whether a list of rows is rectangular: every element a nested
/// list, all of one length.
pub fn check_rectangular(l: &List) -> (b: bool)
    ensures
        b == rows_rectangular(l@),
{
    match &l.head {
        None => true,
        Some(c) => {
            match &c.value {
                Value::Int(_) => {
                    proof {
                        assert(l@[0] == c.value);
                    }
                    false
                }
                Value::List(first) => {
                    let b = check_rows(&l.head, first);
                    proof {
                        assert(l@[0] == c.value);
                        assert(as_list(l@[0]) == *first);
                        if b {
                            assert forall|i: int| 0 <= i < l@.len() implies (#[trigger] l@[i])
                                is List && as_list(l@[i])@.len() == ncols(l@) by {
                                assert(chain_view(l.head)[i] == l@[i]);
                            }
                        }
                    }
                    b
                }
            }
        }
    }
}

spec fn rows_nonempty(rows: Seq<Value>) -> bool {
    forall|i: int|
        0 <= i < rows.len() ==> (#[trigger] rows[i]) is List && as_list(rows[i])@.len() > 0
}

fn split_rows(o: &Option<Box<Cell>>) -> (r: Result<(List, List), Error>)
    ensures
        match r {
            Ok(p) => {
                &&& rows_nonempty(chain_view(*o))
                &&& p.0@.len() == chain_view(*o).len()
                &&& p.1@.len() == chain_view(*o).len()
                &&& forall|i: int|
                    0 <= i < chain_view(*o).len() ==> (#[trigger] p.0@[i]) == as_list(
                        chain_view(*o)[i],
                    )@[0]
                &&& forall|i: int|
                    0 <= i < chain_view(*o).len() ==> (#[trigger] p.1@[i]) is List && as_list(
                        p.1@[i],
                    )@ == as_list(chain_view(*o)[i])@.drop_first()
            },
            Err(e) => e == Error::StructuralPrecondition && !rows_nonempty(chain_view(*o)),
        },
    decreases o,
{
    match o {
        None => Ok((List::empty(), List::empty())),
        Some(c) => {
            proof {
                assert(chain_view(*o) =~= seq![c.value] + chain_view(c.next));
                assert(chain_view(*o)[0] == c.value);
            }
            match &c.value {
                Value::Int(_) => Err(Error::StructuralPrecondition),
                Value::List(row) => {
                    match &row.head {
                        None => {
                            proof {
                                assert(as_list(c.value) == *row);
                            }
                            Err(Error::StructuralPrecondition)
                        }
                        Some(ic) => {
                            match split_rows(&c.next) {
                                Err(e) => {
                                    proof {
                                        let i0 = choose|i: int|
                                            !(0 <= i < chain_view(c.next).len() ==> (
                                            #[trigger] chain_view(c.next)[i]) is List && as_list(
                                                chain_view(c.next)[i],
                                            )@.len() > 0);
                                        assert(chain_view(*o)[i0 + 1] == chain_view(c.next)[i0]);
                                    }
                                    Err(e)
                                }
                                Ok((cars, cdrs)) => {
                                    let carv = copy_value(&ic.value);
                                    let cdr_list = List { head: copy_chain(&ic.next) };
                                    let ghost old_cars: Seq<Value> = cars@;
                                    let ghost old_cdrs: Seq<Value> = cdrs@;
                                    let new_cars = cars.prepend(carv);
                                    let new_cdrs = cdrs.prepend(Value::List(cdr_list));
                                    proof {
                                        assert(as_list(c.value) == *row);
                                        assert(row@ =~= seq![ic.value] + chain_view(ic.next));
                                        assert(row@[0] == ic.value);
                                        assert(row@.drop_first() =~= chain_view(ic.next));
                                        assert forall|i: int|
                                            0 <= i < chain_view(*o).len() implies (
                                        #[trigger] new_cars@[i]) == as_list(
                                            chain_view(*o)[i],
                                        )@[0] by {
                                            if i == 0 {
                                                assert(new_cars@[0] == ic.value);
                                            } else {
                                                assert(chain_view(*o)[i] == chain_view(
                                                    c.next,
                                                )[i - 1]);
                                                assert(new_cars@[i] == old_cars[i - 1]);
                                            }
                                        }
                                        assert forall|i: int|
                                            0 <= i < chain_view(*o).len() implies (
                                        #[trigger] new_cdrs@[i]) is List && as_list(new_cdrs@[i])@
                                            == as_list(chain_view(*o)[i])@.drop_first() by {
                                            if i == 0 {
                                                assert(new_cdrs@[0] == Value::List(cdr_list));
                                            } else {
                                                assert(chain_view(*o)[i] == chain_view(
                                                    c.next,
                                                )[i - 1]);
                                                assert(new_cdrs@[i] == old_cdrs[i - 1]);
                                            }
                                        }
                                        assert forall|i: int|
                                            0 <= i < chain_view(*o).len() implies (
                                        #[trigger] chain_view(*o)[i]) is List && as_list(
                                            chain_view(*o)[i],
                                        )@.len() > 0 by {
                                            if i == 0 {
                                            } else {
                                                assert(chain_view(*o)[i] == chain_view(
                                                    c.next,
                                                )[i - 1]);
                                            }
                                        }
                                    }
                                    Ok((new_cars, new_cdrs))
                                }
                            }
                        }
                    }
                }
            }
        }
    }
}

fn acc_n_rect<A: Store, F: FoldOp<A>>(op: &F, init: &A, rows: List) -> (r: Result<List, Error>)
    requires
        rows_rectangular(rows@),
    ensures
        match r {
            Ok(out) => {
                &&& out@.len() == ncols(rows@)
                &&& forall|j: int|
                    0 <= j < ncols(rows@) ==> (#[trigger] spec_fold_left(
                        op,
                        init.model(),
                        column(rows@, j),
                    )) is Ok
                &&& forall|j: int|
                    0 <= j < ncols(rows@) ==> (spec_fold_left(op, init.model(), column(rows@, j))
                        matches Ok(m) ==> A::wraps(m, #[trigger] out@[j]))
            },
            Err(e) => exists|j: int|
                0 <= j < ncols(rows@) && #[trigger] spec_fold_left(
                    op,
                    init.model(),
                    column(rows@, j),
                ) == Err::<A::M, Error>(e),
        },
    decreases ncols(rows@),
{
    let empty_cols = match &rows.head {
        None => true,
        Some(c) => {
            match &c.value {
                Value::List(row) => row.head.is_none(),
                Value::Int(_) => {
                    proof {
                        assert(rows@[0] == c.value);
                        assert(false);
                    }
                    true
                }
            }
        }
    };
    if empty_cols {
        proof {
            if rows@.len() > 0 {
                assert(rows@[0] is List);
                assert(ncols(rows@) == 0);
            }
        }
        return Ok(List::empty());
    }
    proof {
        assert(rows@[0] is List);
        assert(ncols(rows@) > 0);
    }
    match split_rows(&rows.head) {
        Err(_) => {
            proof {
                let i0 = choose|i: int|
                    !(0 <= i < rows@.len() ==> (#[trigger] rows@[i]) is List && as_list(
                        rows@[i],
                    )@.len() > 0);
                assert(rows@[i0] is List && as_list(rows@[i0])@.len() == ncols(rows@));
                assert(false);
            }
            unreached()
        }
        Ok((cars, cdrs)) => {
            let ghost rs: Seq<Value> = rows@;
            let ghost c: int = ncols(rs);
            proof {
                assert(cars@ =~= column(rs, 0));
                assert(rows_rectangular(cdrs@)) by {
                    assert forall|i: int|
                        0 <= i < cdrs@.len() implies (#[trigger] cdrs@[i]) is List && as_list(
                        cdrs@[i],
                    )@.len() == ncols(cdrs@) by {
                        assert(as_list(cdrs@[i])@ == as_list(rs[i])@.drop_first());
                        assert(as_list(cdrs@[0])@ == as_list(rs[0])@.drop_first());
                    }
                }
                assert(ncols(cdrs@) == c - 1);
            }
            let acc0 = init.dup();
            match fold_left(op, acc0, cars) {
                Err(e) => {
                    proof {
                        assert(spec_fold_left(op, init.model(), column(rs, 0)) == Err::<
                            A::M,
                            Error,
                        >(e));
                    }
                    Err(e)
                }
                Ok(a) => {
                    match acc_n_rect(op, init, cdrs) {
                        Err(e) => {
                            proof {
                                let j0 = choose|j: int|
                                    0 <= j < ncols(cdrs@) && #[trigger] spec_fold_left(
                                        op,
                                        init.model(),
                                        column(cdrs@, j),
                                    ) == Err::<A::M, Error>(e);
                                assert(column(cdrs@, j0) =~= column(rs, j0 + 1));
                                assert(spec_fold_left(op, init.model(), column(rs, j0 + 1))
                                    == Err::<A::M, Error>(e));
                            }
                            Err(e)
                        }
                        Ok(rec_out) => {
                            let ghost rec_view: Seq<Value> = rec_out@;
                            let w = a.wrap();
                            let out = rec_out.prepend(w);
                            proof {
                                assert(spec_fold_left(op, init.model(), column(rs, 0)) == Ok::<
                                    A::M,
                                    Error,
                                >(a.model()));
                                assert forall|j: int|
                                    0 <= j < ncols(rows@) implies (#[trigger] spec_fold_left(
                                    op,
                                    init.model(),
                                    column(rows@, j),
                                )) is Ok && (spec_fold_left(op, init.model(), column(rows@, j))
                                    matches Ok(m) ==> A::wraps(m, out@[j])) by {
                                    if j == 0 {
                                        assert(out@[0] == w);
                                        assert(column(rows@, 0) == column(rs, 0));
                                    } else {
                                        assert(out@[j] == rec_view[j - 1]);
                                        assert(column(cdrs@, j - 1) =~= column(rows@, j));
                                    }
                                }
                            }
                            Ok(out)
                        }
                    }
                }
            }
        }
    }
}

/// Column-wise accumulation over a list of rows: the `j`-th element of the
/// result is the left fold of the operator over column `j`. A list whose
/// elements are not nested lists of one common length is rejected.
pub fn accumulate_n<A: Store, F: FoldOp<A>>(op: &F, init: &A, l: &List) -> (r: Result<List, Error>)
    ensures
        !rows_rectangular(l@) ==> r == Err::<List, Error>(Error::StructuralPrecondition),
        rows_rectangular(l@) ==> match r {
            Ok(out) => {
                &&& out@.len() == ncols(l@)
                &&& forall|j: int|
                    0 <= j < ncols(l@) ==> (#[trigger] spec_fold_left(
                        op,
                        init.model(),
                        column(l@, j),
                    )) is Ok
                &&& forall|j: int|
                    0 <= j < ncols(l@) ==> (spec_fold_left(op, init.model(), column(l@, j))
                        matches Ok(m) ==> A::wraps(m, #[trigger] out@[j]))
            },
            Err(e) => exists|j: int|
                0 <= j < ncols(l@) && #[trigger] spec_fold_left(op, init.model(), column(l@, j))
                    == Err::<A::M, Error>(e),
        },
{
    if !check_rectangular(l) {
        return Err(Error::StructuralPrecondition);
    }
    let work = l.duplicate();
    acc_n_rect(op, init, work)
}

} // verus!
