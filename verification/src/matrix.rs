//! Matrix algebra over nested lists: dot product, matrix times vector,
//! transposition by column-wise accumulation, and matrix times matrix.
//!
//! A matrix is a list of rows; each row is a nested list of integer scalars.

use vstd::prelude::*;

use crate::algo::accumulate_n;
use crate::algo::column;
use crate::algo::ncols;
use crate::algo::rows_rectangular;
use crate::algo::spec_fold_left;
use crate::list::Cell;
use crate::list::Error;
use crate::list::List;
use crate::list::Value;
use crate::list::as_list;
use crate::list::chain_view;
use crate::ops::Accum;
use crate::ops::FoldOp;
use crate::ops::ListConsOp;
use crate::ops::Store;
use crate::ops::model_res;

verus! {

/// Every element of every row is an integer scalar.
pub open spec fn entries_int(rows: Seq<Value>) -> bool {
    forall|i: int, j: int|
        0 <= i < rows.len() && 0 <= j < as_list(rows[i])@.len() ==> (#[trigger] as_list(
            rows[i],
        )@[j]) is Int
}

/// Every element of the sequence is an integer scalar.
pub open spec fn all_ints(s: Seq<Value>) -> bool {
    forall|i: int| 0 <= i < s.len() ==> (#[trigger] s[i]) is Int
}

/// Folding `list_cons` from an empty accumulator rebuilds an all-scalar
/// sequence unchanged, and rejects any other with a type mismatch.
pub proof fn lemma_list_cons_fold(acc: Seq<Value>, s: Seq<Value>)
    ensures
        all_ints(s) ==> spec_fold_left(&(ListConsOp), acc, s) == Ok::<Seq<Value>, Error>(acc + s),
        !all_ints(s) ==> spec_fold_left(&(ListConsOp), acc, s) == Err::<Seq<Value>, Error>(
            Error::TypeMismatch,
        ),
    decreases s.len(),
{
    if s.len() == 0 {
        assert(acc + s =~= acc);
    } else {
        match s[0] {
            Value::Int(_) => {
                lemma_list_cons_fold(acc.push(s[0]), s.drop_first());
                if all_ints(s) {
                    assert(all_ints(s.drop_first())) by {
                        assert(forall|i: int|
                            0 <= i < s.drop_first().len() ==> #[trigger] s.drop_first()[i] == s[i
                                + 1]);
                    }
                    assert(acc.push(s[0]) + s.drop_first() =~= acc + s);
                } else {
                    let i0 = choose|i: int| 0 <= i < s.len() && !((#[trigger] s[i]) is Int);
                    assert(s.drop_first()[i0 - 1] == s[i0]);
                    assert(!all_ints(s.drop_first()));
                }
            }
            Value::List(_) => {
                assert(!all_ints(s));
            }
        }
    }
}

/// Transposes a rectangular matrix of integer scalars: the `j`-th row of
/// the result is the `j`-th column of the input. A non-rectangular input
/// is rejected as a structural precondition failure; a rectangular input
/// holding a non-scalar entry as a type mismatch.
pub fn transpose(m: &List) -> (r: Result<List, Error>)
    ensures
        !rows_rectangular(m@) ==> r == Err::<List, Error>(Error::StructuralPrecondition),
        rows_rectangular(m@) && entries_int(m@) ==> r is Ok,
        rows_rectangular(m@) && entries_int(m@) ==> (r matches Ok(out) ==> out@.len() == ncols(m@)
            && forall|j: int|
            0 <= j < ncols(m@) ==> (#[trigger] out@[j]) is List && as_list(out@[j])@ == column(
                m@,
                j,
            )),
        rows_rectangular(m@) && !entries_int(m@) ==> r == Err::<List, Error>(Error::TypeMismatch),
{
    let init = List::empty();
    let op = ListConsOp;
    let r = accumulate_n(&op, &init, m);
    proof {
        if rows_rectangular(m@) {
            assert forall|j: int| 0 <= j < ncols(m@) implies #[trigger] spec_fold_left(
                &op,
                init.model(),
                column(m@, j),
            ) == (if all_ints(column(m@, j)) {
                Ok::<Seq<Value>, Error>(column(m@, j))
            } else {
                Err::<Seq<Value>, Error>(Error::TypeMismatch)
            }) by {
                lemma_list_cons_fold(Seq::empty(), column(m@, j));
                assert(Seq::<Value>::empty() + column(m@, j) =~= column(m@, j));
            }
            if entries_int(m@) {
                assert forall|j: int| 0 <= j < ncols(m@) implies all_ints(column(m@, j)) by {
                    assert forall|i: int| 0 <= i < column(m@, j).len() implies (#[trigger] column(
                        m@,
                        j,
                    )[i]) is Int by {
                        assert(column(m@, j)[i] == as_list(m@[i])@[j]);
                    }
                }
                if r is Err {
                    let e = r->Err_0;
                    let je = choose|j: int|
                        0 <= j < ncols(m@) && #[trigger] spec_fold_left(
                            &op,
                            init.model(),
                            column(m@, j),
                        ) == Err::<Seq<Value>, Error>(e);
                    assert(false);
                } else {
                    let out = r->Ok_0;
                    assert forall|j: int| 0 <= j < ncols(m@) implies (#[trigger] out@[j]) is List
                        && as_list(out@[j])@ == column(m@, j) by {
                        assert(spec_fold_left(&op, init.model(), column(m@, j)) == Ok::<
                            Seq<Value>,
                            Error,
                        >(column(m@, j)));
                        assert(List::wraps(column(m@, j), out@[j]));
                    }
                }
            } else {
                let (i0, j0) = choose|i: int, j: int|
                    0 <= i < m@.len() && 0 <= j < as_list(m@[i])@.len() && !((#[trigger] as_list(
                        m@[i],
                    )@[j]) is Int);
                assert(as_list(m@[i0])@.len() == ncols(m@));
                assert(column(m@, j0)[i0] == as_list(m@[i0])@[j0]);
                assert(!all_ints(column(m@, j0)));
                assert(spec_fold_left(&op, init.model(), column(m@, j0)) == Err::<
                    Seq<Value>,
                    Error,
                >(Error::TypeMismatch));
                if r is Ok {
                    assert((#[trigger] spec_fold_left(&op, init.model(), column(m@, j0))) is Ok);
                    assert(false);
                } else {
                    let e = r->Err_0;
                    let je = choose|j: int|
                        0 <= j < ncols(m@) && #[trigger] spec_fold_left(
                            &op,
                            init.model(),
                            column(m@, j),
                        ) == Err::<Seq<Value>, Error>(e);
                    assert(e == Error::TypeMismatch);
                    assert(r == Err::<List, Error>(Error::TypeMismatch));
                }
            }
        }
    }
    r
}

/// The running dot product of two sequences of integer scalars, starting
/// from `acc`: pairs are multiplied front to back and added to the
/// accumulator, with every intermediate product and sum held to the scalar
/// range. Sequences of unequal length are a structural failure; a
/// non-scalar element a type mismatch.
pub open spec fn spec_dot(v: Seq<Value>, w: Seq<Value>, acc: int) -> Result<int, Error>
    decreases v.len(),
{
    if v.len() == 0 && w.len() == 0 {
        Ok(acc)
    } else if v.len() == 0 || w.len() == 0 {
        Err(Error::StructuralPrecondition)
    } else {
        match (v[0], w[0]) {
            (Value::Int(a), Value::Int(b)) => {
                if !(i64::MIN <= a * b <= i64::MAX) {
                    Err(Error::Overflow)
                } else if !(i64::MIN <= acc + a * b <= i64::MAX) {
                    Err(Error::Overflow)
                } else {
                    spec_dot(v.drop_first(), w.drop_first(), acc + a * b)
                }
            }
            _ => Err(Error::TypeMismatch),
        }
    }
}

fn dot_chain(x: &Option<Box<Cell>>, y: &Option<Box<Cell>>, acc: i64) -> (r: Result<i64, Error>)
    ensures
        model_res(r) == spec_dot(chain_view(*x), chain_view(*y), acc as int),
    decreases x,
{
    match (x, y) {
        (None, None) => Ok(acc),
        (Some(cx), Some(cy)) => {
            proof {
                assert(chain_view(*x) =~= seq![cx.value] + chain_view(cx.next));
                assert(chain_view(*x).drop_first() =~= chain_view(cx.next));
                assert(chain_view(*y) =~= seq![cy.value] + chain_view(cy.next));
                assert(chain_view(*y).drop_first() =~= chain_view(cy.next));
            }
            match (&cx.value, &cy.value) {
                (Value::Int(a), Value::Int(b)) => {
                    match a.checked_mul(*b) {
                        None => Err(Error::Overflow),
                        Some(p) => match acc.checked_add(p) {
                            None => Err(Error::Overflow),
                            Some(s) => dot_chain(&cx.next, &cy.next, s),
                        },
                    }
                }
                _ => Err(Error::TypeMismatch),
            }
        }
        _ => {
            proof {
                if chain_view(*x).len() == 0 {
                    assert(chain_view(*y).len() > 0);
                } else {
                    assert(chain_view(*y).len() == 0);
                }
            }
            Err(Error::StructuralPrecondition)
        }
    }
}

/// The dot product of two equal-length lists of integer scalars.
pub fn dot_product(v: &List, w: &List) -> (r: Result<i64, Error>)
    ensures
        model_res(r) == spec_dot(v@, w@, 0),
{
    dot_chain(&v.head, &w.head, 0)
}

/// Maps every row of the matrix to its dot product with the vector; a row
/// that is not a nested list is a type mismatch.
pub open spec fn spec_mtv(rows: Seq<Value>, v: Seq<Value>) -> Result<Seq<Value>, Error>
    decreases rows.len(),
{
    if rows.len() == 0 {
        Ok(Seq::empty())
    } else {
        match rows[0] {
            Value::Int(_) => Err(Error::TypeMismatch),
            Value::List(row) => match spec_dot(row@, v, 0) {
                Err(e) => Err(e),
                Ok(d) => match spec_mtv(rows.drop_first(), v) {
                    Err(e) => Err(e),
                    Ok(t) => Ok(seq![Value::Int(d as i64)] + t),
                },
            },
        }
    }
}

fn mtv_chain(o: &Option<Box<Cell>>, v: &List) -> (r: Result<List, Error>)
    ensures
        model_res(r) == spec_mtv(chain_view(*o), v@),
    decreases o,
{
    match o {
        None => Ok(List::empty()),
        Some(c) => {
            proof {
                assert(chain_view(*o) =~= seq![c.value] + chain_view(c.next));
                assert(chain_view(*o).drop_first() =~= chain_view(c.next));
            }
            match &c.value {
                Value::Int(_) => Err(Error::TypeMismatch),
                Value::List(row) => match dot_product(row, v) {
                    Err(e) => Err(e),
                    Ok(d) => match mtv_chain(&c.next, v) {
                        Err(e) => Err(e),
                        Ok(t) => Ok(t.prepend(Value::Int(d))),
                    },
                },
            }
        }
    }
}

/// Multiplies a matrix by a vector: one dot product per row.
pub fn matrix_times_vector(m: &List, v: &List) -> (r: Result<List, Error>)
    ensures
        model_res(r) == spec_mtv(m@, v@),
{
    mtv_chain(&m.head, v)
}

/// Row `a` times every column of `n`, columns `j` through `c - 1`: one dot
/// product per column, the column passed as the left operand.
pub open spec fn spec_row_times_cols(a: Seq<Value>, n: Seq<Value>, j: int, c: int) -> Result<
    Seq<Value>,
    Error,
>
    decreases c - j,
{
    if j >= c {
        Ok(Seq::empty())
    } else {
        match spec_dot(column(n, j), a, 0) {
            Err(e) => Err(e),
            Ok(d) => match spec_row_times_cols(a, n, j + 1, c) {
                Err(e) => Err(e),
                Ok(t) => Ok(seq![Value::Int(d as i64)] + t),
            },
        }
    }
}

/// Row `i` of the product of `m` and `n`: row `i` of `m` times every
/// column of `n`.
pub open spec fn spec_mat_mul_row(m: Seq<Value>, n: Seq<Value>, i: int) -> Result<
    Seq<Value>,
    Error,
> {
    match m[i] {
        Value::Int(_) => Err(Error::TypeMismatch),
        Value::List(row) => spec_row_times_cols(row@, n, 0, ncols(n)),
    }
}

proof fn lemma_mtv_on_columns(tn: Seq<Value>, n: Seq<Value>, a: Seq<Value>, j: int)
    requires
        0 <= j <= ncols(n),
        tn.len() == ncols(n),
        forall|k: int|
            0 <= k < ncols(n) ==> (#[trigger] tn[k]) is List && as_list(tn[k])@ == column(n, k),
    ensures
        spec_mtv(tn.skip(j), a) == spec_row_times_cols(a, n, j, ncols(n)),
    decreases ncols(n) - j,
{
    if j == ncols(n) {
        assert(tn.skip(j) =~= Seq::<Value>::empty());
    } else {
        assert(tn.skip(j)[0] == tn[j]);
        assert(tn.skip(j).len() == ncols(n) - j);
        assert(tn.skip(j).drop_first() =~= tn.skip(j + 1));
        lemma_mtv_on_columns(tn, n, a, j + 1);
    }
}

fn mmm_rows(o: &Option<Box<Cell>>, tn: &List, n: &List) -> (r: Result<List, Error>)
    requires
        tn@.len() == ncols(n@),
        forall|k: int|
            0 <= k < ncols(n@) ==> (#[trigger] tn@[k]) is List && as_list(tn@[k])@ == column(
                n@,
                k,
            ),
    ensures
        match r {
            Ok(out) => {
                &&& out@.len() == chain_view(*o).len()
                &&& forall|i: int|
                    0 <= i < chain_view(*o).len() ==> (#[trigger] spec_mat_mul_row(
                        chain_view(*o),
                        n@,
                        i,
                    )) is Ok
                &&& forall|i: int|
                    0 <= i < chain_view(*o).len() ==> (spec_mat_mul_row(chain_view(*o), n@, i)
                        matches Ok(t) ==> (#[trigger] out@[i]) is List && as_list(out@[i])@ == t)
            },
            Err(e) => exists|i: int|
                0 <= i < chain_view(*o).len() && #[trigger] spec_mat_mul_row(chain_view(*o), n@, i)
                    == Err::<Seq<Value>, Error>(e),
        },
    decreases o,
{
    match o {
        None => Ok(List::empty()),
        Some(c) => {
            proof {
                assert(chain_view(*o) =~= seq![c.value] + chain_view(c.next));
                assert(chain_view(*o)[0] == c.value);
            }
            match &c.value {
                Value::Int(_) => {
                    proof {
                        assert(spec_mat_mul_row(chain_view(*o), n@, 0) == Err::<
                            Seq<Value>,
                            Error,
                        >(Error::TypeMismatch));
                    }
                    Err(Error::TypeMismatch)
                }
                Value::List(row) => {
                    proof {
                        assert(tn@.skip(0) =~= tn@);
                        lemma_mtv_on_columns(tn@, n@, row@, 0);
                    }
                    match matrix_times_vector(tn, row) {
                        Err(e) => {
                            proof {
                                assert(spec_mat_mul_row(chain_view(*o), n@, 0) == Err::<
                                    Seq<Value>,
                                    Error,
                                >(e));
                            }
                            Err(e)
                        }
                        Ok(rowres) => {
                            match mmm_rows(&c.next, tn, n) {
                                Err(e) => {
                                    proof {
                                        let i0 = choose|i: int|
                                            0 <= i < chain_view(c.next).len()
                                                && #[trigger] spec_mat_mul_row(
                                                chain_view(c.next),
                                                n@,
                                                i,
                                            ) == Err::<Seq<Value>, Error>(e);
                                        assert(chain_view(*o)[i0 + 1] == chain_view(c.next)[i0]);
                                        assert(chain_view(*o).drop_first() =~= chain_view(c.next));
                                        assert(spec_mat_mul_row(chain_view(*o), n@, i0 + 1)
                                            == spec_mat_mul_row(chain_view(c.next), n@, i0));
                                    }
                                    Err(e)
                                }
                                Ok(t) => {
                                    let ghost t_view: Seq<Value> = t@;
                                    let out = t.prepend(Value::List(rowres));
                                    proof {
                                        assert(chain_view(*o).drop_first() =~= chain_view(c.next));
                                        assert forall|i: int|
                                            0 <= i < chain_view(*o).len() implies (
                                        #[trigger] spec_mat_mul_row(chain_view(*o), n@, i)) is Ok
                                            && (spec_mat_mul_row(chain_view(*o), n@, i) matches Ok(
                                            t2,
                                        ) ==> out@[i] is List && as_list(out@[i])@ == t2) by {
                                            if i == 0 {
                                                assert(out@[0] == Value::List(rowres));
                                            } else {
                                                assert(chain_view(*o)[i] == chain_view(
                                                    c.next,
                                                )[i - 1]);
                                                assert(spec_mat_mul_row(chain_view(*o), n@, i)
                                                    == spec_mat_mul_row(
                                                    chain_view(c.next),
                                                    n@,
                                                    i - 1,
                                                ));
                                                assert(out@[i] == t_view[i - 1]);
                                            }
                                        }
                                    }
                                    Ok(out)
                                }
                            }
                        }
                    }
                }
            }
        }
    }
}

/// Multiplies two matrices: the right operand is transposed first, then
/// every row of the left operand is dotted against every column. The right
/// operand must be a rectangular matrix of integer scalars; rows of the
/// left operand must be nested lists whose lengths match the right
/// operand's row count.
pub fn matrix_times_matrix(m: &List, n: &List) -> (r: Result<List, Error>)
    ensures
        !rows_rectangular(n@) ==> r == Err::<List, Error>(Error::StructuralPrecondition),
        rows_rectangular(n@) && !entries_int(n@) ==> r == Err::<List, Error>(Error::TypeMismatch),
        rows_rectangular(n@) && entries_int(n@) ==> match r {
            Ok(out) => {
                &&& out@.len() == m@.len()
                &&& forall|i: int|
                    0 <= i < m@.len() ==> (#[trigger] spec_mat_mul_row(m@, n@, i)) is Ok
                &&& forall|i: int|
                    0 <= i < m@.len() ==> (spec_mat_mul_row(m@, n@, i) matches Ok(t) ==> (
                    #[trigger] out@[i]) is List && as_list(out@[i])@ == t)
            },
            Err(e) => exists|i: int|
                0 <= i < m@.len() && #[trigger] spec_mat_mul_row(m@, n@, i) == Err::<
                    Seq<Value>,
                    Error,
                >(e),
        },
{
    match transpose(n) {
        Err(e) => Err(e),
        Ok(tn) => mmm_rows(&m.head, &tn, n),
    }
}

} // verus!
