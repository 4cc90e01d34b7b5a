//! The laws the algorithms obey, stated over the spec functions their
//! contracts use: the map fusion (functor) law, the shape of a filtered
//! sequence, the agreement of the two folds for commutative and associative
//! operators, and the involution of transposition.

use vstd::prelude::*;

use crate::algo::column;
use crate::algo::ncols;
use crate::algo::rows_rectangular;
use crate::algo::spec_fold_left;
use crate::algo::spec_fold_right;
use crate::algo::spec_filter;
use crate::algo::spec_map;
use crate::list::Error;
use crate::list::Value;
use crate::list::as_int;
use crate::list::as_list;
use crate::matrix::all_ints;
use crate::ops::ComposeFn;
use crate::ops::MapFn;
use crate::ops::PlusOp;
use crate::ops::Predicate;

verus! {

/// Mapping `f` and then `g` over a list gives the same sequence as one map
/// of `f` followed by `g`, whenever the first map succeeds: the functor law
/// for `acc_map`.
pub proof fn lemma_map_fusion<F: MapFn, G: MapFn>(f: &F, g: &G, s: Seq<Value>)
    ensures
        spec_map(f, s) matches Ok(t) ==> spec_map(&(ComposeFn { f: *f, g: *g }), s) == spec_map(
            g,
            t,
        ),
    decreases s.len(),
{
    let cf = ComposeFn { f: *f, g: *g };
    if s.len() > 0 {
        lemma_map_fusion(f, g, s.drop_first());
        if spec_map(f, s) is Ok {
            let t = spec_map(f, s)->Ok_0;
            let w = f.spec_call(s[0])->Ok_0;
            let tr = spec_map(f, s.drop_first())->Ok_0;
            assert(t =~= seq![w] + tr);
            assert(t[0] == w);
            assert(t.drop_first() =~= tr);
            match g.spec_call(w) {
                Err(e) => {
                    assert(spec_map(&cf, s) == Err::<Seq<Value>, Error>(e));
                    assert(spec_map(g, t) == Err::<Seq<Value>, Error>(e));
                }
                Ok(v) => {
                    assert(spec_map(&cf, s) == (match spec_map(&cf, s.drop_first()) {
                        Ok(t2) => Ok::<Seq<Value>, Error>(seq![v] + t2),
                        Err(e) => Err::<Seq<Value>, Error>(e),
                    }));
                    assert(spec_map(g, t) == (match spec_map(g, tr) {
                        Ok(t2) => Ok::<Seq<Value>, Error>(seq![v] + t2),
                        Err(e) => Err::<Seq<Value>, Error>(e),
                    }));
                }
            }
        }
    }
}

/// The elements a predicate keeps, as a spec-level test on one value.
pub open spec fn keeps<P: Predicate>(p: &P) -> spec_fn(Value) -> bool {
    |v: Value| p.spec_call(v) == Ok::<bool, Error>(true)
}

/// A successful filter never lengthens its input, and the result is exactly
/// the subsequence of the kept elements, in their original relative order.
pub proof fn lemma_filter_shape<P: Predicate>(p: &P, s: Seq<Value>)
    ensures
        spec_filter(p, s) matches Ok(t) ==> t.len() <= s.len() && t == s.filter(keeps(p)),
    decreases s.len(),
{
    reveal_with_fuel(Seq::<Value>::filter, 3);
    if s.len() == 0 {
        assert(s =~= Seq::<Value>::empty());
        assert(s.filter(keeps(p)) =~= Seq::<Value>::empty());
    } else {
        lemma_filter_shape(p, s.drop_first());
        if spec_filter(p, s) is Ok {
            let head: Seq<Value> = seq![s[0]];
            Seq::<Value>::filter_distributes_over_add(head, s.drop_first(), keeps(p));
            assert(head + s.drop_first() =~= s);
            assert(head.drop_last() =~= Seq::<Value>::empty());
            if keeps(p)(s[0]) {
                assert(head.filter(keeps(p)) =~= seq![s[0]]);
            } else {
                assert(head.filter(keeps(p)) =~= Seq::<Value>::empty());
            }
            let tr = spec_filter(p, s.drop_first())->Ok_0;
            match p.spec_call(s[0]) {
                Ok(true) => {
                    assert(spec_filter(p, s)->Ok_0 =~= seq![s[0]] + tr);
                    assert(seq![s[0]] + tr =~= head.filter(keeps(p)) + s.drop_first().filter(
                        keeps(p),
                    ));
                }
                Ok(false) => {
                    assert(spec_filter(p, s)->Ok_0 =~= Seq::<Value>::empty() + tr);
                    assert(Seq::<Value>::empty() + tr =~= s.filter(keeps(p)));
                }
                Err(_) => {
                    assert(false);
                }
            }
        }
    }
}

/// The strictly left-associative fold of a pure integer operator.
pub open spec fn sfold_left(g: spec_fn(int, int) -> int, a: int, s: Seq<int>) -> int
    decreases s.len(),
{
    if s.len() == 0 {
        a
    } else {
        sfold_left(g, g(a, s[0]), s.drop_first())
    }
}

/// The strictly right-associative fold of a pure integer operator, the
/// element passed first: `g(e1, g(e2, .. g(en, i)))`.
pub open spec fn sfold_right(g: spec_fn(int, int) -> int, i: int, s: Seq<int>) -> int
    decreases s.len(),
{
    if s.len() == 0 {
        i
    } else {
        g(s[0], sfold_right(g, i, s.drop_first()))
    }
}

proof fn lemma_fold_left_shift(g: spec_fn(int, int) -> int, a: int, x: int, s: Seq<int>)
    requires
        forall|u: int, v: int| #[trigger] g(u, v) == g(v, u),
        forall|u: int, v: int, w: int| #[trigger] g(g(u, v), w) == g(u, g(v, w)),
    ensures
        sfold_left(g, g(a, x), s) == g(x, sfold_left(g, a, s)),
    decreases s.len(),
{
    if s.len() > 0 {
        assert(g(g(a, x), s[0]) == g(g(a, s[0]), x));
        lemma_fold_left_shift(g, g(a, s[0]), x, s.drop_first());
    }
}

/// For an associative and commutative operator, the left and the right
/// fold from the same start agree on every sequence.
pub proof fn lemma_fold_left_right_agree(g: spec_fn(int, int) -> int, i: int, s: Seq<int>)
    requires
        forall|u: int, v: int| #[trigger] g(u, v) == g(v, u),
        forall|u: int, v: int, w: int| #[trigger] g(g(u, v), w) == g(u, g(v, w)),
    ensures
        sfold_left(g, i, s) == sfold_right(g, i, s),
    decreases s.len(),
{
    if s.len() > 0 {
        lemma_fold_left_right_agree(g, i, s.drop_first());
        lemma_fold_left_shift(g, i, s[0], s.drop_first());
    }
}

/// The integer scalars of a sequence, as mathematical integers.
pub open spec fn ints_of(s: Seq<Value>) -> Seq<int> {
    s.map_values(|v: Value| as_int(v) as int)
}

/// A successful left fold of `plus` over integer scalars computes the pure
/// left fold of addition.
pub proof fn lemma_plus_fold_left_math(init: int, s: Seq<Value>)
    requires
        all_ints(s),
    ensures
        spec_fold_left(&(PlusOp), init, s) matches Ok(x) ==> x == sfold_left(
            |a: int, b: int| a + b,
            init,
            ints_of(s),
        ),
    decreases s.len(),
{
    let g = |a: int, b: int| a + b;
    if s.len() > 0 && spec_fold_left(&(PlusOp), init, s) is Ok {
        assert(s[0] is Int);
        let b = as_int(s[0]) as int;
        assert(all_ints(s.drop_first())) by {
            assert(forall|i: int|
                0 <= i < s.drop_first().len() ==> #[trigger] s.drop_first()[i] == s[i + 1]);
        }
        lemma_plus_fold_left_math(init + b, s.drop_first());
        assert(ints_of(s)[0] == b);
        assert(ints_of(s).drop_first() =~= ints_of(s.drop_first()));
        assert(g(init, b) == init + b);
    }
}

/// A successful right fold of `plus` over integer scalars computes the pure
/// right fold of addition.
pub proof fn lemma_plus_fold_right_math(init: int, s: Seq<Value>)
    requires
        all_ints(s),
    ensures
        spec_fold_right(&(PlusOp), init, s) matches Ok(x) ==> x == sfold_right(
            |a: int, b: int| a + b,
            init,
            ints_of(s),
        ),
    decreases s.len(),
{
    let g = |a: int, b: int| a + b;
    if s.len() > 0 && spec_fold_right(&(PlusOp), init, s) is Ok {
        assert(all_ints(s.drop_first())) by {
            assert(forall|i: int|
                0 <= i < s.drop_first().len() ==> #[trigger] s.drop_first()[i] == s[i + 1]);
        }
        lemma_plus_fold_right_math(init, s.drop_first());
        assert(ints_of(s)[0] == as_int(s[0]) as int);
        assert(ints_of(s).drop_first() =~= ints_of(s.drop_first()));
    }
}

/// When both folds of `plus` succeed on a list of integer scalars, they
/// return the same sum: addition is associative and commutative.
pub proof fn lemma_plus_folds_agree(init: int, s: Seq<Value>)
    requires
        all_ints(s),
        spec_fold_left(&(PlusOp), init, s) is Ok,
        spec_fold_right(&(PlusOp), init, s) is Ok,
    ensures
        spec_fold_left(&(PlusOp), init, s)->Ok_0 == spec_fold_right(&(PlusOp), init, s)->Ok_0,
{
    let g = |a: int, b: int| a + b;
    lemma_plus_fold_left_math(init, s);
    lemma_plus_fold_right_math(init, s);
    assert(forall|u: int, v: int| #[trigger] g(u, v) == g(v, u));
    assert(forall|u: int, v: int, w: int| #[trigger] g(g(u, v), w) == g(u, g(v, w)));
    lemma_fold_left_right_agree(g, init, ints_of(s));
}

/// Transposing a rectangular matrix twice gives the matrix back, row for
/// row: `t` here is any matrix whose rows are the columns of `m`, and `u`
/// any matrix whose rows are the columns of `t`, exactly what `transpose`
/// promises of its result. A matrix with rows but no columns is excluded:
/// its transpose is empty and the second transposition cannot restore it.
pub proof fn lemma_transpose_involution(m: Seq<Value>, t: Seq<Value>, u: Seq<Value>)
    requires
        rows_rectangular(m),
        m.len() > 0 ==> ncols(m) > 0,
        t.len() == ncols(m),
        forall|j: int|
            0 <= j < ncols(m) ==> (#[trigger] t[j]) is List && as_list(t[j])@ == column(m, j),
        u.len() == ncols(t),
        forall|i: int|
            0 <= i < ncols(t) ==> (#[trigger] u[i]) is List && as_list(u[i])@ == column(t, i),
    ensures
        u.len() == m.len(),
        forall|i: int|
            0 <= i < m.len() ==> (#[trigger] u[i]) is List && as_list(u[i])@ == as_list(m[i])@,
{
    if m.len() == 0 {
        assert(ncols(m) == 0);
        assert(t.len() == 0);
        assert(ncols(t) == 0);
    } else {
        assert(ncols(m) > 0);
        assert(t[0] is List && as_list(t[0])@ == column(m, 0));
        assert(ncols(t) == column(m, 0).len());
        assert(ncols(t) == m.len());
        assert forall|i: int| 0 <= i < m.len() implies (#[trigger] u[i]) is List && as_list(u[i])@
            == as_list(m[i])@ by {
            assert(as_list(u[i])@ == column(t, i));
            assert(as_list(m[i])@.len() == ncols(m));
            assert forall|j: int| 0 <= j < ncols(m) implies column(t, i)[j] == as_list(m[i])@[j] by {
                assert(t[j] is List && as_list(t[j])@ == column(m, j));
                assert(column(t, i)[j] == as_list(t[j])@[i]);
                assert(column(m, j)[i] == as_list(m[i])@[j]);
            }
            assert(column(t, i) =~= as_list(m[i])@);
        }
    }
}

} // verus!
