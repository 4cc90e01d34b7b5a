//! The cons-cell chain: cells, runtime-tagged values, and the list handle.
//!
//! A `List` owns an optional chain of `Cell`s; each cell owns one `Value`,
//! which is either an integer scalar or a nested `List`. The abstract model
//! of a list is the sequence of the values held by its cells, in chain order.

use vstd::prelude::*;

verus! {

/// The failure outcomes of the list operations.
///
/// `TypeMismatch`: a value was recovered at the wrong runtime type.
/// `EmptyInput`: `car`/`cdr`-style access on an empty list.
/// `StructuralPrecondition`: a shape assumption (equal row lengths,
/// a predecessor entry being present) was violated.
/// `Overflow`: an arithmetic result does not fit in the scalar type.
#[derive(Clone, Copy, PartialEq, Eq, Structural, Debug)]
pub enum Error {
    TypeMismatch,
    EmptyInput,
    StructuralPrecondition,
    Overflow,
}

/// A runtime-tagged value slot: either an integer scalar or a nested list.
/// Recovery at the wrong type is a checked, recoverable failure.
#[derive(Debug)]
pub enum Value {
    Int(i64),
    List(List),
}

/// One node of the chain: a value slot and an exclusively-owned successor.
#[derive(Debug)]
pub struct Cell {
    pub value: Value,
    pub next: Option<Box<Cell>>,
}

/// The list handle: owns the head cell of a chain. The empty list owns none.
#[derive(Debug)]
pub struct List {
    pub head: Option<Box<Cell>>,
}

/// The sequence of values held by a chain, in head-to-tail order.
pub open spec fn chain_view(o: Option<Box<Cell>>) -> Seq<Value>
    decreases o,
{
    match o {
        None => Seq::empty(),
        Some(c) => seq![c.value] + chain_view(c.next),
    }
}

impl View for List {
    type V = Seq<Value>;

    open spec fn view(&self) -> Seq<Value> {
        chain_view(self.head)
    }
}

/// The nested list inside a `Value`, or the empty list for a scalar.
pub open spec fn as_list(v: Value) -> List {
    match v {
        Value::List(l) => l,
        Value::Int(_) => (List { head: None }),
    }
}

/// The scalar inside a `Value`; meaningful only when `v is Int`.
pub open spec fn as_int(v: Value) -> i64 {
    match v {
        Value::Int(x) => x,
        Value::List(_) => 0,
    }
}

/// Equal views make equal chains: a chain is determined by the sequence
/// of values it holds.
pub proof fn lemma_chain_view_injective(x: Option<Box<Cell>>, y: Option<Box<Cell>>)
    requires
        chain_view(x) == chain_view(y),
    ensures
        x == y,
    decreases x,
{
    match (x, y) {
        (None, None) => {}
        (Some(cx), Some(cy)) => {
            assert(chain_view(x)[0] == cx.value);
            assert(chain_view(y)[0] == cy.value);
            assert(chain_view(x).drop_first() =~= chain_view(cx.next));
            assert(chain_view(y).drop_first() =~= chain_view(cy.next));
            lemma_chain_view_injective(cx.next, cy.next);
        }
        (None, Some(cy)) => {
            assert(chain_view(y).len() > 0);
        }
        (Some(cx), None) => {
            assert(chain_view(x).len() > 0);
        }
    }
}

/// Recovers the exact value held in a cell slot, by structural copy.
pub fn copy_value(v: &Value) -> (r: Value)
    ensures
        r == *v,
    decreases v,
{
    match v {
        Value::Int(x) => Value::Int(*x),
        Value::List(l) => Value::List(List { head: copy_chain(&l.head) }),
    }
}

pub(crate) fn copy_chain(o: &Option<Box<Cell>>) -> (r: Option<Box<Cell>>)
    ensures
        r == *o,
    decreases o,
{
    match o {
        None => None,
        Some(c) => Some(
            Box::new(Cell { value: copy_value(&c.value), next: copy_chain(&c.next) }),
        ),
    }
}

fn push_chain(o: Option<Box<Cell>>, v: Value) -> (r: Option<Box<Cell>>)
    ensures
        chain_view(r) == chain_view(o).push(v),
    decreases o,
{
    match o {
        None => {
            let r = Some(Box::new(Cell { value: v, next: None }));
            proof {
                assert(chain_view(r) =~= chain_view(o).push(v));
            }
            r
        }
        Some(c) => {
            let cc = *c;
            let rest = push_chain(cc.next, v);
            let r = Some(Box::new(Cell { value: cc.value, next: rest }));
            proof {
                assert(chain_view(r) =~= chain_view(o).push(v));
            }
            r
        }
    }
}

fn append_chain(o: Option<Box<Cell>>, t: Option<Box<Cell>>) -> (r: Option<Box<Cell>>)
    ensures
        chain_view(r) == chain_view(o) + chain_view(t),
    decreases o,
{
    match o {
        None => {
            proof {
                assert(chain_view(t) =~= chain_view(o) + chain_view(t));
            }
            t
        }
        Some(c) => {
            let cc = *c;
            let rest = append_chain(cc.next, t);
            let r = Some(Box::new(Cell { value: cc.value, next: rest }));
            proof {
                assert(chain_view(r) =~= chain_view(o) + chain_view(t));
            }
            r
        }
    }
}

fn chain_eq(x: &Option<Box<Cell>>, y: &Option<Box<Cell>>) -> (r: bool)
    ensures
        r == (chain_view(*x) == chain_view(*y)),
    decreases x,
{
    match (x, y) {
        (None, None) => true,
        (Some(cx), Some(cy)) => {
            let heads_equal = value_eq(&cx.value, &cy.value);
            if heads_equal {
                let tails_equal = chain_eq(&cx.next, &cy.next);
                proof {
                    if tails_equal {
                        assert(chain_view(*x) =~= chain_view(*y));
                    } else {
                        assert(chain_view(*x).drop_first() =~= chain_view(cx.next));
                        assert(chain_view(*y).drop_first() =~= chain_view(cy.next));
                    }
                }
                tails_equal
            } else {
                proof {
                    assert(chain_view(*x)[0] == cx.value);
                    assert(chain_view(*y)[0] == cy.value);
                }
                false
            }
        }
        (None, Some(cy)) => {
            proof {
                assert(chain_view(*y).len() > 0);
            }
            false
        }
        (Some(cx), None) => {
            proof {
                assert(chain_view(*x).len() > 0);
            }
            false
        }
    }
}

/// Structural equality of two values, decided at runtime.
pub fn value_eq(a: &Value, b: &Value) -> (r: bool)
    ensures
        r == (*a == *b),
    decreases a,
{
    match (a, b) {
        (Value::Int(x), Value::Int(y)) => *x == *y,
        (Value::List(l1), Value::List(l2)) => {
            let r = chain_eq(&l1.head, &l2.head);
            proof {
                if r {
                    lemma_chain_view_injective(l1.head, l2.head);
                }
            }
            r
        }
        (Value::Int(_), Value::List(_)) => false,
        (Value::List(_), Value::Int(_)) => false,
    }
}

fn swap_in_chain(o: &mut Option<Box<Cell>>, i: usize, v: Value) -> (r: Result<Value, Error>)
    ensures
        i < chain_view(*old(o)).len() ==> (r matches Ok(w) && w == chain_view(*old(o))[i as int]
            && chain_view(*final(o)) == chain_view(*old(o)).update(i as int, v)),
        i >= chain_view(*old(o)).len() ==> r == Err::<Value, Error>(Error::StructuralPrecondition)
            && *final(o) == *old(o),
    decreases *old(o),
{
    match o.take() {
        None => Err(Error::StructuralPrecondition),
        Some(c) => {
            let cc = *c;
            proof {
                assert(chain_view(*old(o)) =~= seq![cc.value] + chain_view(cc.next));
                assert(chain_view(*old(o)).drop_first() =~= chain_view(cc.next));
            }
            if i == 0 {
                let w = cc.value;
                *o = Some(Box::new(Cell { value: v, next: cc.next }));
                proof {
                    assert(chain_view(*o) =~= chain_view(*old(o)).update(0, v));
                }
                Ok(w)
            } else {
                let mut next = cc.next;
                let r = swap_in_chain(&mut next, i - 1, v);
                *o = Some(Box::new(Cell { value: cc.value, next }));
                proof {
                    if i < chain_view(*old(o)).len() {
                        assert(chain_view(*o) =~= chain_view(*old(o)).update(i as int, v));
                    } else {
                        assert(chain_view(*o) =~= chain_view(*old(o)));
                        assert(*final(o) == *old(o)) by {
                            lemma_chain_view_injective(*o, *old(o));
                        }
                    }
                }
                r
            }
        }
    }
}

impl List {
    /// The list with no cells.
    pub fn empty() -> (r: List)
        ensures
            r@ == Seq::<Value>::empty(),
    {
        List { head: None }
    }

    /// A single-cell chain holding `v`.
    pub fn new(v: Value) -> (r: List)
        ensures
            r@ == seq![v],
    {
        let r = List { head: Some(Box::new(Cell { value: v, next: None })) };
        proof {
            reveal_with_fuel(chain_view, 2);
            assert(r@ =~= seq![v]);
        }
        r
    }

    pub fn is_empty(&self) -> (r: bool)
        ensures
            r == (self@.len() == 0),
    {
        proof {
            if self.head is Some {
                assert(self@.len() > 0);
            }
        }
        self.head.is_none()
    }

    /// A new list with `v` in front of this one.
    pub fn prepend(self, v: Value) -> (r: List)
        ensures
            r@ == seq![v] + self@,
    {
        List { head: Some(Box::new(Cell { value: v, next: self.head })) }
    }

    /// Borrows the head value; fails distinctly on the empty list.
    pub fn car_ref(&self) -> (r: Result<&Value, Error>)
        ensures
            self@.len() == 0 ==> r == Err::<&Value, Error>(Error::EmptyInput),
            self@.len() > 0 ==> (r matches Ok(v) && *v == self@[0]),
    {
        match &self.head {
            None => Err(Error::EmptyInput),
            Some(c) => Ok(&c.value),
        }
    }

    /// Detaches the head value and the remainder of the chain.
    pub fn uncons(self) -> (r: Result<(Value, List), Error>)
        ensures
            self@.len() == 0 ==> r == Err::<(Value, List), Error>(Error::EmptyInput),
            self@.len() > 0 ==> (r matches Ok(p) && p.0 == self@[0] && p.1@ == self@.drop_first()),
    {
        match self.head {
            None => Err(Error::EmptyInput),
            Some(c) => {
                let cc = *c;
                let rest = List { head: cc.next };
                proof {
                    assert(rest@ =~= self@.drop_first());
                }
                Ok((cc.value, rest))
            }
        }
    }

    /// Detaches and returns the remainder of the chain, dropping the head value.
    pub fn cdr(self) -> (r: Result<List, Error>)
        ensures
            self@.len() == 0 ==> r == Err::<List, Error>(Error::EmptyInput),
            self@.len() > 0 ==> (r matches Ok(rest) && rest@ == self@.drop_first()),
    {
        match self.uncons() {
            Ok((_, rest)) => Ok(rest),
            Err(e) => Err(e),
        }
    }

    /// Replaces the remainder of the chain in place, dropping whatever chain
    /// was attached before. The head value stays.
    pub fn set_cdr(&mut self, rest: List)
        requires
            old(self)@.len() > 0,
        ensures
            final(self)@ == seq![old(self)@[0]] + rest@,
    {
        let h = self.head.take();
        match h {
            None => {
                proof {
                    assert(false);
                }
            }
            Some(c) => {
                let mut cell = *c;
                cell.next = rest.head;
                self.head = Some(Box::new(cell));
            }
        }
    }

    /// Appends `v` after the last cell, extending the chain by one.
    pub fn push(self, v: Value) -> (r: List)
        ensures
            r@ == self@.push(v),
    {
        List { head: push_chain(self.head, v) }
    }

    /// Concatenates two chains; `self`'s last cell is linked to `other`'s head.
    pub fn append_list(self, other: List) -> (r: List)
        ensures
            r@ == self@ + other@,
    {
        List { head: append_chain(self.head, other.head) }
    }

    /// A new chain holding the same values in reverse order.
    pub fn reverse(self) -> (r: List)
        ensures
            r@ == self@.reverse(),
    {
        let ghost g: Seq<Value> = self@;
        let mut rest = self;
        let mut out = List { head: None };
        while !rest.is_empty()
            invariant
                g.reverse() =~= rest@.reverse() + out@,
            decreases rest@.len(),
        {
            let ghost r_old: Seq<Value> = rest@;
            let h = rest.head.take();
            match h {
                Some(c) => {
                    let cc = *c;
                    proof {
                        assert(r_old =~= seq![cc.value] + chain_view(cc.next));
                        assert(r_old.reverse() =~= chain_view(cc.next).reverse() + seq![cc.value]);
                    }
                    out = out.prepend(cc.value);
                    rest = List { head: cc.next };
                }
                None => unreached(),
            }
        }
        proof {
            assert(out@ =~= g.reverse());
        }
        out
    }

    /// Counts the cells of the chain by full traversal.
    pub fn len(&self) -> (n: usize)
        requires
            self@.len() <= usize::MAX,
        ensures
            n == self@.len(),
    {
        let mut cur: &Option<Box<Cell>> = &self.head;
        let mut n: usize = 0;
        while cur.is_some()
            invariant
                n + chain_view(*cur).len() == self@.len(),
                self@.len() <= usize::MAX,
            decreases chain_view(*cur).len(),
        {
            match cur {
                Some(c) => {
                    proof {
                        assert(chain_view(*cur).len() == 1 + chain_view(c.next).len());
                    }
                    n = n + 1;
                    cur = &c.next;
                }
                None => unreached(),
            }
        }
        n
    }

    /// Borrows the value at position `i` of the chain, walking from the head.
    pub fn get(&self, i: usize) -> (r: Result<&Value, Error>)
        ensures
            i < self@.len() ==> (r matches Ok(v) && *v == self@[i as int]),
            i >= self@.len() ==> r == Err::<&Value, Error>(Error::StructuralPrecondition),
    {
        let mut cur: &Option<Box<Cell>> = &self.head;
        let mut k: usize = 0;
        while k < i && cur.is_some()
            invariant
                k <= i,
                chain_view(*cur) == self@.skip(k as int),
                k <= self@.len(),
            decreases i - k,
        {
            match cur {
                Some(c) => {
                    proof {
                        assert(chain_view(*cur) == seq![c.value] + chain_view(c.next));
                        assert(chain_view(c.next) =~= chain_view(*cur).drop_first());
                        assert(chain_view(*cur).drop_first() =~= self@.skip(k as int + 1));
                    }
                    cur = &c.next;
                    k = k + 1;
                }
                None => unreached(),
            }
        }
        match cur {
            Some(c) if k == i => {
                proof {
                    assert(chain_view(*cur)[0] == self@[i as int]);
                }
                Ok(&c.value)
            }
            _ => {
                proof {
                    if i < self@.len() {
                        assert(chain_view(*cur).len() == self@.len() - k);
                        assert(false);
                    }
                }
                Err(Error::StructuralPrecondition)
            }
        }
    }

    /// The mutable traversal primitive: replaces the value at position `i`
    /// in place, handing back the value that was there.
    pub fn swap_at(&mut self, i: usize, v: Value) -> (r: Result<Value, Error>)
        ensures
            i < old(self)@.len() ==> (r matches Ok(w) && w == old(self)@[i as int] && final(self)@
                == old(self)@.update(i as int, v)),
            i >= old(self)@.len() ==> r == Err::<Value, Error>(Error::StructuralPrecondition)
                && final(self)@ == old(self)@,
    {
        swap_in_chain(&mut self.head, i, v)
    }

    /// Structural equality of two lists, decided at runtime.
    pub fn equals(&self, other: &List) -> (r: bool)
        ensures
            r == (self@ == other@),
    {
        chain_eq(&self.head, &other.head)
    }

    /// A structurally identical copy of this list.
    pub fn duplicate(&self) -> (r: List)
        ensures
            r == *self,
    {
        List { head: copy_chain(&self.head) }
    }

    /// Builds a chain from an explicit sequence of values, in the order given.
    pub fn from_values(xs: Vec<Value>) -> (r: List)
        ensures
            r@ == xs@,
    {
        let ghost g: Seq<Value> = xs@;
        let mut xs = xs;
        let mut out = List { head: None };
        while xs.len() > 0
            invariant
                xs@.len() <= g.len(),
                xs@ == g.take(xs@.len() as int),
                out@ == g.skip(xs@.len() as int),
            decreases xs@.len(),
        {
            let ghost n: int = xs@.len() as int;
            let v = match xs.pop() {
                Some(v) => v,
                None => unreached(),
            };
            proof {
                assert(g.take(n)[n - 1] == g[n - 1]);
                assert(v == g[n - 1]);
                assert(xs@ =~= g.take(n - 1));
                assert(g.skip(n - 1) =~= seq![v] + g.skip(n));
            }
            out = out.prepend(v);
        }
        proof {
            assert(out@ =~= g);
        }
        out
    }

    /// Builds a chain of integer scalars, in the order given.
    pub fn from_ints(xs: &Vec<i64>) -> (r: List)
        ensures
            r@ == xs@.map_values(|x: i64| Value::Int(x)),
    {
        let mut out = List { head: None };
        let mut i: usize = xs.len();
        while i > 0
            invariant
                i <= xs@.len(),
                out@ == xs@.skip(i as int).map_values(|x: i64| Value::Int(x)),
            decreases i,
        {
            i = i - 1;
            out = out.prepend(Value::Int(xs[i]));
            proof {
                assert(out@ =~= xs@.skip(i as int).map_values(|x: i64| Value::Int(x)));
            }
        }
        proof {
            assert(xs@.skip(0) =~= xs@);
        }
        out
    }

    /// The draining traversal: consumes the list and yields every value,
    /// in forward chain order, exactly once. An empty list yields nothing.
    pub fn into_values(self) -> (r: Vec<Value>)
        ensures
            r@ == self@,
    {
        let ghost g: Seq<Value> = self@;
        let mut rest = self;
        let mut out: Vec<Value> = Vec::new();
        while !rest.is_empty()
            invariant
                g == out@ + rest@,
            decreases rest@.len(),
        {
            let ghost r_old: Seq<Value> = rest@;
            let h = rest.head.take();
            match h {
                Some(c) => {
                    let cc = *c;
                    proof {
                        assert(r_old =~= seq![cc.value] + chain_view(cc.next));
                    }
                    out.push(cc.value);
                    rest = List { head: cc.next };
                    proof {
                        assert(g =~= out@ + rest@);
                    }
                }
                None => unreached(),
            }
        }
        proof {
            assert(out@ =~= g);
        }
        out
    }
}

} // verus!
