//! A memoized Fibonacci generator and its two consumers: the even Fibonacci
//! numbers up to an index, and the squares of the Fibonacci numbers.

use vstd::prelude::*;

use crate::list::Error;
use crate::list::List;
use crate::list::Value;
use crate::ops::is_even;
use crate::ops::square;

verus! {

/// The Fibonacci numbers: 0, 1, 1, 2, 3, 5, ..
pub open spec fn fib(n: int) -> int
    decreases n,
{
    if n <= 0 {
        0
    } else if n == 1 {
        1
    } else {
        fib(n - 2) + fib(n - 1)
    }
}

pub proof fn lemma_fib_nonneg(n: int)
    ensures
        fib(n) >= 0,
    decreases n,
{
    if n >= 2 {
        lemma_fib_nonneg(n - 2);
        lemma_fib_nonneg(n - 1);
    }
}

/// A stateful Fibonacci generator owning a private index-to-value cache,
/// pre-seeded with the two base cases and lazily filled. An index whose
/// predecessors were never computed is refused rather than computed.
pub struct FibMemo {
    cache: Vec<i64>,
}

impl View for FibMemo {
    type V = Seq<i64>;

    closed spec fn view(&self) -> Seq<i64> {
        self.cache@
    }
}

impl FibMemo {
    /// The cache holds exactly the Fibonacci numbers, from index zero up.
    pub closed spec fn wf(&self) -> bool {
        self@.len() >= 2 && forall|i: int|
            0 <= i < self@.len() ==> (#[trigger] self@[i]) as int == fib(i)
    }

    /// Looks `k` up in the cache; on a miss at exactly the next index,
    /// computes it from the two cached predecessors and stores it before
    /// returning. A negative index, or one past the cached range, is a
    /// structural failure; a value outside the scalar range an overflow.
    pub fn call(&mut self, k: i64) -> (r: Result<i64, Error>)
        requires
            old(self).wf(),
        ensures
            final(self).wf(),
            k < 0 ==> r == Err::<i64, Error>(Error::StructuralPrecondition)
                && final(self)@ == old(self)@,
            0 <= k < old(self)@.len() ==> final(self)@ == old(self)@ && (r matches Ok(x) && x as int
                == fib(k as int)),
            k == old(self)@.len() ==> (if fib(k as int) <= i64::MAX {
                final(self)@ == old(self)@.push((fib(k as int)) as i64) && (r matches Ok(x)
                    && x as int == fib(k as int))
            } else {
                final(self)@ == old(self)@ && r == Err::<i64, Error>(Error::Overflow)
            }),
            k > old(self)@.len() ==> r == Err::<i64, Error>(Error::StructuralPrecondition)
                && final(self)@ == old(self)@,
    {
        if k < 0 {
            return Err(Error::StructuralPrecondition);
        }
        let len = self.cache.len();
        if (k as u64) < (len as u64) {
            let x = self.cache[k as usize];
            return Ok(x);
        }
        if (k as u64) > (len as u64) {
            return Err(Error::StructuralPrecondition);
        }
        let a = self.cache[len - 2];
        let b = self.cache[len - 1];
        proof {
            assert(a as int == fib(len - 2));
            assert(b as int == fib(len - 1));
            assert(fib(len as int) == fib(len - 2) + fib(len - 1));
            lemma_fib_nonneg(len - 2);
            lemma_fib_nonneg(len - 1);
        }
        match a.checked_add(b) {
            Some(v) => {
                self.cache.push(v);
                proof {
                    assert forall|i: int| 0 <= i < self@.len() implies (#[trigger] self@[i]) as int
                        == fib(i) by {
                        if i < self@.len() - 1 {
                            assert(self@[i] == old(self)@[i]);
                        }
                    }
                }
                Ok(v)
            }
            None => Err(Error::Overflow),
        }
    }
}

/// A fresh memoized generator, seeded with the two base cases.
pub fn map_fib() -> (r: FibMemo)
    ensures
        r.wf(),
        r@ == seq![0i64, 1i64],
{
    let mut cache: Vec<i64> = Vec::new();
    cache.push(0);
    cache.push(1);
    let r = FibMemo { cache };
    proof {
        assert(r@ =~= seq![0i64, 1i64]);
        assert(fib(0) == 0);
        assert(fib(1) == 1);
    }
    r
}

/// The even members among `fib(0) .. fib(k)`, in order of index.
pub open spec fn even_fib_prefix(k: int) -> Seq<Value>
    decreases k + 1,
{
    if k < 0 {
        Seq::empty()
    } else {
        even_fib_prefix(k - 1) + (if fib(k) % 2 == 0 {
            seq![Value::Int(fib(k) as i64)]
        } else {
            Seq::empty()
        })
    }
}

/// The list of the even Fibonacci numbers with index at most `n`.
pub fn even_fibs(n: i64) -> (r: Result<List, Error>)
    requires
        0 <= n < i64::MAX,
    ensures
        r matches Ok(out) ==> out@ == even_fib_prefix(n as int) && (forall|k: int|
            0 <= k <= n ==> fib(k) <= i64::MAX),
        r matches Err(e) ==> e == Error::Overflow && (exists|k: int|
            0 <= k <= n && fib(k) > i64::MAX),
{
    let mut memo = map_fib();
    let mut out = List::empty();
    let mut k: i64 = 0;
    #[verifier::loop_isolation(false)]
    while k <= n
        invariant
            memo.wf(),
            0 <= k <= n + 1,
            memo@.len() == if k < 2 {
                2int
            } else {
                k as int
            },
            out@ == even_fib_prefix(k - 1),
        decreases n + 1 - k,
    {
        match memo.call(k) {
            Ok(x) => {
                let even = match is_even(&Value::Int(x)) {
                    Ok(b) => b,
                    Err(_) => unreached(),
                };
                if even {
                    out = out.push(Value::Int(x));
                }
                proof {
                    assert(x as int == fib(k as int));
                    assert(out@ =~= even_fib_prefix(k as int));
                }
                k = k + 1;
            }
            Err(_) => {
                proof {
                    assert(fib(k as int) > i64::MAX);
                }
                return Err(Error::Overflow);
            }
        }
    }
    proof {
        assert forall|kk: int| 0 <= kk <= n implies fib(kk) <= i64::MAX by {
            assert((memo@[kk]) as int == fib(kk));
        }
    }
    Ok(out)
}

/// The squares of `fib(0) .. fib(k)`, in order of index.
pub open spec fn fib_sq_prefix(k: int) -> Seq<Value>
    decreases k + 1,
{
    if k < 0 {
        Seq::empty()
    } else {
        fib_sq_prefix(k - 1) + seq![Value::Int((fib(k) * fib(k)) as i64)]
    }
}

/// The list of the squared Fibonacci numbers with index at most `n`.
pub fn lib_fib_squares(n: i64) -> (r: Result<List, Error>)
    requires
        0 <= n < i64::MAX,
    ensures
        r matches Ok(out) ==> out@ == fib_sq_prefix(n as int) && (forall|k: int|
            0 <= k <= n ==> fib(k) <= i64::MAX && fib(k) * fib(k) <= i64::MAX),
        r matches Err(e) ==> e == Error::Overflow && (exists|k: int|
            0 <= k <= n && (fib(k) > i64::MAX || fib(k) * fib(k) > i64::MAX)),
{
    let mut memo = map_fib();
    let mut out = List::empty();
    let mut k: i64 = 0;
    #[verifier::loop_isolation(false)]
    while k <= n
        invariant
            memo.wf(),
            0 <= k <= n + 1,
            memo@.len() == if k < 2 {
                2int
            } else {
                k as int
            },
            out@ == fib_sq_prefix(k - 1),
            forall|kk: int| 0 <= kk < k ==> fib(kk) * fib(kk) <= i64::MAX,
        decreases n + 1 - k,
    {
        match memo.call(k) {
            Ok(x) => {
                match square(&Value::Int(x)) {
                    Ok(sq) => {
                        out = out.push(sq);
                        proof {
                            assert(x as int == fib(k as int));
                            assert(out@ =~= fib_sq_prefix(k as int));
                        }
                        k = k + 1;
                    }
                    Err(_) => {
                        proof {
                            assert(x as int == fib(k as int));
                            assert(fib(k as int) * fib(k as int) > i64::MAX);
                        }
                        return Err(Error::Overflow);
                    }
                }
            }
            Err(_) => {
                proof {
                    assert(fib(k as int) > i64::MAX);
                }
                return Err(Error::Overflow);
            }
        }
    }
    proof {
        assert forall|kk: int| 0 <= kk <= n implies fib(kk) <= i64::MAX && fib(kk) * fib(kk)
            <= i64::MAX by {
            assert((memo@[kk]) as int == fib(kk));
        }
    }
    Ok(out)
}

} // verus!
