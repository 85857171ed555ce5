//! Real-number arithmetic, done by whoever uses this crate.
//!
//! Every formula of the crate is made of the operations of [`Op`]. A [`Calculator`] carries them
//! out; the contracts say which operations are asked for, on what and in which order.

use vstd::prelude::*;

use crate::num::{Num, ZERO};

verus! {

/// An operation on numbers.
#[derive(Clone, Copy, PartialEq, Eq, Structural, Debug)]
pub enum Op {
    /// The first plus the second.
    Sum(Num, Num),
    /// The first less the second.
    Difference(Num, Num),
    /// The first times the second.
    Product(Num, Num),
    /// The first divided by the second.
    Quotient(Num, Num),
    /// The square root.
    Root(Num),
    /// The natural logarithm.
    Log(Num),
    /// A whole number as a real one.
    Whole(u64),
}

/// What every operation gives.
pub type Arithmetic = spec_fn(Op) -> Num;

/// `a + b`
pub open spec fn plus(m: Arithmetic, a: Num, b: Num) -> Num {
    m(Op::Sum(a, b))
}

/// `a - b`
pub open spec fn minus(m: Arithmetic, a: Num, b: Num) -> Num {
    m(Op::Difference(a, b))
}

/// `a * b`
pub open spec fn times(m: Arithmetic, a: Num, b: Num) -> Num {
    m(Op::Product(a, b))
}

/// `a / b`
pub open spec fn over(m: Arithmetic, a: Num, b: Num) -> Num {
    m(Op::Quotient(a, b))
}

/// `a * a`
pub open spec fn square(m: Arithmetic, a: Num) -> Num {
    times(m, a, a)
}

/// The square root of `a`.
pub open spec fn root(m: Arithmetic, a: Num) -> Num {
    m(Op::Root(a))
}

/// The natural logarithm of `a`.
pub open spec fn log(m: Arithmetic, a: Num) -> Num {
    m(Op::Log(a))
}

/// The whole number `n` as a real one.
pub open spec fn whole(m: Arithmetic, n: int) -> Num {
    m(Op::Whole(n as u64))
}

/// The sum of the values, taken from the left, from zero on.
pub open spec fn total(m: Arithmetic, values: Seq<Num>) -> Num
    decreases values.len(),
{
    if values.len() == 0 {
        Num { bits: ZERO }
    } else {
        plus(m, total(m, values.drop_last()), values.last())
    }
}

/// Carries out operations.
pub struct Calculator<F: Fn(Op) -> Num> {
    pub compute: F,
}

impl<F: Fn(Op) -> Num> Calculator<F> {
    /// Every operation can be asked for, and asking again gives the same answer.
    pub open spec fn reliable(&self) -> bool {
        &&& forall|op: Op| call_requires(self.compute, (op,))
        &&& forall|op: Op, x: Num, y: Num|
            call_ensures(self.compute, (op,), x) && call_ensures(self.compute, (op,), y) ==> x == y
    }

    /// What this calculator answers.
    pub open spec fn meaning(&self) -> Arithmetic {
        |op: Op| choose|x: Num| call_ensures(self.compute, (op,), x)
    }

    /// A calculator that asks the given function.
    pub fn new(compute: F) -> (r: Self)
        ensures
            r.compute == compute,
    {
        Calculator { compute }
    }

    /// The answer to one operation.
    pub fn answer(&self, op: Op) -> (r: Num)
        requires
            self.reliable(),
        ensures
            r == (self.meaning())(op),
    {
        (self.compute)(op)
    }

    /// `a + b`
    pub fn plus(&self, a: Num, b: Num) -> (r: Num)
        requires
            self.reliable(),
        ensures
            r == plus(self.meaning(), a, b),
    {
        self.answer(Op::Sum(a, b))
    }

    /// `a - b`
    pub fn minus(&self, a: Num, b: Num) -> (r: Num)
        requires
            self.reliable(),
        ensures
            r == minus(self.meaning(), a, b),
    {
        self.answer(Op::Difference(a, b))
    }

    /// `a * b`
    pub fn times(&self, a: Num, b: Num) -> (r: Num)
        requires
            self.reliable(),
        ensures
            r == times(self.meaning(), a, b),
    {
        self.answer(Op::Product(a, b))
    }

    /// `a / b`
    pub fn over(&self, a: Num, b: Num) -> (r: Num)
        requires
            self.reliable(),
        ensures
            r == over(self.meaning(), a, b),
    {
        self.answer(Op::Quotient(a, b))
    }

    /// `a * a`
    pub fn square(&self, a: Num) -> (r: Num)
        requires
            self.reliable(),
        ensures
            r == square(self.meaning(), a),
    {
        self.times(a, a)
    }

    /// The square root of `a`.
    pub fn root(&self, a: Num) -> (r: Num)
        requires
            self.reliable(),
        ensures
            r == root(self.meaning(), a),
    {
        self.answer(Op::Root(a))
    }

    /// The natural logarithm of `a`.
    pub fn log(&self, a: Num) -> (r: Num)
        requires
            self.reliable(),
        ensures
            r == log(self.meaning(), a),
    {
        self.answer(Op::Log(a))
    }

    /// The whole number `n` as a real one.
    pub fn whole(&self, n: usize) -> (r: Num)
        requires
            self.reliable(),
        ensures
            r == whole(self.meaning(), n as int),
    {
        self.answer(Op::Whole(n as u64))
    }

    /// The sum of the values, taken from the left.
    pub fn total(&self, values: &[Num]) -> (r: Num)
        requires
            self.reliable(),
        ensures
            r == total(self.meaning(), values@),
    {
        let mut sum: Num = Num { bits: ZERO };
        let mut i: usize = 0;
        while i < values.len()
            invariant
                self.reliable(),
                0 <= i <= values@.len(),
                sum == total(self.meaning(), values@.take(i as int)),
            decreases values@.len() - i,
        {
            proof {
                total_of_one_more(self.meaning(), values@, i as int);
            }
            sum = self.plus(sum, values[i]);
            i += 1;
        }
        proof {
            assert(values@.take(values@.len() as int) =~= values@);
        }
        sum
    }
}

/// The sum of one value more.
pub proof fn total_of_one_more(m: Arithmetic, values: Seq<Num>, i: int)
    requires
        0 <= i < values.len(),
    ensures
        total(m, values.take(i + 1)) == plus(m, total(m, values.take(i)), values[i]),
{
    assert(values.take(i + 1).drop_last() =~= values.take(i));
}

} // verus!
