//! Progress of a render as an exact fraction.

use vstd::prelude::*;

verus! {

/// The share of the work that is done: `done` out of `total`. Where `total`
/// is zero there is nothing to do, and the render counts as finished.
#[derive(Clone, Copy, Debug, PartialEq, Eq, Structural)]
pub struct Progress {
    pub done: u128,
    pub total: u128,
}

impl Progress {
    /// The fraction is at most one.
    pub open spec fn wf(self) -> bool {
        self.done <= self.total
    }

    /// The fraction is one.
    pub open spec fn complete(self) -> bool {
        self.done == self.total
    }

    /// Tells whether all of the work is done.
    pub fn is_complete(&self) -> (b: bool)
        ensures
            b == self.complete(),
    {
        self.done == self.total
    }
}

/// The sum of the first `count` of `values`.
pub open spec fn sum_first(values: Seq<int>, count: int) -> int
    decreases count,
{
    if count <= 0 {
        0
    } else {
        sum_first(values, count - 1) + values[count - 1]
    }
}

/// A sum lies between as many times a lower bound of its terms and as many
/// times an upper bound of them.
pub proof fn sum_first_bounds(values: Seq<int>, count: int, low: int, high: int)
    requires
        0 <= count <= values.len(),
        forall|i: int| 0 <= i < count ==> low <= #[trigger] values[i] <= high,
    ensures
        count * low <= sum_first(values, count) <= count * high,
    decreases count,
{
    if count > 0 {
        sum_first_bounds(values, count - 1, low, high);
        assert(count * low == (count - 1) * low + low) by (nonlinear_arith);
        assert(count * high == (count - 1) * high + high) by (nonlinear_arith);
    } else {
        assert(count * low == 0 && count * high == 0) by (nonlinear_arith)
            requires
                count == 0,
        ;
    }
}

/// Where no term of one sum exceeds the term of another at its place, the
/// first sum does not exceed the second.
pub proof fn sum_first_ordered(lesser: Seq<int>, greater: Seq<int>, count: int)
    requires
        0 <= count <= lesser.len(),
        count <= greater.len(),
        forall|i: int| 0 <= i < count ==> #[trigger] lesser[i] <= greater[i],
    ensures
        sum_first(lesser, count) <= sum_first(greater, count),
    decreases count,
{
    if count > 0 {
        sum_first_ordered(lesser, greater, count - 1);
    }
}

/// Changing one term changes the sum by as much.
pub proof fn sum_first_update(values: Seq<int>, count: int, at: int, value: int)
    requires
        0 <= at < count <= values.len(),
    ensures
        sum_first(values.update(at, value), count) == sum_first(values, count) - values[at]
            + value,
    decreases count,
{
    if at == count - 1 {
        sum_first_ordered(values, values.update(at, value), count - 1);
        sum_first_ordered(values.update(at, value), values, count - 1);
    } else {
        sum_first_update(values, count - 1, at, value);
    }
}

/// A sum of terms that are not negative is zero only where every term is.
pub proof fn sum_first_zero(values: Seq<int>, count: int)
    requires
        0 <= count <= values.len(),
        forall|i: int| 0 <= i < count ==> 0 <= #[trigger] values[i],
    ensures
        0 <= sum_first(values, count),
        sum_first(values, count) == 0 <==> forall|i: int|
            0 <= i < count ==> #[trigger] values[i] == 0,
    decreases count,
{
    if count > 0 {
        sum_first_zero(values, count - 1);
    }
}

} // verus!
