//! Adding numbers.

use vstd::prelude::*;

verus! {

/// The sum of two numbers.
pub fn add(a: i32, b: i32) -> (r: i32)
    requires
        i32::MIN <= a + b <= i32::MAX,
    ensures
        r == a + b,
{
    a + b
}

/// The sum of a sequence of numbers.
pub open spec fn sum_of(xs: Seq<i32>) -> int
    decreases xs.len(),
{
    if xs.len() == 0 {
        0
    } else {
        sum_of(xs.drop_last()) + xs.last()
    }
}

/// The sum of the numbers in a slice.
pub fn sum(xs: &[i32]) -> (r: i32)
    requires
        forall|k: int|
            0 <= k <= xs@.len() ==> i32::MIN <= sum_of(#[trigger] xs@.take(k)) <= i32::MAX,
    ensures
        r == sum_of(xs@),
{
    let mut total: i32 = 0;
    let mut i: usize = 0;
    assert(xs@.take(0) == Seq::<i32>::empty());
    while i < xs.len()
        invariant
            i <= xs@.len(),
            total == sum_of(xs@.take(i as int)),
            forall|k: int|
                0 <= k <= xs@.len() ==> i32::MIN <= sum_of(#[trigger] xs@.take(k)) <= i32::MAX,
        decreases xs@.len() - i,
    {
        assert(xs@.take(i + 1).drop_last() == xs@.take(i as int));
        assert(i32::MIN <= sum_of(xs@.take(i + 1)) <= i32::MAX);
        total = self::add(total, xs[i]);
        i = i + 1;
    }
    assert(xs@.take(xs@.len() as int) == xs@);
    total
}

/// Sums of two sequences add up to the sum of their concatenation.
pub proof fn sum_of_concatenation(a: Seq<i32>, b: Seq<i32>)
    ensures
        sum_of(a + b) == sum_of(a) + sum_of(b),
    decreases b.len(),
{
    if b.len() == 0 {
        assert(a + b == a);
    } else {
        assert((a + b).drop_last() == a + b.drop_last());
        sum_of_concatenation(a, b.drop_last());
    }
}

/// The sum of no numbers is nothing, one number is its own sum, and a number
/// put before or behind others adds itself to their sum.
pub proof fn sum_adds_each_number(xs: &[i32], rest: &[i32], r: i32, s: i32)
    requires
        call_ensures(sum, (xs,), r),
        call_ensures(sum, (rest,), s),
    ensures
        xs@.len() == 0 ==> r == 0,
        xs@.len() > 0 && rest@ == xs@.drop_last() ==> r == s + xs@.last(),
        xs@.len() > 0 && rest@ == xs@.drop_first() ==> r == xs@[0] + s,
{
    if xs@.len() > 0 {
        let one = seq![xs@[0]];
        sum_of_concatenation(one, xs@.drop_first());
        assert(one + xs@.drop_first() == xs@);
        assert(one.drop_last() == Seq::<i32>::empty());
        assert(sum_of(one) == sum_of(one.drop_last()) + one.last());
    }
}

} // verus!
