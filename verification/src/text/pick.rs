//! Picking some of a row of things, in order.

use vstd::prelude::*;

verus! {

/// `picked` holds, in rising order, exactly the numbers below `n` that are
/// wanted.
pub open spec fn picks(picked: Seq<int>, n: int, wanted: spec_fn(int) -> bool) -> bool {
    &&& forall|a: int, b: int| 0 <= a < b < picked.len() ==> picked[a] < picked[b]
    &&& forall|a: int| 0 <= a < picked.len() ==> 0 <= #[trigger] picked[a] < n && wanted(picked[a])
    &&& forall|i: int| 0 <= i < n && #[trigger] wanted(i) ==> picked.contains(i)
}

/// Without the last number, the rest is picked of one number fewer.
pub proof fn lemma_picks_step(picked: Seq<int>, n: int, wanted: spec_fn(int) -> bool)
    requires
        n > 0,
        picks(picked, n, wanted),
    ensures
        wanted(n - 1) ==> picked.len() > 0 && picked.last() == n - 1 && picks(
            picked.drop_last(),
            n - 1,
            wanted,
        ),
        !wanted(n - 1) ==> picks(picked, n - 1, wanted),
{
    if wanted(n - 1) {
        assert(picked.contains(n - 1));
        let k = choose|k: int| 0 <= k < picked.len() && picked[k] == n - 1;
        if k < picked.len() - 1 {
            assert(picked[k] < picked[picked.len() - 1]);
        }
        let init = picked.drop_last();
        assert forall|a: int| 0 <= a < init.len() implies 0 <= #[trigger] init[a] < n - 1 && wanted(
            init[a],
        ) by {
            assert(init[a] == picked[a]);
            assert(picked[a] < picked[picked.len() - 1]);
        }
        assert forall|i: int| 0 <= i < n - 1 && #[trigger] wanted(i) implies init.contains(i) by {
            assert(picked.contains(i));
            let j = choose|j: int| 0 <= j < picked.len() && picked[j] == i;
            assert(init[j] == i);
        }
    } else {
        assert forall|a: int| 0 <= a < picked.len() implies 0 <= #[trigger] picked[a] < n - 1
            && wanted(picked[a]) by {
            assert(picked[a] != n - 1);
        }
    }
}

/// Nothing can be picked of nothing.
pub proof fn lemma_picks_none(picked: Seq<int>, n: int, wanted: spec_fn(int) -> bool)
    requires
        n <= 0,
        picks(picked, n, wanted),
    ensures
        picked.len() == 0,
{
    if picked.len() > 0 {
        assert(0 <= picked[0] < n);
    }
}

/// The numbers below `n` that are wanted, in rising order.
pub open spec fn picked_of(n: int, wanted: spec_fn(int) -> bool) -> Seq<int>
    decreases n,
{
    if n <= 0 {
        Seq::empty()
    } else if wanted(n - 1) {
        picked_of(n - 1, wanted).push(n - 1)
    } else {
        picked_of(n - 1, wanted)
    }
}

/// There always is a pick.
pub proof fn lemma_picked_of(n: int, wanted: spec_fn(int) -> bool)
    ensures
        picks(picked_of(n, wanted), n, wanted),
    decreases n,
{
    if n > 0 {
        lemma_picked_of(n - 1, wanted);
        let init = picked_of(n - 1, wanted);
        let all = picked_of(n, wanted);
        assert forall|i: int| 0 <= i < n && #[trigger] wanted(i) implies all.contains(i) by {
            if i < n - 1 {
                assert(init.contains(i));
                let k = choose|k: int| 0 <= k < init.len() && init[k] == i;
                assert(all[k] == i);
            } else {
                assert(all[all.len() - 1] == i);
            }
        }
        assert forall|a: int| 0 <= a < all.len() implies 0 <= #[trigger] all[a] < n && wanted(
            all[a],
        ) by {
            if a < init.len() {
                assert(all[a] == init[a]);
            }
        }
        assert forall|a: int, b: int| 0 <= a < b < all.len() implies all[a] < all[b] by {
            assert(all[a] == init[a]);
            if b < init.len() {
                assert(all[b] == init[b]);
            }
        }
    }
}

} // verus!
