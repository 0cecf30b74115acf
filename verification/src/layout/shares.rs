//! What holds of the heights that the windows of a column share.
use vstd::prelude::*;

use crate::layout::binpack;
use crate::layout::laws;

verus! {

/// Every window is at least as high as the least height, which is some height.
pub open spec fn all_high_enough(heights: Seq<i32>, min: int) -> bool {
    &&& min > 0
    &&& forall|i: int| 0 <= i < heights.len() ==> #[trigger] heights[i] >= min
}

/// Heights as numbers.
pub open spec fn numbers(heights: Seq<i32>) -> Seq<int> {
    heights.map_values(|h: i32| h as int)
}

/// A window that takes all that is left leaves nothing for the next: where the next
/// finds enough, it has taken its own height.
proof fn lemma_takes_its_own(heights: Seq<i32>, min: int, total: int, i: int)
    requires
        all_high_enough(heights, min),
        0 <= i,
        i + 1 < heights.len(),
        binpack::left_after(heights, min, total, i + 2) is Some,
    ensures
        binpack::left_after(heights, min, total, i) is Some,
        binpack::taken(heights, min, total, i) == heights[i],
        binpack::left_after(heights, min, total, i + 1) == Some(
            binpack::left_after(heights, min, total, i)->0 - heights[i],
        ),
{
    binpack::lemma_prefix_found(heights, min, total, i + 1, i + 2);
    binpack::lemma_prefix_found(heights, min, total, i, i + 2);
    let left = binpack::left_after(heights, min, total, i)->0;
    if heights[i] >= left {
        assert(binpack::left_after(heights, min, total, i + 1) == Some(0int));
        assert(heights[i + 1] >= min);
        let below = heights.len() - (i + 1);
        assert(min * below >= min) by (nonlinear_arith)
            requires
                min > 0,
                below >= 1,
        ;
        assert(false);
    }
}

/// The windows keep a height each from the first on, and the rest share evenly: that
/// is where the last that finds enough is.
pub open spec fn kept(heights: Seq<i32>, min: int, total: int) -> int {
    binpack::reach(heights, min, total) - 1
}

/// The first windows of a column keep their heights and all others are equally high.
pub proof fn law_a_prefix_keeps_its_heights(heights: Seq<i32>, min: int, total: int)
    requires
        all_high_enough(heights, min),
    ensures
        binpack::packed(heights, min, total) matches Some(out) ==> out.len() > 0 ==> {
            let k = kept(heights, min, total);
            &&& 0 <= k < heights.len()
            &&& out.len() == heights.len()
            &&& out.take(k) == numbers(heights).take(k)
            &&& forall|i: int, j: int|
                k <= i < out.len() && k <= j < out.len() ==> #[trigger] out[i] == #[trigger] out[j]
        },
{
    let n = heights.len() as int;
    let reach = binpack::lemma_has_reach(heights, min, total, 0);
    if let Some(out) = binpack::packed(heights, min, total) {
        if out.len() > 0 {
            let k = reach - 1;
            assert forall|i: int| 0 <= i < k implies out[i] == heights[i] by {
                binpack::lemma_prefix_found(heights, min, total, i + 2, reach);
                lemma_takes_its_own(heights, min, total, i);
            }
            assert(out.take(k) =~= numbers(heights).take(k));
        }
    }
}

/// How much is left behind windows that all keep their heights.
proof fn lemma_left_is_the_rest(heights: Seq<i32>, min: int, total: int, i: int)
    requires
        all_high_enough(heights, min),
        0 <= i < heights.len(),
        total - laws::sum(numbers(heights).take(heights.len() - 1)) >= min,
    ensures
        binpack::left_after(heights, min, total, i) == Some(
            total - laws::sum(numbers(heights).take(i)),
        ),
    decreases i,
{
    let all = numbers(heights);
    if i == 0 {
        assert(all.take(0) =~= Seq::empty());
    } else {
        lemma_left_is_the_rest(heights, min, total, i - 1);
        assert(all.take(i).drop_last() =~= all.take(i - 1));
        lemma_sums_rise(all, i, heights.len() - 1);
    }
}

/// More heights add up to no less.
proof fn lemma_sums_rise(heights: Seq<int>, i: int, j: int)
    requires
        0 <= i <= j <= heights.len(),
        forall|k: int| 0 <= k < heights.len() ==> #[trigger] heights[k] >= 0,
    ensures
        laws::sum(heights.take(i)) <= laws::sum(heights.take(j)),
    decreases j - i,
{
    if i < j {
        lemma_sums_rise(heights, i, j - 1);
        assert(heights.take(j).drop_last() =~= heights.take(j - 1));
        assert(heights.take(j).last() == heights[j - 1]);
    }
}

/// Where what is left for the last window is at least the least height, all others keep
/// their heights and the last has the rest: together they are as high as the strip.
pub proof fn law_the_last_takes_the_rest(heights: Seq<i32>, min: int, total: int)
    requires
        all_high_enough(heights, min),
        heights.len() > 0,
        total - laws::sum(numbers(heights).take(heights.len() - 1)) >= min,
    ensures
        ({
            let others = numbers(heights).take(heights.len() - 1);
            &&& binpack::packed(heights, min, total) == Some(
                others.push(total - laws::sum(others)),
            )
            &&& laws::sum(others.push(total - laws::sum(others))) == total
        }),
{
    let n = heights.len() as int;
    let others = numbers(heights).take(n - 1);
    let rest = total - laws::sum(others);
    lemma_left_is_the_rest(heights, min, total, n - 1);
    assert(min * (n - (n - 1)) == min) by (nonlinear_arith);
    assert(binpack::left_after(heights, min, total, n) is Some);
    let k = binpack::lemma_has_reach(heights, min, total, n);
    assert(k == n) by {
        if k < n {
            binpack::lemma_prefix_found(heights, min, total, k + 1, n);
        }
    }
    let out = binpack::packed(heights, min, total)->0;
    assert forall|i: int| 0 <= i < n - 1 implies out[i] == others[i] by {
        binpack::lemma_prefix_found(heights, min, total, i + 2, n);
        lemma_takes_its_own(heights, min, total, i);
    }
    assert(out =~= others.push(rest));
    assert(others.push(rest).drop_last() =~= others);
}

/// Heights that are each at least something are together at least as many times that.
proof fn lemma_least_sum(heights: Seq<int>, min: int)
    requires
        forall|i: int| 0 <= i < heights.len() ==> #[trigger] heights[i] >= min,
    ensures
        laws::sum(heights) >= heights.len() * min,
    decreases heights.len(),
{
    if heights.len() > 0 {
        let front = heights.drop_last();
        assert forall|i: int| 0 <= i < front.len() implies #[trigger] front[i] >= min by {
            assert(front[i] == heights[i]);
        }
        lemma_least_sum(front, min);
        assert(heights[heights.len() - 1] >= min);
        let n = heights.len() as int;
        assert(n * min == (n - 1) * min + min) by (nonlinear_arith);
    }
}

/// Each window of a column gets at least the least height; together they are as high as
/// the strip, but for less than one pixel for each. There are no heights where the strip
/// is too low for all of them.
pub proof fn law_each_window_is_high_enough(heights: Seq<i32>, min: int, total: int)
    requires
        all_high_enough(heights, min),
        heights.len() > 0,
        heights[0] < total,
    ensures
        binpack::packed(heights, min, total) matches Some(out) ==> {
            &&& out.len() == heights.len()
            &&& forall|i: int| 0 <= i < out.len() ==> #[trigger] out[i] >= min
            &&& laws::sum(out) <= total
            &&& total - laws::sum(out) < heights.len()
        },
        total < heights.len() * min ==> binpack::packed(heights, min, total) is None,
{
    let n = heights.len() as int;
    assert(heights[0] >= min);
    assert(binpack::left_after(heights, min, total, 0) == Some(total));
    assert(binpack::left_after(heights, min, total, 1) is Some);
    let reach = binpack::lemma_has_reach(heights, min, total, 1);
    assert(reach >= 1) by {
        if reach == 0 {
            assert(binpack::left_after(heights, min, total, reach + 1) is None);
        }
    }
    laws::law_heights_fill_the_strip(heights, min, total);
    if let Some(out) = binpack::packed(heights, min, total) {
        assert forall|i: int| 0 <= i < out.len() implies #[trigger] out[i] >= min by {
            if i < reach - 1 {
                binpack::lemma_prefix_found(heights, min, total, i + 2, reach);
                lemma_takes_its_own(heights, min, total, i);
                assert(heights[i] >= min);
            } else if reach == n {
                binpack::lemma_prefix_found(heights, min, total, n - 1, n);
                assert(heights[n - 1] >= min);
                assert(min * (n - (n - 1)) == min) by (nonlinear_arith);
                assert(binpack::left_after(heights, min, total, n) is Some);
            }
        }
        lemma_least_sum(out, min);
    }
}

} // verus!
