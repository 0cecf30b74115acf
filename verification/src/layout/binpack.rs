//! Sharing the height of a strip among the windows of one column.
use vstd::prelude::*;

use crate::geometry;

verus! {

/// The height that is left once the first `i` windows have taken theirs, or
/// `None` where one of them did not find enough.
///
/// A window takes its own height where that leaves something over. Otherwise
/// it takes all that is left, provided this would do for it and those below it
/// at the least height.
pub open spec fn left_after(heights: Seq<i32>, min: int, total: int, i: int) -> Option<int>
    decreases i,
{
    if i <= 0 {
        Some(total)
    } else {
        match left_after(heights, min, total, i - 1) {
            None => None,
            Some(left) => if heights[i - 1] < left {
                Some(left - heights[i - 1])
            } else if left >= min * (heights.len() - (i - 1)) {
                Some(0)
            } else {
                None
            },
        }
    }
}

/// What window `i` takes of what is left for it.
pub open spec fn taken(heights: Seq<i32>, min: int, total: int, i: int) -> int {
    let left = left_after(heights, min, total, i)->0;
    if heights[i] < left {
        heights[i] as int
    } else {
        left
    }
}

/// The first `k` windows find enough, and no more than those.
pub open spec fn is_reach(heights: Seq<i32>, min: int, total: int, k: int) -> bool {
    &&& 0 <= k <= heights.len()
    &&& left_after(heights, min, total, k) is Some
    &&& k < heights.len() ==> left_after(heights, min, total, k + 1) is None
}

/// How many windows find enough.
pub open spec fn reach(heights: Seq<i32>, min: int, total: int) -> int {
    choose|k: int| is_reach(heights, min, total, k)
}

/// The heights that `n` windows get of a total.
///
/// Where all find enough, each has what it takes and the last has all that is
/// left. Where not all do, the last that did shares what it found evenly with
/// those below it, unless that is less than the least height. Where not even
/// the first finds enough, no window gets a height.
pub open spec fn packed(heights: Seq<i32>, min: int, total: int) -> Option<Seq<int>> {
    let n = heights.len() as int;
    let k = reach(heights, min, total);
    if k == n {
        Some(
            Seq::new(
                n as nat,
                |i: int|
                    if i == n - 1 {
                        left_after(heights, min, total, i)->0
                    } else {
                        taken(heights, min, total, i)
                    },
            ),
        )
    } else if k == 0 {
        Some(Seq::empty())
    } else {
        let even = geometry::quot(left_after(heights, min, total, k - 1)->0, n - (k - 1));
        if even < min {
            None
        } else {
            Some(
                Seq::new(
                    n as nat,
                    |i: int|
                        if i < k - 1 {
                            taken(heights, min, total, i)
                        } else {
                            even
                        },
                ),
            )
        }
    }
}

/// Every number on the way fits a machine integer.
pub open spec fn packable(heights: Seq<i32>, min: int, total: int) -> bool {
    &&& heights.len() < i32::MAX
    &&& forall|i: int|
        #![trigger left_after(heights, min, total, i)]
        0 <= i <= heights.len() ==> match left_after(heights, min, total, i) {
            Some(left) => {
                &&& geometry::fits(left)
                &&& i < heights.len() && heights[i] >= left ==> geometry::fits(
                    min * (heights.len() - i),
                )
            },
            None => true,
        }
}

/// Only one number of windows can be the reach.
proof fn lemma_reach(heights: Seq<i32>, min: int, total: int, k: int)
    requires
        is_reach(heights, min, total, k),
    ensures
        reach(heights, min, total) == k,
{
    let j = reach(heights, min, total);
    assert(is_reach(heights, min, total, j));
    if j < k {
        lemma_prefix_found(heights, min, total, j + 1, k);
    } else if k < j {
        lemma_prefix_found(heights, min, total, k + 1, j);
    }
}

/// Where the first `k` windows find enough, so do fewer.
pub proof fn lemma_prefix_found(heights: Seq<i32>, min: int, total: int, i: int, k: int)
    requires
        0 <= i <= k,
        left_after(heights, min, total, k) is Some,
    ensures
        left_after(heights, min, total, i) is Some,
    decreases k - i,
{
    if i < k {
        lemma_prefix_found(heights, min, total, i, k - 1);
    }
}

/// There is a reach.
pub proof fn lemma_has_reach(heights: Seq<i32>, min: int, total: int, from: int) -> (k: int)
    requires
        0 <= from <= heights.len(),
        left_after(heights, min, total, from) is Some,
    ensures
        is_reach(heights, min, total, k),
        k == reach(heights, min, total),
    decreases heights.len() - from,
{
    if from < heights.len() && left_after(heights, min, total, from + 1) is Some {
        lemma_has_reach(heights, min, total, from + 1)
    } else {
        lemma_reach(heights, min, total, from);
        from
    }
}

/// Shares `total_height` among windows of the given heights, top to bottom.
pub fn binpack_heights(heights: &[i32], min_height: i32, total_height: i32) -> (packed_heights:
    Option<Vec<i32>>)
    requires
        packable(heights@, min_height as int, total_height as int),
    ensures
        packed_heights is None <==> packed(heights@, min_height as int, total_height as int) is None,
        packed_heights matches Some(out) ==> out@.map_values(|h: i32| h as int) == packed(
            heights@,
            min_height as int,
            total_height as int,
        )->0,
{
    let ghost h = heights@;
    let ghost min = min_height as int;
    let ghost total = total_height as int;
    let n: usize = heights.len();
    let mut taken_heights: Vec<i32> = Vec::new();
    let mut lefts: Vec<i32> = Vec::new();
    let mut left: i32 = total_height;
    let mut idx: usize = 0;
    let mut short = false;
    while idx < n && !short
        invariant
            n == h.len(),
            h == heights@,
            min == min_height,
            total == total_height,
            packable(h, min, total),
            idx <= n,
            taken_heights.len() == idx,
            lefts.len() == idx,
            left_after(h, min, total, idx as int) == Some(left as int),
            short ==> idx < n && left_after(h, min, total, idx + 1) is None,
            forall|i: int| 0 <= i < idx ==> #[trigger] lefts@[i] == left_after(h, min, total, i)->0,
            forall|i: int| 0 <= i < idx ==> #[trigger] taken_heights@[i] == taken(h, min, total, i),
        decreases n - idx + if short {
            0int
        } else {
            1
        },
    {
        assert(left_after(h, min, total, idx as int) is Some);
        assert(left_after(h, min, total, idx + 1) == left_after(h, min, total, idx + 1));
        if heights[idx] < left {
            taken_heights.push(heights[idx]);
            lefts.push(left);
            assert(geometry::fits(left_after(h, min, total, idx + 1)->0));
            left = left - heights[idx];
            idx = idx + 1;
        } else if left >= min_height * ((n - idx) as i32) {
            taken_heights.push(left);
            lefts.push(left);
            left = 0;
            idx = idx + 1;
        } else {
            short = true;
        }
    }
    proof {
        lemma_reach(h, min, total, idx as int);
    }
    if idx == n {
        if n > 0 {
            taken_heights.set(n - 1, lefts[n - 1]);
        }
        assert(taken_heights@.map_values(|h: i32| h as int) =~= packed(h, min, total)->0);
        return Some(taken_heights);
    }
    if idx == 0 {
        let none: Vec<i32> = Vec::new();
        assert(none@.map_values(|h: i32| h as int) =~= packed(h, min, total)->0);
        return Some(none);
    }
    let even: i32 = geometry::divide(lefts[idx - 1], (n - (idx - 1)) as i32);
    if even < min_height {
        return None;
    }
    taken_heights.truncate(idx - 1);
    let mut count: usize = idx - 1;
    while count < n
        invariant
            n == h.len(),
            0 < idx < n,
            idx - 1 <= count <= n,
            taken_heights.len() == count,
            forall|i: int|
                0 <= i < count ==> #[trigger] taken_heights@[i] == if i < idx - 1 {
                    taken(h, min, total, i)
                } else {
                    even as int
                },
        decreases n - count,
    {
        taken_heights.push(even);
        count = count + 1;
    }
    assert(taken_heights@.map_values(|h: i32| h as int) =~= packed(h, min, total)->0);
    Some(taken_heights)
}

} // verus!
