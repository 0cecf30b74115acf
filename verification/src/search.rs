//! What "the first element that ..." means, and sums over a sequence.
use vstd::prelude::*;

verus! {

/// `i` is the least index of `s` whose element satisfies `p`.
pub open spec fn is_first<A>(s: Seq<A>, p: spec_fn(A) -> bool, i: int) -> bool {
    &&& 0 <= i < s.len()
    &&& p(s[i])
    &&& forall|j: int| 0 <= j < i ==> !p(#[trigger] s[j])
}

/// The least index of `s` whose element satisfies `p`, if any does.
pub open spec fn first_index<A>(s: Seq<A>, p: spec_fn(A) -> bool) -> Option<int> {
    if exists|i: int| is_first(s, p, i) {
        Some(choose|i: int| is_first(s, p, i))
    } else {
        None
    }
}

/// An index that is the first one is what [`first_index`] names.
pub proof fn lemma_first_index<A>(s: Seq<A>, p: spec_fn(A) -> bool, i: int)
    requires
        is_first(s, p, i),
    ensures
        first_index(s, p) == Some(i),
{
    let k = choose|k: int| is_first(s, p, k);
    assert(is_first(s, p, k));
    if k < i {
        assert(!p(s[k]));
    } else if i < k {
        assert(!p(s[i]));
    }
}

/// Where no element satisfies `p` there is no first one.
pub proof fn lemma_no_first_index<A>(s: Seq<A>, p: spec_fn(A) -> bool)
    requires
        forall|j: int| 0 <= j < s.len() ==> !p(#[trigger] s[j]),
    ensures
        first_index(s, p) is None,
{
}

/// Where some element satisfies `p` there is a first one, no later than it.
pub proof fn lemma_some_first_index<A>(s: Seq<A>, p: spec_fn(A) -> bool, at: int)
    requires
        0 <= at < s.len(),
        p(s[at]),
    ensures
        first_index(s, p) is Some,
        is_first(s, p, first_index(s, p)->0),
        first_index(s, p)->0 <= at,
    decreases at,
{
    if forall|j: int| 0 <= j < at ==> !p(#[trigger] s[j]) {
        assert(is_first(s, p, at));
        lemma_first_index(s, p, at);
    } else {
        let j = choose|j: int| 0 <= j < at && p(#[trigger] s[j]);
        lemma_some_first_index(s, p, j);
    }
}

/// What [`first_index`] says, both ways.
pub proof fn lemma_first_index_meaning<A>(s: Seq<A>, p: spec_fn(A) -> bool)
    ensures
        first_index(s, p) matches Some(i) ==> is_first(s, p, i),
        first_index(s, p) is None ==> forall|j: int| 0 <= j < s.len() ==> !p(#[trigger] s[j]),
{
    if first_index(s, p) is None {
        assert forall|j: int| 0 <= j < s.len() implies !p(#[trigger] s[j]) by {
            if p(s[j]) {
                lemma_some_first_index(s, p, j);
            }
        }
    }
}

/// `i` is the greatest index of `s` whose element satisfies `p`.
pub open spec fn is_last<A>(s: Seq<A>, p: spec_fn(A) -> bool, i: int) -> bool {
    &&& 0 <= i < s.len()
    &&& p(s[i])
    &&& forall|j: int| i < j < s.len() ==> !p(#[trigger] s[j])
}

/// The greatest index of `s` whose element satisfies `p`, if any does.
pub open spec fn last_index<A>(s: Seq<A>, p: spec_fn(A) -> bool) -> Option<int> {
    if exists|i: int| is_last(s, p, i) {
        Some(choose|i: int| is_last(s, p, i))
    } else {
        None
    }
}

/// An index that is the last one is what [`last_index`] names.
pub proof fn lemma_last_index<A>(s: Seq<A>, p: spec_fn(A) -> bool, i: int)
    requires
        is_last(s, p, i),
    ensures
        last_index(s, p) == Some(i),
{
    let k = choose|k: int| is_last(s, p, k);
    assert(is_last(s, p, k));
    if k < i {
        assert(!p(s[i]));
    } else if i < k {
        assert(!p(s[k]));
    }
}

/// Conditions that agree on the elements are first met by the same one.
pub proof fn lemma_first_index_same<A>(s: Seq<A>, p: spec_fn(A) -> bool, q: spec_fn(A) -> bool)
    requires
        forall|i: int| 0 <= i < s.len() ==> p(#[trigger] s[i]) == q(s[i]),
    ensures
        first_index(s, p) == first_index(s, q),
{
    lemma_first_index_meaning(s, p);
    match first_index(s, p) {
        Some(i) => {
            assert(q(s[i]));
            assert forall|j: int| 0 <= j < i implies !q(#[trigger] s[j]) by {
                assert(!p(s[j]));
            }
            lemma_first_index(s, q, i);
        },
        None => {
            assert forall|j: int| 0 <= j < s.len() implies !q(#[trigger] s[j]) by {
                assert(!p(s[j]));
            }
            lemma_no_first_index(s, q);
        },
    }
}

/// Where no element satisfies `p` there is no last one.
pub proof fn lemma_no_last_index<A>(s: Seq<A>, p: spec_fn(A) -> bool)
    requires
        forall|j: int| 0 <= j < s.len() ==> !p(#[trigger] s[j]),
    ensures
        last_index(s, p) is None,
{
}

/// What is in one of several lists is in the list of all of them, and the other
/// way round.
pub proof fn lemma_flatten_contains<A>(lists: Seq<Seq<A>>, x: A)
    ensures
        lists.flatten().contains(x) <==> exists|k: int|
            0 <= k < lists.len() && (#[trigger] lists[k]).contains(x),
    decreases lists.len(),
{
    if lists.len() > 0 {
        let rest = lists.drop_first();
        lemma_flatten_contains(rest, x);
        let all = lists.first() + rest.flatten();
        assert(lists.flatten() == all);
        if all.contains(x) {
            let i = choose|i: int| 0 <= i < all.len() && all[i] == x;
            if i < lists.first().len() {
                assert(lists[0][i] == x);
            } else {
                assert(rest.flatten()[i - lists.first().len()] == x);
                let k = choose|k: int| 0 <= k < rest.len() && (#[trigger] rest[k]).contains(x);
                assert(lists[k + 1].contains(x));
            }
        }
        if exists|k: int| 0 <= k < lists.len() && (#[trigger] lists[k]).contains(x) {
            let k = choose|k: int| 0 <= k < lists.len() && (#[trigger] lists[k]).contains(x);
            if k == 0 {
                let i = choose|i: int| 0 <= i < lists[0].len() && lists[0][i] == x;
                assert(all[i] == x);
            } else {
                assert(rest[k - 1].contains(x));
                let i = choose|i: int| 0 <= i < rest.flatten().len() && rest.flatten()[i] == x;
                assert(all[lists.first().len() + i] == x);
            }
        }
    }
}

/// What an element is mapped to is in the mapped list.
pub proof fn lemma_mapped_contains<A, B>(s: Seq<A>, f: spec_fn(A) -> Option<B>, i: int, x: B)
    requires
        0 <= i < s.len(),
        f(s[i]) == Some(x),
    ensures
        s.filter_map(f).contains(x),
    decreases s.len(),
{
    reveal(Seq::filter_map);
    let rest = s.drop_last();
    let mapped = s.filter_map(f);
    if i == s.len() - 1 {
        assert(mapped.last() == x);
    } else {
        lemma_mapped_contains(rest, f, i, x);
        let k = choose|k: int| 0 <= k < rest.filter_map(f).len() && rest.filter_map(f)[k] == x;
        assert(mapped[k] == x);
    }
}

/// What a mapping that lets some through gives comes from an element.
pub proof fn lemma_filter_map_from<A, B>(s: Seq<A>, f: spec_fn(A) -> Option<B>, k: int) -> (i: int)
    requires
        0 <= k < s.filter_map(f).len(),
    ensures
        0 <= i < s.len(),
        f(s[i]) == Some(s.filter_map(f)[k]),
    decreases s.len(),
{
    if s.len() == 0 {
        assert(s.filter_map(f) =~= Seq::<B>::empty());
        0
    } else {
        let n = s.len() - 1;
        s.lemma_filter_map_take_succ(f, n);
        assert(s.take(n + 1) == s);
        let head = s.take(n);
        if k < head.filter_map(f).len() {
            let i = lemma_filter_map_from(head, f, k);
            assert(s[i] == head[i]);
            i
        } else {
            n
        }
    }
}

/// Mappings that agree on the elements give the same.
pub proof fn lemma_filter_map_same<A, B>(
    s: Seq<A>,
    f: spec_fn(A) -> Option<B>,
    g: spec_fn(A) -> Option<B>,
)
    requires
        forall|i: int| 0 <= i < s.len() ==> f(#[trigger] s[i]) == g(s[i]),
    ensures
        s.filter_map(f) == s.filter_map(g),
    decreases s.len(),
{
    reveal(Seq::filter_map);
    if s.len() > 0 {
        let head = s.drop_last();
        assert forall|i: int| 0 <= i < head.len() implies f(#[trigger] head[i]) == g(head[i]) by {
            assert(head[i] == s[i]);
        }
        lemma_filter_map_same(head, f, g);
        assert(f(s[s.len() - 1]) == g(s[s.len() - 1]));
    }
}

/// Conditions that agree on the elements let the same through.
pub proof fn lemma_filter_same<A>(s: Seq<A>, p: spec_fn(A) -> bool, q: spec_fn(A) -> bool)
    requires
        forall|i: int| 0 <= i < s.len() ==> p(#[trigger] s[i]) == q(s[i]),
    ensures
        s.filter(p) == s.filter(q),
    decreases s.len(),
{
    reveal(Seq::filter);
    if s.len() > 0 {
        let head = s.drop_last();
        assert forall|i: int| 0 <= i < head.len() implies p(#[trigger] head[i]) == q(head[i]) by {
            assert(head[i] == s[i]);
        }
        lemma_filter_same(head, p, q);
        assert(p(s[s.len() - 1]) == q(s[s.len() - 1]));
    }
}

/// What a condition lets through is one of the elements.
pub proof fn lemma_filter_from<A>(s: Seq<A>, p: spec_fn(A) -> bool, k: int)
    requires
        0 <= k < s.filter(p).len(),
    ensures
        s.contains(s.filter(p)[k]),
{
    assert(s.filter(p).contains(s.filter(p)[k]));
    s.lemma_filter_contains_rev(p, s.filter(p)[k]);
}

/// The first element of `s` that satisfies `p`, if any does.
pub open spec fn first_where<A>(s: Seq<A>, p: spec_fn(A) -> bool) -> Option<A> {
    match first_index(s, p) {
        Some(i) => Some(s[i]),
        None => None,
    }
}

/// The sum of `f` over the elements of `s`.
pub open spec fn sum_by<A>(s: Seq<A>, f: spec_fn(A) -> nat) -> nat
    decreases s.len(),
{
    if s.len() == 0 {
        0
    } else {
        sum_by(s.drop_last(), f) + f(s.last())
    }
}

/// Appending an element adds its share.
pub proof fn lemma_sum_push<A>(s: Seq<A>, f: spec_fn(A) -> nat, a: A)
    ensures
        sum_by(s.push(a), f) == sum_by(s, f) + f(a),
{
    assert(s.push(a).drop_last() =~= s);
}

/// Replacing an element exchanges its share.
pub proof fn lemma_sum_update<A>(s: Seq<A>, f: spec_fn(A) -> nat, i: int, a: A)
    requires
        0 <= i < s.len(),
    ensures
        sum_by(s.update(i, a), f) + f(s[i]) == sum_by(s, f) + f(a),
    decreases s.len(),
{
    let t = s.update(i, a);
    if i == s.len() - 1 {
        assert(t.drop_last() =~= s.drop_last());
    } else {
        assert(t.drop_last() =~= s.drop_last().update(i, a));
        lemma_sum_update(s.drop_last(), f, i, a);
    }
}

/// Taking an element out takes its share out.
pub proof fn lemma_sum_remove<A>(s: Seq<A>, f: spec_fn(A) -> nat, i: int)
    requires
        0 <= i < s.len(),
    ensures
        sum_by(s.remove(i), f) + f(s[i]) == sum_by(s, f),
    decreases s.len(),
{
    if i == s.len() - 1 {
        assert(s.remove(i) =~= s.drop_last());
    } else {
        assert(s.remove(i).drop_last() =~= s.drop_last().remove(i));
        lemma_sum_remove(s.drop_last(), f, i);
    }
}

/// Two sequences whose elements have equal shares have equal sums.
pub proof fn lemma_sum_same<A, B>(s: Seq<A>, f: spec_fn(A) -> nat, t: Seq<B>, g: spec_fn(B) -> nat)
    requires
        s.len() == t.len(),
        forall|i: int| #![trigger s[i]] #![trigger t[i]] 0 <= i < s.len() ==> f(s[i]) == g(t[i]),
    ensures
        sum_by(s, f) == sum_by(t, g),
    decreases s.len(),
{
    if s.len() > 0 {
        assert(f(s[s.len() - 1]) == g(t[t.len() - 1]));
        assert forall|i: int| 0 <= i < s.len() - 1 implies f(#[trigger] s.drop_last()[i]) == g(
            t.drop_last()[i],
        ) by {
            assert(f(s[i]) == g(t[i]));
        }
        lemma_sum_same(s.drop_last(), f, t.drop_last(), g);
    }
}

/// A sum is at least each of its shares.
pub proof fn lemma_sum_has<A>(s: Seq<A>, f: spec_fn(A) -> nat, i: int)
    requires
        0 <= i < s.len(),
    ensures
        f(s[i]) <= sum_by(s, f),
    decreases s.len(),
{
    if i < s.len() - 1 {
        lemma_sum_has(s.drop_last(), f, i);
    }
}

/// A positive sum has a positive share.
pub proof fn lemma_sum_positive<A>(s: Seq<A>, f: spec_fn(A) -> nat) -> (i: int)
    requires
        sum_by(s, f) > 0,
    ensures
        0 <= i < s.len(),
        f(s[i]) > 0,
    decreases s.len(),
{
    if f(s.last()) > 0 {
        s.len() - 1
    } else {
        lemma_sum_positive(s.drop_last(), f)
    }
}

/// What one more element adds to what a list is mapped to.
pub proof fn lemma_filter_map_push<A, B>(s: Seq<A>, f: spec_fn(A) -> Option<B>, x: A)
    ensures
        s.push(x).filter_map(f) == match f(x) {
            Some(y) => s.filter_map(f).push(y),
            None => s.filter_map(f),
        },
        Seq::<A>::empty().filter_map(f) == Seq::<B>::empty(),
{
    let n = s.len() as int;
    s.push(x).lemma_filter_map_take_succ(f, n);
    assert(s.push(x).take(n) =~= s);
    assert(s.push(x).take(n + 1) =~= s.push(x));
    assert(Seq::<A>::empty().filter_map(f) =~= Seq::<B>::empty());
}

/// What an element is mapped to is among what the list is mapped to.
pub proof fn lemma_filter_map_to<A, B>(s: Seq<A>, f: spec_fn(A) -> Option<B>, i: int) -> (k: int)
    requires
        0 <= i < s.len(),
        f(s[i]) is Some,
    ensures
        0 <= k < s.filter_map(f).len(),
        s.filter_map(f)[k] == f(s[i])->0,
    decreases s.len(),
{
    let n = s.len() - 1;
    let front = s.take(n);
    s.lemma_filter_map_take_succ(f, n);
    assert(s.take(n + 1) =~= s);
    if i == n {
        s.filter_map(f).len() - 1
    } else {
        assert(front[i] == s[i]);
        lemma_filter_map_to(front, f, i)
    }
}

/// What passes a filter is what was there and passes it.
pub proof fn lemma_filtered<A>(s: Seq<A>, p: spec_fn(A) -> bool, x: A)
    ensures
        s.filter(p).contains(x) <==> s.contains(x) && p(x),
{
    if s.filter(p).contains(x) {
        let k = choose|k: int| 0 <= k < s.filter(p).len() && s.filter(p)[k] == x;
        s.lemma_filter_pred(p, k);
        lemma_filter_from(s, p, k);
    }
    if s.contains(x) && p(x) {
        let i = choose|i: int| 0 <= i < s.len() && s[i] == x;
        s.lemma_filter_contains(p, i);
    }
}

} // verus!
