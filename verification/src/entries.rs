//! Tables of named values, sorted by name.
use vstd::prelude::*;

use crate::search;
use crate::text::letters;

verus! {

// ---------------------------------------------------------------------------
// The order of names
// ---------------------------------------------------------------------------
/// One name comes before another: character by character, and a shorter one
/// before those that it begins.
pub open spec fn before(a: Seq<char>, b: Seq<char>) -> bool
    decreases a.len(),
{
    if b.len() == 0 {
        false
    } else if a.len() == 0 {
        true
    } else if a[0] != b[0] {
        a[0] < b[0]
    } else {
        before(a.drop_first(), b.drop_first())
    }
}

/// Of two names one comes before the other unless they are the same.
pub proof fn lemma_before_total(a: Seq<char>, b: Seq<char>)
    ensures
        before(a, b) || before(b, a) || a == b,
        !(before(a, b) && before(b, a)),
        before(a, b) ==> a != b,
    decreases a.len(),
{
    if a.len() > 0 && b.len() > 0 && a[0] == b[0] {
        lemma_before_total(a.drop_first(), b.drop_first());
        if a.drop_first() == b.drop_first() {
            assert(a =~= seq![a[0]] + a.drop_first());
            assert(b =~= seq![b[0]] + b.drop_first());
        }
    } else if a.len() == 0 && b.len() == 0 {
        assert(a =~= b);
    }
}

/// What comes before a name comes before all that it comes before.
pub proof fn lemma_before_transitive(a: Seq<char>, b: Seq<char>, c: Seq<char>)
    requires
        before(a, b),
        before(b, c),
    ensures
        before(a, c),
    decreases a.len(),
{
    if a.len() > 0 && b.len() > 0 && c.len() > 0 && a[0] == b[0] && b[0] == c[0] {
        lemma_before_transitive(a.drop_first(), b.drop_first(), c.drop_first());
    }
}

/// Whether one name comes before another.
fn is_before(a: &str, b: &str) -> (is: bool)
    ensures
        is == before(a@, b@),
{
    let x = letters(a);
    let y = letters(b);
    let mut i: usize = 0;
    assert(x@.skip(0) =~= a@);
    assert(y@.skip(0) =~= b@);
    while i < x.len() && i < y.len() && x[i] == y[i]
        invariant
            i <= x.len(),
            i <= y.len(),
            before(x@.skip(i as int), y@.skip(i as int)) == before(a@, b@),
        decreases x.len() - i,
    {
        assert(x@.skip(i as int)[0] == x@[i as int]);
        assert(y@.skip(i as int)[0] == y@[i as int]);
        assert(x@.skip(i as int).drop_first() =~= x@.skip(i + 1));
        assert(y@.skip(i as int).drop_first() =~= y@.skip(i + 1));
        i = i + 1;
    }
    if i == y.len() {
        false
    } else if i == x.len() {
        true
    } else {
        assert(x@.skip(i as int)[0] == x@[i as int]);
        assert(y@.skip(i as int)[0] == y@[i as int]);
        x[i] < y[i]
    }
}

// ---------------------------------------------------------------------------
// Tables
// ---------------------------------------------------------------------------
/// Each name comes before the next, so that none is there twice.
pub open spec fn is_sorted<V>(entries: Seq<(Seq<char>, V)>) -> bool {
    forall|i: int, j: int|
        0 <= i < j < entries.len() ==> before((#[trigger] entries[i]).0, (#[trigger] entries[j]).0)
}

/// Entries with this name.
pub open spec fn named<V>(name: Seq<char>) -> spec_fn((Seq<char>, V)) -> bool {
    |entry: (Seq<char>, V)| entry.0 == name
}

/// Entries whose name does not come before another.
pub open spec fn from<V>(name: Seq<char>) -> spec_fn((Seq<char>, V)) -> bool {
    |entry: (Seq<char>, V)| !before(entry.0, name)
}

/// The value with a name.
pub open spec fn lookup<V>(entries: Seq<(Seq<char>, V)>, name: Seq<char>) -> Option<V> {
    match search::first_where(entries, named(name)) {
        Some(entry) => Some(entry.1),
        None => None,
    }
}

/// The table with a value under a name, in place of what was there.
pub open spec fn with<V>(entries: Seq<(Seq<char>, V)>, name: Seq<char>, value: V) -> Seq<
    (Seq<char>, V),
> {
    match search::first_index(entries, from(name)) {
        Some(i) => if entries[i].0 == name {
            entries.update(i, (name, value))
        } else {
            entries.insert(i, (name, value))
        },
        None => entries.push((name, value)),
    }
}

/// The table without what is under a name.
pub open spec fn without<V>(entries: Seq<(Seq<char>, V)>, name: Seq<char>) -> Seq<(Seq<char>, V)> {
    match search::first_index(entries, named(name)) {
        Some(i) => entries.remove(i),
        None => entries,
    }
}

/// In a sorted table an entry is what is under its name.
pub proof fn lemma_lookup_at<V>(entries: Seq<(Seq<char>, V)>, i: int)
    requires
        is_sorted(entries),
        0 <= i < entries.len(),
    ensures
        lookup(entries, entries[i].0) == Some(entries[i].1),
{
    let p = named::<V>(entries[i].0);
    assert forall|j: int| 0 <= j < i implies !p(#[trigger] entries[j]) by {
        lemma_before_total(entries[j].0, entries[i].0);
    }
    search::lemma_first_index(entries, p, i);
}

/// A name that is in the table is under some index.
proof fn lemma_lookup_index<V>(entries: Seq<(Seq<char>, V)>, name: Seq<char>) -> (i: Option<int>)
    ensures
        match i {
            Some(i) => 0 <= i < entries.len() && entries[i].0 == name && lookup(entries, name)
                == Some(entries[i].1),
            None => lookup(entries, name) is None && forall|j: int|
                0 <= j < entries.len() ==> (#[trigger] entries[j]).0 != name,
        },
{
    let p = named::<V>(name);
    search::lemma_first_index_meaning(entries, p);
    match search::first_index(entries, p) {
        Some(i) => Some(i),
        None => {
            assert forall|j: int| 0 <= j < entries.len() implies (#[trigger] entries[j]).0 != name by {
                assert(!p(entries[j]));
            }
            None
        },
    }
}

/// What is put under a name is found there, all else is as before, and the table
/// stays sorted.
pub proof fn law_with_sets_one<V>(
    entries: Seq<(Seq<char>, V)>,
    name: Seq<char>,
    value: V,
    other: Seq<char>,
)
    requires
        is_sorted(entries),
    ensures
        is_sorted(with(entries, name, value)),
        lookup(with(entries, name, value), other) == if other == name {
            Some(value)
        } else {
            lookup(entries, other)
        },
{
    let q = from::<V>(name);
    let after = with(entries, name, value);
    search::lemma_first_index_meaning(entries, q);
    let at: int = match search::first_index(entries, q) {
        Some(i) => i,
        None => entries.len() as int,
    };
    assert forall|j: int| 0 <= j < at implies before((#[trigger] entries[j]).0, name) by {
        assert(!q(entries[j]));
    }
    let found = at < entries.len() && entries[at].0 == name;
    assert forall|j: int| at <= j < entries.len() && (j > at || !found) implies before(
        name,
        (#[trigger] entries[j]).0,
    ) by {
        assert(q(entries[at]));
        lemma_before_total(entries[at].0, name);
        if j > at {
            assert(before(entries[at].0, entries[j].0));
            if !found {
                lemma_before_transitive(name, entries[at].0, entries[j].0);
            }
        }
    }
    assert(after[at] == (name, value));
    assert forall|i: int, j: int| 0 <= i < j < after.len() implies before(
        (#[trigger] after[i]).0,
        (#[trigger] after[j]).0,
    ) by {
        let shift: int = if found {
            0
        } else {
            1
        };
        if i < at {
            assert(after[i].0 == entries[i].0);
            if j > at {
                assert(after[j].0 == entries[j - shift].0);
            } else if j < at {
                assert(after[j].0 == entries[j].0);
            }
        } else if i == at {
            assert(after[j].0 == entries[j - shift].0);
        } else {
            assert(after[i].0 == entries[i - shift].0);
            assert(after[j].0 == entries[j - shift].0);
        }
    }
    let shift: int = if found {
        0
    } else {
        1
    };
    if other == name {
        lemma_lookup_at(after, at);
    } else {
        match lemma_lookup_index(entries, other) {
            Some(k) => {
                let m = if k < at {
                    k
                } else {
                    k + shift
                };
                assert(after[m] == entries[k]);
                lemma_lookup_at(after, m);
            },
            None => {
                match lemma_lookup_index(after, other) {
                    Some(m) => {
                        if m < at {
                            assert(after[m] == entries[m]);
                        } else if m > at {
                            assert(after[m] == entries[m - shift]);
                        }
                        assert(false);
                    },
                    None => {},
                }
            },
        }
    }
}

/// What is taken out is not found any more, all else is as before, and the table
/// stays sorted.
pub proof fn law_without_takes_one<V>(
    entries: Seq<(Seq<char>, V)>,
    name: Seq<char>,
    other: Seq<char>,
)
    requires
        is_sorted(entries),
    ensures
        is_sorted(without(entries, name)),
        lookup(without(entries, name), other) == if other == name {
            None
        } else {
            lookup(entries, other)
        },
{
    let p = named::<V>(name);
    search::lemma_first_index_meaning(entries, p);
    match search::first_index(entries, p) {
        None => {},
        Some(at) => {
            let after = entries.remove(at);
            assert forall|i: int, j: int| 0 <= i < j < after.len() implies before(
                (#[trigger] after[i]).0,
                (#[trigger] after[j]).0,
            ) by {
                let a = if i < at {
                    i
                } else {
                    i + 1
                };
                let b = if j < at {
                    j
                } else {
                    j + 1
                };
                assert(after[i] == entries[a] && after[j] == entries[b]);
            }
            if other == name {
                match lemma_lookup_index(after, name) {
                    Some(m) => {
                        let k = if m < at {
                            m
                        } else {
                            m + 1
                        };
                        assert(after[m] == entries[k]);
                        if k < at {
                            lemma_before_total(entries[k].0, entries[at].0);
                        } else {
                            lemma_before_total(entries[at].0, entries[k].0);
                        }
                        assert(false);
                    },
                    None => {},
                }
            } else {
                match lemma_lookup_index(entries, other) {
                    Some(k) => {
                        let m = if k < at {
                            k
                        } else {
                            k - 1
                        };
                        assert(after[m] == entries[k]);
                        lemma_lookup_at(after, m);
                    },
                    None => {
                        match lemma_lookup_index(after, other) {
                            Some(m) => {
                                let k = if m < at {
                                    m
                                } else {
                                    m + 1
                                };
                                assert(after[m] == entries[k]);
                                assert(false);
                            },
                            None => {},
                        }
                    },
                }
            }
        },
    }
}

/// Where a name goes in a table: the first entry that does not come before it.
pub(crate) fn place_for<V>(entries: &Vec<(String, V)>, name: &str) -> (at: usize)
    ensures
        at <= entries.len(),
        forall|j: int| 0 <= j < at ==> before((#[trigger] entries@[j]).0@, name@),
        at < entries.len() ==> !before(entries@[at as int].0@, name@),
{
    let mut i: usize = 0;
    while i < entries.len()
        invariant
            i <= entries.len(),
            forall|j: int| 0 <= j < i ==> before((#[trigger] entries@[j]).0@, name@),
        decreases entries.len() - i,
    {
        if !is_before(entries[i].0.as_str(), name) {
            return i;
        }
        i = i + 1;
    }
    i
}

} // verus!
