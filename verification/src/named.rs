//! Lists of named things, looked up by name.

use vstd::prelude::*;

verus! {

/// What stands under `name` among the first `n` entries of a list; the first such entry
/// where the name occurs more than once.
pub open spec fn named_within<T>(entries: Seq<(Seq<char>, T)>, n: nat, name: Seq<char>) -> Option<T>
    decreases n,
{
    if n == 0 || n > entries.len() {
        None
    } else {
        match named_within(entries, (n - 1) as nat, name) {
            Some(found) => Some(found),
            None => if entries[n - 1].0 == name {
                Some(entries[n - 1].1)
            } else {
                None
            },
        }
    }
}

/// What stands under `name` in a list, if anything does.
pub open spec fn named<T>(entries: Seq<(Seq<char>, T)>, name: Seq<char>) -> Option<T> {
    named_within(entries, entries.len(), name)
}

/// What is found under a name is one of the entries; where nothing is found, no entry
/// has the name.
pub proof fn lemma_named_is_among<T>(entries: Seq<(Seq<char>, T)>, n: nat, name: Seq<char>)
    requires
        n <= entries.len(),
    ensures
        named_within(entries, n, name) matches Some(found) ==> exists|i: int|
            0 <= i < n && #[trigger] entries[i].0 == name && entries[i].1 == found,
        named_within(entries, n, name) is None ==> forall|i: int|
            0 <= i < n ==> #[trigger] entries[i].0 != name,
    decreases n,
{
    if n > 0 {
        lemma_named_is_among(entries, (n - 1) as nat, name);
    }
}

/// What is found among the first entries of a list is what is found in the whole list.
pub proof fn lemma_named_stays<T>(entries: Seq<(Seq<char>, T)>, n: nat, m: nat, name: Seq<char>)
    requires
        n <= m <= entries.len(),
        named_within(entries, n, name) is Some,
    ensures
        named_within(entries, m, name) == named_within(entries, n, name),
    decreases m,
{
    if n < m {
        lemma_named_stays(entries, n, (m - 1) as nat, name);
    }
}

/// What is found among the first entries depends on those entries alone.
pub proof fn lemma_named_same_start<T>(
    one: Seq<(Seq<char>, T)>,
    other: Seq<(Seq<char>, T)>,
    n: nat,
    name: Seq<char>,
)
    requires
        n <= one.len(),
        n <= other.len(),
        forall|i: int| 0 <= i < n ==> one[i] == other[i],
    ensures
        named_within(one, n, name) == named_within(other, n, name),
    decreases n,
{
    if n > 0 {
        lemma_named_same_start(one, other, (n - 1) as nat, name);
    }
}

/// In a list followed by another, what stands in the first list is found first.
pub proof fn lemma_named_concat<T>(
    first: Seq<(Seq<char>, T)>,
    second: Seq<(Seq<char>, T)>,
    m: nat,
    name: Seq<char>,
)
    requires
        m <= second.len(),
    ensures
        named_within(first + second, first.len() + m, name) == match named(first, name) {
            Some(found) => Some(found),
            None => named_within(second, m, name),
        },
    decreases m,
{
    if m == 0 {
        lemma_named_same_start(first + second, first, first.len(), name);
    } else {
        lemma_named_concat(first, second, (m - 1) as nat, name);
        assert((first + second)[first.len() + m - 1] == second[m - 1]);
    }
}

/// Where two lists have the same names, and each thing of the second is made from the
/// thing in the same place of the first, what is found in the second is made from what is
/// found in the first.
pub proof fn lemma_named_mapped<T, U>(
    from: Seq<(Seq<char>, T)>,
    to: Seq<(Seq<char>, U)>,
    make: spec_fn(T) -> U,
    n: nat,
    name: Seq<char>,
)
    requires
        n <= from.len(),
        from.len() == to.len(),
        forall|i: int|
            0 <= i < from.len() ==> (#[trigger] to[i]).0 == from[i].0 && to[i].1 == make(from[i].1),
    ensures
        named_within(to, n, name) == match named_within(from, n, name) {
            Some(found) => Some(make(found)),
            None => None,
        },
    decreases n,
{
    if n > 0 {
        lemma_named_mapped(from, to, make, (n - 1) as nat, name);
        assert(to[n - 1].0 == from[n - 1].0);
    }
}

/// Where two lists have the same names, and each thing of the second is related to the
/// thing in the same place of the first, a name is found in both or in neither, and what
/// is found in the second is related to what is found in the first.
pub proof fn lemma_named_related<T, U>(
    from: Seq<(Seq<char>, T)>,
    to: Seq<(Seq<char>, U)>,
    related: spec_fn(T, U) -> bool,
    n: nat,
    name: Seq<char>,
)
    requires
        n <= from.len(),
        from.len() == to.len(),
        forall|i: int|
            0 <= i < from.len() ==> (#[trigger] to[i]).0 == from[i].0 && related(
                from[i].1,
                to[i].1,
            ),
    ensures
        match named_within(from, n, name) {
            Some(found) => named_within(to, n, name) matches Some(other) && related(found, other),
            None => named_within(to, n, name) is None,
        },
    decreases n,
{
    if n > 0 {
        lemma_named_related(from, to, related, (n - 1) as nat, name);
        assert(to[n - 1].0 == from[n - 1].0);
    }
}

} // verus!
