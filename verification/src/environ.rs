//! The environment of the program to launch: variables by name, kept in the order of
//! their names.

use vstd::prelude::*;
use crate::order::{
    compare_keys, key_before, lemma_key_asymmetric, lemma_key_transitive, KeyOrder,
};

verus! {

/// Names with their values.
pub type Pairs = Seq<(Seq<char>, Seq<char>)>;

/// The names and values held by a list of strings.
pub open spec fn pairs_view(entries: Seq<(String, String)>) -> Pairs {
    Seq::new(entries.len(), |i: int| (entries[i].0@, entries[i].1@))
}

/// The names stand in strictly ascending order, so none stands twice.
pub open spec fn ascending(pairs: Pairs) -> bool {
    forall|i: int, j: int|
        0 <= i < j < pairs.len() ==> key_before(#[trigger] pairs[i].0, #[trigger] pairs[j].0)
}

/// `name` is one of the names of a list.
pub open spec fn has_name(pairs: Pairs, name: Seq<char>) -> bool {
    exists|i: int| 0 <= i < pairs.len() && #[trigger] pairs[i].0 == name
}

/// The mapping that a list of names and values stands for.
pub open spec fn pairs_map(pairs: Pairs) -> Map<Seq<char>, Seq<char>> {
    Map::new(
        |name: Seq<char>| has_name(pairs, name),
        |name: Seq<char>| pairs[choose|i: int| 0 <= i < pairs.len() && #[trigger] pairs[i].0 == name].1,
    )
}

/// In an ascending list each name is mapped to the value that stands beside it.
pub proof fn lemma_pairs_map(pairs: Pairs)
    requires
        ascending(pairs),
    ensures
        forall|i: int|
            0 <= i < pairs.len() ==> pairs_map(pairs).contains_key(#[trigger] pairs[i].0)
                && pairs_map(pairs)[pairs[i].0] == pairs[i].1,
{
    assert forall|i: int| 0 <= i < pairs.len() implies pairs_map(pairs).contains_key(
        #[trigger] pairs[i].0,
    ) && pairs_map(pairs)[pairs[i].0] == pairs[i].1 by {
        let name = pairs[i].0;
        assert(has_name(pairs, name));
        let c = choose|c: int| 0 <= c < pairs.len() && #[trigger] pairs[c].0 == name;
        if c < i {
            lemma_key_asymmetric(pairs[c].0, pairs[i].0);
        } else if i < c {
            lemma_key_asymmetric(pairs[i].0, pairs[c].0);
        }
    }
}

/// Putting a new name into its place in an ascending list adds it to the mapping.
pub proof fn lemma_insert_pair(pairs: Pairs, at: int, name: Seq<char>, value: Seq<char>)
    requires
        ascending(pairs),
        0 <= at <= pairs.len(),
        forall|j: int| 0 <= j < at ==> key_before(#[trigger] pairs[j].0, name),
        forall|j: int| at <= j < pairs.len() ==> key_before(name, #[trigger] pairs[j].0),
    ensures
        ascending(pairs.insert(at, (name, value))),
        pairs_map(pairs.insert(at, (name, value))) == pairs_map(pairs).insert(name, value),
{
    let longer = pairs.insert(at, (name, value));
    assert forall|i: int, j: int| 0 <= i < j < longer.len() implies key_before(
        #[trigger] longer[i].0,
        #[trigger] longer[j].0,
    ) by {
        if j < at {
            assert(longer[i] == pairs[i] && longer[j] == pairs[j]);
        } else if j == at {
            assert(longer[i] == pairs[i]);
        } else if i < at {
            assert(longer[i] == pairs[i] && longer[j] == pairs[j - 1]);
        } else if i == at {
            assert(longer[j] == pairs[j - 1]);
        } else {
            assert(longer[i] == pairs[i - 1] && longer[j] == pairs[j - 1]);
        }
    }
    lemma_pairs_map(pairs);
    lemma_pairs_map(longer);
    let left = pairs_map(longer);
    let right = pairs_map(pairs).insert(name, value);
    assert forall|k: Seq<char>| left.contains_key(k) <==> right.contains_key(k) by {
        if left.contains_key(k) {
            let i = choose|i: int| 0 <= i < longer.len() && #[trigger] longer[i].0 == k;
            if i < at {
                assert(pairs[i].0 == k);
            } else if i > at {
                assert(pairs[i - 1].0 == k);
            }
        }
        if right.contains_key(k) && k != name {
            let i = choose|i: int| 0 <= i < pairs.len() && #[trigger] pairs[i].0 == k;
            if i < at {
                assert(longer[i].0 == k);
            } else {
                assert(longer[i + 1].0 == k);
            }
        }
        if k == name {
            assert(longer[at].0 == k);
        }
    }
    assert forall|k: Seq<char>| left.contains_key(k) implies left[k] == right[k] by {
        let i = choose|i: int| 0 <= i < longer.len() && #[trigger] longer[i].0 == k;
        assert(left[longer[i].0] == longer[i].1);
        if i < at {
            assert(longer[i] == pairs[i]);
            lemma_key_asymmetric(pairs[i].0, name);
            assert(right[pairs[i].0] == pairs[i].1);
        } else if i > at {
            assert(longer[i] == pairs[i - 1]);
            lemma_key_asymmetric(name, pairs[i - 1].0);
            assert(right[pairs[i - 1].0] == pairs[i - 1].1);
        } else {
            assert(longer[i] == (name, value));
        }
    }
    assert(left =~= right);
}

/// One more pair of an ascending list adds that pair to the mapping of the pairs before it.
pub proof fn lemma_take_next(pairs: Pairs, n: int)
    requires
        ascending(pairs),
        0 <= n < pairs.len(),
    ensures
        pairs_map(pairs.take(n + 1)) == pairs_map(pairs.take(n)).insert(pairs[n].0, pairs[n].1),
{
    let shorter = pairs.take(n);
    assert forall|i: int, j: int| 0 <= i < j < shorter.len() implies key_before(
        #[trigger] shorter[i].0,
        #[trigger] shorter[j].0,
    ) by {
        assert(shorter[i] == pairs[i] && shorter[j] == pairs[j]);
    }
    assert forall|j: int| 0 <= j < n implies key_before(#[trigger] shorter[j].0, pairs[n].0) by {
        assert(shorter[j] == pairs[j]);
    }
    lemma_insert_pair(shorter, n, pairs[n].0, pairs[n].1);
    assert(shorter.insert(n, pairs[n]) =~= pairs.take(n + 1));
}

/// Giving a name of an ascending list a new value changes that name in the mapping.
pub proof fn lemma_update_pair(pairs: Pairs, at: int, value: Seq<char>)
    requires
        ascending(pairs),
        0 <= at < pairs.len(),
    ensures
        ascending(pairs.update(at, (pairs[at].0, value))),
        pairs_map(pairs.update(at, (pairs[at].0, value))) == pairs_map(pairs).insert(
            pairs[at].0,
            value,
        ),
{
    let name = pairs[at].0;
    let changed = pairs.update(at, (name, value));
    assert forall|i: int, j: int| 0 <= i < j < changed.len() implies key_before(
        #[trigger] changed[i].0,
        #[trigger] changed[j].0,
    ) by {
        assert(changed[i].0 == pairs[i].0 && changed[j].0 == pairs[j].0);
    }
    lemma_pairs_map(pairs);
    lemma_pairs_map(changed);
    let left = pairs_map(changed);
    let right = pairs_map(pairs).insert(name, value);
    assert forall|k: Seq<char>| left.contains_key(k) <==> right.contains_key(k) by {
        if left.contains_key(k) {
            let i = choose|i: int| 0 <= i < changed.len() && #[trigger] changed[i].0 == k;
            assert(pairs[i].0 == k);
        }
        if right.contains_key(k) && k != name {
            let i = choose|i: int| 0 <= i < pairs.len() && #[trigger] pairs[i].0 == k;
            assert(changed[i].0 == k);
        }
        if k == name {
            assert(changed[at].0 == k);
        }
    }
    assert forall|k: Seq<char>| left.contains_key(k) implies left[k] == right[k] by {
        let i = choose|i: int| 0 <= i < changed.len() && #[trigger] changed[i].0 == k;
        assert(left[changed[i].0] == changed[i].1);
        if i != at {
            assert(changed[i] == pairs[i]);
            if i < at {
                lemma_key_asymmetric(pairs[i].0, name);
            } else {
                lemma_key_asymmetric(name, pairs[i].0);
            }
            assert(right[pairs[i].0] == pairs[i].1);
        }
    }
    assert(left =~= right);
}

/// The place of `name` in an ascending list: where it stands, or where it belongs.
fn place_of(entries: &Vec<(String, String)>, name: &str) -> (place: (usize, bool))
    requires
        ascending(pairs_view(entries@)),
    ensures
        place.0 <= entries@.len(),
        forall|j: int| 0 <= j < place.0 ==> key_before(#[trigger] pairs_view(entries@)[j].0, name@),
        place.1 ==> place.0 < entries@.len() && pairs_view(entries@)[place.0 as int].0 == name@,
        !place.1 ==> forall|j: int|
            place.0 <= j < entries@.len() ==> key_before(
                name@,
                #[trigger] pairs_view(entries@)[j].0,
            ),
{
    let ghost pairs = pairs_view(entries@);
    let mut i: usize = 0;
    while i < entries.len()
        invariant
            i <= entries.len(),
            pairs == pairs_view(entries@),
            ascending(pairs),
            forall|j: int| 0 <= j < i ==> key_before(#[trigger] pairs[j].0, name@),
        decreases entries.len() - i,
    {
        match compare_keys(entries[i].0.as_str(), name) {
            KeyOrder::Before => {
                i += 1;
            },
            KeyOrder::Same => {
                return (i, true);
            },
            KeyOrder::After => {
                proof {
                    assert forall|j: int| i <= j < pairs.len() implies key_before(
                        name@,
                        #[trigger] pairs[j].0,
                    ) by {
                        if i < j {
                            lemma_key_transitive(name@, pairs[i as int].0, pairs[j].0);
                        }
                    }
                }
                return (i, false);
            },
        }
    }
    (i, false)
}

/// Environment variables by name. Each name has one value, and the variables are kept in
/// the order of their names.
#[derive(Debug, PartialEq, Eq)]
pub struct EnvMap {
    entries: Vec<(String, String)>,
}

impl View for EnvMap {
    type V = Map<Seq<char>, Seq<char>>;

    closed spec fn view(&self) -> Map<Seq<char>, Seq<char>> {
        pairs_map(pairs_view(self.entries@))
    }
}

impl EnvMap {
    #[verifier::type_invariant]
    spec fn in_order(&self) -> bool {
        ascending(pairs_view(self.entries@))
    }

    /// An environment without variables.
    pub fn new() -> (env: EnvMap)
        ensures
            env@ == Map::<Seq<char>, Seq<char>>::empty(),
    {
        let env = EnvMap { entries: Vec::new() };
        assert(env@ =~= Map::<Seq<char>, Seq<char>>::empty());
        env
    }

    /// Sets the variable `name` to `value`, whether or not it had a value before.
    pub fn insert(&mut self, name: String, value: String)
        ensures
            final(self)@ == old(self)@.insert(name@, value@),
    {
        proof {
            use_type_invariant(&*self);
        }
        let mut entries: Vec<(String, String)> = Vec::new();
        core::mem::swap(&mut entries, &mut self.entries);
        let ghost before = pairs_view(entries@);
        let (at, present) = place_of(&entries, name.as_str());
        if present {
            proof {
                lemma_update_pair(before, at as int, value@);
            }
            entries.set(at, (name, value));
            assert(pairs_view(entries@) =~= before.update(at as int, (before[at as int].0, value@)));
        } else {
            proof {
                lemma_insert_pair(before, at as int, name@, value@);
            }
            entries.insert(at, (name, value));
            assert(pairs_view(entries@) =~= before.insert(at as int, (name@, value@)));
        }
        self.entries = entries;
    }

    /// The value of the variable `name`, if it has one.
    pub fn get(&self, name: &str) -> (value: Option<&String>)
        ensures
            match value {
                Some(value) => self@.contains_key(name@) && self@[name@] == value@,
                None => !self@.contains_key(name@),
            },
    {
        proof {
            use_type_invariant(self);
            lemma_pairs_map(pairs_view(self.entries@));
        }
        let ghost pairs = pairs_view(self.entries@);
        let (at, present) = place_of(&self.entries, name);
        if present {
            assert(pairs[at as int].0 == name@);
            Some(&self.entries[at].1)
        } else {
            proof {
                assert forall|j: int| 0 <= j < pairs.len() implies #[trigger] pairs[j].0
                    != name@ by {
                    if j < at {
                        lemma_key_asymmetric(pairs[j].0, name@);
                    } else {
                        lemma_key_asymmetric(name@, pairs[j].0);
                    }
                }
            }
            None
        }
    }

    /// Sets every variable of `other`, whether or not it had a value before. The other
    /// variables keep their values.
    pub fn extend(&mut self, other: EnvMap)
        ensures
            final(self)@ == old(self)@.union_prefer_right(other@),
    {
        let entries = other.into_entries();
        let ghost pairs = pairs_view(entries@);
        let ghost start = self@;
        assert(start.union_prefer_right(pairs_map(pairs.take(0))) =~= start);
        let mut i: usize = 0;
        while i < entries.len()
            invariant
                i <= entries.len(),
                pairs == pairs_view(entries@),
                ascending(pairs),
                self@ == start.union_prefer_right(pairs_map(pairs.take(i as int))),
            decreases entries.len() - i,
        {
            proof {
                lemma_take_next(pairs, i as int);
            }
            let ghost now = self@;
            self.insert(entries[i].0.clone(), entries[i].1.clone());
            assert(now.insert(pairs[i as int].0, pairs[i as int].1) =~= start.union_prefer_right(
                pairs_map(pairs.take(i + 1)),
            ));
            i += 1;
        }
        assert(pairs.take(entries@.len() as int) =~= pairs);
    }

    /// The variables as a list, in the order of their names.
    pub fn into_entries(self) -> (entries: Vec<(String, String)>)
        ensures
            ascending(pairs_view(entries@)),
            pairs_map(pairs_view(entries@)) == self@,
    {
        proof {
            use_type_invariant(&self);
        }
        self.entries
    }
}

} // verus!
