//! A map keyed by names that keeps its entries in the order of insertion.

use crate::text::same_text;
use vstd::prelude::*;
use vstd::std_specs::cmp::PartialEqSpec;

verus! {

/// The position of the first entry under `key`, if there is one.
pub open spec fn key_index<V>(entries: Seq<(Seq<char>, V)>, key: Seq<char>) -> Option<int>
    decreases entries.len(),
{
    if entries.len() == 0 {
        None
    } else {
        match key_index(entries.drop_last(), key) {
            Some(i) => Some(i),
            None => if entries.last().0 == key {
                Some(entries.len() - 1)
            } else {
                None
            },
        }
    }
}

/// Whether there is an entry under `key`.
pub open spec fn has_key<V>(entries: Seq<(Seq<char>, V)>, key: Seq<char>) -> bool {
    key_index(entries, key) is Some
}

/// The value under `key`, if there is one.
pub open spec fn lookup<V>(entries: Seq<(Seq<char>, V)>, key: Seq<char>) -> Option<V> {
    match key_index(entries, key) {
        Some(i) => Some(entries[i].1),
        None => None,
    }
}

/// The entries once `value` has been put under `key`: in the place of the value
/// that was there, or else at the end.
pub open spec fn upsert<V>(entries: Seq<(Seq<char>, V)>, key: Seq<char>, value: V) -> Seq<
    (Seq<char>, V),
> {
    match key_index(entries, key) {
        Some(i) => entries.update(i, (key, value)),
        None => entries.push((key, value)),
    }
}

/// `base` with every entry of `top` put into it, in order.
pub open spec fn overlay<V>(base: Seq<(Seq<char>, V)>, top: Seq<(Seq<char>, V)>) -> Seq<
    (Seq<char>, V),
>
    decreases top.len(),
{
    if top.len() == 0 {
        base
    } else {
        upsert(overlay(base, top.drop_last()), top.last().0, top.last().1)
    }
}

/// No key occurs twice.
pub open spec fn distinct_keys<V>(entries: Seq<(Seq<char>, V)>) -> bool {
    forall|i: int, j: int|
        0 <= i < j < entries.len() ==> (#[trigger] entries[i]).0 != (#[trigger] entries[j]).0
}

/// What the entries map each key to.
pub open spec fn as_map<V>(entries: Seq<(Seq<char>, V)>) -> Map<Seq<char>, V> {
    Map::new(|key: Seq<char>| has_key(entries, key), |key: Seq<char>| lookup(entries, key)->0)
}

/// What `key_index` gives, told by its entries.
pub proof fn lemma_key_index<V>(entries: Seq<(Seq<char>, V)>, key: Seq<char>)
    ensures
        match key_index(entries, key) {
            Some(i) => {
                &&& 0 <= i < entries.len()
                &&& entries[i].0 == key
                &&& forall|j: int| 0 <= j < i ==> (#[trigger] entries[j]).0 != key
            },
            None => forall|j: int| 0 <= j < entries.len() ==> (#[trigger] entries[j]).0 != key,
        },
    decreases entries.len(),
{
    if entries.len() > 0 {
        let init = entries.drop_last();
        lemma_key_index(init, key);
        assert forall|j: int| 0 <= j < init.len() implies init[j] == #[trigger] entries[j] by {}
    }
}

/// An entry that no earlier one shares its key with is the one that is found.
pub proof fn lemma_key_index_at<V>(entries: Seq<(Seq<char>, V)>, key: Seq<char>, i: int)
    requires
        0 <= i < entries.len(),
        entries[i].0 == key,
        forall|j: int| 0 <= j < i ==> (#[trigger] entries[j]).0 != key,
    ensures
        key_index(entries, key) == Some(i),
{
    lemma_key_index(entries, key);
}

/// Putting a value under a key keeps the keys distinct.
pub proof fn lemma_upsert_distinct<V>(entries: Seq<(Seq<char>, V)>, key: Seq<char>, value: V)
    requires
        distinct_keys(entries),
    ensures
        distinct_keys(upsert(entries, key, value)),
{
    lemma_key_index(entries, key);
}

/// Putting a value under a key is what inserting it into the map is.
pub proof fn lemma_upsert_map<V>(entries: Seq<(Seq<char>, V)>, key: Seq<char>, value: V)
    ensures
        as_map(upsert(entries, key, value)) == as_map(entries).insert(key, value),
{
    let after = upsert(entries, key, value);
    assert forall|k: Seq<char>| #[trigger] lookup(after, k) == (if k == key {
        Some(value)
    } else {
        lookup(entries, k)
    }) by {
        lemma_upsert_lookup(entries, key, value, k);
    }
    assert forall|k: Seq<char>| #[trigger] has_key(after, k) == (k == key || has_key(entries, k)) by {
        lemma_upsert_lookup(entries, key, value, k);
    }
    assert(as_map(after) =~= as_map(entries).insert(key, value));
}

/// A map from names to values. No name occurs twice, and the entries keep the
/// order in which their names were first put in. Two maps are equal if they have
/// equal values under the same names, in whichever order.
#[derive(Debug, Eq)]
pub struct NameMap<V> {
    entries: Vec<(String, V)>,
}

impl<V> View for NameMap<V> {
    type V = Seq<(Seq<char>, V)>;

    closed spec fn view(&self) -> Seq<(Seq<char>, V)> {
        Seq::new(self.entries@.len(), |i: int| (self.entries@[i].0@, self.entries@[i].1))
    }
}

impl<V: DeepView> DeepView for NameMap<V> {
    type V = Seq<(Seq<char>, V::V)>;

    open spec fn deep_view(&self) -> Seq<(Seq<char>, V::V)> {
        Seq::new(self@.len(), |i: int| (self@[i].0, self@[i].1.deep_view()))
    }
}

/// Looking a name up goes by the names alone.
pub proof fn lemma_deep_lookup<V: DeepView>(map: NameMap<V>, key: Seq<char>)
    ensures
        key_index(map.deep_view(), key) == key_index(map@, key),
        lookup(map.deep_view(), key) == (match lookup(map@, key) {
            Some(value) => Some(value.deep_view()),
            None => None,
        }),
{
    let raw = map@;
    let deep = map.deep_view();
    lemma_key_index(raw, key);
    lemma_key_index(deep, key);
    assert forall|j: int| 0 <= j < raw.len() implies (#[trigger] raw[j]).0 == deep[j].0 by {}
    match key_index(raw, key) {
        Some(i) => {
            assert forall|j: int| 0 <= j < i implies (#[trigger] deep[j]).0 != key by {
                assert(raw[j].0 != key);
            }
            lemma_key_index_at(deep, key, i);
        },
        None => {
            match key_index(deep, key) {
                Some(i) => { assert(raw[i].0 == key); },
                None => {},
            }
        },
    }
}

/// What a value put under one key changes for the others: nothing.
pub proof fn lemma_upsert_lookup<V>(
    entries: Seq<(Seq<char>, V)>,
    key: Seq<char>,
    value: V,
    k: Seq<char>,
)
    ensures
        lookup(upsert(entries, key, value), k) == (if k == key {
            Some(value)
        } else {
            lookup(entries, k)
        }),
{
    let after = upsert(entries, key, value);
    lemma_key_index(entries, key);
    lemma_key_index(entries, k);
    lemma_key_index(after, k);
    if k == key {
        match key_index(entries, key) {
            Some(i) => { lemma_key_index_at(after, k, i); },
            None => { lemma_key_index_at(after, k, entries.len() as int); },
        }
    } else {
        match key_index(entries, k) {
            Some(i) => { lemma_key_index_at(after, k, i); },
            None => {},
        }
    }
}

/// Keys stay distinct when entries are put over others.
pub proof fn lemma_overlay_distinct<V>(base: Seq<(Seq<char>, V)>, top: Seq<(Seq<char>, V)>)
    requires
        distinct_keys(base),
    ensures
        distinct_keys(overlay(base, top)),
    decreases top.len(),
{
    if top.len() > 0 {
        let init = top.drop_last();
        lemma_overlay_distinct(base, init);
        lemma_upsert_distinct(overlay(base, init), top.last().0, top.last().1);
    }
}

/// Entries put over others win, and what they do not speak of stays.
pub proof fn lemma_overlay_lookup<V>(
    base: Seq<(Seq<char>, V)>,
    top: Seq<(Seq<char>, V)>,
    key: Seq<char>,
)
    requires
        distinct_keys(top),
    ensures
        lookup(overlay(base, top), key) == (match lookup(top, key) {
            Some(value) => Some(value),
            None => lookup(base, key),
        }),
    decreases top.len(),
{
    if top.len() > 0 {
        let init = top.drop_last();
        assert(distinct_keys(init)) by {
            assert forall|i: int, j: int| 0 <= i < j < init.len() implies (#[trigger] init[i]).0
                != (#[trigger] init[j]).0 by {
                assert(top[i].0 != top[j].0);
            }
        }
        lemma_overlay_lookup(base, init, key);
        lemma_upsert_lookup(overlay(base, init), top.last().0, top.last().1, key);
        lemma_key_index(init, key);
        if key == top.last().0 {
            match key_index(init, key) {
                Some(i) => { assert(top[i].0 != top[top.len() - 1].0); },
                None => {},
            }
        }
    }
}

/// Distinct entries put over nothing are just those entries.
pub proof fn lemma_overlay_nothing<V>(top: Seq<(Seq<char>, V)>)
    requires
        distinct_keys(top),
    ensures
        overlay(Seq::empty(), top) == top,
    decreases top.len(),
{
    if top.len() > 0 {
        let init = top.drop_last();
        assert(distinct_keys(init)) by {
            assert forall|i: int, j: int| 0 <= i < j < init.len() implies (#[trigger] init[i]).0
                != (#[trigger] init[j]).0 by {
                assert(top[i].0 != top[j].0);
            }
        }
        lemma_overlay_nothing(init);
        lemma_key_index(init, top.last().0);
        match key_index(init, top.last().0) {
            Some(i) => { assert(top[i].0 != top[top.len() - 1].0); },
            None => {},
        }
        assert(init.push(top.last()) =~= top);
    }
}

/// Leaving out entries by a condition on their keys leaves the keys distinct, and
/// what is found under a key that meets the condition as it was.
pub proof fn lemma_filter_lookup<V>(
    entries: Seq<(Seq<char>, V)>,
    keep: spec_fn((Seq<char>, V)) -> bool,
    keys: spec_fn(Seq<char>) -> bool,
    key: Seq<char>,
)
    requires
        distinct_keys(entries),
        forall|e: (Seq<char>, V)| #[trigger] keep(e) == keys(e.0),
    ensures
        distinct_keys(entries.filter(keep)),
        lookup(entries.filter(keep), key) == (if keys(key) {
            lookup(entries, key)
        } else {
            None
        }),
    decreases entries.len(),
{
    reveal(Seq::filter);
    if entries.len() > 0 {
        let init = entries.drop_last();
        let last = entries.last();
        assert(distinct_keys(init)) by {
            assert forall|i: int, j: int| 0 <= i < j < init.len() implies (#[trigger] init[i]).0
                != (#[trigger] init[j]).0 by {
                assert(entries[i].0 != entries[j].0);
            }
        }
        lemma_filter_lookup(init, keep, keys, key);
        lemma_filter_lookup(init, keep, keys, last.0);
        assert(lookup(init, last.0) is None) by {
            lemma_key_index(init, last.0);
            match key_index(init, last.0) {
                Some(i) => { assert(entries[i].0 != entries[entries.len() - 1].0); },
                None => {},
            }
        }
        let rest = init.filter(keep);
        lemma_key_index(rest, last.0);
        lemma_key_index(rest, key);
        if keep(last) {
            let out = entries.filter(keep);
            assert(out =~= upsert(rest, last.0, last.1));
            lemma_upsert_distinct(rest, last.0, last.1);
            lemma_upsert_lookup(rest, last.0, last.1, key);
        }
        assert(entries =~= upsert(init, last.0, last.1));
        lemma_upsert_lookup(init, last.0, last.1, key);
    }
}

/// The names of a map are distinct, whichever way its values are looked at.
pub proof fn lemma_deep_distinct<V: DeepView>(map: NameMap<V>)
    requires
        map.wf(),
    ensures
        distinct_keys(map.deep_view()),
{
    assert forall|i: int, j: int| 0 <= i < j < map.deep_view().len() implies (
    #[trigger] map.deep_view()[i]).0 != (#[trigger] map.deep_view()[j]).0 by {
        assert(map@[i].0 != map@[j].0);
    }
}

/// Two lists of entries with distinct keys that give the same under every key
/// hold the same entries.
pub proof fn lemma_same_entries<V>(a: Seq<(Seq<char>, V)>, b: Seq<(Seq<char>, V)>)
    requires
        distinct_keys(a),
        distinct_keys(b),
        forall|key: Seq<char>| #[trigger] lookup(a, key) == lookup(b, key),
    ensures
        a.to_multiset() == b.to_multiset(),
{
    lemma_contained(a, b);
    lemma_contained(b, a);
    a.lemma_multiset_has_no_duplicates();
    b.lemma_multiset_has_no_duplicates();
    broadcast use vstd::seq_lib::group_to_multiset_ensures;

    assert forall|e: (Seq<char>, V)| #[trigger] a.to_multiset().count(e) == b.to_multiset().count(
        e,
    ) by {
        if a.contains(e) {
            assert(b.contains(e));
            assert(a.to_multiset().contains(e));
            assert(b.to_multiset().contains(e));
        } else {
            assert(!b.contains(e));
        }
    }
    assert(a.to_multiset() =~= b.to_multiset());
}

/// A list with distinct keys holds nothing twice, and a list that gives the same
/// under every key holds all of it.
proof fn lemma_contained<V>(a: Seq<(Seq<char>, V)>, b: Seq<(Seq<char>, V)>)
    requires
        distinct_keys(a),
        forall|key: Seq<char>| #[trigger] lookup(a, key) == lookup(b, key),
    ensures
        a.no_duplicates(),
        forall|e: (Seq<char>, V)| #[trigger] a.contains(e) ==> b.contains(e),
{
    assert forall|e: (Seq<char>, V)| #[trigger] a.contains(e) implies b.contains(e) by {
        let i = choose|i: int| 0 <= i < a.len() && a[i] == e;
        lemma_key_index_at(a, e.0, i);
        lemma_key_index(b, e.0);
        assert(lookup(a, e.0) == Some(e.1));
        let j = key_index(b, e.0)->0;
        assert(b[j] == e);
    }
}

/// The keys, in order.
spec fn keys<V>(entries: Seq<(Seq<char>, V)>) -> Seq<Seq<char>> {
    Seq::new(entries.len(), |i: int| entries[i].0)
}

/// Distinct keys are as many as there are entries.
proof fn lemma_key_set<V>(entries: Seq<(Seq<char>, V)>)
    requires
        distinct_keys(entries),
    ensures
        keys(entries).to_set().finite(),
        keys(entries).to_set().len() == entries.len(),
        forall|key: Seq<char>| #[trigger]
            keys(entries).to_set().contains(key) == has_key(entries, key),
{
    let list = keys(entries);
    assert(list.no_duplicates()) by {
        assert forall|i: int, j: int| 0 <= i < list.len() && 0 <= j < list.len() && i
            != j implies list[i] != list[j] by {
            if i < j {
                assert(entries[i].0 != entries[j].0);
            } else {
                assert(entries[j].0 != entries[i].0);
            }
        }
    }
    list.unique_seq_to_set();
    vstd::seq_lib::seq_to_set_is_finite(list);
    assert forall|key: Seq<char>| #[trigger] list.to_set().contains(key) == has_key(
        entries,
        key,
    ) by {
        lemma_key_index(entries, key);
        match key_index(entries, key) {
            Some(i) => { assert(list[i] == key); },
            None => {
                if list.contains(key) {
                    let i = choose|i: int| 0 <= i < list.len() && list[i] == key;
                    assert(entries[i].0 != key);
                }
            },
        }
    }
}

/// Of two lists with distinct keys, equally long, the second has no key that the
/// first lacks if the first has none that the second lacks.
proof fn lemma_no_other_keys<V, W>(a: Seq<(Seq<char>, V)>, b: Seq<(Seq<char>, W)>)
    requires
        distinct_keys(a),
        distinct_keys(b),
        a.len() == b.len(),
        forall|i: int| 0 <= i < a.len() ==> has_key(b, (#[trigger] a[i]).0),
    ensures
        forall|key: Seq<char>| #[trigger] has_key(a, key) == has_key(b, key),
{
    lemma_key_set(a);
    lemma_key_set(b);
    let left = keys(a).to_set();
    let right = keys(b).to_set();
    assert(left.subset_of(right)) by {
        assert forall|key: Seq<char>| left.contains(key) implies right.contains(key) by {
            lemma_key_index(a, key);
            let i = key_index(a, key)->0;
            assert(has_key(b, a[i].0));
        }
    }
    vstd::set_lib::lemma_subset_equality(left, right);
    assert forall|key: Seq<char>| #[trigger] has_key(a, key) == has_key(b, key) by {
        assert(left.contains(key) == right.contains(key));
    }
}

/// Lists with distinct keys that have the same keys are equally long.
proof fn lemma_same_keys_same_len<V, W>(a: Seq<(Seq<char>, V)>, b: Seq<(Seq<char>, W)>)
    requires
        distinct_keys(a),
        distinct_keys(b),
        forall|key: Seq<char>| #[trigger] has_key(a, key) == has_key(b, key),
    ensures
        a.len() == b.len(),
{
    lemma_key_set(a);
    lemma_key_set(b);
    assert(keys(a).to_set() =~= keys(b).to_set()) by {
        assert forall|key: Seq<char>| keys(a).to_set().contains(key) == keys(b).to_set().contains(
            key,
        ) by {
            assert(has_key(a, key) == has_key(b, key));
        }
    }
}

/// Putting a value under a name goes by the names alone.
pub proof fn lemma_deep_upsert<V: DeepView>(
    before: NameMap<V>,
    after: NameMap<V>,
    key: Seq<char>,
    value: V,
)
    requires
        after@ == upsert(before@, key, value),
    ensures
        after.deep_view() == upsert(before.deep_view(), key, value.deep_view()),
{
    lemma_deep_lookup(before, key);
    lemma_key_index(before@, key);
    assert(after.deep_view() =~= upsert(before.deep_view(), key, value.deep_view()));
}

impl<V> NameMap<V> {
    /// The names are distinct.
    #[verifier::type_invariant]
    pub open spec fn wf(self) -> bool {
        distinct_keys(self@)
    }

    /// A map without entries.
    pub fn new() -> (map: Self)
        ensures
            map@ == Seq::<(Seq<char>, V)>::empty(),
    {
        NameMap { entries: Vec::new() }
    }

    /// The number of entries.
    pub fn len(&self) -> (len: usize)
        ensures
            len == self@.len(),
    {
        self.entries.len()
    }

    /// Whether there are no entries.
    pub fn is_empty(&self) -> (empty: bool)
        ensures
            empty == (self@.len() == 0),
    {
        self.entries.is_empty()
    }

    /// The entry at a position, in the order of insertion.
    pub fn entry(&self, i: usize) -> (entry: &(String, V))
        requires
            i < self@.len(),
        ensures
            entry.0@ == self@[i as int].0,
            entry.1 == self@[i as int].1,
    {
        &self.entries[i]
    }

    /// The position of the entry under a name.
    pub fn position(&self, name: &str) -> (position: Option<usize>)
        ensures
            match position {
                Some(i) => key_index(self@, name@) == Some(i as int),
                None => key_index(self@, name@) is None,
            },
    {
        let mut i: usize = 0;
        while i < self.entries.len()
            invariant
                0 <= i <= self@.len(),
                self@.len() == self.entries@.len(),
                forall|j: int| 0 <= j < i ==> (#[trigger] self@[j]).0 != name@,
            decreases self.entries.len() - i,
        {
            assert(self@[i as int].0 == self.entries@[i as int].0@);
            if same_text(self.entries[i].0.as_str(), name) {
                proof {
                    lemma_key_index_at(self@, name@, i as int);
                }
                return Some(i);
            }
            i += 1;
        }
        proof {
            lemma_key_index(self@, name@);
        }
        None
    }

    /// The value under a name.
    pub fn get(&self, name: &str) -> (value: Option<&V>)
        ensures
            match value {
                Some(v) => lookup(self@, name@) == Some(*v),
                None => lookup(self@, name@) is None,
            },
    {
        match self.position(name) {
            Some(i) => {
                proof {
                    lemma_key_index(self@, name@);
                }
                Some(&self.entries[i].1)
            },
            None => None,
        }
    }

    /// Puts a value in the place of the one at a position.
    pub fn set_value(&mut self, i: usize, value: V)
        requires
            i < old(self)@.len(),
        ensures
            final(self)@ == old(self)@.update(i as int, (old(self)@[i as int].0, value)),
    {
        proof {
            use_type_invariant(&*self);
        }
        let mut entries: Vec<(String, V)> = Vec::new();
        std::mem::swap(&mut entries, &mut self.entries);
        let name = entries[i].0.clone();
        entries.set(i, (name, value));
        proof {
            let after = NameMap { entries };
            assert(after@ =~= old(self)@.update(i as int, (old(self)@[i as int].0, value)));
        }
        self.entries = entries;
    }

    /// Puts a value under a name, in the place of the value that was there.
    pub fn insert(&mut self, name: String, value: V)
        ensures
            final(self)@ == upsert(old(self)@, name@, value),
    {
        proof {
            use_type_invariant(&*self);
            lemma_upsert_distinct(self@, name@, value);
            lemma_key_index(self@, name@);
        }
        let position = self.position(name.as_str());
        let mut entries: Vec<(String, V)> = Vec::new();
        std::mem::swap(&mut entries, &mut self.entries);
        match position {
            Some(i) => { entries.set(i, (name, value)); },
            None => { entries.push((name, value)); },
        }
        proof {
            let after = NameMap { entries };
            assert(after@ =~= upsert(old(self)@, name@, value));
        }
        self.entries = entries;
    }
}

impl<V: PartialEq> PartialEq for NameMap<V> {
    /// Whether both maps have the same names, with values under them that `V`'s own
    /// equality takes for equal.
    fn eq(&self, other: &Self) -> (same: bool)
        ensures
            same ==> forall|key: Seq<char>|
                match (#[trigger] lookup(self@, key), lookup(other@, key)) {
                    (Some(mine), Some(theirs)) => call_ensures(V::eq, (&mine, &theirs), true),
                    (None, None) => true,
                    _ => false,
                },
            !same ==> exists|key: Seq<char>|
                match (#[trigger] lookup(self@, key), lookup(other@, key)) {
                    (Some(mine), Some(theirs)) => call_ensures(V::eq, (&mine, &theirs), false),
                    (None, None) => false,
                    _ => true,
                },
    {
        proof {
            use_type_invariant(self);
            use_type_invariant(other);
        }
        if self.len() != other.len() {
            proof {
                if forall|key: Seq<char>| #[trigger] has_key(self@, key) == has_key(other@, key) {
                    lemma_same_keys_same_len(self@, other@);
                }
                let key = choose|key: Seq<char>| #[trigger]
                    has_key(self@, key) != has_key(other@, key);
                assert(lookup(self@, key) is Some != lookup(other@, key) is Some);
            }
            return false;
        }
        let mut i: usize = 0;
        while i < self.len()
            invariant
                distinct_keys(self@),
                0 <= i <= self@.len(),
                forall|j: int|
                    0 <= j < i ==> match lookup(other@, (#[trigger] self@[j]).0) {
                        Some(theirs) => {
                            &&& call_ensures(V::eq, (&self@[j].1, &theirs), true)
                            &&& V::obeys_eq_spec() ==> self@[j].1.eq_spec(&theirs)
                        },
                        None => false,
                    },
            decreases self@.len() - i,
        {
            let (name, value) = self.entry(i);
            proof {
                lemma_key_index_at(self@, name@, i as int);
                assert(lookup(self@, name@) == Some(*value));
            }
            match other.get(name.as_str()) {
                Some(theirs) => {
                    if !(*value == *theirs) {
                        return false;
                    }
                },
                None => {
                    return false;
                },
            }
            i += 1;
        }
        proof {
            lemma_no_other_keys(self@, other@);
            assert forall|key: Seq<char>|
                match (#[trigger] lookup(self@, key), lookup(other@, key)) {
                    (Some(mine), Some(theirs)) => {
                        &&& call_ensures(V::eq, (&mine, &theirs), true)
                        &&& V::obeys_eq_spec() ==> mine.eq_spec(&theirs)
                    },
                    (None, None) => true,
                    _ => false,
                } by {
                assert(has_key(self@, key) == has_key(other@, key));
                lemma_key_index(self@, key);
            }
        }
        true
    }
}

impl<V: PartialEq> vstd::std_specs::cmp::PartialEqSpecImpl for NameMap<V> {
    open spec fn obeys_eq_spec() -> bool {
        V::obeys_eq_spec()
    }

    open spec fn eq_spec(&self, other: &Self) -> bool {
        forall|key: Seq<char>|
            match (#[trigger] lookup(self@, key), lookup(other@, key)) {
                (Some(mine), Some(theirs)) => mine.eq_spec(&theirs),
                (None, None) => true,
                _ => false,
            }
    }
}

/// The order in which the entries were put in does not matter to equality: maps
/// with the same entries are equal, where every value is equal to itself.
pub proof fn law_equality_ignores_order<V: PartialEq>(a: NameMap<V>, b: NameMap<V>)
    requires
        a.wf(),
        b.wf(),
        a@.to_multiset() == b@.to_multiset(),
        forall|value: V| #[trigger] value.eq_spec(&value),
    ensures
        a.eq_spec(&b),
{
    broadcast use vstd::seq_lib::group_to_multiset_ensures;

    assert forall|key: Seq<char>| #[trigger] lookup(a@, key) == lookup(b@, key) by {
        lemma_key_index(a@, key);
        lemma_key_index(b@, key);
        match key_index(a@, key) {
            Some(i) => {
                assert(a@.contains(a@[i]));
                assert(a@.to_multiset().count(a@[i]) > 0);
                assert(b@.contains(a@[i]));
                let j = choose|j: int| 0 <= j < b@.len() && b@[j] == a@[i];
                let k = key_index(b@, key)->0;
                assert(b@[j].0 == key);
                assert(b@[k].0 == b@[j].0);
                assert(k == j);
            },
            None => match key_index(b@, key) {
                Some(j) => {
                    assert(b@.contains(b@[j]));
                    assert(b@.to_multiset().count(b@[j]) > 0);
                    assert(a@.contains(b@[j]));
                    let i = choose|i: int| 0 <= i < a@.len() && a@[i] == b@[j];
                    assert(a@[i].0 == key);
                },
                None => {},
            },
        }
    }
}

/// Where equal values are the same, two maps are equal exactly if they map the same
/// names to the same values.
pub proof fn law_equal_maps<V: PartialEq>(a: NameMap<V>, b: NameMap<V>)
    requires
        forall|x: V, y: V| #[trigger] x.eq_spec(&y) <==> x == y,
    ensures
        a.eq_spec(&b) <==> as_map(a@) == as_map(b@),
{
    if a.eq_spec(&b) {
        assert forall|key: Seq<char>| has_key(a@, key) == #[trigger] has_key(b@, key) by {
            assert(lookup(a@, key) is Some == lookup(b@, key) is Some);
        }
        assert(as_map(a@) =~= as_map(b@));
    }
    if as_map(a@) == as_map(b@) {
        assert forall|key: Seq<char>| #[trigger] lookup(a@, key) == lookup(b@, key) by {
            assert(as_map(a@).contains_key(key) == as_map(b@).contains_key(key));
            if has_key(a@, key) {
                assert(as_map(a@)[key] == as_map(b@)[key]);
            }
        }
    }
}

impl<V: Clone> Clone for NameMap<V> {
    fn clone(&self) -> (copy: Self)
        ensures
            copy@.len() == self@.len(),
            forall|i: int|
                0 <= i < self@.len() ==> (#[trigger] copy@[i]).0 == self@[i].0 && cloned::<V>(
                    self@[i].1,
                    copy@[i].1,
                ),
    {
        proof {
            use_type_invariant(self);
        }
        let mut entries: Vec<(String, V)> = Vec::new();
        let mut i: usize = 0;
        while i < self.entries.len()
            invariant
                0 <= i <= self.entries@.len(),
                entries@.len() == i,
                forall|j: int|
                    0 <= j < i ==> (#[trigger] entries@[j]).0@ == self.entries@[j].0@ && cloned::<V>(
                        self.entries@[j].1,
                        entries@[j].1,
                    ),
            decreases self.entries.len() - i,
        {
            entries.push((self.entries[i].0.clone(), self.entries[i].1.clone()));
            i += 1;
        }
        proof {
            let copy = NameMap { entries };
            assert forall|j: int| 0 <= j < copy@.len() implies (#[trigger] copy@[j]).0
                == self@[j].0 by {}
        }
        NameMap { entries }
    }
}

/// Looking a key up gives the value of the first entry under it, and nothing exactly
/// where there is none.
pub proof fn law_lookup<V>(entries: Seq<(Seq<char>, V)>, key: Seq<char>)
    ensures
        match lookup(entries, key) {
            Some(value) => exists|i: int|
                {
                    &&& 0 <= i < entries.len()
                    &&& #[trigger] entries[i] == (key, value)
                    &&& forall|j: int| 0 <= j < i ==> (#[trigger] entries[j]).0 != key
                },
            None => forall|i: int| 0 <= i < entries.len() ==> (#[trigger] entries[i]).0 != key,
        },
        has_key(entries, key) <==> exists|i: int|
            0 <= i < entries.len() && (#[trigger] entries[i]).0 == key,
{
    lemma_key_index(entries, key);
    match key_index(entries, key) {
        Some(i) => { assert(entries[i] == (key, entries[i].1)); },
        None => {},
    }
}

/// The map that entries stand for has the keys of the entries, and under each the
/// value of the first entry with it.
pub proof fn law_map_of_entries<V>(entries: Seq<(Seq<char>, V)>, i: int)
    requires
        0 <= i < entries.len(),
        forall|j: int| 0 <= j < i ==> (#[trigger] entries[j]).0 != entries[i].0,
    ensures
        as_map(entries).contains_key(entries[i].0),
        as_map(entries)[entries[i].0] == entries[i].1,
        forall|key: Seq<char>| #[trigger]
            as_map(entries).contains_key(key) <==> exists|j: int|
                0 <= j < entries.len() && (#[trigger] entries[j]).0 == key,
{
    lemma_key_index_at(entries, entries[i].0, i);
    assert forall|key: Seq<char>| #[trigger]
        as_map(entries).contains_key(key) <==> exists|j: int|
            0 <= j < entries.len() && (#[trigger] entries[j]).0 == key by {
        law_lookup(entries, key);
    }
}

/// Without entries there is nothing in the map.
pub proof fn law_map_of_nothing<V>(entries: Seq<(Seq<char>, V)>, key: Seq<char>)
    requires
        entries.len() == 0,
    ensures
        !as_map(entries).contains_key(key),
{
    law_lookup(entries, key);
}

/// Putting a value under a key that is there changes the value of its entry and
/// nothing else; under a new key, it adds an entry at the end.
pub proof fn law_put<V>(entries: Seq<(Seq<char>, V)>, key: Seq<char>, value: V)
    ensures
        ({
            let after = upsert(entries, key, value);
            if exists|i: int| 0 <= i < entries.len() && (#[trigger] entries[i]).0 == key {
                &&& after.len() == entries.len()
                &&& exists|i: int|
                    {
                        &&& 0 <= i < entries.len()
                        &&& (#[trigger] entries[i]).0 == key
                        &&& after[i] == (key, value)
                        &&& forall|j: int|
                            0 <= j < entries.len() && j != i ==> #[trigger] after[j] == entries[j]
                        &&& forall|j: int| 0 <= j < i ==> (#[trigger] entries[j]).0 != key
                    }
            } else {
                &&& after.len() == entries.len() + 1
                &&& after[entries.len() as int] == (key, value)
                &&& forall|j: int| 0 <= j < entries.len() ==> #[trigger] after[j] == entries[j]
            }
        }),
{
    lemma_key_index(entries, key);
    match key_index(entries, key) {
        Some(i) => { assert(entries[i].0 == key); },
        None => {},
    }
}

/// Looking at the values of a map leaves out no entry and changes no name.
pub proof fn law_map_view<V: DeepView>(map: NameMap<V>)
    ensures
        map.deep_view().len() == map@.len(),
        forall|i: int|
            0 <= i < map@.len() ==> {
                &&& (#[trigger] map.deep_view()[i]).0 == map@[i].0
                &&& map.deep_view()[i].1 == map@[i].1.deep_view()
            },
{
}

/// Two maps are equal exactly if they have equally many entries and every entry of
/// the one has its like in the other.
pub proof fn law_equality_by_entries<V: PartialEq>(a: NameMap<V>, b: NameMap<V>)
    requires
        a.wf(),
        b.wf(),
    ensures
        a.eq_spec(&b) <==> {
            &&& a@.len() == b@.len()
            &&& forall|i: int|
                0 <= i < a@.len() ==> exists|j: int|
                    {
                        &&& 0 <= j < b@.len()
                        &&& (#[trigger] b@[j]).0 == (#[trigger] a@[i]).0
                        &&& a@[i].1.eq_spec(&b@[j].1)
                    }
        },
{
    if a.eq_spec(&b) {
        assert forall|key: Seq<char>| #[trigger] has_key(a@, key) == has_key(b@, key) by {
            assert(lookup(a@, key) is Some == lookup(b@, key) is Some);
        }
        lemma_same_keys_same_len(a@, b@);
        assert forall|i: int| 0 <= i < a@.len() implies exists|j: int|
            {
                &&& 0 <= j < b@.len()
                &&& (#[trigger] b@[j]).0 == (#[trigger] a@[i]).0
                &&& a@[i].1.eq_spec(&b@[j].1)
            } by {
            let key = a@[i].0;
            lemma_key_index_at(a@, key, i);
            assert(lookup(a@, key) == Some(a@[i].1));
            lemma_key_index(b@, key);
            let j = key_index(b@, key)->0;
            assert(b@[j].0 == a@[i].0);
        }
    }
    if a@.len() == b@.len() && forall|i: int|
        0 <= i < a@.len() ==> exists|j: int|
            {
                &&& 0 <= j < b@.len()
                &&& (#[trigger] b@[j]).0 == (#[trigger] a@[i]).0
                &&& a@[i].1.eq_spec(&b@[j].1)
            } {
        assert forall|i: int| 0 <= i < a@.len() implies has_key(b@, (#[trigger] a@[i]).0) by {
            law_lookup(b@, a@[i].0);
        }
        lemma_no_other_keys(a@, b@);
        assert forall|key: Seq<char>|
            match (#[trigger] lookup(a@, key), lookup(b@, key)) {
                (Some(mine), Some(theirs)) => mine.eq_spec(&theirs),
                (None, None) => true,
                _ => false,
            } by {
            assert(has_key(a@, key) == has_key(b@, key));
            lemma_key_index(a@, key);
            if has_key(a@, key) {
                let i = key_index(a@, key)->0;
                assert(a@[i].0 == key);
                let j = choose|j: int|
                    {
                        &&& 0 <= j < b@.len()
                        &&& (#[trigger] b@[j]).0 == a@[i].0
                        &&& a@[i].1.eq_spec(&b@[j].1)
                    };
                lemma_key_index_at(b@, key, j);
            }
        }
    }
}

/// What has been put under a name is what is found under it, and what is found under
/// other names is what was.
pub proof fn law_insert_then_get<V>(
    map: &mut NameMap<V>,
    name: String,
    value: V,
    wanted: &str,
    got: Option<&V>,
    had: Option<&V>,
)
    requires
        call_ensures(NameMap::<V>::insert, (map, name, value), ()),
        call_ensures(NameMap::<V>::get, (&*final(map), wanted), got),
        call_ensures(NameMap::<V>::get, (&*old(map), wanted), had),
    ensures
        if wanted@ == name@ {
            got is Some && *got->0 == value
        } else {
            &&& got is Some <==> had is Some
            &&& got is Some ==> *got->0 == *had->0
        },
{
    lemma_upsert_lookup(old(map)@, name@, value, wanted@);
}

} // verus!
