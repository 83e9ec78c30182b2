//! Which entry a table belongs to, told by the patterns of the entries.

use crate::laws::{law_first_wildcard_wins, law_specific_entry};
use crate::matching;
use crate::pattern;
use crate::search;
use crate::settings;
use crate::settings::Settings;
use crate::table;
use crate::table::Table;
use vstd::prelude::*;

verus! {

/// A pattern that holds `*` or `?` and covers a candidate name makes its entry match:
/// there is a wildcard entry, and it comes no later.
pub proof fn law_wildcard_pattern_matches(
    tables: Seq<Table>,
    names: Seq<Seq<char>>,
    t: int,
    k: int,
    n: int,
)
    requires
        0 <= t < tables.len(),
        0 <= k < tables[t].pattern_list().len(),
        0 <= n < names.len(),
        pattern::has_wildcard(tables[t].pattern_list()[k]),
        pattern::covers(tables[t].pattern_list()[k], names[n]),
    ensures
        matching::wildcard_index(tables, names) is Some,
        0 <= matching::wildcard_index(tables, names)->0 <= t,
{
    table::law_covers_by_wildcard(tables[t], names);
    law_first_wildcard_wins(tables, names);
}

/// The wildcard entry has a pattern that holds `*` or `?` and covers a candidate name.
pub proof fn law_wildcard_entry_has_pattern(tables: Seq<Table>, names: Seq<Seq<char>>)
    requires
        matching::wildcard_index(tables, names) is Some,
    ensures
        ({
            let t = matching::wildcard_index(tables, names)->0;
            &&& 0 <= t < tables.len()
            &&& exists|k: int, n: int|
                {
                    &&& 0 <= k < tables[t].pattern_list().len()
                    &&& 0 <= n < names.len()
                    &&& pattern::has_wildcard(tables[t].pattern_list()[k])
                    &&& #[trigger] pattern::covers(tables[t].pattern_list()[k], names[n])
                }
        }),
{
    law_first_wildcard_wins(tables, names);
    table::law_covers_by_wildcard(tables[matching::wildcard_index(tables, names)->0], names);
}

/// A pattern that is a candidate name, not empty and without wildcards, makes its
/// entry match outright: there is a specific entry, and it has for a pattern that
/// candidate or an earlier one; if that candidate is the first that it has, no entry
/// before it has that one.
pub proof fn law_plain_pattern_matches(
    tables: Seq<Table>,
    names: Seq<Seq<char>>,
    t: int,
    k: int,
    n: int,
)
    requires
        0 <= t < tables.len(),
        0 <= k < tables[t].pattern_list().len(),
        0 <= n < names.len(),
        tables[t].pattern_list()[k] == names[n],
        names[n].len() > 0,
        !pattern::has_wildcard(names[n]),
    ensures
        matching::specific_index(tables, names) is Some,
        ({
            let s = matching::specific_index(tables, names)->0;
            &&& 0 <= s < tables.len()
            &&& exists|m: int|
                {
                    &&& 0 <= m <= n
                    &&& tables[s].pattern_list().contains(#[trigger] names[m])
                    &&& names[m].len() > 0
                    &&& !pattern::has_wildcard(names[m])
                    &&& names[m] == names[n] ==> s <= t
                }
        }),
{
    law_specific_entry(tables, names);
    assert(tables[t].pattern_list().contains(names[n]));
    assert(tables[t].names_exactly(names[n]));
    let s = matching::specific_index(tables, names)->0;
    let m = choose|m: int|
        {
            &&& 0 <= m < names.len()
            &&& tables[s].names_exactly(#[trigger] names[m])
            &&& forall|j: int| 0 <= j < s ==> !(#[trigger] tables[j]).names_exactly(names[m])
            &&& forall|l: int, j: int|
                0 <= l < m && 0 <= j < tables.len() ==> !(#[trigger] tables[j]).names_exactly(
                    #[trigger] names[l],
                )
        };
    assert(m <= n);
}

/// The specific entry has a candidate name for a pattern, not empty and without
/// wildcards; no entry has an earlier such candidate, and no earlier entry has this
/// one.
pub proof fn law_specific_entry_has_pattern(tables: Seq<Table>, names: Seq<Seq<char>>)
    requires
        matching::specific_index(tables, names) is Some,
    ensures
        ({
            let s = matching::specific_index(tables, names)->0;
            &&& 0 <= s < tables.len()
            &&& exists|n: int|
                {
                    &&& 0 <= n < names.len()
                    &&& tables[s].pattern_list().contains(#[trigger] names[n])
                    &&& names[n].len() > 0
                    &&& !pattern::has_wildcard(names[n])
                    &&& forall|t: int|
                        0 <= t < s ==> !(#[trigger] tables[t]).pattern_list().contains(names[n])
                    &&& forall|m: int, t: int|
                        {
                            &&& 0 <= m < n
                            &&& 0 <= t < tables.len()
                            &&& names[m].len() > 0
                            &&& !pattern::has_wildcard(names[m])
                        } ==> !(#[trigger] tables[t]).pattern_list().contains(#[trigger] names[m])
                }
        }),
{
    law_specific_entry(tables, names);
    let s = matching::specific_index(tables, names)->0;
    let n = choose|n: int|
        {
            &&& 0 <= n < names.len()
            &&& tables[s].names_exactly(#[trigger] names[n])
            &&& forall|j: int| 0 <= j < s ==> !(#[trigger] tables[j]).names_exactly(names[n])
            &&& forall|l: int, j: int|
                0 <= l < n && 0 <= j < tables.len() ==> !(#[trigger] tables[j]).names_exactly(
                    #[trigger] names[l],
                )
        };
    assert(tables[s].pattern_list().contains(names[n]));
    assert forall|t: int| 0 <= t < s implies !(#[trigger] tables[t]).pattern_list().contains(
        names[n],
    ) by {
        assert(!tables[t].names_exactly(names[n]));
    }
    assert forall|m: int, t: int|
        {
            &&& 0 <= m < n
            &&& 0 <= t < tables.len()
            &&& names[m].len() > 0
            &&& !pattern::has_wildcard(names[m])
        } implies !(#[trigger] tables[t]).pattern_list().contains(#[trigger] names[m]) by {
        assert(!tables[t].names_exactly(names[m]));
    }
}

/// The entries for a table are the ones at the positions found.
pub proof fn law_entries_at_positions(s: Settings, names: Seq<Seq<char>>)
    ensures
        match matching::specific_index(s.tables@, names) {
            Some(i) => s.specific_for(names) is Some && *s.specific_for(names)->0 == s.tables@[i],
            None => s.specific_for(names) is None,
        },
        match matching::wildcard_index(s.tables@, names) {
            Some(i) => s.wildcard_for(names) is Some && *s.wildcard_for(names)->0 == s.tables@[i],
            None => s.wildcard_for(names) is None,
        },
{
}

/// A table that no entry matches has no key. One with a specific entry that has a
/// name, and no wildcard in any pattern, goes by that name; any other goes by its full
/// name.
pub proof fn law_key(s: Settings, full_name: Seq<char>, names: Seq<Seq<char>>)
    ensures
        ({
            let specific = s.specific_for(names);
            let key = s.key_of(full_name, names);
            if specific is None && s.wildcard_for(names) is None {
                key is None
            } else if specific is Some && specific->0.name@.len() > 0 && forall|k: int|
                0 <= k < specific->0.pattern_list().len() ==> !pattern::has_wildcard(
                    #[trigger] specific->0.pattern_list()[k],
                ) {
                key is Some && key->0 == specific->0.name@
            } else {
                key is Some && key->0 == full_name
            }
        }),
{
}

/// The entry with a given name is the first one whose `name` it is.
pub proof fn law_entry_by_name(tables: Seq<Table>, name: Seq<char>)
    ensures
        match matching::entry_at(tables, search::first_index(tables, settings::called(name))) {
            Some(found) => exists|i: int|
                {
                    &&& 0 <= i < tables.len()
                    &&& #[trigger] tables[i] == *found
                    &&& found.name@ == name
                    &&& forall|j: int| 0 <= j < i ==> (#[trigger] tables[j]).name@ != name
                },
            None => forall|j: int| 0 <= j < tables.len() ==> (#[trigger] tables[j]).name@ != name,
        },
{
    search::lemma_first_index(tables, settings::called(name));
    match search::first_index(tables, settings::called(name)) {
        Some(i) => {
            assert(settings::called(name)(tables[i]));
            assert forall|j: int| 0 <= j < i implies (#[trigger] tables[j]).name@ != name by {
                assert(!settings::called(name)(tables[j]));
            }
        },
        None => {
            assert forall|j: int| 0 <= j < tables.len() implies (#[trigger] tables[j]).name@
                != name by {
                assert(!settings::called(name)(tables[j]));
            }
        },
    }
}

} // verus!
