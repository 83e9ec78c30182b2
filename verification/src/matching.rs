//! Which entry of the settings a table belongs to.

use crate::pattern;
use crate::search;
use crate::table::Table;
use vstd::prelude::*;

verus! {

/// The condition of naming a table outright.
pub open spec fn naming(name: Seq<char>) -> spec_fn(Table) -> bool {
    |table: Table| table.names_exactly(name)
}

/// The condition of covering one of `names` by a wildcard.
pub open spec fn covering(names: Seq<Seq<char>>) -> spec_fn(Table) -> bool {
    |table: Table| table.covers_by_wildcard(names)
}

/// The condition of being a pattern that covers one of `names`.
pub open spec fn pattern_covering(names: Seq<Seq<char>>) -> spec_fn(Seq<char>) -> bool {
    |p: Seq<char>| pattern::covers_any(p, names)
}

/// The position of the specific entry: the first one that names outright the
/// first of `names` that any entry names outright.
pub open spec fn specific_index(tables: Seq<Table>, names: Seq<Seq<char>>) -> Option<int>
    decreases names.len(),
{
    if names.len() == 0 {
        None
    } else {
        match search::first_index(tables, naming(names[0])) {
            Some(i) => Some(i),
            None => specific_index(tables, names.drop_first()),
        }
    }
}

/// The position of the wildcard entry: the first one with a wildcard pattern that
/// covers any of `names`.
pub open spec fn wildcard_index(tables: Seq<Table>, names: Seq<Seq<char>>) -> Option<int> {
    search::first_index(tables, covering(names))
}

/// The entry at a position.
pub open spec fn entry_at<'a>(tables: Seq<Table>, index: Option<int>) -> Option<&'a Table> {
    match index {
        Some(i) => Some(&tables[i]),
        None => None,
    }
}

/// The specific entry for `names`.
pub open spec fn specific_entry<'a>(tables: Seq<Table>, names: Seq<Seq<char>>) -> Option<&'a Table> {
    entry_at(tables, specific_index(tables, names))
}

/// The wildcard entry for `names`.
pub open spec fn wildcard_entry<'a>(tables: Seq<Table>, names: Seq<Seq<char>>) -> Option<&'a Table> {
    entry_at(tables, wildcard_index(tables, names))
}

/// The first pattern of an entry that covers one of `names`.
pub open spec fn covering_pattern(table: Table, names: Seq<Seq<char>>) -> Option<Seq<char>> {
    match search::first_index(table.pattern_list(), pattern_covering(names)) {
        Some(i) => Some(table.pattern_list()[i]),
        None => None,
    }
}

/// The name under which the rules of a table are kept: the specific entry's own
/// name if it has one without wildcards, or else the full name of the table.
pub open spec fn key_for(
    full_name: Seq<char>,
    specific: Option<&Table>,
    wildcard: Option<&Table>,
) -> Option<Seq<char>> {
    match (specific, wildcard) {
        (None, None) => None,
        (Some(s), _) if s.name@.len() > 0 && !s.any_wildcard() => Some(s.name@),
        _ => Some(full_name),
    }
}

/// The first entry that names a table outright.
fn find_named<'a>(tables: &'a Vec<Table>, name: &str) -> (found: Option<&'a Table>)
    ensures
        found == entry_at(tables@, search::first_index(tables@, naming(name@))),
{
    let mut i: usize = 0;
    while i < tables.len()
        invariant
            0 <= i <= tables@.len(),
            forall|j: int| 0 <= j < i ==> !naming(name@)(#[trigger] tables@[j]),
        decreases tables.len() - i,
    {
        if tables[i].is_named(name) {
            proof {
                search::lemma_first_index_at(tables@, naming(name@), i as int);
            }
            return Some(&tables[i]);
        }
        i += 1;
    }
    proof {
        search::lemma_first_index_none(tables@, naming(name@));
    }
    None
}

/// The specific entry for `names`.
pub fn find_specific<'a>(tables: &'a Vec<Table>, names: &[&str]) -> (found: Option<&'a Table>)
    ensures
        found == specific_entry(tables@, names.deep_view()),
{
    let ghost all = names.deep_view();
    let mut n: usize = 0;
    assert(all.skip(0) =~= all);
    while n < names.len()
        invariant
            all == names.deep_view(),
            0 <= n <= names@.len(),
            specific_index(tables@, all) == specific_index(tables@, all.skip(n as int)),
        decreases names.len() - n,
    {
        assert(all.skip(n as int)[0] == names@[n as int]@);
        assert(all.skip(n as int).drop_first() =~= all.skip(n + 1));
        let found = find_named(tables, names[n]);
        if found.is_some() {
            return found;
        }
        n += 1;
    }
    None
}

/// The wildcard entry for `names`.
pub fn find_wildcard<'a>(tables: &'a Vec<Table>, names: &[&str]) -> (found: Option<&'a Table>)
    ensures
        found == wildcard_entry(tables@, names.deep_view()),
{
    let ghost all = names.deep_view();
    let mut i: usize = 0;
    while i < tables.len()
        invariant
            all == names.deep_view(),
            0 <= i <= tables@.len(),
            forall|j: int| 0 <= j < i ==> !covering(all)(#[trigger] tables@[j]),
        decreases tables.len() - i,
    {
        if tables[i].is_covered(names) {
            proof {
                search::lemma_first_index_at(tables@, covering(all), i as int);
            }
            return Some(&tables[i]);
        }
        i += 1;
    }
    proof {
        search::lemma_first_index_none(tables@, covering(all));
    }
    None
}

} // verus!
