//! What holds of the settings as a whole.

pub mod calls;
pub mod entries;
pub mod loading;
pub mod registration;

use crate::asserts::AssertScope;
use crate::error::SettingsError;
use crate::matching;
use crate::merge;
use crate::name_map;
use crate::order;
use crate::pattern;
use crate::search;
use crate::settings;
use crate::settings::Settings;
use crate::table::Table;
use crate::transformer::{InitView, LocaleConfig, RuleView};
use vstd::prelude::*;

verus! {

/// No entry has two rules for one column.
pub open spec fn one_rule_per_column(tables: Seq<Table>) -> bool {
    forall|i: int| 0 <= i < tables.len() ==> (#[trigger] tables[i]).rules.wf()
}

/// The settings accepted are those in which every entry has either a name or a list
/// of names, not both; otherwise the error tells the first entry at fault, and
/// whether it has too much or too little.
pub proof fn law_validation(tables: Seq<Table>)
    requires
        tables.len() <= usize::MAX,
    ensures
        settings::validation(tables) is Ok <==> forall|i: int|
            0 <= i < tables.len() ==> settings::has_name(#[trigger] tables[i])
                != settings::has_names(tables[i]),
        match settings::validation(tables) {
            Ok(_) => true,
            Err(error) => {
                let i = match error {
                    SettingsError::BothNameAndNames { table } => table,
                    SettingsError::NeitherNameNorNames { table } => table,
                };
                &&& i < tables.len()
                &&& settings::has_name(tables[i as int]) == (error is BothNameAndNames)
                &&& settings::has_names(tables[i as int]) == (error is BothNameAndNames)
                &&& forall|j: int|
                    0 <= j < i ==> settings::has_name(#[trigger] tables[j]) != settings::has_names(
                        tables[j],
                    )
            },
        },
{
    search::lemma_first_index(tables, settings::misnamed());
    match search::first_index(tables, settings::misnamed()) {
        Some(i) => {
            assert(settings::misnamed()(tables[i]));
            assert forall|j: int| 0 <= j < i implies settings::has_name(#[trigger] tables[j])
                != settings::has_names(tables[j]) by {
                assert(!settings::misnamed()(tables[j]));
            }
        },
        None => {
            assert forall|j: int| 0 <= j < tables.len() implies settings::has_name(
                #[trigger] tables[j],
            ) != settings::has_names(tables[j]) by {
                assert(!settings::misnamed()(tables[j]));
            }
        },
    }
}

/// The specific entry is the first one that names outright a candidate name such
/// that no entry names an earlier candidate outright: the order of the candidates
/// goes before the order of the entries.
pub proof fn law_specific_entry(tables: Seq<Table>, names: Seq<Seq<char>>)
    ensures
        match matching::specific_index(tables, names) {
            Some(i) => {
                &&& 0 <= i < tables.len()
                &&& exists|n: int|
                    {
                        &&& 0 <= n < names.len()
                        &&& tables[i].names_exactly(#[trigger] names[n])
                        &&& forall|j: int|
                            0 <= j < i ==> !(#[trigger] tables[j]).names_exactly(names[n])
                        &&& forall|m: int, j: int|
                            0 <= m < n && 0 <= j < tables.len() ==> !(
                            #[trigger] tables[j]).names_exactly(#[trigger] names[m])
                    }
            },
            None => forall|m: int, j: int|
                0 <= m < names.len() && 0 <= j < tables.len() ==> !(
                #[trigger] tables[j]).names_exactly(#[trigger] names[m]),
        },
    decreases names.len(),
{
    if names.len() > 0 {
        let rest = names.drop_first();
        search::lemma_first_index(tables, matching::naming(names[0]));
        match search::first_index(tables, matching::naming(names[0])) {
            Some(i) => {
                assert(matching::naming(names[0])(tables[i]));
                assert forall|j: int| 0 <= j < i implies !(#[trigger] tables[j]).names_exactly(
                    names[0],
                ) by {
                    assert(!matching::naming(names[0])(tables[j]));
                }
            },
            None => {
                law_specific_entry(tables, rest);
                assert forall|j: int| 0 <= j < tables.len() implies !(
                #[trigger] tables[j]).names_exactly(names[0]) by {
                    assert(!matching::naming(names[0])(tables[j]));
                }
                match matching::specific_index(tables, rest) {
                    Some(i) => {
                        let n = choose|n: int|
                            {
                                &&& 0 <= n < rest.len()
                                &&& tables[i].names_exactly(#[trigger] rest[n])
                                &&& forall|j: int|
                                    0 <= j < i ==> !(#[trigger] tables[j]).names_exactly(rest[n])
                                &&& forall|m: int, j: int|
                                    0 <= m < n && 0 <= j < tables.len() ==> !(
                                    #[trigger] tables[j]).names_exactly(#[trigger] rest[m])
                            };
                        assert(names[n + 1] == rest[n]);
                        assert forall|m: int, j: int|
                            0 <= m < n + 1 && 0 <= j < tables.len() implies !(
                        #[trigger] tables[j]).names_exactly(#[trigger] names[m]) by {
                            if m > 0 {
                                assert(rest[m - 1] == names[m]);
                            }
                        }
                        assert(tables[i].names_exactly(names[n + 1]));
                    },
                    None => {
                        assert forall|m: int, j: int|
                            0 <= m < names.len() && 0 <= j < tables.len() implies !(
                        #[trigger] tables[j]).names_exactly(#[trigger] names[m]) by {
                            if m > 0 {
                                assert(rest[m - 1] == names[m]);
                            }
                        }
                    },
                }
            },
        }
    }
}

/// Where an entry names a table by its full name, no entry for the short name is
/// taken for it.
pub proof fn law_full_name_beats_short_name(
    tables: Seq<Table>,
    full_name: Seq<char>,
    short_name: Seq<char>,
)
    requires
        exists|i: int| 0 <= i < tables.len() && (#[trigger] tables[i]).names_exactly(full_name),
    ensures
        matching::specific_entry(tables, settings::candidate_names(full_name, short_name)) is Some,
        matching::specific_entry(tables, settings::candidate_names(full_name, short_name))->0.names_exactly(full_name),
{
    let names = settings::candidate_names(full_name, short_name);
    search::lemma_first_index(tables, matching::naming(full_name));
    assert(names[0] == full_name);
    match search::first_index(tables, matching::naming(full_name)) {
        Some(i) => { assert(matching::naming(full_name)(tables[i])); },
        None => {
            let i = choose|i: int|
                0 <= i < tables.len() && (#[trigger] tables[i]).names_exactly(full_name);
            assert(!matching::naming(full_name)(tables[i]));
        },
    }
}

/// The wildcard entry is the first one with a wildcard pattern that covers any of
/// the candidate names.
pub proof fn law_first_wildcard_wins(tables: Seq<Table>, names: Seq<Seq<char>>)
    ensures
        match matching::wildcard_index(tables, names) {
            Some(i) => {
                &&& 0 <= i < tables.len()
                &&& tables[i].covers_by_wildcard(names)
                &&& forall|j: int| 0 <= j < i ==> !(#[trigger] tables[j]).covers_by_wildcard(names)
            },
            None => forall|j: int|
                0 <= j < tables.len() ==> !(#[trigger] tables[j]).covers_by_wildcard(names),
        },
{
    search::lemma_first_index(tables, matching::covering(names));
    match search::first_index(tables, matching::covering(names)) {
        Some(i) => {
            assert(matching::covering(names)(tables[i]));
            assert forall|j: int| 0 <= j < i implies !(#[trigger] tables[j]).covers_by_wildcard(
                names,
            ) by {
                assert(!matching::covering(names)(tables[j]));
            }
        },
        None => {
            assert forall|j: int| 0 <= j < tables.len() implies !(
            #[trigger] tables[j]).covers_by_wildcard(names) by {
                assert(!matching::covering(names)(tables[j]));
            }
        },
    }
}

/// Whether every one of `names` is among `others`.
spec fn all_among(names: Seq<Seq<char>>, others: Seq<Seq<char>>) -> bool {
    forall|n: int| 0 <= n < names.len() ==> others.contains(#[trigger] names[n])
}

/// An entry that covers one of some names covers one of any names they are among.
proof fn lemma_covers_among(t: Table, names: Seq<Seq<char>>, others: Seq<Seq<char>>)
    requires
        all_among(names, others),
        t.covers_by_wildcard(names),
    ensures
        t.covers_by_wildcard(others),
{
    let list = t.pattern_list();
    let k = choose|k: int|
        0 <= k < list.len() && pattern::has_wildcard(#[trigger] list[k]) && pattern::covers_any(
            list[k],
            names,
        );
    let n = choose|n: int| 0 <= n < names.len() && pattern::covers(list[k], #[trigger] names[n]);
    assert(others.contains(names[n]));
    let m = choose|m: int| 0 <= m < others.len() && others[m] == names[n];
    assert(pattern::covers(list[k], others[m]));
    assert(pattern::covers_any(list[k], others));
}

/// The wildcard entry for some names comes no later than that for names among them.
proof fn lemma_wildcard_among(tables: Seq<Table>, names: Seq<Seq<char>>, others: Seq<Seq<char>>)
    requires
        all_among(names, others),
    ensures
        match matching::wildcard_index(tables, names) {
            Some(i) => {
                &&& matching::wildcard_index(tables, others) is Some
                &&& matching::wildcard_index(tables, others)->0 <= i
            },
            None => true,
        },
{
    law_first_wildcard_wins(tables, names);
    law_first_wildcard_wins(tables, others);
    match matching::wildcard_index(tables, names) {
        Some(i) => { lemma_covers_among(tables[i], names, others); },
        None => {},
    }
}

/// There is a specific entry for names among which are names that there is one for.
proof fn lemma_specific_among(tables: Seq<Table>, names: Seq<Seq<char>>, others: Seq<Seq<char>>)
    requires
        all_among(names, others),
        matching::specific_index(tables, names) is Some,
    ensures
        matching::specific_index(tables, others) is Some,
{
    law_specific_entry(tables, names);
    law_specific_entry(tables, others);
    let i = matching::specific_index(tables, names)->0;
    let n = choose|n: int| 0 <= n < names.len() && tables[i].names_exactly(#[trigger] names[n]);
    assert(others.contains(names[n]));
    let m = choose|m: int| 0 <= m < others.len() && others[m] == names[n];
    assert(tables[i].names_exactly(others[m]));
}

/// The order of the candidate names does not matter to the wildcard entry, nor to
/// whether there is a specific one.
pub proof fn law_reordered_candidates(
    tables: Seq<Table>,
    names: Seq<Seq<char>>,
    perm: Seq<Seq<char>>,
)
    requires
        perm.to_multiset() == names.to_multiset(),
    ensures
        matching::wildcard_index(tables, perm) == matching::wildcard_index(tables, names),
        matching::wildcard_entry(tables, perm) == matching::wildcard_entry(tables, names),
        matching::specific_index(tables, perm) is Some <==> matching::specific_index(
            tables,
            names,
        ) is Some,
        matching::specific_entry(tables, perm) is Some <==> matching::specific_entry(
            tables,
            names,
        ) is Some,
{
    broadcast use vstd::seq_lib::group_to_multiset_ensures;

    assert(all_among(names, perm)) by {
        assert forall|n: int| 0 <= n < names.len() implies perm.contains(#[trigger] names[n]) by {
            assert(names.contains(names[n]));
            assert(names.to_multiset().count(names[n]) > 0);
        }
    }
    assert(all_among(perm, names)) by {
        assert forall|n: int| 0 <= n < perm.len() implies names.contains(#[trigger] perm[n]) by {
            assert(perm.contains(perm[n]));
            assert(perm.to_multiset().count(perm[n]) > 0);
        }
    }
    lemma_wildcard_among(tables, names, perm);
    lemma_wildcard_among(tables, perm, names);
    if matching::specific_index(tables, names) is Some {
        lemma_specific_among(tables, names, perm);
    }
    if matching::specific_index(tables, perm) is Some {
        lemma_specific_among(tables, perm, names);
    }
}

/// More candidate names after the others leave the specific entry as it was, where
/// there was one; and where there was a wildcard entry, there still is one, the same
/// or one before it.
pub proof fn law_more_candidates(
    tables: Seq<Table>,
    names: Seq<Seq<char>>,
    extra: Seq<Seq<char>>,
)
    ensures
        matching::specific_index(tables, names) is Some ==> matching::specific_index(
            tables,
            names + extra,
        ) == matching::specific_index(tables, names),
        matching::specific_entry(tables, names) is Some ==> matching::specific_entry(
            tables,
            names + extra,
        ) == matching::specific_entry(tables, names),
        match matching::wildcard_index(tables, names) {
            Some(i) => {
                &&& matching::wildcard_index(tables, names + extra) is Some
                &&& matching::wildcard_index(tables, names + extra)->0 <= i
            },
            None => true,
        },
    decreases names.len(),
{
    let more = names + extra;
    assert(all_among(names, more)) by {
        assert forall|n: int| 0 <= n < names.len() implies more.contains(#[trigger] names[n]) by {
            assert(more[n] == names[n]);
        }
    }
    lemma_wildcard_among(tables, names, more);
    if names.len() > 0 {
        law_more_candidates(tables, names.drop_first(), extra);
        assert(more.drop_first() =~= names.drop_first() + extra);
    }
}

/// A table has a key exactly where an entry matches it.
pub proof fn law_key_where_entry(s: Settings, full_name: Seq<char>, names: Seq<Seq<char>>)
    ensures
        s.key_of(full_name, names) is Some <==> s.specific_for(names) is Some || s.wildcard_for(
            names,
        ) is Some,
{
}

/// The key of a table is its full name or one of the candidate names, and it is the
/// name of the specific entry where that entry is given by its `name`.
pub proof fn law_key_is_a_name(s: Settings, full_name: Seq<char>, names: Seq<Seq<char>>)
    requires
        settings::validation(s.tables@) is Ok,
    ensures
        match s.key_of(full_name, names) {
            Some(key) => key == full_name || names.contains(key),
            None => true,
        },
        s.specific_for(names) is Some && settings::has_name(*s.specific_for(names)->0)
            ==> s.key_of(full_name, names) == Some(s.specific_for(names)->0.name@),
{
    law_specific_entry(s.tables@, names);
    match matching::specific_index(s.tables@, names) {
        Some(i) => {
            let t = s.tables@[i];
            search::lemma_first_index(s.tables@, settings::misnamed());
            assert(!settings::misnamed()(t));
            let n = choose|n: int|
                0 <= n < names.len() && t.names_exactly(#[trigger] names[n]);
            if settings::has_name(t) {
                assert(t.pattern_list() =~= seq![t.name@]);
                assert(t.name@ == names[n]);
                assert(!t.any_wildcard());
            }
        },
        None => {},
    }
}

/// The specific entry has a pattern to show, since a name without wildcards covers
/// itself, and so has the wildcard entry.
pub proof fn law_entries_have_labels(s: Settings, names: Seq<Seq<char>>)
    ensures
        s.specific_for(names) is Some ==> settings::label_of(s.specific_for(names), names) is Some,
        s.wildcard_for(names) is Some ==> settings::label_of(s.wildcard_for(names), names) is Some,
{
    law_specific_entry(s.tables@, names);
    law_first_wildcard_wins(s.tables@, names);
    match matching::specific_index(s.tables@, names) {
        Some(i) => {
            let t = s.tables@[i];
            let n = choose|n: int|
                0 <= n < names.len() && t.names_exactly(#[trigger] names[n]);
            let list = t.pattern_list();
            let k = choose|k: int| 0 <= k < list.len() && list[k] == names[n];
            pattern::law_plain_pattern_covers_itself(list[k], names[n]);
            assert(pattern::covers_any(list[k], names));
            lemma_label(t, names, k);
        },
        None => {},
    }
    match matching::wildcard_index(s.tables@, names) {
        Some(i) => {
            let t = s.tables@[i];
            let list = t.pattern_list();
            let k = choose|k: int|
                0 <= k < list.len() && pattern::has_wildcard(#[trigger] list[k])
                    && pattern::covers_any(list[k], names);
            lemma_label(t, names, k);
        },
        None => {},
    }
}

/// An entry with a pattern that covers one of the names has a label.
proof fn lemma_label(t: Table, names: Seq<Seq<char>>, k: int)
    requires
        0 <= k < t.pattern_list().len(),
        pattern::covers_any(t.pattern_list()[k], names),
    ensures
        matching::covering_pattern(t, names) is Some,
{
    search::lemma_first_index(t.pattern_list(), matching::pattern_covering(names));
    assert(matching::pattern_covering(names)(t.pattern_list()[k]));
}

/// The rule that applies to a column of a table: that of the specific entry, or
/// else, for a column that the table has, that of the wildcard entry.
pub open spec fn rule_for(
    s: Settings,
    names: Seq<Seq<char>>,
    columns: Seq<Seq<char>>,
    column: Seq<char>,
) -> Option<RuleView> {
    match name_map::lookup(merge::rules_of(s.specific_for(names)), column) {
        Some(rule) => Some(rule),
        None => if columns.contains(column) {
            name_map::lookup(merge::rules_of(s.wildcard_for(names)), column)
        } else {
            None
        },
    }
}

/// The rules of the entries for a table are distinct by column.
proof fn lemma_entry_rules_distinct(s: Settings, names: Seq<Seq<char>>)
    requires
        one_rule_per_column(s.tables@),
    ensures
        name_map::distinct_keys(merge::rules_of(s.specific_for(names))),
        name_map::distinct_keys(merge::rules_of(s.wildcard_for(names))),
{
    law_specific_entry(s.tables@, names);
    law_first_wildcard_wins(s.tables@, names);
    match matching::specific_index(s.tables@, names) {
        Some(i) => { name_map::lemma_deep_distinct(s.tables@[i].rules); },
        None => {},
    }
    match matching::wildcard_index(s.tables@, names) {
        Some(i) => { name_map::lemma_deep_distinct(s.tables@[i].rules); },
        None => {},
    }
}

/// Specific rules win on a column that both entries have a rule for and apply
/// whether or not the table has the column; wildcard rules apply only to columns
/// that it has. There is at most one rule for a column.
pub proof fn law_merged_rules(s: Settings, names: Seq<Seq<char>>, columns: Seq<Seq<char>>)
    requires
        one_rule_per_column(s.tables@),
    ensures
        name_map::distinct_keys(s.rules_for(names, columns)),
        forall|column: Seq<char>| #[trigger]
            name_map::lookup(s.rules_for(names, columns), column) == rule_for(
                s,
                names,
                columns,
                column,
            ),
{
    lemma_entry_rules_distinct(s, names);
    let top = merge::rules_of(s.specific_for(names));
    let all = merge::rules_of(s.wildcard_for(names));
    let present = merge::for_column::<RuleView>(columns);
    let known = |column: Seq<char>| columns.contains(column);
    name_map::lemma_filter_lookup(all, present, known, Seq::empty());
    name_map::lemma_overlay_distinct(all.filter(present), top);
    assert forall|column: Seq<char>| #[trigger]
        name_map::lookup(s.rules_for(names, columns), column) == rule_for(
        s,
        names,
        columns,
        column,
    ) by {
        name_map::lemma_filter_lookup(all, present, known, column);
        name_map::lemma_overlay_lookup(all.filter(present), top, column);
    }
}

/// Once a table with a rule for it has been registered, the rules are found under
/// its key: for every column the rule that applies to it, once, with the columns
/// that the entries list last and in that order.
pub proof fn law_registered_rules_are_found(
    before: Settings,
    after: Settings,
    full_name: Seq<char>,
    short_name: Seq<char>,
    columns: Seq<Seq<char>>,
    column: Seq<char>,
)
    requires
        one_rule_per_column(before.tables@),
        after.registered_from(before, full_name, short_name, columns),
        rule_for(before, settings::candidate_names(full_name, short_name), columns, column) is Some,
    ensures
        ({
            let names = settings::candidate_names(full_name, short_name);
            let key = after.key_of(full_name, names);
            let order = before.order_for(names);
            &&& key is Some
            &&& after.registered() is Some
            &&& after.registered()->0.contains_key(key->0)
            &&& name_map::distinct_keys(after.registered()->0[key->0])
            &&& forall|c: Seq<char>| #[trigger]
                name_map::lookup(after.registered()->0[key->0], c) == rule_for(
                    before,
                    names,
                    columns,
                    c,
                )
            &&& forall|i: int, j: int|
                0 <= i < j < after.registered()->0[key->0].len() ==> {
                    let left = order::rank(
                        order,
                        (#[trigger] after.registered()->0[key->0][i]).0,
                    );
                    let right = order::rank(
                        order,
                        (#[trigger] after.registered()->0[key->0][j]).0,
                    );
                    left < right || (left == -1 && right == -1)
                }
        }),
{
    let names = settings::candidate_names(full_name, short_name);
    let rules = before.rules_for(names, columns);
    law_merged_rules(before, names, columns);
    assert(name_map::lookup(rules, column) is Some);
    name_map::lemma_key_index(rules, column);
    order::law_arranged_keeps_rules(rules, before.order_for(names));
    order::law_arranged_by_rank(rules, before.order_for(names));
    assert(before.key_of(full_name, names) is Some) by {
        name_map::lemma_key_index(merge::rules_of(before.specific_for(names)), column);
        name_map::lemma_key_index(merge::rules_of(before.wildcard_for(names)), column);
    }
}

/// A table that no rule applies to is not registered, and the settings stay as
/// they are.
pub proof fn law_nothing_to_register(
    before: Settings,
    after: Settings,
    full_name: Seq<char>,
    short_name: Seq<char>,
    columns: Seq<Seq<char>>,
)
    requires
        one_rule_per_column(before.tables@),
        after.registered_from(before, full_name, short_name, columns),
        forall|column: Seq<char>|
            #[trigger] rule_for(before, settings::candidate_names(full_name, short_name), columns, column) is None,
    ensures
        after == before,
{
    let names = settings::candidate_names(full_name, short_name);
    let rules = before.rules_for(names, columns);
    law_merged_rules(before, names, columns);
    if rules.len() > 0 {
        assert(rule_for(before, names, columns, rules[0].0) is None);
        name_map::lemma_key_index_at(rules, rules[0].0, 0);
        assert(name_map::lookup(rules, rules[0].0) is Some);
    }
}

/// A table that only a wildcard entry matches gets rules for columns that it has and
/// for no others; one that a specific entry matches gets all rules of that entry.
pub proof fn law_lenient_and_strict(
    s: Settings,
    names: Seq<Seq<char>>,
    columns: Seq<Seq<char>>,
    column: Seq<char>,
)
    ensures
        s.specific_for(names) is None && rule_for(s, names, columns, column) is Some
            ==> columns.contains(column),
        s.specific_for(names) is Some && name_map::has_key(
            s.specific_for(names)->0.rules.deep_view(),
            column,
        ) ==> rule_for(s, names, columns, column) == name_map::lookup(
            s.specific_for(names)->0.rules.deep_view(),
            column,
        ),
{
    name_map::lemma_key_index(merge::rules_of(s.specific_for(names)), column);
}

/// Registering a table leaves what is kept under other names as it was, and does
/// not change which entries match which tables.
pub proof fn law_register_changes_one_key(
    before: Settings,
    after: Settings,
    full_name: Seq<char>,
    short_name: Seq<char>,
    columns: Seq<Seq<char>>,
    other: Seq<char>,
    candidates: Seq<Seq<char>>,
)
    requires
        after.registered_from(before, full_name, short_name, columns),
        before.key_of(full_name, settings::candidate_names(full_name, short_name)) != Some(other),
    ensures
        after.same_configuration(before),
        before.registered() is Some ==> after.registered() is Some,
        after.registered_or_empty().contains_key(other)
            == before.registered_or_empty().contains_key(other),
        before.registered_or_empty().contains_key(other) ==> after.registered_or_empty()[other]
            == before.registered_or_empty()[other],
        after.specific_for(candidates) == before.specific_for(candidates),
        after.wildcard_for(candidates) == before.wildcard_for(candidates),
        after.key_of(other, candidates) == before.key_of(other, candidates),
{
}

/// Registering a table a second time changes nothing.
pub proof fn law_register_twice(
    before: Settings,
    once: Settings,
    twice: Settings,
    full_name: Seq<char>,
    short_name: Seq<char>,
    columns: Seq<Seq<char>>,
)
    requires
        once.registered_from(before, full_name, short_name, columns),
        twice.registered_from(once, full_name, short_name, columns),
    ensures
        twice.same_configuration(once),
        twice.registered() == once.registered(),
{
    if twice.registered() is Some && once.registered() is Some {
        assert(twice.registered()->0 =~= once.registered()->0);
    }
}

/// Two tables that are kept under different keys can be registered in either order.
pub proof fn law_registrations_commute(
    before: Settings,
    first: Settings,
    first_second: Settings,
    second: Settings,
    second_first: Settings,
    full_name: Seq<char>,
    short_name: Seq<char>,
    columns: Seq<Seq<char>>,
    full_name2: Seq<char>,
    short_name2: Seq<char>,
    columns2: Seq<Seq<char>>,
)
    requires
        first.registered_from(before, full_name, short_name, columns),
        first_second.registered_from(first, full_name2, short_name2, columns2),
        second.registered_from(before, full_name2, short_name2, columns2),
        second_first.registered_from(second, full_name, short_name, columns),
        before.key_of(full_name, settings::candidate_names(full_name, short_name)) != before.key_of(
            full_name2,
            settings::candidate_names(full_name2, short_name2),
        ),
    ensures
        first_second.same_configuration(second_first),
        first_second.registered() == second_first.registered(),
{
    if first_second.registered() is Some && second_first.registered() is Some {
        assert(first_second.registered()->0 =~= second_first.registered()->0);
    }
}

/// After a table has been registered, a dry run shows the columns that its kept
/// rules are for, in order, under a label that names each entry that matched it.
pub proof fn law_dry_run_shows_registration(
    before: Settings,
    after: Settings,
    full_name: Seq<char>,
    short_name: Seq<char>,
    columns: Seq<Seq<char>>,
)
    requires
        one_rule_per_column(before.tables@),
        after.registered_from(before, full_name, short_name, columns),
        before.rules_for(settings::candidate_names(full_name, short_name), columns).len() > 0,
    ensures
        ({
            let names = settings::candidate_names(full_name, short_name);
            let key = before.key_of(full_name, names);
            let specific = settings::label_of(before.specific_for(names), names);
            let wildcard = settings::label_of(before.wildcard_for(names), names);
            let label = match (before.specific_for(names), before.wildcard_for(names)) {
                (Some(_), Some(_)) => specific->0 + " + "@ + wildcard->0,
                (Some(_), None) => specific->0,
                _ => wildcard->0,
            };
            &&& key is Some
            &&& after.dry_run_view(full_name, names) == Some(
                (label, settings::columns_of(after.registered()->0[key->0])),
            )
        }),
{
    let names = settings::candidate_names(full_name, short_name);
    let rules = before.rules_for(names, columns);
    law_entries_have_labels(before, names);
    law_merged_rules(before, names, columns);
    order::law_arranged_keeps_rules(rules, before.order_for(names));
    assert(name_map::lookup(rules, rules[0].0) is Some) by {
        name_map::lemma_key_index(rules, rules[0].0);
    }
    assert(before.key_of(full_name, names) is Some) by {
        name_map::lemma_key_index(merge::rules_of(before.specific_for(names)), rules[0].0);
        name_map::lemma_key_index(merge::rules_of(before.wildcard_for(names)), rules[0].0);
    }
}

/// A table that a specific entry matches and no wildcard entry does is registered
/// with the rules of the specific entry alone, arranged as that entry asks.
pub proof fn law_specific_entry_alone(
    before: Settings,
    after: Settings,
    full_name: Seq<char>,
    short_name: Seq<char>,
    columns: Seq<Seq<char>>,
)
    requires
        one_rule_per_column(before.tables@),
        after.registered_from(before, full_name, short_name, columns),
        before.specific_for(settings::candidate_names(full_name, short_name)) is Some,
        before.wildcard_for(settings::candidate_names(full_name, short_name)) is None,
        before.specific_for(settings::candidate_names(full_name, short_name))->0.rules@.len() > 0,
    ensures
        ({
            let names = settings::candidate_names(full_name, short_name);
            let key = before.key_of(full_name, names);
            &&& key is Some
            &&& after.registered()->0[key->0] == before.specific_for(names)->0.arranged_rules()
        }),
{
    let names = settings::candidate_names(full_name, short_name);
    let t = before.specific_for(names)->0;
    lemma_entry_rules_distinct(before, names);
    reveal(Seq::filter);
    let none = merge::rules_of(before.wildcard_for(names));
    assert(none.filter(merge::for_column(columns)) =~= Seq::<(Seq<char>, RuleView)>::empty());
    name_map::lemma_overlay_nothing(t.rules.deep_view());
}

/// Whether the rules of an entry are resolved when the settings are made ready.
pub open spec fn resolves_at_load(t: Table) -> bool {
    t.names is None && !t.any_wildcard()
}

/// Of the entries that give one table by its name, the last one for a name has its
/// rules kept from the start, as it arranges them.
pub proof fn law_named_entry_is_resolved(tables: Seq<Table>, i: int)
    requires
        0 <= i < tables.len(),
        resolves_at_load(tables[i]),
        forall|j: int|
            i < j < tables.len() && resolves_at_load(#[trigger] tables[j]) ==> tables[j].name@
                != tables[i].name@,
    ensures
        settings::resolved_at_load(tables).contains_key(tables[i].name@),
        settings::resolved_at_load(tables)[tables[i].name@] == tables[i].arranged_rules(),
    decreases tables.len(),
{
    let init = tables.drop_last();
    if i < init.len() {
        assert(init[i] == tables[i]);
        assert forall|j: int|
            i < j < init.len() && resolves_at_load(#[trigger] init[j]) implies init[j].name@
            != init[i].name@ by {
            assert(init[j] == tables[j]);
        }
        law_named_entry_is_resolved(init, i);
        assert(tables[tables.len() - 1] == tables.last());
    }
}

/// Nothing else is kept from the start: entries with wildcards or `names` wait
/// until the tables are registered.
pub proof fn law_other_entries_wait(tables: Seq<Table>, name: Seq<char>)
    requires
        settings::resolved_at_load(tables).contains_key(name),
    ensures
        exists|i: int|
            0 <= i < tables.len() && resolves_at_load(#[trigger] tables[i]) && tables[i].name@
                == name,
    decreases tables.len(),
{
    if tables.len() > 0 {
        let t = tables.last();
        let init = tables.drop_last();
        if resolves_at_load(t) && t.name@ == name {
            assert(tables[tables.len() - 1] == t);
        } else {
            law_other_entries_wait(init, name);
            let i = choose|i: int|
                0 <= i < init.len() && resolves_at_load(#[trigger] init[i]) && init[i].name@
                    == name;
            assert(tables[i] == init[i]);
        }
    }
}

/// No list of kept rules has two rules for one column.
pub open spec fn one_kept_rule_per_column(kept: settings::Registered) -> bool {
    forall|name: Seq<char>|
        kept.contains_key(name) ==> name_map::distinct_keys(#[trigger] kept[name])
}

/// The rules kept from the start have one rule for a column at most.
pub proof fn law_resolved_rules_are_distinct(tables: Seq<Table>)
    requires
        one_rule_per_column(tables),
    ensures
        one_kept_rule_per_column(settings::resolved_at_load(tables)),
    decreases tables.len(),
{
    if tables.len() > 0 {
        let init = tables.drop_last();
        let t = tables.last();
        assert(one_rule_per_column(init)) by {
            assert forall|i: int| 0 <= i < init.len() implies (#[trigger] init[i]).rules.wf() by {
                assert(init[i] == tables[i]);
            }
        }
        law_resolved_rules_are_distinct(init);
        assert(tables[tables.len() - 1].rules.wf());
        name_map::lemma_deep_distinct(t.rules);
        order::law_arranged_keeps_rules(t.rules.deep_view(), t.listed_columns());
    }
}

/// Registering a table leaves every list of kept rules with one rule for a column
/// at most.
pub proof fn law_register_keeps_rules_distinct(
    before: Settings,
    after: Settings,
    full_name: Seq<char>,
    short_name: Seq<char>,
    columns: Seq<Seq<char>>,
)
    requires
        one_rule_per_column(before.tables@),
        one_kept_rule_per_column(before.registered_or_empty()),
        after.registered_from(before, full_name, short_name, columns),
    ensures
        one_kept_rule_per_column(after.registered_or_empty()),
{
    let names = settings::candidate_names(full_name, short_name);
    law_merged_rules(before, names, columns);
    order::law_arranged_keeps_rules(before.rules_for(names, columns), before.order_for(names));
}

/// Making settings ready does not change which entries match which tables.
pub proof fn law_ready_settings_match_alike(
    parsed: Settings,
    ready: Settings,
    names: Seq<Seq<char>>,
)
    requires
        ready.ready_from(parsed),
    ensures
        matching::specific_index(ready.tables@, names) == matching::specific_index(
            parsed.tables@,
            names,
        ),
        matching::wildcard_index(ready.tables@, names) == matching::wildcard_index(
            parsed.tables@,
            names,
        ),
    decreases names.len(),
{
    let a = ready.tables@;
    let b = parsed.tables@;
    assert forall|i: int| 0 <= i < b.len() implies (#[trigger] a[i]).pattern_list()
        == b[i].pattern_list() by {
        assert(a[i].prepared_from(b[i], parsed.init_view()));
    }
    lemma_same_first_index(a, b, matching::covering(names));
    if names.len() > 0 {
        law_ready_settings_match_alike(parsed, ready, names.drop_first());
        lemma_same_first_index(a, b, matching::naming(names[0]));
    }
}

/// Sequences that agree on a condition agree on the first element that meets it.
proof fn lemma_same_first_index(a: Seq<Table>, b: Seq<Table>, p: spec_fn(Table) -> bool)
    requires
        a.len() == b.len(),
        forall|i: int| 0 <= i < a.len() ==> p(#[trigger] a[i]) == p(b[i]),
    ensures
        search::first_index(a, p) == search::first_index(b, p),
{
    search::lemma_first_index(a, p);
    search::lemma_first_index(b, p);
    match search::first_index(a, p) {
        Some(i) => {
            assert forall|j: int| 0 <= j < i implies !p(#[trigger] b[j]) by {
                assert(!p(a[j]));
            }
            search::lemma_first_index_at(b, p, i);
        },
        None => {
            assert forall|j: int| 0 <= j < b.len() implies !p(#[trigger] b[j]) by {
                assert(!p(a[j]));
            }
            search::lemma_first_index_none(b, p);
        },
    }
}

/// The locale of a rule that makes names.
pub open spec fn locale_of(rule: RuleView) -> Option<LocaleConfig> {
    match rule {
        RuleView::PersonName(locale) => locale,
        RuleView::FirstName(locale) => locale,
        RuleView::LastName(locale) => locale,
        RuleView::CompanyName(locale) => locale,
        RuleView::Template { .. } => None,
    }
}

/// Once the settings are ready, a rule that makes names has a locale: its own, or
/// else the default one; and a template rule has the templates of the settings.
pub proof fn law_ready_rules(parsed: Settings, ready: Settings, i: int, k: int)
    requires
        ready.ready_from(parsed),
        0 <= i < parsed.tables@.len(),
        0 <= k < parsed.tables@[i].rules.deep_view().len(),
    ensures
        ({
            let before = parsed.tables@[i].rules.deep_view()[k];
            let after = ready.tables@[i].rules.deep_view()[k];
            &&& after.0 == before.0
            &&& after.1 == before.1.initialized(ready.init_view())
            &&& locale_of(before.1) is Some ==> locale_of(after.1) == locale_of(before.1)
            &&& !(before.1 is Template) && locale_of(before.1) is None ==> locale_of(after.1)
                == Some(parsed.default.locale)
            &&& before.1 is Template ==> after.1 == (RuleView::Template {
                format: before.1->format,
                templates: ready.init_view().templates,
            })
        }),
{
    assert(ready.tables@[i].prepared_from(parsed.tables@[i], parsed.init_view()));
}

/// Preparing a rule a second time changes nothing.
pub proof fn law_initialized_twice(rule: RuleView, ctx: InitView)
    ensures
        rule.initialized(ctx).initialized(ctx) == rule.initialized(ctx),
{
}

/// The assertions come in this order: first the global ones, in their order, then
/// those of the tables, in the order of the tables and, for each, in its own.
pub proof fn law_assertion_order(s: Settings, t: int, k: int)
    requires
        0 <= t < s.tables@.len(),
        0 <= k < s.tables@[t].asserts@.len(),
    ensures
        ({
            let scopes = settings::global_scopes::<'static>(s.asserts@)
                + settings::all_table_scopes(s.tables@);
            let at = s.asserts@.len() + settings::all_table_scopes::<'static>(
                s.tables@.take(t),
            ).len() + k;
            &&& forall|i: int|
                0 <= i < s.asserts@.len() ==> #[trigger] scopes[i] == AssertScope::Global(
                    &s.asserts@[i],
                )
            &&& at < scopes.len()
            &&& scopes[at] == settings::table_scopes::<'static>(s.tables@[t])[k]
        }),
{
    lemma_table_scope_at(s.tables@, t, k);
}

/// Where an assertion of a table stands among those of all tables.
proof fn lemma_table_scope_at(tables: Seq<Table>, t: int, k: int)
    requires
        0 <= t < tables.len(),
        0 <= k < tables[t].asserts@.len(),
    ensures
        ({
            let at = settings::all_table_scopes::<'static>(tables.take(t)).len() + k;
            &&& at < settings::all_table_scopes::<'static>(tables).len()
            &&& settings::all_table_scopes::<'static>(tables)[at] == settings::table_scopes::<
                'static,
            >(tables[t])[k]
        }),
    decreases tables.len(),
{
    let init = tables.drop_last();
    if t < init.len() {
        lemma_table_scope_at(init, t, k);
        assert(init.take(t) =~= tables.take(t));
        assert(init[t] == tables[t]);
    } else {
        assert(init =~= tables.take(t));
    }
}

} // verus!
