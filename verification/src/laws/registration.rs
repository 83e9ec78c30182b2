//! What registering a table keeps, and what a dry run shows of it, told by the entries
//! that the table belongs to.

use crate::laws::{law_first_wildcard_wins, law_specific_entry, one_rule_per_column};
use crate::matching;
use crate::merge;
use crate::name_map;
use crate::order;
use crate::pattern;
use crate::search;
use crate::settings;
use crate::settings::Settings;
use crate::table::Table;
use crate::transformer::RuleView;
use vstd::prelude::*;

verus! {

/// Whether a rule applies to a column of a table that goes by `names` and has the
/// given columns: the specific entry has it; or the wildcard entry has it, the table
/// has the column, and the specific entry has no rule for the column.
pub open spec fn applies(
    s: Settings,
    names: Seq<Seq<char>>,
    columns: Seq<Seq<char>>,
    column: Seq<char>,
    rule: RuleView,
) -> bool {
    let specific = s.specific_for(names);
    let wildcard = s.wildcard_for(names);
    ||| specific is Some && merge::has_rule(*specific->0, column, rule)
    ||| {
        &&& wildcard is Some && merge::has_rule(*wildcard->0, column, rule)
        &&& columns.contains(column)
        &&& specific is Some ==> forall|k: int|
            0 <= k < specific->0.rules@.len() ==> (#[trigger] specific->0.rules@[k]).0 != column
    }
}

/// The entries found have one rule for a column at most.
proof fn lemma_found_entries_wf(s: Settings, names: Seq<Seq<char>>)
    requires
        one_rule_per_column(s.tables@),
    ensures
        s.specific_for(names) is Some ==> s.specific_for(names)->0.rules.wf(),
        s.wildcard_for(names) is Some ==> s.wildcard_for(names)->0.rules.wf(),
{
    law_specific_entry(s.tables@, names);
    law_first_wildcard_wins(s.tables@, names);
}

/// Where a rule applies, the table has a key, and the merged rules are kept under it.
proof fn lemma_kept(
    before: Settings,
    after: Settings,
    full_name: Seq<char>,
    short_name: Seq<char>,
    columns: Seq<Seq<char>>,
    column: Seq<char>,
    rule: RuleView,
)
    requires
        one_rule_per_column(before.tables@),
        after.registered_from(before, full_name, short_name, columns),
        applies(before, seq![full_name, short_name], columns, column, rule),
    ensures
        ({
            let names = seq![full_name, short_name];
            let key = before.key_of(full_name, names);
            let rules = before.rules_for(names, columns);
            &&& settings::candidate_names(full_name, short_name) == names
            &&& key is Some
            &&& rules.len() > 0
            &&& rules.contains((column, rule))
            &&& after.registered() == Some(
                before.registered_or_empty().insert(
                    key->0,
                    order::arranged(rules, before.order_for(names)),
                ),
            )
        }),
{
    let names = seq![full_name, short_name];
    lemma_found_entries_wf(before, names);
    merge::law_merged_contents(
        before.specific_for(names),
        before.wildcard_for(names),
        columns,
        column,
        rule,
    );
}

/// Registering a table tries its full name first, and then its short name.
pub proof fn law_candidate_names(full_name: Seq<char>, short_name: Seq<char>)
    ensures
        settings::candidate_names(full_name, short_name).len() == 2,
        settings::candidate_names(full_name, short_name)[0] == full_name,
        settings::candidate_names(full_name, short_name)[1] == short_name,
{
}

/// Where some rule applies to a registered table, a list is kept under its key, which
/// has exactly the rules that apply, and no column twice.
pub proof fn law_register_contents(
    before: Settings,
    after: Settings,
    full_name: Seq<char>,
    short_name: Seq<char>,
    columns: Seq<Seq<char>>,
    column: Seq<char>,
    rule: RuleView,
    other_column: Seq<char>,
    other_rule: RuleView,
)
    requires
        one_rule_per_column(before.tables@),
        after.registered_from(before, full_name, short_name, columns),
        applies(before, seq![full_name, short_name], columns, column, rule),
    ensures
        ({
            let names = seq![full_name, short_name];
            let key = before.key_of(full_name, names);
            let kept = after.registered()->0[key->0];
            &&& key is Some
            &&& after.registered() is Some
            &&& after.registered()->0.contains_key(key->0)
            &&& kept.contains((column, rule))
            &&& kept.contains((other_column, other_rule)) <==> applies(
                before,
                names,
                columns,
                other_column,
                other_rule,
            )
            &&& forall|i: int, j: int|
                0 <= i < j < kept.len() ==> (#[trigger] kept[i]).0 != (#[trigger] kept[j]).0
        }),
{
    let names = seq![full_name, short_name];
    let specific = before.specific_for(names);
    let wildcard = before.wildcard_for(names);
    let rules = before.rules_for(names, columns);
    lemma_kept(before, after, full_name, short_name, columns, column, rule);
    lemma_found_entries_wf(before, names);
    merge::law_merged_contents(specific, wildcard, columns, other_column, other_rule);
    order::law_arranged_contents(rules, before.order_for(names), (column, rule));
    order::law_arranged_contents(rules, before.order_for(names), (other_column, other_rule));
}

/// Where no rule applies to a table, registering it changes nothing.
pub proof fn law_register_without_rules(
    before: Settings,
    after: Settings,
    full_name: Seq<char>,
    short_name: Seq<char>,
    columns: Seq<Seq<char>>,
    names: Seq<Seq<char>>,
)
    requires
        one_rule_per_column(before.tables@),
        after.registered_from(before, full_name, short_name, columns),
        names == seq![full_name, short_name],
        forall|column: Seq<char>, rule: RuleView|
            !#[trigger] applies(before, names, columns, column, rule),
    ensures
        after == before,
{
    let rules = before.rules_for(names, columns);
    assert(settings::candidate_names(full_name, short_name) =~= names);
    lemma_found_entries_wf(before, names);
    if rules.len() > 0 {
        merge::law_merged_contents(
            before.specific_for(names),
            before.wildcard_for(names),
            columns,
            rules[0].0,
            rules[0].1,
        );
        assert(rules[0] == (rules[0].0, rules[0].1));
        assert(rules.contains((rules[0].0, rules[0].1)));
        assert(applies(before, names, columns, rules[0].0, rules[0].1));
    }
}

/// The entry whose `rule_order` counts for a table: the specific one where it has one,
/// or else the wildcard one, whether or not there is a specific one.
pub open spec fn gives_order(s: Settings, names: Seq<Seq<char>>, giver: Table) -> bool {
    let specific = s.specific_for(names);
    let wildcard = s.wildcard_for(names);
    &&& giver.rule_order is Some
    &&& if specific is Some && specific->0.rule_order is Some {
        giver == *specific->0
    } else {
        wildcard is Some && giver == *wildcard->0
    }
}

/// Where an entry gives the order for a table, of two rules in the kept list, one
/// before the other: if that order has the column of the earlier one, it has that of
/// the later one too, and wherever it does, it has that of the earlier one before that
/// place.
pub proof fn law_register_order(
    before: Settings,
    after: Settings,
    full_name: Seq<char>,
    short_name: Seq<char>,
    columns: Seq<Seq<char>>,
    column: Seq<char>,
    rule: RuleView,
    giver: Table,
    i: int,
    j: int,
    p: int,
)
    requires
        one_rule_per_column(before.tables@),
        after.registered_from(before, full_name, short_name, columns),
        applies(before, seq![full_name, short_name], columns, column, rule),
        gives_order(before, seq![full_name, short_name], giver),
        ({
            let key = before.key_of(full_name, seq![full_name, short_name])->0;
            let kept = after.registered()->0[key];
            &&& 0 <= i < j < kept.len()
            &&& 0 <= p < giver.rule_order->0@.len()
            &&& giver.rule_order->0@[p]@ == kept[i].0
        }),
    ensures
        ({
            let key = before.key_of(full_name, seq![full_name, short_name])->0;
            let kept = after.registered()->0[key];
            let listed = giver.rule_order->0@;
            &&& exists|q: int| 0 <= q < listed.len() && #[trigger] listed[q]@ == kept[j].0
            &&& forall|q: int|
                0 <= q < listed.len() && #[trigger] listed[q]@ == kept[j].0 ==> exists|r: int|
                    0 <= r < q && #[trigger] listed[r]@ == kept[i].0
        }),
{
    let names = seq![full_name, short_name];
    let key = before.key_of(full_name, names)->0;
    let rules = before.rules_for(names, columns);
    let asked = before.order_for(names);
    let listed = giver.rule_order->0@;
    lemma_kept(before, after, full_name, short_name, columns, column, rule);
    merge::law_merged_order(before.specific_for(names), before.wildcard_for(names));
    let kept = after.registered()->0[key];
    assert(asked[p] == kept[i].0);
    order::law_arranged_order(rules, asked, i, j);
    let q = choose|q: int| 0 <= q < asked.len() && asked[q] == kept[j].0;
    assert(listed[q]@ == kept[j].0);
    assert forall|q: int| 0 <= q < listed.len() && #[trigger] listed[q]@
        == kept[j].0 implies exists|r: int| 0 <= r < q && #[trigger] listed[r]@ == kept[i].0 by {
        assert(asked[q] == kept[j].0);
        let r = choose|r: int| 0 <= r < q && #[trigger] asked[r] == kept[i].0;
        assert(listed[r]@ == kept[i].0);
    }
}

/// The order asked for at a table is that of the entry that gives one, name by name,
/// and empty where none does. Without a specific entry it is the wildcard entry's.
pub proof fn law_order_asked_for(s: Settings, names: Seq<Seq<char>>, giver: Table)
    ensures
        gives_order(s, names, giver) ==> {
            &&& s.order_for(names).len() == giver.rule_order->0@.len()
            &&& forall|k: int|
                0 <= k < giver.rule_order->0@.len() ==> #[trigger] s.order_for(names)[k]
                    == giver.rule_order->0@[k]@
        },
        ({
            &&& s.specific_for(names) is None || s.specific_for(names)->0.rule_order is None
            &&& s.wildcard_for(names) is None || s.wildcard_for(names)->0.rule_order is None
        }) ==> s.order_for(names).len() == 0,
        s.specific_for(names) is None && s.wildcard_for(names) is Some ==> s.order_for(names)
            == s.wildcard_for(names)->0.listed_columns(),
{
    merge::law_merged_order(s.specific_for(names), s.wildcard_for(names));
}

/// Registering a table changes what is kept under its key, and nothing else.
pub proof fn law_register_frame(
    before: Settings,
    after: Settings,
    full_name: Seq<char>,
    short_name: Seq<char>,
    columns: Seq<Seq<char>>,
    other: Seq<char>,
)
    requires
        after.registered_from(before, full_name, short_name, columns),
    ensures
        after.tables == before.tables,
        after.table_order == before.table_order,
        after.default == before.default,
        after.filter == before.filter,
        after.asserts == before.asserts,
        after.globals == before.globals,
        after.templates == before.templates,
        before.transform_map is Some ==> after.transform_map is Some,
        before.key_of(full_name, seq![full_name, short_name]) != Some(other) ==> {
            let had = before.transform_map is Some && before.registered()->0.contains_key(other);
            let has = after.transform_map is Some && after.registered()->0.contains_key(other);
            &&& has == had
            &&& had ==> after.registered()->0[other] == before.registered()->0[other]
        },
{
    assert(settings::candidate_names(full_name, short_name) =~= seq![full_name, short_name]);
}

/// What is kept for tables is what the map of the settings holds, list by list and
/// rule by rule.
pub proof fn law_kept_lists(s: Settings, i: int)
    requires
        s.transform_map is Some,
        s.transform_map->0.wf(),
        0 <= i < s.transform_map->0@.len(),
    ensures
        s.registered() is Some,
        ({
            let name = s.transform_map->0@[i].0;
            let list = s.transform_map->0@[i].1@;
            let kept = s.registered()->0[name];
            &&& s.registered()->0.contains_key(name)
            &&& kept.len() == list.len()
            &&& forall|k: int|
                0 <= k < list.len() ==> {
                    &&& (#[trigger] kept[k]).0 == list[k].0@
                    &&& kept[k].1 == list[k].1.deep_view()
                }
        }),
        forall|name: Seq<char>| #[trigger]
            s.registered()->0.contains_key(name) <==> exists|j: int|
                0 <= j < s.transform_map->0@.len() && (#[trigger] s.transform_map->0@[j]).0 == name,
{
    let map = s.transform_map->0;
    let deep = map.deep_view();
    name_map::lemma_deep_distinct(map);
    name_map::law_map_of_entries(deep, i);
    assert forall|name: Seq<char>| #[trigger]
        s.registered()->0.contains_key(name) <==> exists|j: int|
            0 <= j < map@.len() && (#[trigger] map@[j]).0 == name by {
        if s.registered()->0.contains_key(name) {
            let j = choose|j: int| 0 <= j < deep.len() && (#[trigger] deep[j]).0 == name;
            assert(map@[j].0 == name);
        }
        if exists|j: int| 0 <= j < map@.len() && (#[trigger] map@[j]).0 == name {
            let j = choose|j: int| 0 <= j < map@.len() && (#[trigger] map@[j]).0 == name;
            assert(deep[j].0 == name);
        }
    }
}

/// Settings have kept something, if only an empty map, exactly once they have a map;
/// an empty map keeps nothing.
pub proof fn law_nothing_kept(s: Settings, name: Seq<char>)
    ensures
        s.registered() is Some <==> s.transform_map is Some,
        s.transform_map is Some && s.transform_map->0@.len() == 0
            ==> !s.registered()->0.contains_key(name),
{
    if s.transform_map is Some && s.transform_map->0@.len() == 0 {
        name_map::law_map_of_nothing(s.transform_map->0.deep_view(), name);
    }
}

/// The label of an entry is the first of its patterns that covers a candidate name; it
/// has none exactly where none of them does, and no entry has no label.
pub proof fn law_label(entry: Option<&Table>, names: Seq<Seq<char>>)
    ensures
        match (entry, settings::label_of(entry, names)) {
            (Some(t), Some(label)) => exists|k: int|
                {
                    &&& 0 <= k < t.pattern_list().len()
                    &&& #[trigger] t.pattern_list()[k] == label
                    &&& exists|n: int|
                        0 <= n < names.len() && pattern::covers(label, #[trigger] names[n])
                    &&& forall|j: int, n: int|
                        0 <= j < k && 0 <= n < names.len() ==> !#[trigger] pattern::covers(
                            t.pattern_list()[j],
                            names[n],
                        )
                },
            (Some(t), None) => forall|j: int, n: int|
                0 <= j < t.pattern_list().len() && 0 <= n < names.len()
                    ==> !#[trigger] pattern::covers(t.pattern_list()[j], names[n]),
            (None, label) => label is None,
        },
{
    if entry is Some {
        let list = entry->0.pattern_list();
        let wanted = matching::pattern_covering(names);
        search::lemma_first_index(list, wanted);
        let end: int = match search::first_index(list, wanted) {
            Some(k) => k,
            None => list.len() as int,
        };
        assert forall|j: int, n: int|
            0 <= j < end && 0 <= n < names.len() implies !#[trigger] pattern::covers(
            list[j],
            names[n],
        ) by {
            assert(!wanted(list[j]));
            if pattern::covers(list[j], names[n]) {
                assert(pattern::covers_any(list[j], names));
            }
        }
        match search::first_index(list, wanted) {
            Some(k) => {
                assert(wanted(list[k]));
                assert(entry->0.pattern_list()[k] == list[k]);
            },
            None => {},
        }
    }
}

/// A dry run shows a table exactly where an entry matches it and the list kept under
/// its key is not empty. The columns shown are those of that list, one for one, and the
/// label is made of those of the entries, the specific one first.
pub proof fn law_dry_run(s: Settings, full_name: Seq<char>, names: Seq<Seq<char>>)
    ensures
        ({
            let key = s.key_of(full_name, names);
            let kept = s.registered()->0[key->0];
            let specific = settings::label_of(s.specific_for(names), names);
            let wildcard = settings::label_of(s.wildcard_for(names), names);
            match s.dry_run_view(full_name, names) {
                Some((label, shown)) => {
                    &&& key is Some
                    &&& s.registered()->0.contains_key(key->0)
                    &&& kept.len() > 0
                    &&& shown.len() == kept.len()
                    &&& forall|i: int| 0 <= i < kept.len() ==> #[trigger] shown[i] == kept[i].0
                    &&& specific is Some && wildcard is Some ==> label == specific->0 + " + "@
                        + wildcard->0
                    &&& specific is Some && wildcard is None ==> label == specific->0
                    &&& specific is None && wildcard is Some ==> label == wildcard->0
                    &&& specific is None && wildcard is None ==> label.len() == 0
                },
                None => {
                    ||| key is None
                    ||| !s.registered()->0.contains_key(key->0)
                    ||| kept.len() == 0
                },
            }
        }),
{
}

/// After a table has been registered that a rule applies to, a dry run shows the column
/// of every rule that applies, and no other column.
pub proof fn law_dry_run_shows_what_applies(
    before: Settings,
    after: Settings,
    full_name: Seq<char>,
    short_name: Seq<char>,
    columns: Seq<Seq<char>>,
    column: Seq<char>,
    rule: RuleView,
    other: Seq<char>,
    names: Seq<Seq<char>>,
)
    requires
        one_rule_per_column(before.tables@),
        after.registered_from(before, full_name, short_name, columns),
        names == seq![full_name, short_name],
        applies(before, names, columns, column, rule),
    ensures
        after.dry_run_view(full_name, names) is Some,
        (after.dry_run_view(full_name, names)->0).1.contains(other) <==> exists|r: RuleView|
            #[trigger] applies(before, names, columns, other, r),
{
    let key = before.key_of(full_name, names)->0;
    lemma_kept(before, after, full_name, short_name, columns, column, rule);
    law_register_contents(
        before, after, full_name, short_name, columns, column, rule, column, rule,
    );
    let kept = after.registered()->0[key];
    law_register_frame(before, after, full_name, short_name, columns, key);
    law_dry_run(after, full_name, names);
    let k0 = choose|k: int| 0 <= k < kept.len() && kept[k] == (column, rule);
    let shown = (after.dry_run_view(full_name, names)->0).1;
    if shown.contains(other) {
        let k = choose|k: int| 0 <= k < shown.len() && shown[k] == other;
        law_register_contents(
            before, after, full_name, short_name, columns, column, rule, kept[k].0, kept[k].1,
        );
        assert(kept[k] == (kept[k].0, kept[k].1));
        assert(kept.contains((kept[k].0, kept[k].1)));
        assert(applies(before, names, columns, other, kept[k].1));
    }
    if exists|r: RuleView| #[trigger] applies(before, names, columns, other, r) {
        let r = choose|r: RuleView| #[trigger] applies(before, names, columns, other, r);
        law_register_contents(
            before, after, full_name, short_name, columns, column, rule, other, r,
        );
        let k = choose|k: int| 0 <= k < kept.len() && kept[k] == (other, r);
        assert(shown[k] == other);
    }
}

} // verus!
