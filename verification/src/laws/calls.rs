//! What the operations give back, told by what they are called with.

use crate::asserts::{Assert, AssertScope, TableAssert};
use crate::error::SettingsError;
use crate::laws::entries;
use crate::laws::loading;
use crate::laws::one_rule_per_column;
use crate::laws::registration;
use crate::matching;
use crate::merge;
use crate::name_map;
use crate::name_map::NameMap;
use crate::order;
use crate::order::TransformList;
use crate::pattern;
use crate::search;
use crate::settings;
use crate::settings::Settings;
use crate::table;
use crate::table::Table;
use crate::transformer;
use crate::transformer::{RuleView, TransformerInitContext, Transformers};
use vstd::prelude::*;

verus! {

/// `find_table` gives the specific entry, or else the wildcard entry, or else nothing.
pub proof fn law_find_table_call(s: Settings, names: &[&str], found: Option<&Table>)
    requires
        call_ensures(Settings::find_table, (&s, names), found),
    ensures
        match (
            matching::specific_index(s.tables@, names.deep_view()),
            matching::wildcard_index(s.tables@, names.deep_view()),
        ) {
            (Some(i), _) => found is Some && *found->0 == s.tables@[i],
            (None, Some(i)) => found is Some && *found->0 == s.tables@[i],
            (None, None) => found is None,
        },
{
}

/// `find_table` finds something for every candidate name that a pattern without
/// wildcards is, or that a pattern with wildcards covers.
pub proof fn law_find_table_finds(
    s: Settings,
    names: &[&str],
    found: Option<&Table>,
    t: int,
    k: int,
    n: int,
)
    requires
        call_ensures(Settings::find_table, (&s, names), found),
        0 <= t < s.tables@.len(),
        0 <= k < s.tables@[t].pattern_list().len(),
        0 <= n < names@.len(),
        s.tables@[t].pattern_list()[k].len() > 0,
        pattern::covers(s.tables@[t].pattern_list()[k], names@[n]@),
    ensures
        found is Some,
{
    let list = s.tables@[t].pattern_list();
    assert(names.deep_view()[n] == names@[n]@);
    if pattern::has_wildcard(list[k]) {
        entries::law_wildcard_pattern_matches(s.tables@, names.deep_view(), t, k, n);
    } else {
        pattern::law_plain_pattern_covers_itself(list[k], names@[n]@);
        entries::law_plain_pattern_matches(s.tables@, names.deep_view(), t, k, n);
    }
}

/// What `find_table` finds is an entry of the settings with a pattern that covers a
/// candidate name.
pub proof fn law_find_table_found(s: Settings, names: &[&str], found: Option<&Table>)
    requires
        call_ensures(Settings::find_table, (&s, names), found),
        found is Some,
    ensures
        s.tables@.contains(*found->0),
        exists|k: int, n: int|
            {
                &&& 0 <= k < found->0.pattern_list().len()
                &&& 0 <= n < names@.len()
                &&& #[trigger] pattern::covers(found->0.pattern_list()[k], names@[n]@)
            },
{
    let all = names.deep_view();
    match matching::specific_index(s.tables@, all) {
        Some(i) => {
            entries::law_specific_entry_has_pattern(s.tables@, all);
            let n = choose|n: int|
                {
                    &&& 0 <= n < all.len()
                    &&& s.tables@[i].pattern_list().contains(#[trigger] all[n])
                    &&& !pattern::has_wildcard(all[n])
                };
            let list = s.tables@[i].pattern_list();
            let k = choose|k: int| 0 <= k < list.len() && list[k] == all[n];
            pattern::law_plain_pattern_covers_itself(list[k], all[n]);
            assert(pattern::covers(found->0.pattern_list()[k], names@[n]@));
        },
        None => {
            entries::law_wildcard_entry_has_pattern(s.tables@, all);
            let i = matching::wildcard_index(s.tables@, all)->0;
            let (k, n) = choose|k: int, n: int|
                {
                    &&& 0 <= k < s.tables@[i].pattern_list().len()
                    &&& 0 <= n < all.len()
                    &&& #[trigger] pattern::covers(s.tables@[i].pattern_list()[k], all[n])
                };
            assert(pattern::covers(found->0.pattern_list()[k], names@[n]@));
        },
    }
}

/// `get_table` gives the first entry whose `name` is the one asked for, and nothing
/// where there is none.
pub proof fn law_get_table_call(s: Settings, name: &str, found: Option<&Table>)
    requires
        call_ensures(Settings::get_table, (&s, name), found),
    ensures
        match found {
            Some(t) => exists|i: int|
                {
                    &&& 0 <= i < s.tables@.len()
                    &&& #[trigger] s.tables@[i] == *t
                    &&& t.name@ == name@
                    &&& forall|j: int| 0 <= j < i ==> (#[trigger] s.tables@[j]).name@ != name@
                },
            None => forall|j: int|
                0 <= j < s.tables@.len() ==> (#[trigger] s.tables@[j]).name@ != name@,
        },
{
    entries::law_entry_by_name(s.tables@, name@);
}

/// `transform_key` gives nothing where no entry matches; the name of the specific entry
/// where that has one and no wildcards; and the full name otherwise.
pub proof fn law_transform_key_call(
    s: Settings,
    full_name: &str,
    names: &[&str],
    key: Option<String>,
)
    requires
        call_ensures(Settings::transform_key, (&s, full_name, names), key),
    ensures
        ({
            let specific = s.specific_for(names.deep_view());
            if specific is None && s.wildcard_for(names.deep_view()) is None {
                key is None
            } else if specific is Some && specific->0.name@.len() > 0 && forall|k: int|
                0 <= k < specific->0.pattern_list().len() ==> !pattern::has_wildcard(
                    #[trigger] specific->0.pattern_list()[k],
                ) {
                key is Some && key->0@ == specific->0.name@
            } else {
                key is Some && key->0@ == full_name@
            }
        }),
{
    entries::law_key(s, full_name@, names.deep_view());
}

/// `transformers_for` gives the list that the map of the settings has under the name,
/// and nothing where it has none.
pub proof fn law_transformers_for_call(s: Settings, table: &str, list: Option<&TransformList>)
    requires
        s.transform_map is Some,
        s.transform_map->0.wf(),
        call_ensures(Settings::transformers_for, (&s, table), list),
    ensures
        list is Some <==> exists|i: int|
            0 <= i < s.transform_map->0@.len() && (#[trigger] s.transform_map->0@[i]).0 == table@,
        forall|i: int|
            0 <= i < s.transform_map->0@.len() && (#[trigger] s.transform_map->0@[i]).0 == table@
                ==> {
                let own = s.transform_map->0@[i].1@;
                &&& list->0@.len() == own.len()
                &&& forall|k: int|
                    0 <= k < own.len() ==> {
                        &&& (#[trigger] list->0@[k]).0@ == own[k].0@
                        &&& list->0@[k].1.deep_view() == own[k].1.deep_view()
                    }
            },
{
    let map = s.transform_map->0;
    registration::law_nothing_kept(s, table@);
    if map@.len() > 0 {
        registration::law_kept_lists(s, 0);
    }
    assert forall|i: int| 0 <= i < map@.len() && (#[trigger] map@[i]).0 == table@ implies {
        let own = map@[i].1@;
        &&& list->0@.len() == own.len()
        &&& forall|k: int|
            0 <= k < own.len() ==> {
                &&& (#[trigger] list->0@[k]).0@ == own[k].0@
                &&& list->0@[k].1.deep_view() == own[k].1.deep_view()
            }
    } by {
        let own = map@[i].1@;
        registration::law_kept_lists(s, i);
        let kept = s.registered()->0[table@];
        assert(list->0.deep_view() == kept);
        assert(list->0.deep_view().len() == list->0@.len());
        assert forall|k: int| 0 <= k < own.len() implies {
            &&& (#[trigger] list->0@[k]).0@ == own[k].0@
            &&& list->0@[k].1.deep_view() == own[k].1.deep_view()
        } by {
            assert(kept[k] == list->0.deep_view()[k]);
            assert(kept[k].0 == own[k].0@);
        }
    }
}

/// `dry_run_info` gives something exactly where an entry matches the table and the list
/// kept under its key is not empty. Its columns are those of that list, one for one,
/// and its label is made of those of the entries, the specific one first.
pub proof fn law_dry_run_info_call(
    s: Settings,
    full_name: &str,
    names: &[&str],
    info: Option<(String, Vec<String>)>,
)
    requires
        s.transform_map is Some,
        call_ensures(Settings::dry_run_info, (&s, full_name, names), info),
    ensures
        ({
            let key = s.key_of(full_name@, names.deep_view());
            let kept = s.registered()->0[key->0];
            let specific = settings::label_of(
                s.specific_for(names.deep_view()),
                names.deep_view(),
            );
            let wildcard = settings::label_of(
                s.wildcard_for(names.deep_view()),
                names.deep_view(),
            );
            &&& info is Some <==> {
                &&& key is Some
                &&& s.registered()->0.contains_key(key->0)
                &&& kept.len() > 0
            }
            &&& info is Some ==> {
                let (label, shown) = info->0;
                &&& shown@.len() == kept.len()
                &&& forall|i: int| 0 <= i < kept.len() ==> #[trigger] shown@[i]@ == kept[i].0
                &&& specific is Some && wildcard is Some ==> label@ == specific->0 + " + "@
                    + wildcard->0
                &&& specific is Some && wildcard is None ==> label@ == specific->0
                &&& specific is None && wildcard is Some ==> label@ == wildcard->0
                &&& specific is None && wildcard is None ==> label@.len() == 0
            }
        }),
{
    registration::law_dry_run(s, full_name@, names.deep_view());
    if info is Some {
        let (label, shown) = info->0;
        let view = s.dry_run_view(full_name@, names.deep_view())->0;
        assert(view.0 == label@);
        assert(view.1 == shown.deep_view());
        assert forall|i: int| 0 <= i < shown@.len() implies #[trigger] shown@[i]@ == view.1[i] by {}
    }
}

/// `all_asserts` lists every assertion once: first the global ones, then, entry by
/// entry, the ones of each, every one with its entry.
pub proof fn law_all_asserts_call(s: Settings, scopes: Vec<AssertScope<'_>>)
    requires
        call_ensures(Settings::all_asserts, (&s,), scopes),
    ensures
        scopes@.len() == s.asserts@.len() + loading::assertion_count(s.tables@),
        forall|i: int|
            0 <= i < s.asserts@.len() ==> #[trigger] scopes@[i] == AssertScope::Global(
                &s.asserts@[i],
            ),
        forall|t: int, k: int|
            0 <= t < s.tables@.len() && 0 <= k < s.tables@[t].asserts@.len() ==> scopes@[(
            s.asserts@.len() + loading::assertion_count(s.tables@.take(t)) + k) as int]
                == AssertScope::Table(
                TableAssert {
                    table: &s.tables@[t],
                    assertion: &#[trigger] s.tables@[t].asserts@[k],
                },
            ),
{
    loading::law_all_assertions(s);
}

/// The assertion of a scope is the one that it was made with, and its name is `global`
/// or the `name` of the entry.
pub proof fn law_scope_calls(a: Assert, t: TableAssert<'_>, assertion: &Assert, name: &str)
    ensures
        call_ensures(AssertScope::assertion, (&AssertScope::Global(&a),), assertion) ==> *assertion
            == a,
        call_ensures(AssertScope::assertion, (&AssertScope::Table(t),), assertion) ==> *assertion
            == *t.assertion,
        call_ensures(AssertScope::scope_name, (&AssertScope::Global(&a),), name) ==> name@
            == "global"@,
        call_ensures(AssertScope::scope_name, (&AssertScope::Table(t),), name) ==> name@
            == t.table.name@,
{
}

/// `from_source` fails exactly where an entry has both a `name` and something in
/// `names`, or neither, and then tells the first such entry.
pub proof fn law_from_source_fails(parsed: Settings, result: Result<Settings, SettingsError>)
    requires
        parsed.tables@.len() <= usize::MAX,
        call_ensures(Settings::from_source, (parsed,), result),
    ensures
        match result {
            Ok(_) => forall|i: int|
                0 <= i < parsed.tables@.len() ==> ((#[trigger] parsed.tables@[i]).name@.len() > 0)
                    != (parsed.tables@[i].names is Some && parsed.tables@[i].names->0@.len() > 0),
            Err(error) => exists|i: int|
                {
                    &&& 0 <= i < parsed.tables@.len()
                    &&& ({
                        ||| {
                            &&& error == (SettingsError::BothNameAndNames { table: i as usize })
                            &&& (#[trigger] parsed.tables@[i]).name@.len() > 0
                            &&& parsed.tables@[i].names is Some
                            &&& parsed.tables@[i].names->0@.len() > 0
                        }
                        ||| {
                            &&& error == (SettingsError::NeitherNameNorNames { table: i as usize })
                            &&& parsed.tables@[i].name@.len() == 0
                            &&& parsed.tables@[i].names is None
                                || parsed.tables@[i].names->0@.len() == 0
                        }
                    })
                    &&& forall|j: int|
                        0 <= j < i ==> ((#[trigger] parsed.tables@[j]).name@.len() > 0) != (
                        parsed.tables@[j].names is Some && parsed.tables@[j].names->0@.len() > 0)
                },
        },
{
    loading::law_first_fault(parsed.tables@);
}

/// What `from_source` accepts stays as it was but for the rules of the entries and the
/// map of what is kept, which there then is.
pub proof fn law_from_source_keeps_the_rest(parsed: Settings, ready: Settings)
    requires
        call_ensures(Settings::from_source, (parsed,), Ok::<Settings, SettingsError>(ready)),
    ensures
        ready.ready_from(parsed),
        ready.table_order == parsed.table_order,
        ready.default == parsed.default,
        ready.filter == parsed.filter,
        ready.asserts == parsed.asserts,
        ready.globals == parsed.globals,
        ready.templates == parsed.templates,
        ready.transform_map is Some,
        ready.tables@.len() == parsed.tables@.len(),
        forall|i: int|
            0 <= i < parsed.tables@.len() ==> {
                &&& (#[trigger] ready.tables@[i]).name == parsed.tables@[i].name
                &&& ready.tables@[i].names == parsed.tables@[i].names
                &&& ready.tables@[i].rule_order == parsed.tables@[i].rule_order
                &&& ready.tables@[i].query == parsed.tables@[i].query
                &&& ready.tables@[i].asserts == parsed.tables@[i].asserts
                &&& ready.tables@[i].rules@.len() == parsed.tables@[i].rules@.len()
            },
{
    loading::law_loading_frame(parsed, ready);
}

/// `from_source` prepares every rule, in its place: one that makes names has its own
/// locale then, or else the default one of the settings, and a template rule has the
/// templates of the settings, where there are any, and none otherwise.
pub proof fn law_from_source_prepares_rules(parsed: Settings, ready: Settings, i: int, k: int)
    requires
        call_ensures(Settings::from_source, (parsed,), Ok::<Settings, SettingsError>(ready)),
        0 <= i < parsed.tables@.len(),
        0 <= k < parsed.tables@[i].rules@.len(),
    ensures
        ready.tables@[i].rules@[k].0 == parsed.tables@[i].rules@[k].0,
        match (parsed.tables@[i].rules@[k].1, ready.tables@[i].rules@[k].1) {
            (Transformers::PersonName(b), Transformers::PersonName(a)) => {
                a.locale == Some(if b.locale is Some { b.locale->0 } else { parsed.default.locale })
            },
            (Transformers::FirstName(b), Transformers::FirstName(a)) => {
                a.locale == Some(if b.locale is Some { b.locale->0 } else { parsed.default.locale })
            },
            (Transformers::LastName(b), Transformers::LastName(a)) => {
                a.locale == Some(if b.locale is Some { b.locale->0 } else { parsed.default.locale })
            },
            (Transformers::CompanyName(b), Transformers::CompanyName(a)) => {
                a.locale == Some(if b.locale is Some { b.locale->0 } else { parsed.default.locale })
            },
            (Transformers::Template(b), Transformers::Template(a)) => {
                &&& a.format@ == b.format@
                &&& parsed.templates is Some ==> {
                    &&& a.templates.raw.deep_view() == parsed.templates->0.raw.deep_view()
                    &&& a.templates.files.deep_view() == parsed.templates->0.files.deep_view()
                }
                &&& parsed.templates is None ==> a.templates.raw is None
                    && a.templates.files is None
            },
            _ => false,
        },
{
    loading::law_loading_prepares_rules(parsed, ready, i, k);
}

/// `from_source` keeps, under the plain name of an entry without `names` that no later
/// such entry has too, the rules of that entry, and under other names nothing.
pub proof fn law_from_source_keeps_lists(
    parsed: Settings,
    ready: Settings,
    i: int,
    column: Seq<char>,
    rule: RuleView,
    other: Seq<char>,
)
    requires
        call_ensures(Settings::from_source, (parsed,), Ok::<Settings, SettingsError>(ready)),
        one_rule_per_column(ready.tables@),
        0 <= i < ready.tables@.len(),
        ready.tables@[i].names is None,
        !pattern::has_wildcard(ready.tables@[i].name@),
        forall|j: int|
            i < j < ready.tables@.len() && (#[trigger] ready.tables@[j]).names is None
                ==> ready.tables@[j].name@ != ready.tables@[i].name@,
    ensures
        ({
            let t = ready.tables@[i];
            let kept = ready.registered()->0[t.name@];
            &&& ready.registered()->0.contains_key(t.name@)
            &&& kept.len() == t.rules@.len()
            &&& kept.contains((column, rule)) <==> merge::has_rule(t, column, rule)
        }),
        ready.registered()->0.contains_key(other) ==> exists|j: int|
            {
                &&& 0 <= j < parsed.tables@.len()
                &&& (#[trigger] parsed.tables@[j]).names is None
                &&& parsed.tables@[j].name@ == other
                &&& !pattern::has_wildcard(other)
            },
{
    loading::law_loading_keeps_named_entries(parsed, ready, i, column, rule);
    if ready.registered()->0.contains_key(other) {
        loading::law_loading_keeps_nothing_else(parsed, ready, other);
    }
}

/// `register_table_transforms` leaves all but the map as it was, keeps in the map all
/// that is not under the table's key, and keeps under that key exactly the rules that
/// apply to the table, where there are any.
pub proof fn law_register_call(
    s: &mut Settings,
    full_name: &str,
    short_name: &str,
    columns: &[String],
    other: Seq<char>,
    column: Seq<char>,
    rule: RuleView,
)
    requires
        one_rule_per_column(old(s).tables@),
        call_ensures(Settings::register_table_transforms, (s, full_name, short_name, columns), ()),
    ensures
        final(s).registered_from(*old(s), full_name@, short_name@, columns.deep_view()),
        final(s).tables == old(s).tables,
        final(s).table_order == old(s).table_order,
        final(s).default == old(s).default,
        final(s).filter == old(s).filter,
        final(s).asserts == old(s).asserts,
        final(s).globals == old(s).globals,
        final(s).templates == old(s).templates,
        ({
            let key = old(s).key_of(full_name@, seq![full_name@, short_name@]);
            let had = old(s).transform_map is Some && old(s).registered()->0.contains_key(other);
            let has = final(s).transform_map is Some && final(s).registered()->0.contains_key(
                other,
            );
            key != Some(other) ==> has == had && (had ==> final(s).registered()->0[other]
                == old(s).registered()->0[other])
        }),
        registration::applies(
            *old(s),
            seq![full_name@, short_name@],
            columns.deep_view(),
            column,
            rule,
        ) ==> {
            let key = old(s).key_of(full_name@, seq![full_name@, short_name@]);
            &&& key is Some
            &&& final(s).registered() is Some
            &&& final(s).registered()->0.contains_key(key->0)
            &&& final(s).registered()->0[key->0].contains((column, rule))
        },
{
    let before = *old(s);
    let after = *final(s);
    let names = seq![full_name@, short_name@];
    registration::law_register_frame(
        before,
        after,
        full_name@,
        short_name@,
        columns.deep_view(),
        other,
    );
    if registration::applies(before, names, columns.deep_view(), column, rule) {
        registration::law_register_contents(
            before,
            after,
            full_name@,
            short_name@,
            columns.deep_view(),
            column,
            rule,
            column,
            rule,
        );
    }
}

/// `patterns` gives the `names` of an entry, one by one, where there are any, and its
/// `name` otherwise.
pub proof fn law_patterns_call(t: Table, patterns: Vec<&str>)
    requires
        call_ensures(Table::patterns, (&t,), patterns),
    ensures
        if t.names is Some && t.names->0@.len() > 0 {
            &&& patterns@.len() == t.names->0@.len()
            &&& forall|k: int|
                0 <= k < patterns@.len() ==> #[trigger] patterns@[k]@ == t.names->0@[k]@
        } else {
            patterns@.len() == 1 && patterns@[0]@ == t.name@
        },
{
    table::law_patterns(t);
    assert(patterns.deep_view().len() == patterns@.len());
    assert forall|k: int| 0 <= k < patterns@.len() implies #[trigger] patterns@[k]@
        == t.pattern_list()[k] by {
        assert(patterns.deep_view()[k] == patterns@[k]@);
    }
}

/// What the tests of an entry and of patterns tell.
pub proof fn law_test_calls(t: Table, name: &str, names: &[&str], yes: bool)
    ensures
        call_ensures(Table::has_wildcards, (&t,), yes) ==> (yes <==> exists|k: int|
            0 <= k < t.pattern_list().len() && pattern::has_wildcard(
                #[trigger] t.pattern_list()[k],
            )),
        call_ensures(Table::is_named, (&t, name), yes) ==> (yes <==> {
            &&& t.pattern_list().contains(name@)
            &&& name@.len() > 0
            &&& !pattern::has_wildcard(name@)
        }),
        call_ensures(Table::is_covered, (&t, names), yes) ==> (yes <==> exists|k: int, n: int|
            {
                &&& 0 <= k < t.pattern_list().len()
                &&& 0 <= n < names.deep_view().len()
                &&& pattern::has_wildcard(t.pattern_list()[k])
                &&& #[trigger] pattern::covers(t.pattern_list()[k], names.deep_view()[n])
            }),
        call_ensures(pattern::is_wild, (name,), yes) ==> (yes <==> exists|i: int|
            0 <= i < name@.len() && (#[trigger] name@[i] == '*' || name@[i] == '?')),
        call_ensures(pattern::matches_any, (name, names), yes) ==> (yes <==> exists|n: int|
            0 <= n < names.deep_view().len() && pattern::covers(
                name@,
                #[trigger] names.deep_view()[n],
            )),
{
    table::law_covers_by_wildcard(t, names.deep_view());
    pattern::law_wildcard_characters(name@);
    pattern::law_covers_any(name@, names.deep_view());
}

/// `merge_order` gives the specific entry's `rule_order` where there is one, or else
/// the wildcard entry's, or else nothing, name by name.
pub proof fn law_merge_order_call(
    specific: Option<&Table>,
    wildcard: Option<&Table>,
    order: Vec<String>,
)
    requires
        call_ensures(merge::merge_order, (specific, wildcard), order),
    ensures
        if specific is Some && specific->0.rule_order is Some {
            &&& order@.len() == specific->0.rule_order->0@.len()
            &&& forall|k: int|
                0 <= k < order@.len() ==> #[trigger] order@[k]@ == specific->0.rule_order->0@[k]@
        } else if wildcard is Some && wildcard->0.rule_order is Some {
            &&& order@.len() == wildcard->0.rule_order->0@.len()
            &&& forall|k: int|
                0 <= k < order@.len() ==> #[trigger] order@[k]@ == wildcard->0.rule_order->0@[k]@
        } else {
            order@.len() == 0
        },
{
    merge::law_merged_order(specific, wildcard);
    assert(order.deep_view().len() == order@.len());
    assert forall|k: int| 0 <= k < order@.len() implies #[trigger] order@[k]@
        == order.deep_view()[k] by {}
}

/// `merge_rules` gives all rules of the specific entry, and those of the wildcard entry
/// for columns that the table has and that the specific entry has no rule for.
pub proof fn law_merge_rules_call(
    specific: Option<&Table>,
    wildcard: Option<&Table>,
    columns: &[String],
    merged: NameMap<Transformers>,
    column: Seq<char>,
    rule: RuleView,
)
    requires
        specific is Some ==> specific->0.rules.wf(),
        wildcard is Some ==> wildcard->0.rules.wf(),
        call_ensures(merge::merge_rules, (specific, wildcard, columns), merged),
    ensures
        merged.deep_view().contains((column, rule)) <==> {
            ||| specific is Some && merge::has_rule(*specific->0, column, rule)
            ||| {
                &&& wildcard is Some && merge::has_rule(*wildcard->0, column, rule)
                &&& columns.deep_view().contains(column)
                &&& specific is Some ==> forall|k: int|
                    0 <= k < specific->0.rules@.len() ==> (#[trigger] specific->0.rules@[k]).0
                        != column
            }
        },
{
    merge::law_merged_contents(specific, wildcard, columns.deep_view(), column, rule);
}

/// `arrange` gives the rules that it is given, all of them, in an order by which of two
/// rules, one before the other, the later one is listed if the earlier one is, and only
/// after it.
pub proof fn law_arrange_call(
    rules: NameMap<Transformers>,
    order: Vec<String>,
    list: TransformList,
    rule: (Seq<char>, RuleView),
    i: int,
    j: int,
)
    requires
        rules.wf(),
        call_ensures(order::arrange, (&rules, &order), list),
    ensures
        list@.len() == rules@.len(),
        list.deep_view().contains(rule) <==> rules.deep_view().contains(rule),
        0 <= i < j < list@.len() && order.deep_view().contains(list@[i].0@) ==> {
            &&& order.deep_view().contains(list@[j].0@)
            &&& forall|q: int|
                0 <= q < order@.len() && #[trigger] order@[q]@ == list@[j].0@ ==> exists|p: int|
                    0 <= p < q && #[trigger] order@[p]@ == list@[i].0@
        },
{
    let names = order.deep_view();
    name_map::lemma_deep_distinct(rules);
    order::law_arranged_contents(rules.deep_view(), names, rule);
    assert(list.deep_view().len() == list@.len());
    if 0 <= i < j < list@.len() && names.contains(list@[i].0@) {
        assert(list.deep_view()[i].0 == list@[i].0@);
        assert(list.deep_view()[j].0 == list@[j].0@);
        order::law_arranged_order(rules.deep_view(), names, i, j);
        assert forall|q: int| 0 <= q < order@.len() && #[trigger] order@[q]@
            == list@[j].0@ implies exists|p: int|
            0 <= p < q && #[trigger] order@[p]@ == list@[i].0@ by {
            assert(names[q] == list@[j].0@);
            let p = choose|p: int| 0 <= p < q && #[trigger] names[p] == list@[i].0@;
            assert(order@[p]@ == list@[i].0@);
        }
    }
}

/// `find_specific` and `find_wildcard` give the entries at the positions that the names
/// and the patterns of the entries decide.
pub proof fn law_find_calls(tables: Vec<Table>, names: &[&str], found: Option<&Table>)
    ensures
        call_ensures(matching::find_specific, (&tables, names), found) ==> match matching::specific_index(
            tables@,
            names.deep_view(),
        ) {
            Some(i) => found is Some && *found->0 == tables@[i],
            None => found is None,
        },
        call_ensures(matching::find_wildcard, (&tables, names), found) ==> match matching::wildcard_index(
            tables@,
            names.deep_view(),
        ) {
            Some(i) => found is Some && *found->0 == tables@[i],
            None => found is None,
        },
{
}

/// `find_position` gives the first place at which a name stands in a list.
pub proof fn law_find_position_call(list: &[String], name: &str, found: Option<usize>)
    requires
        call_ensures(search::find_position, (list, name), found),
    ensures
        match found {
            Some(i) => {
                &&& i < list@.len()
                &&& list@[i as int]@ == name@
                &&& forall|j: int| 0 <= j < i ==> #[trigger] list@[j]@ != name@
            },
            None => forall|j: int| 0 <= j < list@.len() ==> #[trigger] list@[j]@ != name@,
        },
{
    let names = list.deep_view();
    search::lemma_position(names, name@);
    assert forall|j: int| 0 <= j < list@.len() implies #[trigger] list@[j]@ == names[j] by {}
    if found is None {
        assert forall|j: int| 0 <= j < list@.len() implies #[trigger] list@[j]@ != name@ by {
            assert(names.contains(names[j]));
        }
    }
}

/// `init` keeps the kind of a rule and what it is configured with, gives the default
/// locale to a rule that makes names and has none, and gives a template rule the
/// templates of the context.
pub proof fn law_init_call(rule: &mut Transformers, ctx: TransformerInitContext)
    requires
        call_ensures(Transformers::init, (rule, &ctx), ()),
    ensures
        match (*old(rule), *final(rule)) {
            (Transformers::PersonName(b), Transformers::PersonName(a)) => {
                a.locale == Some(if b.locale is Some { b.locale->0 } else { ctx.defaults.locale })
            },
            (Transformers::FirstName(b), Transformers::FirstName(a)) => {
                a.locale == Some(if b.locale is Some { b.locale->0 } else { ctx.defaults.locale })
            },
            (Transformers::LastName(b), Transformers::LastName(a)) => {
                a.locale == Some(if b.locale is Some { b.locale->0 } else { ctx.defaults.locale })
            },
            (Transformers::CompanyName(b), Transformers::CompanyName(a)) => {
                a.locale == Some(if b.locale is Some { b.locale->0 } else { ctx.defaults.locale })
            },
            (Transformers::Template(b), Transformers::Template(a)) => {
                &&& a.format@ == b.format@
                &&& a.templates.deep_view() == ctx.template_collection.deep_view()
            },
            _ => false,
        },
{
    transformer::law_prepared_rule(*old(rule), *final(rule), ctx);
}

} // verus!
