//! What making settings ready does, told by the fields of the settings, and the
//! assertions that they hold.

use crate::asserts::{AssertScope, TableAssert};
use crate::error::SettingsError;
use crate::laws::{
    law_named_entry_is_resolved, law_other_entries_wait, law_validation, one_rule_per_column,
};
use crate::merge;
use crate::pattern;
use crate::settings;
use crate::settings::Settings;
use crate::table;
use crate::table::Table;
use crate::templates::TemplatesView;
use crate::transformer::{RuleView, Transformers};
use vstd::prelude::*;

verus! {

/// An entry is at fault if it has both a `name` and something in `names`, or neither.
/// The first such entry is told by its position, with what is wrong with it; where
/// there is none, the settings are accepted.
pub proof fn law_first_fault(tables: Seq<Table>)
    requires
        tables.len() <= usize::MAX,
    ensures
        match settings::validation(tables) {
            Ok(_) => forall|i: int|
                0 <= i < tables.len() ==> ((#[trigger] tables[i]).name@.len() > 0) != (
                tables[i].names is Some && tables[i].names->0@.len() > 0),
            Err(error) => exists|i: int|
                {
                    &&& 0 <= i < tables.len()
                    &&& ({
                        ||| {
                            &&& error == (SettingsError::BothNameAndNames { table: i as usize })
                            &&& (#[trigger] tables[i]).name@.len() > 0
                            &&& tables[i].names is Some
                            &&& tables[i].names->0@.len() > 0
                        }
                        ||| {
                            &&& error == (SettingsError::NeitherNameNorNames { table: i as usize })
                            &&& tables[i].name@.len() == 0
                            &&& tables[i].names is None || tables[i].names->0@.len() == 0
                        }
                    })
                    &&& forall|j: int|
                        0 <= j < i ==> ((#[trigger] tables[j]).name@.len() > 0) != (
                        tables[j].names is Some && tables[j].names->0@.len() > 0)
                },
        },
{
    law_validation(tables);
    match settings::validation(tables) {
        Ok(_) => {
            assert forall|i: int| 0 <= i < tables.len() implies ((
            #[trigger] tables[i]).name@.len() > 0) != (tables[i].names is Some
                && tables[i].names->0@.len() > 0) by {
                assert(settings::has_name(tables[i]) != settings::has_names(tables[i]));
            }
        },
        Err(error) => {
            let at = match error {
                SettingsError::BothNameAndNames { table } => table,
                SettingsError::NeitherNameNorNames { table } => table,
            };
            let t = tables[at as int];
            assert forall|j: int| 0 <= j < at implies ((#[trigger] tables[j]).name@.len() > 0) != (
            tables[j].names is Some && tables[j].names->0@.len() > 0) by {
                assert(settings::has_name(tables[j]) != settings::has_names(tables[j]));
            }
        },
    }
}

/// Making settings ready leaves everything as it was but the rules of the entries and
/// the map of what is kept, which there then is.
pub proof fn law_loading_frame(parsed: Settings, ready: Settings)
    requires
        ready.ready_from(parsed),
    ensures
        ready.table_order == parsed.table_order,
        ready.default == parsed.default,
        ready.filter == parsed.filter,
        ready.asserts == parsed.asserts,
        ready.globals == parsed.globals,
        ready.templates == parsed.templates,
        ready.transform_map is Some,
        ready.tables@.len() == parsed.tables@.len(),
        forall|i: int|
            0 <= i < parsed.tables@.len() ==> {
                &&& (#[trigger] ready.tables@[i]).name == parsed.tables@[i].name
                &&& ready.tables@[i].names == parsed.tables@[i].names
                &&& ready.tables@[i].rule_order == parsed.tables@[i].rule_order
                &&& ready.tables@[i].query == parsed.tables@[i].query
                &&& ready.tables@[i].asserts == parsed.tables@[i].asserts
                &&& ready.tables@[i].rules@.len() == parsed.tables@[i].rules@.len()
            },
{
    assert forall|i: int| 0 <= i < parsed.tables@.len() implies {
        &&& (#[trigger] ready.tables@[i]).name == parsed.tables@[i].name
        &&& ready.tables@[i].names == parsed.tables@[i].names
        &&& ready.tables@[i].rule_order == parsed.tables@[i].rule_order
        &&& ready.tables@[i].query == parsed.tables@[i].query
        &&& ready.tables@[i].asserts == parsed.tables@[i].asserts
        &&& ready.tables@[i].rules@.len() == parsed.tables@[i].rules@.len()
    } by {
        let after = ready.tables@[i];
        assert(after.prepared_from(parsed.tables@[i], parsed.init_view()));
        assert(after.rules.deep_view().len() == parsed.tables@[i].rules.deep_view().len());
    }
}

/// Making settings ready keeps every rule under its column, with its kind and what it
/// is configured with. A rule that makes names has a locale then: its own, or else the
/// default one of the settings. A template rule has the templates of the settings, raw
/// ones and files alike, and none where the settings have none.
pub proof fn law_loading_prepares_rules(parsed: Settings, ready: Settings, i: int, k: int)
    requires
        ready.ready_from(parsed),
        0 <= i < parsed.tables@.len(),
        0 <= k < parsed.tables@[i].rules@.len(),
    ensures
        ready.tables@[i].rules@[k].0 == parsed.tables@[i].rules@[k].0,
        match (parsed.tables@[i].rules@[k].1, ready.tables@[i].rules@[k].1) {
            (Transformers::PersonName(b), Transformers::PersonName(a)) => {
                a.locale == Some(if b.locale is Some { b.locale->0 } else { parsed.default.locale })
            },
            (Transformers::FirstName(b), Transformers::FirstName(a)) => {
                a.locale == Some(if b.locale is Some { b.locale->0 } else { parsed.default.locale })
            },
            (Transformers::LastName(b), Transformers::LastName(a)) => {
                a.locale == Some(if b.locale is Some { b.locale->0 } else { parsed.default.locale })
            },
            (Transformers::CompanyName(b), Transformers::CompanyName(a)) => {
                a.locale == Some(if b.locale is Some { b.locale->0 } else { parsed.default.locale })
            },
            (Transformers::Template(b), Transformers::Template(a)) => {
                &&& a.format@ == b.format@
                &&& parsed.templates is Some ==> {
                    &&& a.templates.deep_view() == parsed.templates->0.deep_view()
                    &&& a.templates.raw.deep_view() == parsed.templates->0.raw.deep_view()
                    &&& a.templates.files.deep_view() == parsed.templates->0.files.deep_view()
                }
                &&& parsed.templates is None ==> {
                    &&& a.templates.deep_view() == TemplatesView::empty()
                    &&& a.templates.raw is None
                    &&& a.templates.files is None
                }
            },
            _ => false,
        },
{
    let before = parsed.tables@[i];
    let after = ready.tables@[i];
    assert(after.prepared_from(before, parsed.init_view()));
    assert(after.rules.deep_view().len() == before.rules.deep_view().len());
    assert(after.rules.deep_view()[k].0 == before.rules.deep_view()[k].0);
    assert(after.rules.deep_view()[k].1 == before.rules.deep_view()[k].1.initialized(
        parsed.init_view(),
    ));
    let rule = after.rules@[k].1;
    if rule is Template {
        let view = rule->Template_0.templates.deep_view();
        assert(view.raw == rule->Template_0.templates.raw.deep_view());
        assert(view.files == rule->Template_0.templates.files.deep_view());
    }
}

/// The last entry that has a plain name, and no `names`, for it has a list kept under
/// that name once the settings are ready: exactly its own rules, as prepared, and no
/// column twice.
pub proof fn law_loading_keeps_named_entries(
    parsed: Settings,
    ready: Settings,
    i: int,
    column: Seq<char>,
    rule: RuleView,
)
    requires
        ready.ready_from(parsed),
        one_rule_per_column(ready.tables@),
        0 <= i < ready.tables@.len(),
        ready.tables@[i].names is None,
        !pattern::has_wildcard(ready.tables@[i].name@),
        forall|j: int|
            i < j < ready.tables@.len() && (#[trigger] ready.tables@[j]).names is None
                ==> ready.tables@[j].name@ != ready.tables@[i].name@,
    ensures
        ready.registered() is Some,
        ({
            let t = ready.tables@[i];
            let kept = ready.registered()->0[t.name@];
            &&& ready.registered()->0.contains_key(t.name@)
            &&& kept.len() == t.rules@.len()
            &&& kept.contains((column, rule)) <==> merge::has_rule(t, column, rule)
            &&& forall|a: int, b: int|
                0 <= a < b < kept.len() ==> (#[trigger] kept[a]).0 != (#[trigger] kept[b]).0
        }),
{
    let t = ready.tables@[i];
    lemma_resolved(ready, i);
    table::law_transform_list_contents(t, (column, rule));
}

/// What is kept under the name of the last entry with that name is its own list.
proof fn lemma_resolved(ready: Settings, i: int)
    requires
        ready.registered() == Some(settings::resolved_at_load(ready.tables@)),
        0 <= i < ready.tables@.len(),
        ready.tables@[i].names is None,
        !pattern::has_wildcard(ready.tables@[i].name@),
        forall|j: int|
            i < j < ready.tables@.len() && (#[trigger] ready.tables@[j]).names is None
                ==> ready.tables@[j].name@ != ready.tables@[i].name@,
    ensures
        ready.registered()->0.contains_key(ready.tables@[i].name@),
        ready.registered()->0[ready.tables@[i].name@] == ready.tables@[i].arranged_rules(),
{
    let t = ready.tables@[i];
    assert(!t.any_wildcard()) by {
        assert forall|k: int| 0 <= k < t.pattern_list().len() implies !pattern::has_wildcard(
            #[trigger] t.pattern_list()[k],
        ) by {}
    }
    law_named_entry_is_resolved(ready.tables@, i);
}

/// The list kept for such an entry goes by its `rule_order`: of two rules, one before
/// the other, if that has the column of the earlier one, it has that of the later one
/// too, and wherever it does, it has that of the earlier one before that place.
pub proof fn law_loading_orders_named_entries(
    parsed: Settings,
    ready: Settings,
    i: int,
    a: int,
    b: int,
    p: int,
)
    requires
        ready.ready_from(parsed),
        0 <= i < ready.tables@.len(),
        ready.tables@[i].names is None,
        !pattern::has_wildcard(ready.tables@[i].name@),
        forall|j: int|
            i < j < ready.tables@.len() && (#[trigger] ready.tables@[j]).names is None
                ==> ready.tables@[j].name@ != ready.tables@[i].name@,
        ready.tables@[i].rule_order is Some,
        0 <= a < b < ready.registered()->0[ready.tables@[i].name@].len(),
        0 <= p < ready.tables@[i].rule_order->0@.len(),
        ready.tables@[i].rule_order->0@[p]@ == ready.registered()->0[ready.tables@[i].name@][a].0,
    ensures
        ({
            let kept = ready.registered()->0[ready.tables@[i].name@];
            let listed = ready.tables@[i].rule_order->0@;
            &&& exists|q: int| 0 <= q < listed.len() && #[trigger] listed[q]@ == kept[b].0
            &&& forall|q: int|
                0 <= q < listed.len() && #[trigger] listed[q]@ == kept[b].0 ==> exists|r: int|
                    0 <= r < q && #[trigger] listed[r]@ == kept[a].0
        }),
{
    lemma_resolved(ready, i);
    table::law_transform_list_order(ready.tables@[i], a, b, p);
}

/// Nothing is kept from the start but under the plain names of entries that have no
/// `names`.
pub proof fn law_loading_keeps_nothing_else(parsed: Settings, ready: Settings, name: Seq<char>)
    requires
        ready.ready_from(parsed),
        ready.registered()->0.contains_key(name),
    ensures
        exists|i: int|
            {
                &&& 0 <= i < parsed.tables@.len()
                &&& (#[trigger] parsed.tables@[i]).names is None
                &&& parsed.tables@[i].name@ == name
                &&& !pattern::has_wildcard(name)
            },
{
    law_loading_frame(parsed, ready);
    law_other_entries_wait(ready.tables@, name);
    let i = choose|i: int|
        {
            &&& 0 <= i < ready.tables@.len()
            &&& crate::laws::resolves_at_load(#[trigger] ready.tables@[i])
            &&& ready.tables@[i].name@ == name
        };
    let t = ready.tables@[i];
    assert(t.pattern_list()[0] == t.name@);
    assert(parsed.tables@[i].names is None);
}

/// The number of assertions that some entries have in all.
pub open spec fn assertion_count(tables: Seq<Table>) -> nat
    decreases tables.len(),
{
    if tables.len() == 0 {
        0
    } else {
        assertion_count(tables.drop_last()) + tables.last().asserts@.len()
    }
}

/// The assertions of the settings are listed one by one and none is left out or comes
/// twice: first the global ones, then, entry by entry, the ones of each, every one with
/// its entry.
pub proof fn law_all_assertions(s: Settings)
    ensures
        ({
            let scopes = settings::global_scopes::<'static>(s.asserts@)
                + settings::all_table_scopes(s.tables@);
            &&& scopes.len() == s.asserts@.len() + assertion_count(s.tables@)
            &&& forall|i: int|
                0 <= i < s.asserts@.len() ==> #[trigger] scopes[i] == AssertScope::Global(
                    &s.asserts@[i],
                )
            &&& forall|t: int, k: int|
                0 <= t < s.tables@.len() && 0 <= k < s.tables@[t].asserts@.len() ==> scopes[(
                s.asserts@.len() + assertion_count(s.tables@.take(t)) + k) as int]
                    == AssertScope::Table(
                    TableAssert {
                        table: &s.tables@[t],
                        assertion: &#[trigger] s.tables@[t].asserts@[k],
                    },
                )
        }),
{
    let global = settings::global_scopes::<'static>(s.asserts@);
    let local = settings::all_table_scopes::<'static>(s.tables@);
    let scopes = global + local;
    lemma_scope_count(s.tables@);
    assert forall|t: int, k: int|
        0 <= t < s.tables@.len() && 0 <= k < s.tables@[t].asserts@.len() implies scopes[(
    s.asserts@.len() + assertion_count(s.tables@.take(t)) + k) as int] == AssertScope::Table(
        TableAssert { table: &s.tables@[t], assertion: &#[trigger] s.tables@[t].asserts@[k] },
    ) by {
        lemma_scope_at(s.tables@, t, k);
        let at = assertion_count(s.tables@.take(t)) + k;
        assert(scopes[global.len() + at] == local[at]);
    }
}

/// There are as many scopes as assertions.
proof fn lemma_scope_count(tables: Seq<Table>)
    ensures
        settings::all_table_scopes::<'static>(tables).len() == assertion_count(tables),
    decreases tables.len(),
{
    if tables.len() > 0 {
        lemma_scope_count(tables.drop_last());
    }
}

/// Where an assertion of an entry stands among those of all entries.
proof fn lemma_scope_at(tables: Seq<Table>, t: int, k: int)
    requires
        0 <= t < tables.len(),
        0 <= k < tables[t].asserts@.len(),
    ensures
        ({
            let at = assertion_count(tables.take(t)) + k;
            &&& at < settings::all_table_scopes::<'static>(tables).len()
            &&& settings::all_table_scopes::<'static>(tables)[at] == AssertScope::Table(
                TableAssert { table: &tables[t], assertion: &tables[t].asserts@[k] },
            )
        }),
    decreases tables.len(),
{
    let init = tables.drop_last();
    lemma_scope_count(init);
    if t < init.len() {
        lemma_scope_at(init, t, k);
        assert(init.take(t) =~= tables.take(t));
        assert(init[t] == tables[t]);
    } else {
        assert(init =~= tables.take(t));
    }
}

} // verus!
