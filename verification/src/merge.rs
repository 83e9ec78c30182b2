//! The rules that apply to a table, put together from the entries it belongs to.

use crate::name_map;
use crate::name_map::NameMap;
use crate::search;
use crate::table::Table;
use crate::transformer::{RuleView, Transformers};
use vstd::prelude::*;

verus! {

/// The condition of being a rule for one of `columns`.
pub open spec fn for_column<V>(columns: Seq<Seq<char>>) -> spec_fn((Seq<char>, V)) -> bool {
    |rule: (Seq<char>, V)| columns.contains(rule.0)
}

/// The rules of an entry, none if there is no entry.
pub open spec fn rules_of(entry: Option<&Table>) -> Seq<(Seq<char>, RuleView)> {
    match entry {
        Some(table) => table.rules.deep_view(),
        None => Seq::empty(),
    }
}

/// The rules for a table with the given columns: those of the wildcard entry for
/// columns that the table has, with all rules of the specific entry put over them.
pub open spec fn merged_rules(
    specific: Option<&Table>,
    wildcard: Option<&Table>,
    columns: Seq<Seq<char>>,
) -> Seq<(Seq<char>, RuleView)> {
    name_map::overlay(rules_of(wildcard).filter(for_column(columns)), rules_of(specific))
}

/// The order of rules that the entries ask for: that of the specific entry if it
/// gives one, or else that of the wildcard entry, or else none.
pub open spec fn merged_order(specific: Option<&Table>, wildcard: Option<&Table>) -> Seq<
    Seq<char>,
> {
    match (specific, wildcard) {
        (Some(s), _) if s.rule_order is Some => s.rule_order->0.deep_view(),
        (_, Some(w)) if w.rule_order is Some => w.rule_order->0.deep_view(),
        _ => Seq::empty(),
    }
}

/// The rules for columns that are among `columns`.
fn rules_for_columns(rules: &NameMap<Transformers>, columns: &[String]) -> (kept: NameMap<
    Transformers,
>)
    ensures
        kept.deep_view() == rules.deep_view().filter(for_column(columns.deep_view())),
{
    let ghost all = rules.deep_view();
    let ghost present = for_column::<RuleView>(columns.deep_view());
    let mut kept: NameMap<Transformers> = NameMap::new();
    let mut i: usize = 0;
    proof {
        use_type_invariant(rules);
        reveal(Seq::filter);
        assert(kept.deep_view() =~= all.take(0).filter(present));
    }
    while i < rules.len()
        invariant
            all == rules.deep_view(),
            present == for_column::<RuleView>(columns.deep_view()),
            name_map::distinct_keys(rules@),
            0 <= i <= all.len(),
            all.len() == rules@.len(),
            kept.deep_view() == all.take(i as int).filter(present),
        decreases all.len() - i,
    {
        let entry = rules.entry(i);
        let found = search::find_position(columns, entry.0.as_str());
        proof {
            search::lemma_position(columns.deep_view(), entry.0@);
            assert(all[i as int] == (entry.0@, entry.1.deep_view()));
            assert(all.take(i + 1).drop_last() =~= all.take(i as int));
            reveal(Seq::filter);
        }
        if found.is_some() {
            let ghost before = kept;
            let rule = entry.1.clone();
            kept.insert(entry.0.clone(), rule);
            proof {
                name_map::lemma_deep_upsert(before, kept, entry.0@, rule);
                name_map::lemma_key_index(before.deep_view(), entry.0@);
                match name_map::key_index(before.deep_view(), entry.0@) {
                    Some(k) => {
                        let prefix = all.take(i as int);
                        let hit = before.deep_view()[k];
                        assert(prefix.filter(present).contains(hit));
                        prefix.lemma_filter_contains_rev(present, hit);
                        let j = choose|j: int| 0 <= j < prefix.len() && prefix[j] == hit;
                        assert(rules@[j].0 == rules@[i as int].0);
                    },
                    None => {},
                }
            }
        }
        i += 1;
    }
    assert(all.take(i as int) =~= all);
    kept
}

/// Puts rules over those that are there.
fn put_rules(merged: &mut NameMap<Transformers>, rules: &NameMap<Transformers>)
    ensures
        final(merged).deep_view() == name_map::overlay(old(merged).deep_view(), rules.deep_view()),
{
    let ghost base = merged.deep_view();
    let ghost all = rules.deep_view();
    let mut i: usize = 0;
    assert(all.take(0) =~= Seq::<(Seq<char>, RuleView)>::empty());
    while i < rules.len()
        invariant
            all == rules.deep_view(),
            0 <= i <= all.len(),
            all.len() == rules@.len(),
            merged.deep_view() == name_map::overlay(base, all.take(i as int)),
        decreases all.len() - i,
    {
        let entry = rules.entry(i);
        let ghost before = *merged;
        let rule = entry.1.clone();
        merged.insert(entry.0.clone(), rule);
        proof {
            assert(all[i as int] == (entry.0@, entry.1.deep_view()));
            assert(all.take(i + 1).drop_last() =~= all.take(i as int));
            name_map::lemma_deep_upsert(before, *merged, entry.0@, rule);
        }
        i += 1;
    }
    assert(all.take(i as int) =~= all);
}

/// Puts together the rules for a table with the given columns.
pub fn merge_rules(
    specific: Option<&Table>,
    wildcard: Option<&Table>,
    columns: &[String],
) -> (merged: NameMap<Transformers>)
    ensures
        merged.deep_view() == merged_rules(specific, wildcard, columns.deep_view()),
{
    let mut merged: NameMap<Transformers> = match wildcard {
        Some(w) => rules_for_columns(&w.rules, columns),
        None => NameMap::new(),
    };
    proof {
        reveal(Seq::filter);
        assert(merged.deep_view() =~= rules_of(wildcard).filter(for_column(columns.deep_view())));
    }
    if let Some(s) = specific {
        put_rules(&mut merged, &s.rules);
    }
    merged
}

/// The order of rules that the entries ask for.
pub fn merge_order(specific: Option<&Table>, wildcard: Option<&Table>) -> (order: Vec<String>)
    ensures
        order.deep_view() == merged_order(specific, wildcard),
{
    if let Some(s) = specific {
        if let Some(order) = &s.rule_order {
            let copied = order.clone();
            assert(copied.deep_view() =~= order.deep_view());
            return copied;
        }
    }
    if let Some(w) = wildcard {
        if let Some(order) = &w.rule_order {
            let copied = order.clone();
            assert(copied.deep_view() =~= order.deep_view());
            return copied;
        }
    }
    let order: Vec<String> = Vec::new();
    assert(order.deep_view() =~= Seq::<Seq<char>>::empty());
    order
}

/// Whether an entry has this rule for this column.
pub open spec fn has_rule(t: Table, column: Seq<char>, rule: RuleView) -> bool {
    exists|k: int|
        {
            &&& 0 <= k < t.rules@.len()
            &&& (#[trigger] t.rules@[k]).0 == column
            &&& t.rules@[k].1.deep_view() == rule
        }
}

/// The rules for a table are those of the specific entry, all of them, and those of
/// the wildcard entry for columns that the table has and that the specific entry has
/// no rule for. No column comes twice.
pub proof fn law_merged_contents(
    specific: Option<&Table>,
    wildcard: Option<&Table>,
    columns: Seq<Seq<char>>,
    column: Seq<char>,
    rule: RuleView,
)
    requires
        specific is Some ==> specific->0.rules.wf(),
        wildcard is Some ==> wildcard->0.rules.wf(),
    ensures
        merged_rules(specific, wildcard, columns).contains((column, rule)) <==> {
            ||| specific is Some && has_rule(*specific->0, column, rule)
            ||| {
                &&& wildcard is Some && has_rule(*wildcard->0, column, rule)
                &&& columns.contains(column)
                &&& specific is Some ==> forall|k: int|
                    0 <= k < specific->0.rules@.len() ==> (#[trigger] specific->0.rules@[k]).0
                        != column
            }
        },
        forall|i: int, j: int|
            0 <= i < j < merged_rules(specific, wildcard, columns).len() ==> (
            #[trigger] merged_rules(specific, wildcard, columns)[i]).0 != (
            #[trigger] merged_rules(specific, wildcard, columns)[j]).0,
{
    let top = rules_of(specific);
    let all = rules_of(wildcard);
    let out = merged_rules(specific, wildcard, columns);
    let present = for_column::<RuleView>(columns);
    let known = |c: Seq<char>| columns.contains(c);
    if specific is Some {
        name_map::lemma_deep_distinct(specific->0.rules);
        lemma_has_rule(*specific->0, column, rule);
    }
    if wildcard is Some {
        name_map::lemma_deep_distinct(wildcard->0.rules);
        lemma_has_rule(*wildcard->0, column, rule);
    }
    name_map::lemma_filter_lookup(all, present, known, column);
    name_map::lemma_overlay_distinct(all.filter(present), top);
    name_map::lemma_overlay_lookup(all.filter(present), top, column);
    lemma_contains_lookup(out, column, rule);
    lemma_contains_lookup(top, column, rule);
    lemma_contains_lookup(all, column, rule);
    name_map::lemma_key_index(top, column);
    if specific is Some {
        if name_map::has_key(top, column) {
            let k = name_map::key_index(top, column)->0;
            assert(specific->0.rules@[k].0 == column);
        } else {
            assert forall|k: int| 0 <= k < specific->0.rules@.len() implies (
            #[trigger] specific->0.rules@[k]).0 != column by {
                assert(top[k].0 != column);
            }
        }
    }
}

/// What an entry has rules for, told by the contents of its rules.
proof fn lemma_has_rule(t: Table, column: Seq<char>, rule: RuleView)
    ensures
        has_rule(t, column, rule) <==> t.rules.deep_view().contains((column, rule)),
{
    let deep = t.rules.deep_view();
    if has_rule(t, column, rule) {
        let k = choose|k: int|
            {
                &&& 0 <= k < t.rules@.len()
                &&& (#[trigger] t.rules@[k]).0 == column
                &&& t.rules@[k].1.deep_view() == rule
            };
        assert(deep[k] == (column, rule));
    }
    if deep.contains((column, rule)) {
        let k = choose|k: int| 0 <= k < deep.len() && deep[k] == (column, rule);
        assert(t.rules@[k].0 == column);
    }
}

/// Where keys are distinct, an entry is there exactly if it is found.
proof fn lemma_contains_lookup(
    entries: Seq<(Seq<char>, RuleView)>,
    column: Seq<char>,
    rule: RuleView,
)
    requires
        name_map::distinct_keys(entries),
    ensures
        entries.contains((column, rule)) <==> name_map::lookup(entries, column) == Some(rule),
{
    name_map::lemma_key_index(entries, column);
    if entries.contains((column, rule)) {
        let k = choose|k: int| 0 <= k < entries.len() && entries[k] == (column, rule);
        name_map::lemma_key_index_at(entries, column, k);
    }
    if name_map::lookup(entries, column) == Some(rule) {
        let k = name_map::key_index(entries, column)->0;
        assert(entries[k] == (column, rule));
    }
}

/// The order asked for is the specific entry's `rule_order` where there is a specific
/// entry that has one; or else, whether or not there is a specific entry, the wildcard
/// entry's, where it has one; or else nothing is asked.
pub proof fn law_merged_order(specific: Option<&Table>, wildcard: Option<&Table>)
    ensures
        ({
            let order = merged_order(specific, wildcard);
            if specific is Some && specific->0.rule_order is Some {
                &&& order.len() == specific->0.rule_order->0@.len()
                &&& forall|k: int|
                    0 <= k < order.len() ==> #[trigger] order[k] == specific->0.rule_order->0@[k]@
            } else if wildcard is Some && wildcard->0.rule_order is Some {
                &&& order.len() == wildcard->0.rule_order->0@.len()
                &&& forall|k: int|
                    0 <= k < order.len() ==> #[trigger] order[k] == wildcard->0.rule_order->0@[k]@
            } else {
                order.len() == 0
            }
        }),
{
}

} // verus!
