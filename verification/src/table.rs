//! The entry of one table, or of several, in the settings.

use crate::asserts::Assert;
use crate::name_map;
use crate::name_map::NameMap;
use crate::order;
use crate::order::{arrange, TransformList};
use crate::pattern;
use crate::pattern::{is_wild, matches_any};
use crate::text::same_text;
use crate::transformer::{InitView, RuleView, TransformerInitContext, Transformers};
use vstd::prelude::*;

verus! {

/// How the rows of a table are chosen.
#[derive(Clone, Debug, PartialEq, Eq)]
pub struct Query {
    pub limit: Option<usize>,
    pub dump_condition: Option<String>,
    pub transform_condition: Option<String>,
}

/// The rules for the tables that a name or a list of patterns stands for.
#[derive(Clone, Debug)]
pub struct Table {
    /// The name of the table, or a pattern; empty where `names` is used.
    pub name: String,
    /// Names or patterns of several tables.
    pub names: Option<Vec<String>>,
    /// The rules by column.
    pub rules: NameMap<Transformers>,
    /// The columns whose rules come last, in this order.
    pub rule_order: Option<Vec<String>>,
    pub query: Option<Query>,
    pub asserts: Vec<Assert>,
}

/// Rules once they have been prepared for use.
pub open spec fn prepared_rules(rules: Seq<(Seq<char>, RuleView)>, ctx: InitView) -> Seq<
    (Seq<char>, RuleView),
> {
    Seq::new(rules.len(), |i: int| (rules[i].0, rules[i].1.initialized(ctx)))
}

impl Table {
    /// The patterns that the entry stands for: those of `names` if there are any, or
    /// else its `name`.
    pub open spec fn pattern_list(self) -> Seq<Seq<char>> {
        match self.names {
            Some(names) if names@.len() > 0 => names.deep_view(),
            _ => seq![self.name@],
        }
    }

    /// Whether one of the patterns holds a wildcard.
    pub open spec fn any_wildcard(self) -> bool {
        exists|i: int|
            0 <= i < self.pattern_list().len() && pattern::has_wildcard(
                #[trigger] self.pattern_list()[i],
            )
    }

    /// Whether the entry names a table outright: one of its patterns is that name
    /// and holds no wildcard.
    pub open spec fn names_exactly(self, name: Seq<char>) -> bool {
        &&& name.len() > 0
        &&& !pattern::has_wildcard(name)
        &&& self.pattern_list().contains(name)
    }

    /// Whether one of the entry's patterns that hold wildcards covers one of `names`.
    pub open spec fn covers_by_wildcard(self, names: Seq<Seq<char>>) -> bool {
        exists|i: int|
            0 <= i < self.pattern_list().len() && pattern::has_wildcard(
                #[trigger] self.pattern_list()[i],
            ) && pattern::covers_any(self.pattern_list()[i], names)
    }

    /// The columns that `rule_order` lists.
    pub open spec fn listed_columns(self) -> Seq<Seq<char>> {
        match self.rule_order {
            Some(order) => order.deep_view(),
            None => Seq::empty(),
        }
    }

    /// The rules in the order in which they are applied.
    pub open spec fn arranged_rules(self) -> Seq<(Seq<char>, RuleView)> {
        order::arranged(self.rules.deep_view(), self.listed_columns())
    }

    /// Whether the entry is `before` with its rules prepared for use, and nothing
    /// else changed.
    pub open spec fn prepared_from(self, before: Table, ctx: InitView) -> bool {
        &&& self.name == before.name
        &&& self.names == before.names
        &&& self.rule_order == before.rule_order
        &&& self.query == before.query
        &&& self.asserts == before.asserts
        &&& self.rules.deep_view() == prepared_rules(before.rules.deep_view(), ctx)
    }

    /// Prepares all rules for use.
    pub fn init_rules(&mut self, ctx: &TransformerInitContext)
        ensures
            final(self).prepared_from(*old(self), ctx.deep_view()),
    {
        let ghost all = self.rules.deep_view();
        let ghost done = prepared_rules(all, ctx.deep_view());
        let mut i: usize = 0;
        while i < self.rules.len()
            invariant
                all == old(self).rules.deep_view(),
                done == prepared_rules(all, ctx.deep_view()),
                self.name == old(self).name,
                self.names == old(self).names,
                self.rule_order == old(self).rule_order,
                self.query == old(self).query,
                self.asserts == old(self).asserts,
                0 <= i <= all.len(),
                all.len() == self.rules@.len(),
                forall|j: int| 0 <= j < i ==> #[trigger] self.rules.deep_view()[j] == done[j],
                forall|j: int|
                    i <= j < all.len() ==> #[trigger] self.rules.deep_view()[j] == all[j],
            decreases all.len() - i,
        {
            assert(self.rules.deep_view()[i as int] == all[i as int]);
            let mut rule: Transformers = self.rules.entry(i).1.clone();
            rule.init(ctx);
            let ghost before = self.rules.deep_view();
            self.rules.set_value(i, rule);
            assert(self.rules.deep_view() =~= before.update(
                i as int,
                (before[i as int].0, rule.deep_view()),
            ));
            i += 1;
        }
        assert(self.rules.deep_view() =~= done);
    }

    /// The names or patterns that this entry stands for.
    pub fn patterns(&self) -> (patterns: Vec<&str>)
        ensures
            patterns.deep_view() == self.pattern_list(),
    {
        let mut patterns: Vec<&str> = Vec::new();
        match &self.names {
            Some(names) if names.len() > 0 => {
                let mut i: usize = 0;
                while i < names.len()
                    invariant
                        0 <= i <= names@.len(),
                        patterns.deep_view() == names.deep_view().take(i as int),
                    decreases names.len() - i,
                {
                    let ghost before = patterns.deep_view();
                    patterns.push(names[i].as_str());
                    assert(patterns.deep_view() =~= before.push(names@[i as int]@));
                    assert(names.deep_view().take(i + 1) =~= before.push(names.deep_view()[i as int]));
                    i += 1;
                }
                assert(names.deep_view().take(i as int) =~= names.deep_view());
            },
            _ => {
                patterns.push(self.name.as_str());
                assert(patterns.deep_view() =~= seq![self.name@]);
            },
        }
        patterns
    }

    /// Whether one of the patterns holds a wildcard.
    pub fn has_wildcards(&self) -> (wild: bool)
        ensures
            wild == self.any_wildcard(),
    {
        let patterns = self.patterns();
        let mut i: usize = 0;
        while i < patterns.len()
            invariant
                0 <= i <= patterns@.len(),
                patterns.deep_view() == self.pattern_list(),
                forall|j: int|
                    0 <= j < i ==> !pattern::has_wildcard(#[trigger] self.pattern_list()[j]),
            decreases patterns.len() - i,
        {
            assert(self.pattern_list()[i as int] == patterns@[i as int]@);
            if is_wild(patterns[i]) {
                return true;
            }
            i += 1;
        }
        false
    }

    /// Whether one of the patterns is `name` itself, without wildcards.
    pub fn is_named(&self, name: &str) -> (named: bool)
        ensures
            named == self.names_exactly(name@),
    {
        let patterns = self.patterns();
        let mut i: usize = 0;
        while i < patterns.len()
            invariant
                0 <= i <= patterns@.len(),
                patterns.deep_view() == self.pattern_list(),
                forall|j: int|
                    0 <= j < i ==> name@.len() == 0 || pattern::has_wildcard(name@)
                        || #[trigger] self.pattern_list()[j] != name@,
            decreases patterns.len() - i,
        {
            assert(self.pattern_list()[i as int] == patterns@[i as int]@);
            let pattern: &str = patterns[i];
            if !pattern.is_empty() && !is_wild(pattern) && same_text(pattern, name) {
                return true;
            }
            i += 1;
        }
        false
    }

    /// Whether a pattern with wildcards covers one of the names.
    pub fn is_covered(&self, names: &[&str]) -> (covered: bool)
        ensures
            covered == self.covers_by_wildcard(names.deep_view()),
    {
        let patterns = self.patterns();
        let mut i: usize = 0;
        while i < patterns.len()
            invariant
                0 <= i <= patterns@.len(),
                patterns.deep_view() == self.pattern_list(),
                forall|j: int|
                    0 <= j < i ==> !(pattern::has_wildcard(#[trigger] self.pattern_list()[j])
                        && pattern::covers_any(self.pattern_list()[j], names.deep_view())),
            decreases patterns.len() - i,
        {
            assert(self.pattern_list()[i as int] == patterns@[i as int]@);
            let pattern: &str = patterns[i];
            if !pattern.is_empty() && is_wild(pattern) && matches_any(pattern, names) {
                return true;
            }
            i += 1;
        }
        false
    }

    /// The rules in the order in which they are applied.
    pub fn transform_list(&self) -> (list: TransformList)
        ensures
            list.deep_view() == self.arranged_rules(),
    {
        match &self.rule_order {
            Some(order) => arrange(&self.rules, order),
            None => {
                let order: Vec<String> = Vec::new();
                assert(order.deep_view() =~= Seq::<Seq<char>>::empty());
                arrange(&self.rules, &order)
            },
        }
    }
}

/// An entry with a list of names that is not empty stands for those, in their order;
/// any other entry stands for its `name` alone.
pub proof fn law_patterns(t: Table)
    ensures
        if t.names is Some && t.names->0@.len() > 0 {
            &&& t.pattern_list().len() == t.names->0@.len()
            &&& forall|k: int|
                0 <= k < t.names->0@.len() ==> #[trigger] t.pattern_list()[k] == t.names->0@[k]@
        } else {
            t.pattern_list().len() == 1 && t.pattern_list()[0] == t.name@
        },
{
}

/// An entry has wildcards exactly if a character of one of its patterns is one.
pub proof fn law_any_wildcard(t: Table)
    ensures
        t.any_wildcard() <==> exists|k: int, c: int|
            {
                &&& 0 <= k < t.pattern_list().len()
                &&& 0 <= c < t.pattern_list()[k].len()
                &&& #[trigger] t.pattern_list()[k][c] == '*' || t.pattern_list()[k][c] == '?'
            },
{
    if t.any_wildcard() {
        let k = choose|k: int|
            0 <= k < t.pattern_list().len() && pattern::has_wildcard(
                #[trigger] t.pattern_list()[k],
            );
        let p = t.pattern_list()[k];
        let c = choose|c: int| 0 <= c < p.len() && (#[trigger] p[c] == '*' || p[c] == '?');
        assert(t.pattern_list()[k][c] == '*' || t.pattern_list()[k][c] == '?');
    }
    if exists|k: int, c: int|
        {
            &&& 0 <= k < t.pattern_list().len()
            &&& 0 <= c < t.pattern_list()[k].len()
            &&& #[trigger] t.pattern_list()[k][c] == '*' || t.pattern_list()[k][c] == '?'
        } {
        let (k, c) = choose|k: int, c: int|
            {
                &&& 0 <= k < t.pattern_list().len()
                &&& 0 <= c < t.pattern_list()[k].len()
                &&& #[trigger] t.pattern_list()[k][c] == '*' || t.pattern_list()[k][c] == '?'
            };
        assert(t.pattern_list()[k].contains(t.pattern_list()[k][c]));
        assert(pattern::has_wildcard(t.pattern_list()[k]));
    }
}

/// An entry names a table outright exactly if one of its patterns is the name, which
/// is not empty and has no wildcard in it.
pub proof fn law_names_exactly(t: Table, name: Seq<char>)
    ensures
        t.names_exactly(name) <==> {
            &&& exists|k: int| 0 <= k < t.pattern_list().len() && #[trigger] t.pattern_list()[k] == name
            &&& name.len() > 0
            &&& forall|c: int| 0 <= c < name.len() ==> #[trigger] name[c] != '*' && name[c] != '?'
        },
{
}

/// An entry covers one of several names by a wildcard exactly if one of its patterns
/// holds `*` or `?` and covers one of them.
pub proof fn law_covers_by_wildcard(t: Table, names: Seq<Seq<char>>)
    ensures
        t.covers_by_wildcard(names) <==> exists|k: int, n: int|
            {
                &&& 0 <= k < t.pattern_list().len()
                &&& 0 <= n < names.len()
                &&& pattern::has_wildcard(t.pattern_list()[k])
                &&& #[trigger] pattern::covers(t.pattern_list()[k], names[n])
            },
{
    if t.covers_by_wildcard(names) {
        let k = choose|k: int|
            0 <= k < t.pattern_list().len() && pattern::has_wildcard(
                #[trigger] t.pattern_list()[k],
            ) && pattern::covers_any(t.pattern_list()[k], names);
        let n = choose|n: int|
            0 <= n < names.len() && pattern::covers(t.pattern_list()[k], #[trigger] names[n]);
        assert(pattern::covers(t.pattern_list()[k], names[n]));
    }
    if exists|k: int, n: int|
        {
            &&& 0 <= k < t.pattern_list().len()
            &&& 0 <= n < names.len()
            &&& pattern::has_wildcard(t.pattern_list()[k])
            &&& #[trigger] pattern::covers(t.pattern_list()[k], names[n])
        } {
        let (k, n) = choose|k: int, n: int|
            {
                &&& 0 <= k < t.pattern_list().len()
                &&& 0 <= n < names.len()
                &&& pattern::has_wildcard(t.pattern_list()[k])
                &&& #[trigger] pattern::covers(t.pattern_list()[k], names[n])
            };
        assert(pattern::covers(t.pattern_list()[k], names[n]));
        assert(pattern::covers_any(t.pattern_list()[k], names));
    }
}

/// The list of the rules of an entry has every rule of the entry, no other, and no
/// column twice.
pub proof fn law_transform_list_contents(t: Table, rule: (Seq<char>, RuleView))
    requires
        t.rules.wf(),
    ensures
        t.arranged_rules().len() == t.rules@.len(),
        t.arranged_rules().contains(rule) <==> exists|k: int|
            {
                &&& 0 <= k < t.rules@.len()
                &&& (#[trigger] t.rules@[k]).0 == rule.0
                &&& t.rules@[k].1.deep_view() == rule.1
            },
        forall|i: int, j: int|
            0 <= i < j < t.rules@.len() ==> (#[trigger] t.arranged_rules()[i]).0 != (
            #[trigger] t.arranged_rules()[j]).0,
{
    let rules = t.rules.deep_view();
    name_map::lemma_deep_distinct(t.rules);
    order::law_arranged_contents(rules, t.listed_columns(), rule);
    if rules.contains(rule) {
        let k = choose|k: int| 0 <= k < rules.len() && rules[k] == rule;
        assert(t.rules@[k].0 == rule.0);
    }
    if exists|k: int|
        {
            &&& 0 <= k < t.rules@.len()
            &&& (#[trigger] t.rules@[k]).0 == rule.0
            &&& t.rules@[k].1.deep_view() == rule.1
        } {
        let k = choose|k: int|
            {
                &&& 0 <= k < t.rules@.len()
                &&& (#[trigger] t.rules@[k]).0 == rule.0
                &&& t.rules@[k].1.deep_view() == rule.1
            };
        assert(rules[k] == rule);
    }
}

/// Of two rules in the list of an entry, one before the other: if `rule_order` has the
/// column of the earlier one, it has that of the later one too, and wherever it does,
/// it has that of the earlier one before that place. Without `rule_order` nothing is
/// asked.
pub proof fn law_transform_list_order(t: Table, i: int, j: int, p: int)
    requires
        0 <= i < j < t.arranged_rules().len(),
        t.rule_order is Some,
        0 <= p < t.rule_order->0@.len(),
        t.rule_order->0@[p]@ == t.arranged_rules()[i].0,
    ensures
        exists|q: int|
            0 <= q < t.rule_order->0@.len() && #[trigger] t.rule_order->0@[q]@
                == t.arranged_rules()[j].0,
        forall|q: int|
            0 <= q < t.rule_order->0@.len() && #[trigger] t.rule_order->0@[q]@
                == t.arranged_rules()[j].0 ==> exists|r: int|
                0 <= r < q && #[trigger] t.rule_order->0@[r]@ == t.arranged_rules()[i].0,
{
    let columns = t.listed_columns();
    let raw = t.rule_order->0@;
    let left = t.arranged_rules()[i].0;
    let right = t.arranged_rules()[j].0;
    assert(columns[p] == left);
    order::law_arranged_order(t.rules.deep_view(), columns, i, j);
    let q = choose|q: int| 0 <= q < columns.len() && columns[q] == right;
    assert(raw[q]@ == right);
    assert forall|q: int| 0 <= q < raw.len() && #[trigger] raw[q]@ == right implies exists|r: int|
        0 <= r < q && #[trigger] raw[r]@ == left by {
        assert(columns[q] == right);
        let r = choose|r: int| 0 <= r < q && #[trigger] columns[r] == left;
        assert(raw[r]@ == left);
    }
}

/// The columns that an entry lists are those of its `rule_order`, if it has one.
pub proof fn law_listed_columns(t: Table)
    ensures
        t.rule_order is None ==> t.listed_columns().len() == 0,
        t.rule_order is Some ==> {
            &&& t.listed_columns().len() == t.rule_order->0@.len()
            &&& forall|k: int|
                0 <= k < t.rule_order->0@.len() ==> #[trigger] t.listed_columns()[k]
                    == t.rule_order->0@[k]@
        },
{
}

/// Preparing an entry prepares each of its rules, under its column, and changes
/// nothing else.
pub proof fn law_prepared_entry(before: Table, after: Table, ctx: TransformerInitContext)
    requires
        after.prepared_from(before, ctx.deep_view()),
    ensures
        after.name == before.name,
        after.names == before.names,
        after.rule_order == before.rule_order,
        after.query == before.query,
        after.asserts == before.asserts,
        after.rules@.len() == before.rules@.len(),
        forall|k: int|
            0 <= k < before.rules@.len() ==> {
                &&& (#[trigger] after.rules@[k]).0 == before.rules@[k].0
                &&& after.rules@[k].1.deep_view() == before.rules@[k].1.deep_view().initialized(
                    ctx.deep_view(),
                )
            },
{
    assert(after.rules.deep_view().len() == before.rules.deep_view().len());
    assert forall|k: int| 0 <= k < before.rules@.len() implies {
        &&& (#[trigger] after.rules@[k]).0 == before.rules@[k].0
        &&& after.rules@[k].1.deep_view() == before.rules@[k].1.deep_view().initialized(
            ctx.deep_view(),
        )
    } by {
        assert(after.rules.deep_view()[k].0 == before.rules.deep_view()[k].0);
    }
}

} // verus!
