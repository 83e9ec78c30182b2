//! The order in which the rules of a table are applied.

use crate::name_map;
use crate::name_map::NameMap;
use crate::search;
use crate::transformer::{RuleView, Transformers};
use vstd::prelude::*;

verus! {

/// A list of rules with the columns that they are for.
pub type TransformList = Vec<(String, Transformers)>;

/// The condition of being a rule whose column `order` does not list.
pub open spec fn off_list<V>(order: Seq<Seq<char>>) -> spec_fn((Seq<char>, V)) -> bool {
    |rule: (Seq<char>, V)| !order.contains(rule.0)
}

/// The rules whose columns `order` does not list, in their own order.
pub open spec fn unlisted<V>(rules: Seq<(Seq<char>, V)>, order: Seq<Seq<char>>) -> Seq<
    (Seq<char>, V),
> {
    rules.filter(off_list(order))
}

/// The rules whose columns `order` lists, in the order of their first mention.
pub open spec fn listed<V>(rules: Seq<(Seq<char>, V)>, order: Seq<Seq<char>>) -> Seq<
    (Seq<char>, V),
>
    decreases order.len(),
{
    if order.len() == 0 {
        Seq::empty()
    } else {
        let earlier = order.drop_last();
        let column = order.last();
        match name_map::lookup(rules, column) {
            Some(rule) if !earlier.contains(column) => listed(rules, earlier).push((column, rule)),
            _ => listed(rules, earlier),
        }
    }
}

/// The order in which rules are applied: first those whose columns `order` does
/// not list, then those that it lists, in its order.
pub open spec fn arranged<V>(rules: Seq<(Seq<char>, V)>, order: Seq<Seq<char>>) -> Seq<
    (Seq<char>, V),
> {
    unlisted(rules, order) + listed(rules, order)
}

/// Lists the rules in the order in which they are applied.
pub fn arrange(rules: &NameMap<Transformers>, order: &Vec<String>) -> (list: TransformList)
    ensures
        list.deep_view() == arranged(rules.deep_view(), order.deep_view()),
{
    let ghost all = rules.deep_view();
    let ghost names = order.deep_view();
    let ghost free = off_list::<RuleView>(names);
    let mut list: TransformList = Vec::new();
    let mut i: usize = 0;
    assert(list.deep_view() =~= all.take(0).filter(free)) by {
        reveal(Seq::filter);
    }
    while i < rules.len()
        invariant
            all == rules.deep_view(),
            names == order.deep_view(),
            free == off_list::<RuleView>(names),
            0 <= i <= all.len(),
            all.len() == rules@.len(),
            list.deep_view() == all.take(i as int).filter(free),
        decreases all.len() - i,
    {
        let entry = rules.entry(i);
        let found = search::find_position(order.as_slice(), entry.0.as_str());
        proof {
            search::lemma_position(names, entry.0@);
            assert(all[i as int] == (entry.0@, entry.1.deep_view()));
            assert(all.take(i + 1).drop_last() =~= all.take(i as int));
            reveal(Seq::filter);
        }
        if found.is_none() {
            let ghost before = list.deep_view();
            list.push((entry.0.clone(), entry.1.clone()));
            assert(list.deep_view() =~= before.push(all[i as int]));
        }
        i += 1;
    }
    assert(all.take(i as int) =~= all);
    let ghost first = list.deep_view();
    let mut j: usize = 0;
    assert(first =~= first + listed(all, names.take(0)));
    while j < order.len()
        invariant
            all == rules.deep_view(),
            names == order.deep_view(),
            0 <= j <= order@.len(),
            list.deep_view() == first + listed(all, names.take(j as int)),
        decreases order.len() - j,
    {
        let column: &String = &order[j];
        let found = search::find_position(order.as_slice(), column.as_str());
        let ghost earlier = names.take(j as int);
        proof {
            assert(names[j as int] == column@);
            assert(names.take(j + 1).drop_last() =~= earlier);
            search::lemma_position(names, column@);
            assert(earlier.contains(column@) <==> found->0 < j) by {
                if earlier.contains(column@) {
                    let k = choose|k: int| 0 <= k < earlier.len() && earlier[k] == column@;
                    assert(names[k] == column@);
                }
                if found->0 < j {
                    assert(earlier[found->0 as int] == column@);
                }
            }
        }
        let first_mention: bool = match found {
            Some(k) => k == j,
            None => false,
        };
        if first_mention {
            match rules.position(column.as_str()) {
                Some(k) => {
                    proof {
                        name_map::lemma_deep_lookup(*rules, column@);
                        name_map::lemma_key_index(rules@, column@);
                    }
                    let entry = rules.entry(k);
                    let ghost before = list.deep_view();
                    list.push((entry.0.clone(), entry.1.clone()));
                    assert(list.deep_view() =~= before.push((column@, entry.1.deep_view())));
                },
                None => {
                    proof {
                        name_map::lemma_deep_lookup(*rules, column@);
                    }
                },
            }
        }
        assert(list.deep_view() =~= first + listed(all, names.take(j + 1)));
        j += 1;
    }
    assert(names.take(j as int) =~= names);
    list
}

/// The rank of a column among the rules: the position at which `order` first
/// lists it; columns that it does not list come before all others.
pub open spec fn rank(order: Seq<Seq<char>>, column: Seq<char>) -> int {
    match search::position(order, column) {
        Some(i) => i,
        None => -1,
    }
}

/// A name that is in a list keeps its position when the list grows.
proof fn lemma_position_push(list: Seq<Seq<char>>, last: Seq<char>, name: Seq<char>)
    ensures
        list.contains(name) ==> search::position(list.push(last), name) == search::position(
            list,
            name,
        ),
        !list.contains(name) && name == last ==> search::position(list.push(last), name) == Some(
            list.len() as int,
        ),
{
    let longer = list.push(last);
    assert(longer.drop_last() =~= list);
    search::lemma_position(list, name);
}

/// Ranks grow along the listed rules.
proof fn lemma_listed_rank<V>(rules: Seq<(Seq<char>, V)>, order: Seq<Seq<char>>)
    ensures
        forall|i: int|
            0 <= i < listed(rules, order).len() ==> order.contains(
                (#[trigger] listed(rules, order)[i]).0,
            ),
        forall|i: int, j: int|
            0 <= i < j < listed(rules, order).len() ==> rank(
                order,
                (#[trigger] listed(rules, order)[i]).0,
            ) < rank(order, (#[trigger] listed(rules, order)[j]).0),
    decreases order.len(),
{
    if order.len() > 0 {
        let earlier = order.drop_last();
        let column = order.last();
        let out = listed(rules, order);
        let init = listed(rules, earlier);
        assert(earlier.push(column) =~= order);
        lemma_listed_rank(rules, earlier);
        assert forall|i: int| 0 <= i < init.len() implies order.contains(#[trigger] init[i].0)
            && rank(order, init[i].0) == rank(earlier, init[i].0) && rank(order, init[i].0)
            < earlier.len() by {
            let k = choose|k: int| 0 <= k < earlier.len() && earlier[k] == init[i].0;
            assert(order[k] == init[i].0);
            lemma_position_push(earlier, column, init[i].0);
            search::lemma_position(earlier, init[i].0);
        }
        lemma_position_push(earlier, column, column);
        assert(order[order.len() - 1] == column);
        assert forall|i: int, j: int| 0 <= i < j < out.len() implies rank(
            order,
            (#[trigger] out[i]).0,
        ) < rank(order, (#[trigger] out[j]).0) by {
            assert(out[i] == init[i]);
            if j < init.len() {
                assert(out[j] == init[j]);
            }
        }
        assert forall|i: int| 0 <= i < out.len() implies order.contains((#[trigger] out[i]).0) by {
            if i < init.len() {
                assert(out[i] == init[i]);
            }
        }
    }
}

/// What is found among the listed rules.
proof fn lemma_listed_lookup<V>(
    rules: Seq<(Seq<char>, V)>,
    order: Seq<Seq<char>>,
    column: Seq<char>,
)
    ensures
        name_map::lookup(listed(rules, order), column) == (if order.contains(column) {
            name_map::lookup(rules, column)
        } else {
            None
        }),
    decreases order.len(),
{
    if order.len() > 0 {
        let earlier = order.drop_last();
        let last = order.last();
        let init = listed(rules, earlier);
        assert(earlier.push(last) =~= order);
        assert(order[order.len() - 1] == last);
        lemma_listed_lookup(rules, earlier, column);
        lemma_listed_lookup(rules, earlier, last);
        assert(earlier.contains(column) ==> order.contains(column)) by {
            if earlier.contains(column) {
                let k = choose|k: int| 0 <= k < earlier.len() && earlier[k] == column;
                assert(order[k] == column);
            }
        }
        assert(order.contains(column) ==> earlier.contains(column) || column == last) by {
            if order.contains(column) {
                let k = choose|k: int| 0 <= k < order.len() && order[k] == column;
                if k < earlier.len() {
                    assert(earlier[k] == column);
                }
            }
        }
        match name_map::lookup(rules, last) {
            Some(rule) if !earlier.contains(last) => {
                name_map::lemma_key_index(init, last);
                assert(init.push((last, rule)) == name_map::upsert(init, last, rule));
                name_map::lemma_upsert_lookup(init, last, rule, column);
            },
            _ => {},
        }
    }
}

/// What is found in two lists of rules one after the other.
proof fn lemma_append_lookup<V>(
    a: Seq<(Seq<char>, V)>,
    b: Seq<(Seq<char>, V)>,
    column: Seq<char>,
)
    ensures
        name_map::lookup(a + b, column) == (match name_map::lookup(a, column) {
            Some(rule) => Some(rule),
            None => name_map::lookup(b, column),
        }),
{
    name_map::lemma_key_index(a, column);
    name_map::lemma_key_index(b, column);
    name_map::lemma_key_index(a + b, column);
    match name_map::key_index(a, column) {
        Some(i) => { name_map::lemma_key_index_at(a + b, column, i); },
        None => {
            match name_map::key_index(b, column) {
                Some(i) => {
                    assert((a + b)[a.len() + i] == b[i]);
                    assert forall|j: int| 0 <= j < a.len() + i implies (#[trigger] (a + b)[j]).0
                        != column by {
                        if j < a.len() {
                            assert((a + b)[j] == a[j]);
                        } else {
                            assert((a + b)[j] == b[j - a.len()]);
                        }
                    }
                    name_map::lemma_key_index_at(a + b, column, a.len() + i);
                },
                None => {
                    match name_map::key_index(a + b, column) {
                        Some(j) => {
                            if j < a.len() {
                                assert((a + b)[j] == a[j]);
                            } else {
                                assert((a + b)[j] == b[j - a.len()]);
                            }
                        },
                        None => {},
                    }
                },
            }
        },
    }
}

/// Rules are applied by rank: those of columns that are not listed first, the
/// others in the order in which their columns are first listed.
pub proof fn law_arranged_by_rank<V>(rules: Seq<(Seq<char>, V)>, order: Seq<Seq<char>>)
    ensures
        forall|i: int, j: int|
            0 <= i < j < arranged(rules, order).len() ==> {
                let left = rank(order, (#[trigger] arranged(rules, order)[i]).0);
                let right = rank(order, (#[trigger] arranged(rules, order)[j]).0);
                left < right || (left == -1 && right == -1)
            },
{
    let head = unlisted(rules, order);
    let tail = listed(rules, order);
    let out = arranged(rules, order);
    lemma_listed_rank(rules, order);
    assert forall|i: int| 0 <= i < head.len() implies rank(order, (#[trigger] head[i]).0)
        == -1 by {
        rules.lemma_filter_pred(off_list(order), i);
        search::lemma_position(order, head[i].0);
    }
    assert forall|i: int| 0 <= i < tail.len() implies rank(order, (#[trigger] tail[i]).0) >= 0 by {
        search::lemma_position(order, tail[i].0);
    }
    assert forall|i: int, j: int| 0 <= i < j < out.len() implies ({
        let left = rank(order, (#[trigger] out[i]).0);
        let right = rank(order, (#[trigger] out[j]).0);
        left < right || (left == -1 && right == -1)
    }) by {
        if i < head.len() {
            assert(out[i] == head[i]);
        } else {
            assert(out[i] == tail[i - head.len()]);
        }
        if j < head.len() {
            assert(out[j] == head[j]);
        } else {
            assert(out[j] == tail[j - head.len()]);
        }
    }
}

/// Arranging rules neither adds, loses nor changes any: the arranged list is a
/// permutation of the rules and gives the same rule for every column.
pub proof fn law_arranged_keeps_rules<V>(rules: Seq<(Seq<char>, V)>, order: Seq<Seq<char>>)
    requires
        name_map::distinct_keys(rules),
    ensures
        name_map::distinct_keys(arranged(rules, order)),
        forall|column: Seq<char>| #[trigger]
            name_map::lookup(arranged(rules, order), column) == name_map::lookup(rules, column),
        arranged(rules, order).to_multiset() == rules.to_multiset(),
        arranged(rules, order).len() == rules.len(),
{
    let head = unlisted(rules, order);
    let tail = listed(rules, order);
    let out = arranged(rules, order);
    let free = |column: Seq<char>| !order.contains(column);
    assert forall|column: Seq<char>| #[trigger] name_map::lookup(out, column) == name_map::lookup(
        rules,
        column,
    ) by {
        name_map::lemma_filter_lookup(rules, off_list(order), free, column);
        lemma_listed_lookup(rules, order, column);
        lemma_append_lookup(head, tail, column);
    }
    name_map::lemma_filter_lookup(rules, off_list(order), free, Seq::empty());
    lemma_listed_rank(rules, order);
    assert forall|i: int, j: int| 0 <= i < j < out.len() implies (#[trigger] out[i]).0 != (
    #[trigger] out[j]).0 by {
        if j < head.len() {
            assert(out[i] == head[i] && out[j] == head[j]);
        } else if i < head.len() {
            assert(out[i] == head[i]);
            rules.lemma_filter_pred(off_list(order), i);
            assert(out[j] == tail[j - head.len()]);
        } else {
            assert(out[i] == tail[i - head.len()] && out[j] == tail[j - head.len()]);
        }
    }
    name_map::lemma_same_entries(out, rules);
    broadcast use vstd::seq_lib::group_to_multiset_ensures;

    assert(out.to_multiset().len() == out.len());
    assert(rules.to_multiset().len() == rules.len());
}

/// Of two rules, one before the other: if the list has the column of the earlier one,
/// it has that of the later one too; and wherever it has that of the later one, it has
/// that of the earlier one before that place.
pub proof fn law_arranged_order<V>(rules: Seq<(Seq<char>, V)>, order: Seq<Seq<char>>, i: int, j: int)
    requires
        0 <= i < j < arranged(rules, order).len(),
        order.contains(arranged(rules, order)[i].0),
    ensures
        order.contains(arranged(rules, order)[j].0),
        forall|q: int|
            0 <= q < order.len() && #[trigger] order[q] == arranged(rules, order)[j].0 ==> exists|
                p: int,
            |
                0 <= p < q && #[trigger] order[p] == arranged(rules, order)[i].0,
{
    let left = arranged(rules, order)[i].0;
    let right = arranged(rules, order)[j].0;
    law_arranged_by_rank(rules, order);
    search::lemma_position(order, left);
    search::lemma_position(order, right);
    let p = search::position(order, left)->0;
    assert(rank(order, left) < rank(order, right));
    assert forall|q: int| 0 <= q < order.len() && #[trigger] order[q] == right implies exists|p: int|
        0 <= p < q && #[trigger] order[p] == left by {
        assert(order[p] == left);
    }
}

/// Arranging keeps every rule, and adds none: what is in the one list is in the other,
/// equally many, and no column comes twice.
pub proof fn law_arranged_contents<V>(
    rules: Seq<(Seq<char>, V)>,
    order: Seq<Seq<char>>,
    rule: (Seq<char>, V),
)
    requires
        forall|i: int, j: int|
            0 <= i < j < rules.len() ==> (#[trigger] rules[i]).0 != (#[trigger] rules[j]).0,
    ensures
        arranged(rules, order).len() == rules.len(),
        arranged(rules, order).contains(rule) <==> rules.contains(rule),
        forall|i: int, j: int|
            0 <= i < j < rules.len() ==> (#[trigger] arranged(rules, order)[i]).0 != (
            #[trigger] arranged(rules, order)[j]).0,
{
    law_arranged_keeps_rules(rules, order);
    broadcast use vstd::seq_lib::group_to_multiset_ensures;

    assert(arranged(rules, order).to_multiset().count(rule) == rules.to_multiset().count(rule));
}

} // verus!
