//! The first element of a sequence that meets a condition.

use crate::text::same_text;
use vstd::prelude::*;

verus! {

/// The position of the first element that meets `p`, if one does.
pub open spec fn first_index<A>(s: Seq<A>, p: spec_fn(A) -> bool) -> Option<int>
    decreases s.len(),
{
    if s.len() == 0 {
        None
    } else {
        match first_index(s.drop_last(), p) {
            Some(i) => Some(i),
            None => if p(s.last()) {
                Some(s.len() - 1)
            } else {
                None
            },
        }
    }
}

/// What `first_index` gives, told by the elements.
pub proof fn lemma_first_index<A>(s: Seq<A>, p: spec_fn(A) -> bool)
    ensures
        match first_index(s, p) {
            Some(i) => {
                &&& 0 <= i < s.len()
                &&& p(s[i])
                &&& forall|j: int| 0 <= j < i ==> !p(#[trigger] s[j])
            },
            None => forall|j: int| 0 <= j < s.len() ==> !p(#[trigger] s[j]),
        },
    decreases s.len(),
{
    if s.len() > 0 {
        let init = s.drop_last();
        lemma_first_index(init, p);
        assert forall|j: int| 0 <= j < init.len() implies init[j] == #[trigger] s[j] by {}
    }
}

/// An element that meets `p`, where no earlier one does, is the first.
pub proof fn lemma_first_index_at<A>(s: Seq<A>, p: spec_fn(A) -> bool, i: int)
    requires
        0 <= i < s.len(),
        p(s[i]),
        forall|j: int| 0 <= j < i ==> !p(#[trigger] s[j]),
    ensures
        first_index(s, p) == Some(i),
{
    lemma_first_index(s, p);
}

/// Where no element meets `p`, there is no first one.
pub proof fn lemma_first_index_none<A>(s: Seq<A>, p: spec_fn(A) -> bool)
    requires
        forall|j: int| 0 <= j < s.len() ==> !p(#[trigger] s[j]),
    ensures
        first_index(s, p) is None,
{
    lemma_first_index(s, p);
}

/// The condition of being a given name.
pub open spec fn is_name(name: Seq<char>) -> spec_fn(Seq<char>) -> bool {
    |n: Seq<char>| n == name
}

/// The position at which a name first stands in a list.
pub open spec fn position(list: Seq<Seq<char>>, name: Seq<char>) -> Option<int> {
    first_index(list, is_name(name))
}

/// What `position` gives, told by the names.
pub proof fn lemma_position(list: Seq<Seq<char>>, name: Seq<char>)
    ensures
        match position(list, name) {
            Some(i) => {
                &&& 0 <= i < list.len()
                &&& list[i] == name
                &&& forall|j: int| 0 <= j < i ==> #[trigger] list[j] != name
            },
            None => !list.contains(name),
        },
{
    lemma_first_index(list, is_name(name));
}

/// Finds the position at which a name first stands in a list.
pub fn find_position(list: &[String], name: &str) -> (found: Option<usize>)
    ensures
        match found {
            Some(i) => position(list.deep_view(), name@) == Some(i as int),
            None => position(list.deep_view(), name@) is None,
        },
{
    let mut i: usize = 0;
    while i < list.len()
        invariant
            0 <= i <= list@.len(),
            forall|j: int| 0 <= j < i ==> #[trigger] list.deep_view()[j] != name@,
        decreases list.len() - i,
    {
        assert(list.deep_view()[i as int] == list@[i as int]@);
        if same_text(list[i].as_str(), name) {
            proof {
                lemma_first_index_at(list.deep_view(), is_name(name@), i as int);
            }
            return Some(i);
        }
        i += 1;
    }
    proof {
        lemma_first_index_none(list.deep_view(), is_name(name@));
    }
    None
}

} // verus!
