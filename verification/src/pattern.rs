//! Wildcard patterns for table names.

use vstd::prelude::*;
use wildmatch::WildMatch;

verus! {

/// Whether a pattern holds `*` or `?`.
pub open spec fn has_wildcard(pattern: Seq<char>) -> bool {
    pattern.contains('*') || pattern.contains('?')
}

/// Whether `pattern` covers the whole of `input`: `*` stands for any run of
/// characters, the empty one included, `?` for exactly one character, and every
/// other character for itself.
pub open spec fn covers(pattern: Seq<char>, input: Seq<char>) -> bool
    decreases pattern.len(), input.len(),
{
    if pattern.len() == 0 {
        input.len() == 0
    } else if pattern[0] == '*' {
        ||| covers(pattern.drop_first(), input)
        ||| input.len() > 0 && covers(pattern, input.drop_first())
    } else {
        &&& input.len() > 0
        &&& pattern[0] == '?' || pattern[0] == input[0]
        &&& covers(pattern.drop_first(), input.drop_first())
    }
}

/// Whether `pattern` covers one of `names`.
pub open spec fn covers_any(pattern: Seq<char>, names: Seq<Seq<char>>) -> bool {
    exists|n: int| 0 <= n < names.len() && covers(pattern, #[trigger] names[n])
}

/// Calls `wildmatch::WildMatch::new` and `WildMatch::matches`.
///
/// Trusted: the matcher made from `pattern` accepts `input` exactly when the
/// pattern covers the whole of it, case included, as that crate documents: `?` is
/// one character, `*` any number of them, and nothing escapes either.
#[verifier::external_body]
fn wild_match(pattern: &str, input: &str) -> (matched: bool)
    ensures
        matched == covers(pattern@, input@),
{
    WildMatch::new(pattern).matches(input)
}

/// Whether a pattern holds `*` or `?`.
pub fn is_wild(pattern: &str) -> (wild: bool)
    ensures
        wild == has_wildcard(pattern@),
{
    let mut wild: bool = false;
    for c in iter: pattern.chars()
        invariant
            iter.seq() == pattern@,
            wild <==> exists|j: int|
                0 <= j < iter.index() && (#[trigger] pattern@[j] == '*' || pattern@[j] == '?'),
    {
        assert(c == pattern@[iter.index() as int]);
        if c == '*' || c == '?' {
            wild = true;
        }
    }
    wild
}

/// Whether a pattern covers one of the names.
pub fn matches_any(pattern: &str, names: &[&str]) -> (matched: bool)
    ensures
        matched == covers_any(pattern@, names.deep_view()),
{
    let mut n: usize = 0;
    while n < names.len()
        invariant
            0 <= n <= names@.len(),
            forall|k: int| 0 <= k < n ==> !covers(pattern@, #[trigger] names.deep_view()[k]),
        decreases names.len() - n,
    {
        assert(names.deep_view()[n as int] == names@[n as int]@);
        if wild_match(pattern, names[n]) {
            return true;
        }
        n += 1;
    }
    false
}

/// A pattern without wildcards covers itself and nothing else.
pub proof fn law_plain_pattern_covers_itself(pattern: Seq<char>, input: Seq<char>)
    requires
        !has_wildcard(pattern),
    ensures
        covers(pattern, input) <==> pattern == input,
    decreases pattern.len(),
{
    if pattern.len() == 0 {
        assert(pattern == input <==> input.len() == 0) by {
            if input.len() == 0 {
                assert(pattern =~= input);
            }
        }
    } else {
        assert(pattern.contains(pattern[0]));
        let rest = pattern.drop_first();
        assert forall|i: int| 0 <= i < rest.len() implies rest[i] != '*' && rest[i] != '?' by {
            assert(pattern[i + 1] == rest[i]);
            assert(pattern.contains(pattern[i + 1]));
        }
        if input.len() > 0 {
            law_plain_pattern_covers_itself(rest, input.drop_first());
            assert(pattern =~= seq![pattern[0]] + rest);
            assert(input =~= seq![input[0]] + input.drop_first());
        }
    }
}

/// The pattern `*` covers every name.
pub proof fn law_star_covers_everything(input: Seq<char>)
    ensures
        covers(seq!['*'], input),
    decreases input.len(),
{
    let star = seq!['*'];
    if input.len() == 0 {
        assert(star.drop_first() =~= Seq::<char>::empty());
        assert(covers(star.drop_first(), input));
    } else {
        law_star_covers_everything(input.drop_first());
    }
}

/// The pattern `?` covers the names of one character.
pub proof fn law_question_mark_covers_one_character(input: Seq<char>)
    ensures
        covers(seq!['?'], input) <==> input.len() == 1,
{
    let mark = seq!['?'];
    assert(mark.drop_first() =~= Seq::<char>::empty());
    assert(covers(mark, input) <==> input.len() > 0 && covers(
        mark.drop_first(),
        input.drop_first(),
    ));
}

/// A prefix followed by `*` covers exactly the names that begin with the prefix.
pub proof fn law_prefix_pattern(prefix: Seq<char>, input: Seq<char>)
    requires
        !has_wildcard(prefix),
    ensures
        covers(prefix.push('*'), input) <==> prefix.is_prefix_of(input),
    decreases prefix.len(),
{
    let pattern = prefix.push('*');
    if prefix.len() == 0 {
        assert(pattern =~= seq!['*']);
        law_star_covers_everything(input);
        assert(prefix =~= input.take(0));
    } else {
        assert(prefix.contains(prefix[0]));
        let rest = prefix.drop_first();
        assert(pattern.drop_first() =~= rest.push('*'));
        assert forall|i: int| 0 <= i < rest.len() implies rest[i] != '*' && rest[i] != '?' by {
            assert(prefix[i + 1] == rest[i]);
            assert(prefix.contains(prefix[i + 1]));
        }
        if input.len() > 0 {
            let tail = input.drop_first();
            law_prefix_pattern(rest, tail);
            if prefix.is_prefix_of(input) {
                assert(rest =~= tail.take(rest.len() as int));
            }
            if rest.is_prefix_of(tail) && prefix[0] == input[0] {
                assert forall|i: int| 0 <= i < prefix.len() implies prefix[i] == input[i] by {
                    if i > 0 {
                        assert(rest[i - 1] == tail[i - 1]);
                    }
                }
                assert(prefix =~= input.take(prefix.len() as int));
            }
        }
    }
}

/// A pattern holds a wildcard exactly if one of its characters is `*` or `?`.
pub proof fn law_wildcard_characters(pattern: Seq<char>)
    ensures
        has_wildcard(pattern) <==> exists|i: int|
            0 <= i < pattern.len() && (#[trigger] pattern[i] == '*' || pattern[i] == '?'),
{
}

/// The empty pattern covers the empty name alone.
pub proof fn law_empty_pattern(input: Seq<char>)
    ensures
        covers(Seq::empty(), input) <==> input.len() == 0,
{
}

/// `*` before a pattern lets it cover a name from any place on, the end included.
pub proof fn law_star_then(rest: Seq<char>, input: Seq<char>)
    ensures
        covers(seq!['*'] + rest, input) <==> exists|k: int|
            0 <= k <= input.len() && covers(rest, #[trigger] input.skip(k)),
    decreases input.len(),
{
    let pattern = seq!['*'] + rest;
    assert(pattern.drop_first() =~= rest);
    assert(input.skip(0) =~= input);
    if input.len() > 0 {
        let tail = input.drop_first();
        law_star_then(rest, tail);
        if covers(pattern, tail) {
            let k = choose|k: int| 0 <= k <= tail.len() && covers(rest, #[trigger] tail.skip(k));
            assert(input.skip(k + 1) =~= tail.skip(k));
        }
        if exists|k: int| 0 <= k <= input.len() && covers(rest, #[trigger] input.skip(k)) {
            let k = choose|k: int| 0 <= k <= input.len() && covers(rest, #[trigger] input.skip(k));
            if k > 0 {
                assert(tail.skip(k - 1) =~= input.skip(k));
            }
        }
    } else if exists|k: int| 0 <= k <= input.len() && covers(rest, #[trigger] input.skip(k)) {
        let k = choose|k: int| 0 <= k <= input.len() && covers(rest, #[trigger] input.skip(k));
        assert(k == 0);
    }
}

/// Any other character before a pattern takes up one character of a name: `?` takes
/// any, and the others take themselves.
pub proof fn law_character_then(c: char, rest: Seq<char>, input: Seq<char>)
    requires
        c != '*',
    ensures
        covers(seq![c] + rest, input) <==> {
            &&& input.len() > 0
            &&& c == '?' || c == input[0]
            &&& covers(rest, input.skip(1))
        },
{
    let pattern = seq![c] + rest;
    assert(pattern.drop_first() =~= rest);
    if input.len() > 0 {
        assert(input.drop_first() =~= input.skip(1));
    }
}

/// A pattern covers one of several names exactly if there is one that it covers.
pub proof fn law_covers_any(pattern: Seq<char>, names: Seq<Seq<char>>)
    ensures
        covers_any(pattern, names) <==> exists|n: int|
            0 <= n < names.len() && covers(pattern, #[trigger] names[n]),
{
}

} // verus!
