//! Patterns with wildcards.

use datanymizer_settings::pattern::{is_wild, matches_any};
use datanymizer_settings::{NameMap, Table};

/// The definition of covering, run as it stands.
fn covers(pattern: &[char], input: &[char]) -> bool {
    if pattern.is_empty() {
        input.is_empty()
    } else if pattern[0] == '*' {
        covers(&pattern[1..], input) || (!input.is_empty() && covers(pattern, &input[1..]))
    } else {
        !input.is_empty()
            && (pattern[0] == '?' || pattern[0] == input[0])
            && covers(&pattern[1..], &input[1..])
    }
}

fn strings_over(alphabet: &[char], max: usize) -> Vec<String> {
    let mut all = vec![String::new()];
    let mut last = vec![String::new()];
    for _ in 0..max {
        let mut next = vec![];
        for s in &last {
            for c in alphabet {
                let mut longer = s.clone();
                longer.push(*c);
                next.push(longer);
            }
        }
        all.extend(next.iter().cloned());
        last = next;
    }
    all
}

#[test]
fn short_patterns_cover_what_they_should() {
    let inputs = strings_over(&['a', 'é', '*'], 4);
    for pattern in strings_over(&['a', 'é', '*', '?'], 4) {
        let p: Vec<char> = pattern.chars().collect();
        for input in &inputs {
            let i: Vec<char> = input.chars().collect();
            assert_eq!(
                matches_any(&pattern, &[input.as_str()]),
                covers(&p, &i),
                "{:?} {:?}",
                pattern,
                input
            );
        }
    }
}

#[test]
fn known_matches() {
    assert!(matches_any("*", &["anything"]));
    assert!(matches_any("*", &[""]));
    assert!(matches_any("public.*", &["public.users"]));
    assert!(matches_any("public.*", &["public."]));
    assert!(!matches_any("public.*", &["public"]));
    assert!(!matches_any("public.*", &["Public.users"]));
    assert!(matches_any("*users*", &["public.users_old"]));
    assert!(matches_any("u?ers", &["users"]));
    assert!(!matches_any("u?ers", &["uers"]));
    assert!(matches_any("?", &["ж"]));
    assert!(!matches_any("?", &[""]));
    assert!(!matches_any("?", &["ab"]));
}

#[test]
fn plain_pattern_covers_only_itself() {
    assert!(matches_any("users", &["users"]));
    assert!(!matches_any("users", &["users2"]));
    assert!(!matches_any("users", &["Users"]));
    assert!(matches_any("", &[""]));
    assert!(!matches_any("", &["a"]));
}

#[test]
fn any_of_the_names_is_enough() {
    assert!(matches_any("u*", &["public.users", "users"]));
    assert!(!matches_any("u*", &["public.orders", "orders"]));
    assert!(!matches_any("*", &[]));
}

#[test]
fn wildcard_characters() {
    assert!(is_wild("*"));
    assert!(is_wild("a?c"));
    assert!(is_wild("abc*"));
    assert!(!is_wild(""));
    assert!(!is_wild("a.b_c%"));
}

fn entry(name: &str, names: Option<Vec<&str>>) -> Table {
    Table {
        name: name.to_string(),
        names: names.map(|list| list.iter().map(|n| n.to_string()).collect()),
        rules: NameMap::new(),
        rule_order: None,
        query: None,
        asserts: vec![],
    }
}

#[test]
fn patterns_of_an_entry() {
    assert_eq!(entry("users", None).patterns(), vec!["users"]);
    assert_eq!(entry("", Some(vec!["a", "b*"])).patterns(), vec!["a", "b*"]);
    assert_eq!(entry("users", Some(vec![])).patterns(), vec!["users"]);
    assert!(!entry("users", None).has_wildcards());
    assert!(entry("", Some(vec!["a", "b*"])).has_wildcards());
    assert!(entry("publi?.users", None).has_wildcards());
}

#[test]
fn entries_name_tables_outright_or_by_wildcard() {
    let mixed = entry("", Some(vec!["users", "log_*"]));
    assert!(mixed.is_named("users"));
    assert!(!mixed.is_named("log_*"));
    assert!(!mixed.is_named("log_2024"));
    assert!(mixed.is_covered(&["log_2024"]));
    assert!(!mixed.is_covered(&["users"]));
    assert!(!entry("", None).is_named(""));
}
