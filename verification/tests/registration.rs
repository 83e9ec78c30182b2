//! Settings that are made ready, and tables that are registered with them.

use datanymizer_settings::matching::{find_specific, find_wildcard};
use datanymizer_settings::{
    Assert, AssertExpectation, AssertScope, CompanyNameTransformer, Filter,
    FirstNameTransformer, LastNameTransformer, LocaleConfig, NameMap, PersonNameTransformer,
    Settings, SettingsError, Table, TableList, TemplateTransformer, TemplatesCollection,
    TransformerDefaults, TransformerInitContext, Transformers,
};

fn person() -> Transformers {
    Transformers::PersonName(PersonNameTransformer { locale: None })
}

fn first() -> Transformers {
    Transformers::FirstName(FirstNameTransformer { locale: None })
}

fn rules(columns: &[(&str, Transformers)]) -> NameMap<Transformers> {
    let mut map = NameMap::new();
    for (column, rule) in columns {
        map.insert(column.to_string(), rule.clone());
    }
    map
}

fn strings(list: &[&str]) -> Vec<String> {
    list.iter().map(|s| s.to_string()).collect()
}

fn named(name: &str, columns: &[(&str, Transformers)]) -> Table {
    Table {
        name: name.to_string(),
        names: None,
        rules: rules(columns),
        rule_order: None,
        query: None,
        asserts: vec![],
    }
}

fn listing(names: &[&str], columns: &[(&str, Transformers)]) -> Table {
    Table {
        names: Some(strings(names)),
        ..named("", columns)
    }
}

fn parsed(tables: Vec<Table>) -> Settings {
    Settings {
        tables,
        table_order: vec![],
        default: TransformerDefaults::default(),
        filter: Filter::default(),
        asserts: vec![],
        globals: None,
        templates: None,
        transform_map: None,
    }
}

fn ready(tables: Vec<Table>) -> Settings {
    Settings::from_source(parsed(tables)).unwrap()
}

fn kept(s: &Settings, key: &str) -> Option<Vec<String>> {
    s.transformers_for(key)
        .map(|list| list.iter().map(|(column, _)| column.clone()).collect())
}

fn localized(t: &Transformers) -> Option<LocaleConfig> {
    match t {
        Transformers::PersonName(t) => t.locale,
        Transformers::FirstName(t) => t.locale,
        Transformers::LastName(t) => t.locale,
        Transformers::CompanyName(t) => t.locale,
        Transformers::Template(_) => None,
    }
}

#[test]
fn first_entry_at_fault_is_told() {
    let both = Table {
        names: Some(strings(&["b"])),
        ..named("a", &[])
    };
    let error = Settings::from_source(parsed(vec![named("x", &[]), both.clone(), named("", &[])]))
        .unwrap_err();
    assert_eq!(error, SettingsError::BothNameAndNames { table: 1 });
    assert_eq!(
        error.message(),
        "tables[1]: cannot specify both `name` and `names` — use one or the other"
    );

    let error = Settings::from_source(parsed(vec![named("", &[]), both])).unwrap_err();
    assert_eq!(error, SettingsError::NeitherNameNorNames { table: 0 });
    assert_eq!(
        error.message(),
        "tables[0]: must specify either `name` or `names`"
    );
}

#[test]
fn positions_are_written_in_decimal() {
    for i in [0, 9, 10, 99, 100, 1234567890, usize::MAX] {
        let error = SettingsError::NeitherNameNorNames { table: i };
        assert_eq!(
            error.message(),
            format!("tables[{}]: must specify either `name` or `names`", i)
        );
    }
}

#[test]
fn empty_names_list_counts_as_none() {
    let entry = Table {
        names: Some(vec![]),
        ..named("users", &[("a", person())])
    };
    let s = ready(vec![entry]);
    assert_eq!(s.find_table(&["users"]).unwrap().name, "users");
    assert_eq!(kept(&s, "users"), None);
}

#[test]
fn the_rest_of_the_settings_is_kept() {
    let s = Settings::from_source(Settings {
        table_order: strings(&["b", "a"]),
        filter: Filter {
            schema: Some(TableList::Only(strings(&["a"]))),
            data: None,
        },
        globals: Some({
            let mut globals = NameMap::new();
            globals.insert("salt".to_string(), serde_json::Value::from("x"));
            globals
        }),
        ..parsed(vec![])
    })
    .unwrap();
    assert_eq!(s.table_order, strings(&["b", "a"]));
    assert_eq!(s.filter.schema, Some(TableList::Only(strings(&["a"]))));
    assert_eq!(s.filter.data, None);
    assert_eq!(
        s.globals.unwrap().get("salt"),
        Some(&serde_json::Value::from("x"))
    );
}

#[test]
fn default_locale_reaches_every_rule_without_one() {
    let mut settings = parsed(vec![named(
        "t",
        &[
            ("p", person()),
            ("f", first()),
            (
                "l",
                Transformers::LastName(LastNameTransformer { locale: None }),
            ),
            (
                "c",
                Transformers::CompanyName(CompanyNameTransformer { locale: None }),
            ),
            (
                "own",
                Transformers::LastName(LastNameTransformer {
                    locale: Some(LocaleConfig::EN),
                }),
            ),
        ],
    )]);
    settings.default = TransformerDefaults {
        locale: LocaleConfig::RU,
    };
    let s = Settings::from_source(settings).unwrap();
    let rules = &s.tables[0].rules;
    for column in ["p", "f", "l", "c"] {
        assert_eq!(
            localized(rules.get(column).unwrap()),
            Some(LocaleConfig::RU)
        );
    }
    assert_eq!(
        localized(rules.get("own").unwrap()),
        Some(LocaleConfig::EN)
    );
    assert_eq!(TransformerDefaults::default().locale, LocaleConfig::EN);
}

#[test]
fn templates_reach_template_rules() {
    let mut raw = NameMap::new();
    raw.insert("base".to_string(), "hello".to_string());
    let collection = TemplatesCollection {
        raw: Some(raw),
        files: Some(strings(&["./a"])),
    };
    let rule = Transformers::Template(TemplateTransformer {
        format: "{{ x }}".to_string(),
        templates: TemplatesCollection::default(),
    });
    let mut settings = parsed(vec![named("t", &[("x", rule)])]);
    settings.templates = Some(collection.clone());
    let s = Settings::from_source(settings).unwrap();
    assert_eq!(
        *s.tables[0].rules.get("x").unwrap(),
        Transformers::Template(TemplateTransformer {
            format: "{{ x }}".to_string(),
            templates: collection,
        })
    );
}

#[test]
fn preparing_a_rule_twice_changes_nothing() {
    let ctx = TransformerInitContext::from_defaults(TransformerDefaults {
        locale: LocaleConfig::RU,
    });
    let mut once = person();
    once.init(&ctx);
    let mut twice = once.clone();
    twice.init(&ctx);
    assert_eq!(once, twice);
}

#[test]
fn only_plain_names_are_resolved_at_load() {
    let s = ready(vec![
        named("users", &[("a", person())]),
        named("log_*", &[("b", person())]),
        listing(&["x"], &[("c", person())]),
        named("users", &[("d", person())]),
        named("bare", &[]),
    ]);
    assert_eq!(kept(&s, "users"), Some(strings(&["d"])));
    assert_eq!(kept(&s, "log_*"), None);
    assert_eq!(kept(&s, "x"), None);
    assert_eq!(kept(&s, ""), None);
    assert_eq!(kept(&s, "bare"), Some(vec![]));
}

#[test]
fn get_table_goes_by_the_name_field() {
    let s = ready(vec![
        named("log_*", &[]),
        named("users", &[("a", person())]),
        named("users", &[("b", person())]),
    ]);
    assert!(s.get_table("users").unwrap().rules.get("a").is_some());
    assert!(s.get_table("log_*").is_some());
    assert!(s.get_table("log_1").is_none());
}

#[test]
fn candidates_go_before_entries_for_specific_matches() {
    let s = ready(vec![
        named("users", &[("short", person())]),
        listing(&["public.users"], &[("full", person())]),
    ]);
    let found = s.find_table(&["public.users", "users"]).unwrap();
    assert!(found.rules.get("full").is_some());
    let found = s.find_table(&["users", "public.users"]).unwrap();
    assert!(found.rules.get("short").is_some());
}

#[test]
fn reordered_candidates_find_the_same_wildcard_entry() {
    let tables = vec![
        named("users", &[("short", person())]),
        listing(&["public.users"], &[("full", person())]),
        named("*.users", &[("first", person())]),
        named("us*", &[("second", person())]),
    ];
    let one = ["public.users", "users"];
    let other = ["users", "public.users"];
    for names in [&one, &other] {
        let wildcard = find_wildcard(&tables, names).unwrap();
        assert!(wildcard.rules.get("first").is_some());
    }
    assert!(find_specific(&tables, &one).unwrap().rules.get("full").is_some());
    assert!(find_specific(&tables, &other).unwrap().rules.get("short").is_some());
    for names in [["public.x", "x"], ["x", "public.x"]] {
        assert!(find_wildcard(&tables, &names).is_none());
        assert!(find_specific(&tables, &names).is_none());
    }
}

#[test]
fn more_candidates_keep_the_specific_entry_and_bring_the_wildcard_one_forward() {
    let tables = vec![
        named("orders", &[]),
        named("ord*", &[]),
        named("users", &[]),
        named("us*", &[]),
    ];
    let fewer = ["users"];
    let more = ["users", "orders"];
    assert_eq!(find_specific(&tables, &fewer).unwrap().name, "users");
    assert_eq!(find_specific(&tables, &more).unwrap().name, "users");
    assert_eq!(find_wildcard(&tables, &fewer).unwrap().name, "us*");
    assert_eq!(find_wildcard(&tables, &more).unwrap().name, "ord*");
    assert_eq!(find_wildcard(&tables, &["users", "x"]).unwrap().name, "us*");
}

#[test]
fn keys() {
    let s = ready(vec![
        named("users", &[]),
        listing(&["public.orders"], &[]),
        named("log_*", &[]),
    ]);
    assert_eq!(
        s.transform_key("public.users", &["public.users", "users"]),
        Some("users".to_string())
    );
    assert_eq!(
        s.transform_key("public.orders", &["public.orders", "orders"]),
        Some("public.orders".to_string())
    );
    assert_eq!(
        s.transform_key("public.log_1", &["public.log_1", "log_1"]),
        Some("public.log_1".to_string())
    );
    assert_eq!(s.transform_key("public.x", &["public.x", "x"]), None);
    assert_eq!(s.transform_key("public.x", &[]), None);
}

#[test]
fn listed_columns_come_last_in_their_order() {
    let entry = Table {
        rule_order: Some(strings(&["d", "missing", "b", "d"])),
        ..named(
            "t",
            &[
                ("a", person()),
                ("b", person()),
                ("c", person()),
                ("d", person()),
            ],
        )
    };
    let s = ready(vec![entry.clone()]);
    assert_eq!(kept(&s, "t"), Some(strings(&["a", "c", "d", "b"])));
    let columns: Vec<String> = entry.transform_list().into_iter().map(|r| r.0).collect();
    assert_eq!(columns, strings(&["a", "c", "d", "b"]));
}

#[test]
fn merged_order_is_that_of_the_specific_entry_if_it_has_one() {
    let wild = Table {
        rule_order: Some(strings(&["name"])),
        ..named("*", &[("email", first())])
    };
    let plain = named("users", &[("name", person()), ("x", person())]);
    let columns = strings(&["email"]);

    let mut s = ready(vec![wild.clone(), plain.clone()]);
    s.register_table_transforms("public.users", "users", &columns);
    assert_eq!(kept(&s, "users"), Some(strings(&["email", "x", "name"])));

    let ordered = Table {
        rule_order: Some(strings(&["email"])),
        ..plain.clone()
    };
    let mut s = ready(vec![wild.clone(), ordered]);
    s.register_table_transforms("public.users", "users", &columns);
    assert_eq!(kept(&s, "users"), Some(strings(&["name", "x", "email"])));

    let unordered = Table {
        rule_order: Some(vec![]),
        ..plain
    };
    let mut s = ready(vec![wild, unordered]);
    s.register_table_transforms("public.users", "users", &columns);
    assert_eq!(kept(&s, "users"), Some(strings(&["email", "name", "x"])));
}

#[test]
fn specific_rules_win_and_need_no_column() {
    let mut s = ready(vec![
        named("*", &[("email", first()), ("phone", first()), ("gone", first())]),
        named("users", &[("email", person()), ("other", person())]),
    ]);
    s.register_table_transforms("public.users", "users", &strings(&["email", "phone"]));
    let list = s.transformers_for("users").unwrap();
    let shown: Vec<(&str, bool)> = list
        .iter()
        .map(|(c, t)| (c.as_str(), matches!(t, Transformers::PersonName(_))))
        .collect();
    assert_eq!(
        shown,
        vec![("email", true), ("phone", false), ("other", true)]
    );
}

#[test]
fn tables_without_rules_are_not_registered() {
    let mut s = ready(vec![named("log_*", &[("email", person())])]);
    s.register_table_transforms("public.users", "users", &strings(&["email"]));
    assert_eq!(kept(&s, "public.users"), None);
    s.register_table_transforms("public.log_1", "log_1", &strings(&["id"]));
    assert_eq!(kept(&s, "public.log_1"), None);
    assert!(s.transform_map.unwrap().is_empty());
}

#[test]
fn registering_before_the_settings_are_ready() {
    let mut s = parsed(vec![named("users", &[("a", person())])]);
    s.register_table_transforms("public.users", "users", &[]);
    assert_eq!(kept(&s, "users"), Some(strings(&["a"])));
}

#[test]
fn registering_twice_changes_nothing() {
    let mut s = ready(vec![
        named("*", &[("email", first())]),
        named("users", &[("name", person())]),
    ]);
    let columns = strings(&["email", "name"]);
    s.register_table_transforms("public.users", "users", &columns);
    let once = s.transform_map.clone();
    s.register_table_transforms("public.users", "users", &columns);
    assert_eq!(s.transform_map, once);
}

#[test]
fn registrations_under_other_keys_are_left_alone() {
    let mut s = ready(vec![named("*", &[("email", first()), ("phone", first())])]);
    s.register_table_transforms("public.a", "a", &strings(&["email"]));
    s.register_table_transforms("public.b", "b", &strings(&["phone"]));
    assert_eq!(kept(&s, "public.a"), Some(strings(&["email"])));
    assert_eq!(kept(&s, "public.b"), Some(strings(&["phone"])));

    let mut other = ready(vec![named("*", &[("email", first()), ("phone", first())])]);
    other.register_table_transforms("public.b", "b", &strings(&["phone"]));
    other.register_table_transforms("public.a", "a", &strings(&["email"]));
    assert_eq!(kept(&other, "public.a"), kept(&s, "public.a"));
    assert_eq!(kept(&other, "public.b"), kept(&s, "public.b"));
}

#[test]
fn dry_run_shows_labels_and_columns() {
    let mut s = ready(vec![
        named("public.*", &[("email", first())]),
        named("users", &[("name", person())]),
        listing(&["z*", "orders"], &[("total", person())]),
        named("silent", &[]),
    ]);
    let users = ["public.users", "users"];
    let orders = ["main.orders", "orders"];

    assert_eq!(
        s.dry_run_info("public.users", &users),
        Some(("users + public.*".to_string(), strings(&["name"])))
    );
    assert_eq!(s.dry_run_info("main.orders", &orders), None);

    s.register_table_transforms("public.users", "users", &strings(&["email"]));
    s.register_table_transforms("main.orders", "orders", &[]);
    s.register_table_transforms("public.logs", "logs", &strings(&["email"]));

    assert_eq!(
        s.dry_run_info("public.users", &users),
        Some(("users + public.*".to_string(), strings(&["email", "name"])))
    );
    assert_eq!(
        s.dry_run_info("main.orders", &orders),
        Some(("orders".to_string(), strings(&["total"])))
    );
    assert_eq!(
        s.dry_run_info("public.logs", &["public.logs", "logs"]),
        Some(("public.*".to_string(), strings(&["email"])))
    );
    assert_eq!(s.dry_run_info("main.silent", &["main.silent", "silent"]), None);
    assert_eq!(s.dry_run_info("main.none", &["main.none", "none"]), None);
}

#[test]
fn dry_run_of_one_entry_that_matches_both_ways() {
    let mut s = ready(vec![listing(&["us*", "users"], &[("a", person())])]);
    s.register_table_transforms("public.users", "users", &[]);
    assert_eq!(
        s.dry_run_info("public.users", &["public.users", "users"]),
        Some(("us* + us*".to_string(), strings(&["a"])))
    );
}

#[test]
fn assertions_come_global_first_then_by_table() {
    let check = |name: &str| Assert {
        name: name.to_string(),
        sql: "select 1".to_string(),
        expect: AssertExpectation::NoRows,
    };
    let mut settings = parsed(vec![
        Table {
            asserts: vec![check("a1"), check("a2")],
            ..named("a", &[])
        },
        named("b", &[]),
        Table {
            asserts: vec![check("c1")],
            ..named("c", &[])
        },
    ]);
    settings.asserts = vec![check("g1"), check("g2")];
    let s = Settings::from_source(settings).unwrap();
    let shown: Vec<(&str, &str)> = s
        .all_asserts()
        .iter()
        .map(|scope| (scope.scope_name(), scope.assertion().name.as_str()))
        .collect();
    assert_eq!(
        shown,
        vec![
            ("global", "g1"),
            ("global", "g2"),
            ("a", "a1"),
            ("a", "a2"),
            ("c", "c1"),
        ]
    );
    assert!(matches!(s.all_asserts()[0], AssertScope::Global(_)));
    assert!(matches!(s.all_asserts()[2], AssertScope::Table(_)));
}

#[test]
fn name_map_keeps_names_distinct_and_in_order() {
    let mut map = NameMap::new();
    assert!(map.is_empty());
    map.insert("b".to_string(), 1);
    map.insert("a".to_string(), 2);
    map.insert("b".to_string(), 3);
    assert_eq!(map.len(), 2);
    assert_eq!(*map.entry(0), ("b".to_string(), 3));
    assert_eq!(*map.entry(1), ("a".to_string(), 2));
    assert_eq!(map.get("a"), Some(&2));
    assert_eq!(map.get("c"), None);
    assert_eq!(map.position("a"), Some(1));
    map.set_value(1, 5);
    assert_eq!(map.get("a"), Some(&5));
    assert_eq!(map.clone(), map);
}

#[test]
fn name_maps_are_equal_in_whichever_order() {
    let map = |entries: &[(&str, u8)]| {
        let mut map = NameMap::new();
        for (name, value) in entries {
            map.insert(name.to_string(), *value);
        }
        map
    };
    let ab = map(&[("a", 1), ("b", 2)]);
    assert_eq!(ab, map(&[("b", 2), ("a", 1)]));
    assert_eq!(ab, map(&[("b", 1), ("a", 1), ("b", 2)]));
    assert_eq!(map(&[]), map(&[]));
    assert_ne!(ab, map(&[("a", 1), ("b", 3)]));
    assert_ne!(ab, map(&[("a", 2), ("b", 1)]));
    assert_ne!(ab, map(&[("a", 1), ("c", 2)]));
    assert_ne!(ab, map(&[("a", 1)]));
    assert_ne!(map(&[("a", 1)]), ab);
    assert_ne!(ab, map(&[]));
}

#[test]
fn template_rules_are_equal_in_whichever_order_the_templates_came() {
    let rule = |names: &[&str]| {
        let mut raw = NameMap::new();
        for name in names {
            raw.insert(name.to_string(), format!("text of {}", name));
        }
        Transformers::Template(TemplateTransformer {
            format: "{{ x }}".to_string(),
            templates: TemplatesCollection {
                raw: Some(raw),
                files: None,
            },
        })
    };
    assert_eq!(rule(&["a", "b"]), rule(&["b", "a"]));
    assert_ne!(rule(&["a", "b"]), rule(&["a", "c"]));
}
