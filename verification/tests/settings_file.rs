//! Settings as they are written in a settings file.

use config::{Config, File, FileFormat};
use datanymizer_settings::{
    Assert, AssertExpectation, CompanyNameTransformer, Filter, FirstNameTransformer,
    LastNameTransformer, LocaleConfig, NameMap, PersonNameTransformer, ScalarExpectations,
    Settings, SettingsError, Table, TemplateTransformer, TemplatesCollection,
    TransformerDefaults, Transformers,
};
use serde_json::Value;

fn locale(value: Option<&Value>) -> Option<LocaleConfig> {
    match value.and_then(Value::as_str) {
        Some("EN") => Some(LocaleConfig::EN),
        Some("RU") => Some(LocaleConfig::RU),
        Some(other) => panic!("unknown locale {}", other),
        None => None,
    }
}

fn text(value: &Value) -> String {
    value.as_str().unwrap().to_string()
}

fn texts(value: &Value) -> Vec<String> {
    value.as_array().unwrap().iter().map(text).collect()
}

fn rule(value: &Value) -> Transformers {
    let (kind, options) = value.as_object().unwrap().iter().next().unwrap();
    let locale = locale(options.get("locale"));
    match kind.as_str() {
        "person_name" => Transformers::PersonName(PersonNameTransformer { locale }),
        "first_name" => Transformers::FirstName(FirstNameTransformer { locale }),
        "last_name" => Transformers::LastName(LastNameTransformer { locale }),
        "company_name" => Transformers::CompanyName(CompanyNameTransformer { locale }),
        "template" => Transformers::Template(TemplateTransformer {
            format: text(&options["format"]),
            templates: TemplatesCollection::default(),
        }),
        other => panic!("unknown rule {}", other),
    }
}

fn assertion(value: &Value) -> Assert {
    let expect = match &value["expect"] {
        Value::String(s) if s == "no_rows" => AssertExpectation::NoRows,
        scalar => AssertExpectation::Scalar(Box::new(ScalarExpectations {
            eq: scalar.get("eq").cloned(),
            not_eq: scalar.get("not_eq").cloned(),
            gt: scalar.get("gt").cloned(),
            gte: scalar.get("gte").cloned(),
            lt: scalar.get("lt").cloned(),
            lte: scalar.get("lte").cloned(),
        })),
    };
    Assert {
        name: text(&value["name"]),
        sql: text(&value["sql"]),
        expect,
    }
}

fn assertions(value: Option<&Value>) -> Vec<Assert> {
    match value {
        Some(list) => list.as_array().unwrap().iter().map(assertion).collect(),
        None => vec![],
    }
}

fn table(value: &Value) -> Table {
    let mut rules = NameMap::new();
    for (column, options) in value["rules"].as_object().unwrap() {
        rules.insert(column.clone(), rule(options));
    }
    Table {
        name: value.get("name").map(text).unwrap_or_default(),
        names: value.get("names").map(texts),
        rules,
        rule_order: value.get("rule_order").map(texts),
        query: None,
        asserts: assertions(value.get("asserts")),
    }
}

fn templates(value: &Value) -> TemplatesCollection {
    TemplatesCollection {
        raw: value.get("raw").map(|raw| {
            let mut named = NameMap::new();
            for (name, template) in raw.as_object().unwrap() {
                named.insert(name.clone(), text(template));
            }
            named
        }),
        files: value.get("files").map(texts),
    }
}

fn from_yaml(config: &str) -> Result<Settings, SettingsError> {
    let file: Value = Config::builder()
        .add_source(File::from_str(config, FileFormat::Yaml))
        .build()
        .unwrap()
        .try_deserialize()
        .unwrap();
    let tables = file["tables"].as_array().unwrap();
    Settings::from_source(Settings {
        tables: tables.iter().map(table).collect(),
        table_order: vec![],
        default: TransformerDefaults {
            locale: match file.get("default") {
                Some(default) => locale(default.get("locale")).unwrap(),
                None => LocaleConfig::EN,
            },
        },
        filter: Filter::default(),
        asserts: assertions(file.get("asserts")),
        globals: None,
        templates: file.get("templates").map(templates),
        transform_map: None,
    })
}

fn rule_names(s: &Settings, t: &str) -> Vec<String> {
    s.transformers_for(t)
        .unwrap()
        .iter()
        .map(|(name, _)| name.to_string())
        .collect()
}

fn get_raw_templates(s: &Settings) -> Vec<String> {
    let raw = s.templates.clone().unwrap().raw.unwrap();
    (0..raw.len()).map(|i| raw.entry(i).0.to_string()).collect()
}

fn get_files_templates(s: &Settings) -> Vec<String> {
    s.templates.clone().unwrap().files.unwrap()
}

fn transform_keys(s: &Settings, table: &str) -> Vec<String> {
    match s.transformers_for(table) {
        Some(list) => list.iter().map(|(name, _)| name.clone()).collect(),
        None => vec![],
    }
}

#[test]
fn set_defaults() {
    let config = r#"
        tables:
          - name: user
            rules:
              name:
                person_name: {}
              alias:
                person_name:
                  locale: EN
        default:
          locale: RU
        "#;

    let s = from_yaml(config).unwrap();
    let rules = &s.tables.first().unwrap().rules;

    assert_eq!(
        *rules.get("name").unwrap(),
        Transformers::PersonName(PersonNameTransformer {
            locale: Some(LocaleConfig::RU)
        })
    );
    assert_eq!(
        *rules.get("alias").unwrap(),
        Transformers::PersonName(PersonNameTransformer {
            locale: Some(LocaleConfig::EN)
        })
    );
}

#[test]
fn find_table() {
    let config = r#"
        tables:
          - name: companies
            rules:
              name:
                company_name: {}
          - name: users
            rules:
              name:
                person_name: {}
          - name: other_schema.users
            rules:
              other_name:
                person_name: {}
        "#;
    let s = from_yaml(config).unwrap();

    let t = s.find_table(&["some_table"]);
    assert!(t.is_none());

    let t = s.find_table(&["some_table", "users"]);
    assert_eq!(t.unwrap().name, "users");

    let t = s.find_table(&["users", "other_schema.users"]);
    assert_eq!(t.unwrap().name, "users");

    let t = s.find_table(&["other_schema.users", "users"]);
    assert_eq!(t.unwrap().name, "other_schema.users");
}

#[test]
fn order() {
    let config = r#"
        tables:
          - name: table1
            rule_order:
              - greeting
              - options
            rules:
              options:
                template:
                  format: "{greeting: \"{{ final.greeting }}\"}"
              greeting:
                template:
                  format: "dear {{ final.first_name }} {{ final.last_name }}"
              first_name:
                first_name: {}
              last_name:
                last_name: {}
          - name: table2
            rules:
              first_name:
                first_name: {}
              last_name:
                last_name: {}
        "#;
    let s = from_yaml(config).unwrap();

    let names = rule_names(&s, "table1");
    assert_eq!(names.len(), 4);
    assert!(names.contains(&"first_name".to_string()));
    assert!(names.contains(&"last_name".to_string()));
    assert_eq!(names[2], "greeting");
    assert_eq!(names[3], "options");

    let names = rule_names(&s, "table2");
    assert_eq!(names.len(), 2);
    assert!(names.contains(&"first_name".to_string()));
    assert!(names.contains(&"last_name".to_string()));

    assert_eq!(s.transformers_for("table3"), None);
}

#[test]
fn read_templates() {
    let config = r#"
        tables: []
        templates:
          raw:
            template1: "template1"
            template2: |
              template2-line-1
              template2-line-2
          files:
            - ./templates/path1
            - ./templates/path2
        "#;
    let s = from_yaml(config).unwrap();

    assert_eq!(get_raw_templates(&s).len(), 2);
    assert_eq!(get_files_templates(&s).len(), 2);
}

#[test]
fn collects_global_and_table_asserts() {
    let config = r#"
        asserts:
          - name: global_check
            sql: select count(*) from users
            expect:
              eq: 1
        tables:
          - name: users
            rules: {}
            asserts:
              - name: table_check
                sql: select 1 where false
                expect: no_rows
        "#;

    let settings = from_yaml(config).unwrap();
    let asserts = settings.all_asserts();

    assert_eq!(asserts.len(), 2);
    assert_eq!(asserts[0].assertion().name, "global_check");
    assert_eq!(asserts[0].scope_name(), "global");
    assert_eq!(asserts[1].assertion().name, "table_check");
    assert_eq!(asserts[1].scope_name(), "users");
}

#[test]
fn parses_global_asserts() {
    let config = r#"
        asserts:
          - name: users_count
            sql: select count(*) from users
            expect:
              eq: 0
        tables: []
        "#;

    let settings = from_yaml(config).unwrap();

    assert_eq!(settings.asserts.len(), 1);
    assert_eq!(
        settings.asserts[0].expect,
        AssertExpectation::Scalar(Box::new(ScalarExpectations {
            eq: Some(Value::from(0)),
            not_eq: None,
            gt: None,
            gte: None,
            lt: None,
            lte: None,
        }))
    );
}

#[test]
fn rejects_both_name_and_names() {
    let config = r#"
        tables:
          - name: "public.users"
            names:
              - "A.*"
            rules:
              email:
                person_name: {}
        "#;
    let err = from_yaml(config).unwrap_err();
    assert!(
        err.message().contains("cannot specify both"),
        "Expected 'cannot specify both' error, got: {}",
        err.message()
    );
}

#[test]
fn rejects_neither_name_nor_names() {
    let config = r#"
        tables:
          - rules:
              email:
                person_name: {}
        "#;
    let err = from_yaml(config).unwrap_err();
    assert!(
        err.message().contains("must specify either"),
        "Expected 'must specify either' error, got: {}",
        err.message()
    );
}

#[test]
fn rejects_empty_names_list() {
    let config = r#"
        tables:
          - names: []
            rules:
              email:
                person_name: {}
        "#;
    let err = from_yaml(config).unwrap_err();
    assert!(
        err.message().contains("must specify either"),
        "Expected 'must specify either' error, got: {}",
        err.message()
    );
}

#[test]
fn wildcard_name_matches() {
    let config = r#"
        tables:
          - name: "public.*"
            rules:
              email:
                person_name: {}
        "#;
    let s = from_yaml(config).unwrap();

    let t = s.find_table(&["public.users"]);
    assert!(t.is_some());

    let t = s.find_table(&["other.users"]);
    assert!(t.is_none());
}

#[test]
fn exact_match_beats_wildcard() {
    let config = r#"
        tables:
          - name: "public.*"
            rules:
              email:
                person_name: {}
          - name: public.users
            rules:
              email:
                first_name: {}
        "#;
    let s = from_yaml(config).unwrap();

    // Exact match should win
    let t = s.find_table(&["public.users", "users"]);
    assert_eq!(t.unwrap().name, "public.users");

    // Wildcard should match other tables
    let t = s.find_table(&["public.orders", "orders"]);
    assert_eq!(t.unwrap().name, "public.*");
}

#[test]
fn names_field_with_multiple_patterns() {
    let config = r#"
        tables:
          - names:
              - "A.*"
              - "B.*"
            rules:
              email:
                person_name: {}
        "#;
    let s = from_yaml(config).unwrap();

    assert!(s.find_table(&["A.users"]).is_some());
    assert!(s.find_table(&["B.orders"]).is_some());
    assert!(s.find_table(&["C.stuff"]).is_none());
}

#[test]
fn first_wildcard_entry_wins() {
    let config = r#"
        tables:
          - name: "public.*"
            rules:
              email:
                person_name: {}
          - name: "public.u*"
            rules:
              email:
                first_name: {}
        "#;
    let s = from_yaml(config).unwrap();

    // First wildcard entry should win
    let t = s.find_table(&["public.users"]);
    assert_eq!(t.unwrap().name, "public.*");
}

#[test]
fn names_field_with_exact_values() {
    let config = r#"
        tables:
          - names:
              - "A.users"
              - "B.orders"
            rules:
              email:
                person_name: {}
        "#;
    let s = from_yaml(config).unwrap();

    assert!(s.find_table(&["A.users"]).is_some());
    assert!(s.find_table(&["B.orders"]).is_some());
    assert!(s.find_table(&["A.orders"]).is_none());
}

#[test]
fn backward_compat_no_wildcards() {
    let config = r#"
        tables:
          - name: users
            rules:
              name:
                person_name: {}
        "#;
    let s = from_yaml(config).unwrap();

    let t = s.find_table(&["public.users", "users"]);
    assert_eq!(t.unwrap().name, "users");
}

#[test]
fn exact_and_wildcard_rules_merged() {
    let config = r#"
        tables:
          - name: users
            rules:
              name:
                person_name: {}
          - name: "public.*"
            rules:
              email:
                first_name: {}
        "#;
    let mut s = from_yaml(config).unwrap();

    // Pre-registered by fill_transform_map: exact entry only
    let keys = transform_keys(&s, "users");
    assert_eq!(keys, vec!["name".to_string()]);

    // After register_table_transforms with column metadata, the
    // wildcard's `email` rule (column exists) is merged in alongside
    // the specific entry's `name` rule.
    s.register_table_transforms(
        "public.users",
        "users",
        &["name".to_string(), "email".to_string()],
    );

    let keys = transform_keys(&s, "users");
    assert_eq!(keys.len(), 2);
    assert!(keys.contains(&"name".to_string()));
    assert!(keys.contains(&"email".to_string()));
}

#[test]
fn specific_rules_override_wildcard_on_collision() {
    let config = r#"
        tables:
          - name: users
            rules:
              email:
                person_name: {}
          - name: "*"
            rules:
              email:
                first_name: {}
        "#;
    let mut s = from_yaml(config).unwrap();

    s.register_table_transforms(
        "public.users",
        "users",
        &["id".to_string(), "email".to_string()],
    );

    // The specific entry's `person_name` transformer should win
    let transforms = s.transformers_for("users").unwrap();
    assert_eq!(transforms.len(), 1);
    let (col, t) = &transforms[0];
    assert_eq!(col, "email");
    // Verify it's the PersonName transformer (specific), not FirstName (wildcard)
    assert!(matches!(t, Transformers::PersonName(_)));
}

#[test]
fn wildcard_rules_apply_to_specifically_matched_tables() {
    // The original bug: specific entry below `*` was shadowed entirely;
    // and even when reordered, the wildcard's column rules were lost
    // for any table that hit a specific entry.
    // After the fix, both contribute.
    let config = r#"
        tables:
          - name: "*"
            rules:
              notes:
                template:
                  format: "[REDACTED]"
          - names: [videoconference]
            rules:
              name:
                first_name: {}
        "#;
    let mut s = from_yaml(config).unwrap();

    s.register_table_transforms(
        "public.videoconference",
        "videoconference",
        &["id".to_string(), "name".to_string(), "notes".to_string()],
    );

    let keys = transform_keys(&s, "public.videoconference");
    assert_eq!(keys.len(), 2);
    assert!(keys.contains(&"name".to_string()));
    assert!(keys.contains(&"notes".to_string()));
}

#[test]
fn wildcard_columns_filtered_by_actual_columns_in_merge() {
    // Wildcard rule for `phone` applies only when the specifically
    // matched table actually has a `phone` column.
    let config = r#"
        tables:
          - name: "*"
            rules:
              phone:
                person_name: {}
          - names: [videoconference]
            rules:
              name:
                first_name: {}
        "#;
    let mut s = from_yaml(config).unwrap();

    // No `phone` column → wildcard rule is dropped, only specific runs
    s.register_table_transforms(
        "public.videoconference",
        "videoconference",
        &["id".to_string(), "name".to_string()],
    );
    let keys = transform_keys(&s, "public.videoconference");
    assert_eq!(keys, vec!["name".to_string()]);

    // With a `phone` column → both wildcard and specific contribute
    s.register_table_transforms(
        "public.videoconference2",
        "videoconference2",
        &["name".to_string(), "phone".to_string()],
    );
    let keys = transform_keys(&s, "public.videoconference2");
    // Note: "videoconference2" doesn't match the specific entry, so
    // only the wildcard fires here.
    assert_eq!(keys, vec!["phone".to_string()]);
}

#[test]
fn names_field_registers_correctly() {
    let config = r#"
        tables:
          - names:
              - "A.*"
              - "B.*"
            rules:
              email:
                person_name: {}
        "#;
    let mut s = from_yaml(config).unwrap();

    s.register_table_transforms(
        "A.users",
        "users",
        &["id".to_string(), "email".to_string()],
    );
    s.register_table_transforms(
        "B.orders",
        "orders",
        &["id".to_string(), "email".to_string()],
    );

    let keys_a = transform_keys(&s, "A.users");
    assert_eq!(keys_a.len(), 1);
    assert!(keys_a.contains(&"email".to_string()));

    let keys_b = transform_keys(&s, "B.orders");
    assert_eq!(keys_b.len(), 1);
    assert!(keys_b.contains(&"email".to_string()));
}

#[test]
fn wildcard_table_exact_column_missing_silently_skipped() {
    let config = r#"
        tables:
          - name: "public.*"
            rules:
              email:
                person_name: {}
              phone:
                person_name: {}
        "#;
    let mut s = from_yaml(config).unwrap();

    // Table has email but not phone — phone should be silently skipped
    s.register_table_transforms(
        "public.logs",
        "logs",
        &["id".to_string(), "email".to_string()],
    );

    let keys = transform_keys(&s, "public.logs");
    assert_eq!(keys.len(), 1);
    assert!(keys.contains(&"email".to_string()));
    assert!(!keys.contains(&"phone".to_string()));
}

#[test]
fn names_mixed_exact_and_wildcard_strict_for_exact_match() {
    let config = r#"
        tables:
          - names:
              - "_sqlx_migrations"
              - "ok*"
            rules:
              description:
                person_name: {}
        "#;
    let mut s = from_yaml(config).unwrap();

    // _sqlx_migrations matches via exact pattern — should keep
    // missing exact columns (strict mode)
    s.register_table_transforms(
        "public._sqlx_migrations",
        "_sqlx_migrations",
        &["id".to_string(), "version".to_string()],
    );

    // "description" doesn't exist but should be kept (exact table match)
    let keys = transform_keys(&s, "public._sqlx_migrations");
    assert_eq!(keys.len(), 1);
    assert!(keys.contains(&"description".to_string()));
}

#[test]
fn names_mixed_exact_and_wildcard_lenient_for_wildcard_match() {
    let config = r#"
        tables:
          - names:
              - "_sqlx_migrations"
              - "ok*"
            rules:
              description:
                person_name: {}
        "#;
    let mut s = from_yaml(config).unwrap();

    // ok_stuff matches via wildcard pattern — should silently skip
    // missing columns (lenient mode)
    s.register_table_transforms(
        "public.ok_stuff",
        "ok_stuff",
        &["id".to_string(), "name".to_string()],
    );

    // "description" doesn't exist and should be skipped (wildcard table match)
    assert!(s.transformers_for("public.ok_stuff").is_none());
}

#[test]
fn overlapping_wildcards_first_entry_wins() {
    let config = r#"
        tables:
          - name: "public.*"
            rules:
              email:
                person_name: {}
          - name: "*users*"
            rules:
              phone:
                person_name: {}
        "#;
    let mut s = from_yaml(config).unwrap();

    // Both patterns match public.users — first entry (public.*) should win
    s.register_table_transforms(
        "public.users",
        "users",
        &["email".to_string(), "phone".to_string()],
    );

    let keys = transform_keys(&s, "public.users");
    // Should have email (from public.*), not phone (from *users*)
    assert!(keys.contains(&"email".to_string()));
    assert!(!keys.contains(&"phone".to_string()));
}

#[test]
fn names_field_exact_values_registers_correctly() {
    let config = r#"
        tables:
          - names:
              - "A.users"
              - "B.users"
            rules:
              email:
                person_name: {}
        "#;
    let mut s = from_yaml(config).unwrap();

    // Should not be in transform_map from fill_transform_map
    assert!(s.transformers_for("A.users").is_none());

    s.register_table_transforms(
        "A.users",
        "users",
        &["id".to_string(), "email".to_string()],
    );

    let keys = transform_keys(&s, "A.users");
    assert_eq!(keys.len(), 1);
    assert!(keys.contains(&"email".to_string()));
}
