# datanymizer_settings

The settings of a database anonymizer, as a library whose behaviour is stated in
contracts and proved with Verus.

A settings file lists table entries. An entry stands for one table, given by its name,
or for several, given by a list of names or by patterns with `*` and `?`, and holds
rules for columns. The library checks the entries, prepares the rules, finds the
entries that a table belongs to, merges their rules, and arranges them in the order in
which they are applied.

- `src/settings.rs`: `Settings`, with its public operations.
- `src/table.rs`, `src/asserts.rs`, `src/filter.rs`, `src/templates.rs`,
  `src/transformer.rs`: what settings consist of.
- `src/pattern.rs`, `src/matching.rs`: patterns, and which entry a table belongs to.
- `src/merge.rs`, `src/order.rs`: the rules for a table and their order.
- `src/name_map.rs`, `src/search.rs`, `src/text.rs`, `src/error.rs`: helpers.
- `src/laws.rs`: what holds of the settings as a whole.
- `app/`: reads settings files with `config` and `serde` and hands them to the library.

Patterns are matched by the `wildmatch` crate; what is taken for granted of it stands
above `wild_match` in `src/pattern.rs`.
