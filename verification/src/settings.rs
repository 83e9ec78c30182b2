//! The settings as a whole.

use crate::asserts::{Assert, AssertScope, TableAssert};
use crate::error::SettingsError;
use crate::filter::Filter;
use crate::matching;
use crate::matching::{find_specific, find_wildcard};
use crate::merge;
use crate::merge::{merge_order, merge_rules};
use crate::name_map;
use crate::name_map::NameMap;
use crate::order;
use crate::order::{arrange, TransformList};
use crate::pattern::matches_any;
use crate::search;
use crate::table::Table;
use crate::templates::{TemplatesCollection, TemplatesView};
use crate::text::same_text;
use crate::transformer::{InitView, RuleView, TransformerDefaults, TransformerInitContext};
use serde_json::Value as JsonValue;
use vstd::prelude::*;

verus! {

/// The list of table entries.
pub type Tables = Vec<Table>;

/// The settings of a dump.
#[derive(Clone, Debug)]
pub struct Settings {
    /// Tables list with transformation rules
    pub tables: Tables,
    /// Table order. All tables not listed are dumped at the beginning
    pub table_order: Vec<String>,
    /// Default transformers configuration
    pub default: TransformerDefaults,
    pub filter: Filter,
    /// SQL assertions executed before the dump starts.
    pub asserts: Vec<Assert>,
    /// Global values. Visible in any template.
    /// They may be shadowed by template variables.
    pub globals: Option<NameMap<JsonValue>>,
    pub templates: Option<TemplatesCollection>,
    /// The rules that are kept for tables, by name; `None` until
    /// [`Settings::from_source`] has made the settings ready.
    pub transform_map: Option<NameMap<TransformList>>,
}

/// The rules that are kept for tables, by name.
pub type Registered = Map<Seq<char>, Seq<(Seq<char>, RuleView)>>;

/// The condition of having a given `name`.
pub open spec fn called(name: Seq<char>) -> spec_fn(Table) -> bool {
    |t: Table| t.name@ == name
}

/// Whether an entry has a name.
pub open spec fn has_name(t: Table) -> bool {
    t.name@.len() > 0
}

/// Whether an entry has a list of names with something in it.
pub open spec fn has_names(t: Table) -> bool {
    t.names is Some && t.names->0@.len() > 0
}

/// The condition of having both a name and names, or neither.
pub open spec fn misnamed() -> spec_fn(Table) -> bool {
    |t: Table| has_name(t) == has_names(t)
}

/// What the check of the entries gives: the first one that has both a name and
/// names, or neither, is at fault.
pub open spec fn validation(tables: Seq<Table>) -> Result<(), SettingsError> {
    match search::first_index(tables, misnamed()) {
        None => Ok(()),
        Some(i) => if has_name(tables[i]) {
            Err(SettingsError::BothNameAndNames { table: i as usize })
        } else {
            Err(SettingsError::NeitherNameNorNames { table: i as usize })
        },
    }
}

/// The rules that are kept from the start: those of the entries that give one
/// table by its name. Of entries with the same name the last one counts.
pub open spec fn resolved_at_load(tables: Seq<Table>) -> Registered
    decreases tables.len(),
{
    if tables.len() == 0 {
        Map::empty()
    } else {
        let t = tables.last();
        let earlier = resolved_at_load(tables.drop_last());
        if t.names is Some || t.any_wildcard() {
            earlier
        } else {
            earlier.insert(t.name@, t.arranged_rules())
        }
    }
}

/// The global assertions, with their scope.
pub open spec fn global_scopes<'a>(asserts: Seq<Assert>) -> Seq<AssertScope<'a>> {
    Seq::new(asserts.len(), |i: int| AssertScope::Global(&asserts[i]))
}

/// The assertions of one table, with their scope.
pub open spec fn table_scopes<'a>(t: Table) -> Seq<AssertScope<'a>> {
    Seq::new(
        t.asserts@.len(),
        |i: int| AssertScope::Table(TableAssert { table: &t, assertion: &t.asserts@[i] }),
    )
}

/// The assertions of all tables, with their scopes.
pub open spec fn all_table_scopes<'a>(tables: Seq<Table>) -> Seq<AssertScope<'a>>
    decreases tables.len(),
{
    if tables.len() == 0 {
        Seq::empty()
    } else {
        all_table_scopes(tables.drop_last()) + table_scopes(tables.last())
    }
}

/// The label of the entries that a table belongs to.
pub open spec fn joined_label(specific: Option<Seq<char>>, wildcard: Option<Seq<char>>) -> Seq<
    char,
> {
    match (specific, wildcard) {
        (Some(s), Some(w)) => s + " + "@ + w,
        (Some(s), None) => s,
        (None, Some(w)) => w,
        (None, None) => Seq::empty(),
    }
}

/// The pattern of an entry that covers one of `names`.
pub open spec fn label_of(entry: Option<&Table>, names: Seq<Seq<char>>) -> Option<Seq<char>> {
    match entry {
        Some(t) => matching::covering_pattern(*t, names),
        None => None,
    }
}

/// The names that a discovered table goes by, the full name first.
pub open spec fn candidate_names(full_name: Seq<char>, short_name: Seq<char>) -> Seq<Seq<char>> {
    seq![full_name, short_name]
}

/// The columns of a list of rules.
pub open spec fn columns_of(rules: Seq<(Seq<char>, RuleView)>) -> Seq<Seq<char>> {
    Seq::new(rules.len(), |i: int| rules[i].0)
}

impl Settings {
    /// The rules that are kept for tables, by name; nothing before the settings have
    /// been made ready.
    pub open spec fn registered(self) -> Option<Registered> {
        match self.transform_map {
            Some(map) => Some(name_map::as_map(map.deep_view())),
            None => None,
        }
    }

    /// The rules that are kept for tables, none if nothing has been kept yet.
    pub open spec fn registered_or_empty(self) -> Registered {
        match self.registered() {
            Some(map) => map,
            None => Map::empty(),
        }
    }

    /// Whether everything but the kept rules is the same.
    pub open spec fn same_configuration(self, other: Settings) -> bool {
        &&& self.tables == other.tables
        &&& self.table_order == other.table_order
        &&& self.default == other.default
        &&& self.filter == other.filter
        &&& self.asserts == other.asserts
        &&& self.globals == other.globals
        &&& self.templates == other.templates
    }

    /// What every rule is given before it is first used.
    pub open spec fn init_view(self) -> InitView {
        InitView {
            defaults: self.default,
            templates: match self.templates {
                Some(collection) => collection.deep_view(),
                None => TemplatesView::empty(),
            },
        }
    }

    /// Whether these are the settings `parsed` made ready for use: every rule has been
    /// prepared, the rules of the tables given by their names are kept, and nothing
    /// else has changed.
    pub open spec fn ready_from(self, parsed: Settings) -> bool {
        &&& self.table_order == parsed.table_order
        &&& self.default == parsed.default
        &&& self.filter == parsed.filter
        &&& self.asserts == parsed.asserts
        &&& self.globals == parsed.globals
        &&& self.templates == parsed.templates
        &&& self.tables@.len() == parsed.tables@.len()
        &&& forall|i: int|
            0 <= i < parsed.tables@.len() ==> (#[trigger] self.tables@[i]).prepared_from(
                parsed.tables@[i],
                parsed.init_view(),
            )
        &&& self.registered() == Some(resolved_at_load(self.tables@))
    }

    /// The specific entry for a table that goes by `names`.
    pub open spec fn specific_for<'a>(self, names: Seq<Seq<char>>) -> Option<&'a Table> {
        matching::specific_entry(self.tables@, names)
    }

    /// The wildcard entry for a table that goes by `names`.
    pub open spec fn wildcard_for<'a>(self, names: Seq<Seq<char>>) -> Option<&'a Table> {
        matching::wildcard_entry(self.tables@, names)
    }

    /// The name under which the rules of a table are kept.
    pub open spec fn key_of(self, full_name: Seq<char>, names: Seq<Seq<char>>) -> Option<
        Seq<char>,
    > {
        matching::key_for(full_name, self.specific_for(names), self.wildcard_for(names))
    }

    /// The rules for a table that goes by `names` and has the given columns.
    pub open spec fn rules_for(self, names: Seq<Seq<char>>, columns: Seq<Seq<char>>) -> Seq<
        (Seq<char>, RuleView),
    > {
        merge::merged_rules(self.specific_for(names), self.wildcard_for(names), columns)
    }

    /// The columns whose rules come last for a table that goes by `names`.
    pub open spec fn order_for(self, names: Seq<Seq<char>>) -> Seq<Seq<char>> {
        merge::merged_order(self.specific_for(names), self.wildcard_for(names))
    }

    /// Whether these are the settings `before` once a table with the given names and
    /// columns has been registered: its rules are kept under its key, in the order in
    /// which they are applied, and nothing else has changed; nothing at all has where
    /// there is no entry for the table, or no rule.
    pub open spec fn registered_from(
        self,
        before: Settings,
        full_name: Seq<char>,
        short_name: Seq<char>,
        columns: Seq<Seq<char>>,
    ) -> bool {
        let names = candidate_names(full_name, short_name);
        let rules = before.rules_for(names, columns);
        match before.key_of(full_name, names) {
            Some(key) if rules.len() > 0 => {
                &&& self.same_configuration(before)
                &&& self.registered() == Some(
                    before.registered_or_empty().insert(
                        key,
                        order::arranged(rules, before.order_for(names)),
                    ),
                )
            },
            _ => self == before,
        }
    }

    /// The label and the columns that a dry run shows for a table.
    pub open spec fn dry_run_view(self, full_name: Seq<char>, names: Seq<Seq<char>>) -> Option<
        (Seq<char>, Seq<Seq<char>>),
    > {
        match self.key_of(full_name, names) {
            Some(key) if self.registered()->0.contains_key(key) && self.registered()->0[key].len()
                > 0 => Some(
                (
                    joined_label(
                        label_of(self.specific_for(names), names),
                        label_of(self.wildcard_for(names), names),
                    ),
                    columns_of(self.registered()->0[key]),
                ),
            ),
            _ => None,
        }
    }

    /// Makes settings ready for use that have been read from a settings file: checks
    /// the table entries, prepares all rules, and resolves the rules of the tables that
    /// are given by their names.
    pub fn from_source(parsed: Settings) -> (result: Result<Settings, SettingsError>)
        ensures
            match result {
                Ok(settings) => {
                    &&& validation(parsed.tables@) is Ok
                    &&& settings.ready_from(parsed)
                },
                Err(error) => validation(parsed.tables@) == Err::<(), SettingsError>(error),
            },
    {
        let mut settings = parsed;
        match settings.validate() {
            Ok(()) => {},
            Err(error) => {
                return Err(error);
            },
        }
        settings.preprocess();
        Ok(settings)
    }

    /// Checks that every entry has either a name or names.
    fn validate(&self) -> (result: Result<(), SettingsError>)
        ensures
            result == validation(self.tables@),
    {
        let mut i: usize = 0;
        while i < self.tables.len()
            invariant
                0 <= i <= self.tables@.len(),
                forall|j: int| 0 <= j < i ==> !misnamed()(#[trigger] self.tables@[j]),
            decreases self.tables.len() - i,
        {
            let t: &Table = &self.tables[i];
            let has_name: bool = !t.name.as_str().is_empty();
            let has_names: bool = match &t.names {
                Some(names) => !names.is_empty(),
                None => false,
            };
            if has_name && has_names {
                proof {
                    search::lemma_first_index_at(self.tables@, misnamed(), i as int);
                }
                return Err(SettingsError::BothNameAndNames { table: i });
            }
            if !has_name && !has_names {
                proof {
                    search::lemma_first_index_at(self.tables@, misnamed(), i as int);
                }
                return Err(SettingsError::NeitherNameNorNames { table: i });
            }
            i += 1;
        }
        proof {
            search::lemma_first_index_none(self.tables@, misnamed());
        }
        Ok(())
    }

    /// The rules that are kept for a table, if any are.
    pub fn transformers_for(&self, table: &str) -> (list: Option<&TransformList>)
        requires
            self.registered() is Some,
        ensures
            match list {
                Some(rules) => {
                    &&& self.registered()->0.contains_key(table@)
                    &&& self.registered()->0[table@] == rules.deep_view()
                },
                None => !self.registered()->0.contains_key(table@),
            },
    {
        match &self.transform_map {
            Some(map) => {
                proof {
                    name_map::lemma_deep_lookup(*map, table@);
                }
                map.get(table)
            },
            None => None,
        }
    }

    /// The first entry with the given `name`.
    pub fn get_table(&self, name: &str) -> (found: Option<&Table>)
        ensures
            found == matching::entry_at(
                self.tables@,
                search::first_index(self.tables@, called(name@)),
            ),
    {
        let mut i: usize = 0;
        while i < self.tables.len()
            invariant
                0 <= i <= self.tables@.len(),
                forall|j: int| 0 <= j < i ==> !called(name@)(#[trigger] self.tables@[j]),
            decreases self.tables.len() - i,
        {
            if same_text(self.tables[i].name.as_str(), name) {
                proof {
                    search::lemma_first_index_at(self.tables@, called(name@), i as int);
                }
                return Some(&self.tables[i]);
            }
            i += 1;
        }
        proof {
            search::lemma_first_index_none(self.tables@, called(name@));
        }
        None
    }

    /// For a table that has been registered via
    /// [`Settings::register_table_transforms`], returns the label of the entries that
    /// it belongs to, `"<specific> + <wildcard>"` where there are two, and the columns
    /// that are anonymized. Returns `None` if no entry matches or no columns are
    /// anonymized.
    pub fn dry_run_info(&self, full_name: &str, names: &[&str]) -> (info: Option<
        (String, Vec<String>),
    >)
        requires
            self.key_of(full_name@, names.deep_view()) is Some ==> self.registered() is Some,
        ensures
            info.deep_view() == self.dry_run_view(full_name@, names.deep_view()),
    {
        let (specific, wildcard) = self.find_specific_and_wildcard(names);
        let key: String = match self.transform_key_for(full_name, specific, wildcard) {
            Some(key) => key,
            None => {
                return None;
            },
        };
        let transforms: &TransformList = match self.transformers_for(key.as_str()) {
            Some(list) => list,
            None => {
                return None;
            },
        };
        if transforms.is_empty() {
            return None;
        }
        let specific_label: Option<String> = match specific {
            Some(t) => Self::matching_pattern_label(t, names),
            None => None,
        };
        let wildcard_label: Option<String> = match wildcard {
            Some(t) => Self::matching_pattern_label(t, names),
            None => None,
        };
        let rule_label: String = match (specific_label, wildcard_label) {
            (Some(s), Some(w)) => s.concat(" + ").concat(w.as_str()),
            (Some(s), None) => s,
            (None, Some(w)) => w,
            (None, None) => String::new(),
        };
        let mut columns: Vec<String> = Vec::new();
        let mut i: usize = 0;
        while i < transforms.len()
            invariant
                0 <= i <= transforms@.len(),
                columns.deep_view() == columns_of(transforms.deep_view()).take(i as int),
            decreases transforms.len() - i,
        {
            let ghost before = columns.deep_view();
            columns.push(transforms[i].0.clone());
            assert(columns.deep_view() =~= before.push(transforms@[i as int].0@));
            assert(columns_of(transforms.deep_view()).take(i + 1) =~= before.push(
                columns_of(transforms.deep_view())[i as int],
            ));
            i += 1;
        }
        assert(columns_of(transforms.deep_view()).take(i as int) =~= columns_of(
            transforms.deep_view(),
        ));
        Some((rule_label, columns))
    }

    /// Returns the first pattern in `cfg` that matches any of `names`, used purely for
    /// human-readable dry-run labelling.
    fn matching_pattern_label(cfg: &Table, names: &[&str]) -> (label: Option<String>)
        ensures
            label.deep_view() == matching::covering_pattern(*cfg, names.deep_view()),
    {
        let ghost all = names.deep_view();
        let ghost list = cfg.pattern_list();
        let patterns = cfg.patterns();
        let mut i: usize = 0;
        while i < patterns.len()
            invariant
                all == names.deep_view(),
                list == cfg.pattern_list(),
                list == patterns.deep_view(),
                0 <= i <= patterns@.len(),
                forall|j: int| 0 <= j < i ==> !matching::pattern_covering(all)(#[trigger] list[j]),
            decreases patterns.len() - i,
        {
            assert(list[i as int] == patterns@[i as int]@);
            if matches_any(patterns[i], names) {
                proof {
                    search::lemma_first_index_at(list, matching::pattern_covering(all), i as int);
                }
                return Some(patterns[i].to_owned());
            }
            i += 1;
        }
        proof {
            search::lemma_first_index_none(list, matching::pattern_covering(all));
        }
        None
    }

    /// Returns global and table-local assertions in execution order.
    pub fn all_asserts(&self) -> (scopes: Vec<AssertScope<'_>>)
        ensures
            scopes@ == global_scopes(self.asserts@) + all_table_scopes(self.tables@),
    {
        let mut scopes: Vec<AssertScope<'_>> = Vec::new();
        let ghost global = global_scopes(self.asserts@);
        let mut i: usize = 0;
        while i < self.asserts.len()
            invariant
                global == global_scopes(self.asserts@),
                0 <= i <= self.asserts@.len(),
                scopes@ == global.take(i as int),
            decreases self.asserts.len() - i,
        {
            scopes.push(AssertScope::Global(&self.asserts[i]));
            assert(scopes@ =~= global.take(i + 1));
            i += 1;
        }
        assert(scopes@ =~= global + all_table_scopes(self.tables@.take(0)));
        let mut t: usize = 0;
        while t < self.tables.len()
            invariant
                global == global_scopes(self.asserts@),
                0 <= t <= self.tables@.len(),
                scopes@ == global + all_table_scopes(self.tables@.take(t as int)),
            decreases self.tables.len() - t,
        {
            let entry: &Table = &self.tables[t];
            let ghost before = scopes@;
            let ghost own = table_scopes(*entry);
            let mut k: usize = 0;
            assert(scopes@ =~= before + own.take(0));
            while k < entry.asserts.len()
                invariant
                    own == table_scopes(*entry),
                    0 <= k <= entry.asserts@.len(),
                    scopes@ == before + own.take(k as int),
                decreases entry.asserts.len() - k,
            {
                scopes.push(
                    AssertScope::Table(TableAssert { table: entry, assertion: &entry.asserts[k] }),
                );
                assert(scopes@ =~= before + own.take(k + 1));
                k += 1;
            }
            assert(own.take(k as int) =~= own);
            assert(self.tables@.take(t + 1).drop_last() =~= self.tables@.take(t as int));
            assert(scopes@ =~= global + all_table_scopes(self.tables@.take(t + 1)));
            t += 1;
        }
        assert(self.tables@.take(t as int) =~= self.tables@);
        scopes
    }

    /// Returns the most specific matching entry for the given candidate names. If
    /// both a specific (non-wildcard) entry and a wildcard entry match, the specific
    /// entry is returned, but the rules that are applied at dump time are the union
    /// of both (see [`Settings::register_table_transforms`]).
    pub fn find_table(&self, names: &[&str]) -> (found: Option<&Table>)
        ensures
            found == (match self.specific_for(names.deep_view()) {
                Some(specific) => Some(specific),
                None => self.wildcard_for(names.deep_view()),
            }),
    {
        let (specific, wildcard) = self.find_specific_and_wildcard(names);
        match specific {
            Some(t) => Some(t),
            None => wildcard,
        }
    }

    /// Finds the specific entry for the candidate names (one that has a name as its
    /// `name` or in its `names`, without wildcards) and the wildcard entry (one with
    /// a pattern that holds `*` or `?` and matches).
    ///
    /// For the specific entry the candidate names are tried in order, so that a full
    /// name goes before a short one; for the wildcard entry the first entry wins.
    fn find_specific_and_wildcard(&self, names: &[&str]) -> (found: (
        Option<&Table>,
        Option<&Table>,
    ))
        ensures
            found.0 == self.specific_for(names.deep_view()),
            found.1 == self.wildcard_for(names.deep_view()),
    {
        (find_specific(&self.tables, names), find_wildcard(&self.tables, names))
    }

    /// The key under which merged rules are kept. A specific entry with a
    /// non-wildcard `name` field uses that name; everything else uses the full name.
    fn transform_key_for(
        &self,
        full_name: &str,
        specific: Option<&Table>,
        wildcard: Option<&Table>,
    ) -> (key: Option<String>)
        ensures
            key.deep_view() == matching::key_for(full_name@, specific, wildcard),
    {
        if specific.is_none() && wildcard.is_none() {
            return None;
        }
        match specific {
            Some(s) if !s.name.as_str().is_empty() && !s.has_wildcards() => Some(s.name.clone()),
            _ => Some(full_name.to_owned()),
        }
    }

    /// The key under which the rules of a given table are kept.
    pub fn transform_key(&self, full_name: &str, names: &[&str]) -> (key: Option<String>)
        ensures
            key.deep_view() == self.key_of(full_name@, names.deep_view()),
    {
        let (specific, wildcard) = self.find_specific_and_wildcard(names);
        self.transform_key_for(full_name, specific, wildcard)
    }

    /// Registers the rules for a discovered table, merging those of any matching
    /// wildcard entry with those of any matching specific entry. Specific rules win
    /// on column collision; wildcard rules apply only to columns that the table has.
    pub fn register_table_transforms(
        &mut self,
        full_name: &str,
        short_name: &str,
        actual_columns: &[String],
    )
        ensures
            final(self).registered_from(
                *old(self),
                full_name@,
                short_name@,
                actual_columns.deep_view(),
            ),
    {
        let names: [&str; 2] = [full_name, short_name];
        let ghost all = candidate_names(full_name@, short_name@);
        assert(names.deep_view() =~= all);
        let (specific, wildcard) = self.find_specific_and_wildcard(&names);
        if specific.is_none() && wildcard.is_none() {
            return;
        }
        let merged = merge_rules(specific, wildcard, actual_columns);
        if merged.is_empty() {
            return;
        }
        let order = merge_order(specific, wildcard);
        let list: TransformList = arrange(&merged, &order);
        let key: String = self.transform_key_for(full_name, specific, wildcard).unwrap();
        let mut map: NameMap<TransformList> = match self.transform_map.take() {
            Some(map) => map,
            None => NameMap::new(),
        };
        let ghost before = map;
        map.insert(key, list);
        proof {
            assert(name_map::as_map(before.deep_view()) =~= old(self).registered_or_empty());
            name_map::lemma_deep_upsert(before, map, key@, list);
            name_map::lemma_upsert_map(before.deep_view(), key@, list.deep_view());
        }
        self.transform_map = Some(map);
    }

    /// Prepares all rules, and resolves those of the tables given by their names.
    fn preprocess(&mut self)
        ensures
            final(self).ready_from(*old(self)),
    {
        let mut init_ctx = TransformerInitContext::from_defaults(self.default);
        if let Some(collection) = &self.templates {
            init_ctx.template_collection = collection.clone();
        }
        assert(init_ctx.deep_view() == old(self).init_view());
        let mut i: usize = 0;
        while i < self.tables.len()
            invariant
                init_ctx.deep_view() == old(self).init_view(),
                self.table_order == old(self).table_order,
                self.default == old(self).default,
                self.filter == old(self).filter,
                self.asserts == old(self).asserts,
                self.globals == old(self).globals,
                self.templates == old(self).templates,
                0 <= i <= self.tables@.len(),
                self.tables@.len() == old(self).tables@.len(),
                forall|j: int|
                    0 <= j < i ==> (#[trigger] self.tables@[j]).prepared_from(
                        old(self).tables@[j],
                        old(self).init_view(),
                    ),
                forall|j: int|
                    i <= j < self.tables@.len() ==> #[trigger] self.tables@[j] == old(
                        self,
                    ).tables@[j],
            decreases self.tables.len() - i,
        {
            self.tables[i].init_rules(&init_ctx);
            i += 1;
        }
        self.fill_transform_map();
    }

    /// Resolves the rules of the entries that give one table by its name. Entries
    /// with wildcards or `names` wait for [`Settings::register_table_transforms`], when
    /// it is known which tables and columns there are.
    fn fill_transform_map(&mut self)
        ensures
            final(self).same_configuration(*old(self)),
            final(self).registered() == Some(resolved_at_load(old(self).tables@)),
    {
        let mut map: NameMap<TransformList> = NameMap::new();
        let ghost all = self.tables@;
        let mut i: usize = 0;
        assert(name_map::as_map(map.deep_view()) =~= resolved_at_load(all.take(0)));
        while i < self.tables.len()
            invariant
                all == self.tables@,
                *self == *old(self),
                0 <= i <= all.len(),
                name_map::as_map(map.deep_view()) == resolved_at_load(all.take(i as int)),
            decreases all.len() - i,
        {
            let entry: &Table = &self.tables[i];
            assert(all.take(i + 1).drop_last() =~= all.take(i as int));
            if !(entry.names.is_some() || entry.has_wildcards()) {
                let ghost before = map;
                let list: TransformList = entry.transform_list();
                map.insert(entry.name.clone(), list);
                proof {
                    name_map::lemma_deep_upsert(before, map, entry.name@, list);
                    name_map::lemma_upsert_map(before.deep_view(), entry.name@, list.deep_view());
                }
            }
            i += 1;
        }
        assert(all.take(i as int) =~= all);
        self.transform_map = Some(map);
    }
}

} // verus!
