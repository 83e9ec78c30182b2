//! Settings of a database anonymizer: which tables and columns are anonymized, by
//! which rules, and in which order.
//!
//! A settings file lists table entries. An entry stands for one table, given by its
//! name, or for all tables that a pattern with `*` or `?` covers, and holds rules for
//! columns. [`Settings::from_source`] checks the entries and makes them ready for use;
//! [`Settings::register_table_transforms`] puts together the rules for a table once its
//! columns are known.

pub mod asserts;
pub mod error;
pub mod filter;
pub mod laws;
pub mod matching;
pub mod merge;
pub mod name_map;
pub mod order;
pub mod pattern;
pub mod search;
pub mod settings;
pub mod table;
pub mod templates;
pub mod text;
pub mod transformer;

pub use asserts::{Assert, AssertExpectation, AssertScope, ScalarExpectations, TableAssert};
pub use error::SettingsError;
pub use filter::{Filter, TableList};
pub use name_map::NameMap;
pub use order::TransformList;
pub use settings::{Settings, Tables};
pub use table::{Query, Table};
pub use templates::TemplatesCollection;
pub use transformer::{
    CompanyNameTransformer, FirstNameTransformer, LastNameTransformer, LocaleConfig,
    PersonNameTransformer, TemplateTransformer, TransformerDefaults, TransformerInitContext,
    Transformers,
};
