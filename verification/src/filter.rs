//! Which tables a dump takes.

use vstd::prelude::*;

verus! {

/// A choice of tables.
#[derive(Clone, Debug, PartialEq, Eq)]
pub enum TableList {
    /// These tables and no others.
    Only(Vec<String>),
    /// All tables but these.
    Except(Vec<String>),
}

/// Which tables a dump takes the schema and the data of.
#[derive(Clone, Debug, PartialEq, Eq)]
pub struct Filter {
    pub schema: Option<TableList>,
    pub data: Option<TableList>,
}

impl Default for Filter {
    fn default() -> (filter: Self)
        ensures
            filter.schema is None,
            filter.data is None,
    {
        Filter { schema: None, data: None }
    }
}

} // verus!
