//! SQL assertions that are checked before a dump starts.

use crate::table::Table;
use serde_json::Value as JsonValue;
use vstd::prelude::*;

verus! {

/// Declares `serde_json::Value`, which is carried through and never looked into.
#[verifier::external_type_specification]
#[verifier::external_body]
pub struct ExJsonValue(JsonValue);

/// What the single value that a query gives is held against.
#[derive(Clone, Debug, PartialEq)]
pub struct ScalarExpectations {
    pub eq: Option<JsonValue>,
    pub not_eq: Option<JsonValue>,
    pub gt: Option<JsonValue>,
    pub gte: Option<JsonValue>,
    pub lt: Option<JsonValue>,
    pub lte: Option<JsonValue>,
}

/// What a query has to give.
#[derive(Clone, Debug, PartialEq)]
pub enum AssertExpectation {
    /// No rows at all.
    NoRows,
    /// One value that meets the expectations.
    Scalar(Box<ScalarExpectations>),
}

/// An SQL assertion.
#[derive(Clone, Debug, PartialEq)]
pub struct Assert {
    pub name: String,
    pub sql: String,
    pub expect: AssertExpectation,
}

/// An assertion together with the table entry that it belongs to.
#[derive(Clone, Copy, Debug)]
pub struct TableAssert<'a> {
    pub table: &'a Table,
    pub assertion: &'a Assert,
}

/// An assertion with the place where it was declared.
#[derive(Clone, Copy, Debug)]
pub enum AssertScope<'a> {
    Global(&'a Assert),
    Table(TableAssert<'a>),
}

impl<'a> AssertScope<'a> {
    /// The assertion itself.
    pub fn assertion(&self) -> (assertion: &'a Assert)
        ensures
            *assertion == (match *self {
                AssertScope::Global(a) => *a,
                AssertScope::Table(t) => *t.assertion,
            }),
    {
        match self {
            AssertScope::Global(a) => a,
            AssertScope::Table(t) => t.assertion,
        }
    }

    /// `global`, or the name of the table that the assertion belongs to.
    pub fn scope_name(&self) -> (name: &'a str)
        ensures
            name@ == (match *self {
                AssertScope::Global(_) => "global"@,
                AssertScope::Table(t) => t.table.name@,
            }),
    {
        match self {
            AssertScope::Global(_) => "global",
            AssertScope::Table(t) => t.table.name.as_str(),
        }
    }
}

} // verus!
