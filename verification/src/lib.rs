//! An embedded relational database engine: a row codec, a table catalog with
//! a constraint engine, nested-loop joins and an expression evaluator with
//! SQL three-valued logic, all over an in-memory ordered key-value store.

use vstd::prelude::*;
use crate::ast::{ColumnName, ColumnNameView};
use crate::data_types::{Value, ValueView};
use crate::error::{Error, ErrorView, ExecutionError, ExecutionErrorView};
use crate::resolved_expression::{ResolvedColumn, ResolvedColumnView};

pub mod ast;
pub mod constraint_theorems;
pub mod data_types;
pub mod error;
pub mod foreign_key;
pub mod interpreter;
pub mod join_handler;
pub mod join_theorems;
pub mod query_process;
pub mod relation;
pub mod resolved_expression;
pub mod storage;
pub mod table_definition;
pub mod table_handler;

verus! {

/// What a value and its error look like from outside.
pub open spec fn spec_value_result(result: Result<Value, Error>) -> Result<ValueView, ErrorView> {
    match result {
        Ok(v) => Ok(v@),
        Err(e) => Err(e@),
    }
}

/// What a resolved column and its error look like from outside.
pub open spec fn spec_column_result(result: Result<ResolvedColumn, Error>) -> Result<
    ResolvedColumnView,
    ErrorView,
> {
    match result {
        Ok(c) => Ok(c@),
        Err(e) => Err(e@),
    }
}

/// A view of a row that gives the value of a column.
pub trait GetData {
    /// The invariant of the schema behind the row.
    spec fn row_wf(&self) -> bool;

    /// What the row holds for a column, or why it holds nothing.
    spec fn spec_get_data(&self, column: ResolvedColumnView) -> Result<ValueView, ErrorView>;

    /// The value of a column in the row.
    fn get_data(&self, column_name: &ResolvedColumn) -> (result: Result<Value, Error>)
        requires
            self.row_wf(),
        ensures
            spec_value_result(result) == self.spec_get_data(column_name@),
    ;
}

/// What a row holds, as a function from columns to values.
pub type RowEnv = spec_fn(ResolvedColumnView) -> Result<ValueView, ErrorView>;

/// What a row holds for each column.
pub open spec fn spec_env<H: GetData>(row: &H) -> RowEnv {
    |column: ResolvedColumnView| row.spec_get_data(column)
}

/// What names stand for, as a function from names to columns.
pub type Resolver = spec_fn(ColumnNameView) -> Result<ResolvedColumnView, ErrorView>;

/// What each name stands for among the columns.
pub open spec fn spec_resolver<T: TableColumns>(columns: &T) -> Resolver {
    |name: ColumnNameView| columns.spec_resolve_name(name)
}

/// A view of a list of columns, against which names are resolved.
pub trait TableColumns {
    /// The invariant of the schemas behind the columns.
    spec fn columns_wf(&self) -> bool;

    /// The column that a name stands for, or why it stands for none.
    spec fn spec_resolve_name(&self, name: ColumnNameView) -> Result<ResolvedColumnView, ErrorView>;

    /// Resolves a name to a column.
    fn resolve_name(&self, name: ColumnName) -> (result: Result<ResolvedColumn, Error>)
        requires
            self.columns_wf(),
        ensures
            spec_column_result(result) == self.spec_resolve_name(name@),
    ;
}

/// A row that holds nothing that can be read: every column is an internal
/// error.
pub struct Unreadable;

impl GetData for Unreadable {
    open spec fn row_wf(&self) -> bool {
        true
    }

    open spec fn spec_get_data(&self, column: ResolvedColumnView) -> Result<ValueView, ErrorView> {
        Err(ErrorView::Internal)
    }

    fn get_data(&self, column_name: &ResolvedColumn) -> (result: Result<Value, Error>) {
        Err(crate::error::internal("Getdata on invalid"))
    }
}

/// A row with no columns, and a list of no columns: every name fails.
pub struct Empty;

impl GetData for Empty {
    open spec fn row_wf(&self) -> bool {
        true
    }

    open spec fn spec_get_data(&self, column: ResolvedColumnView) -> Result<ValueView, ErrorView> {
        Err(ErrorView::Execution(ExecutionErrorView::NoColumn(column.column_name)))
    }

    fn get_data(&self, column_name: &ResolvedColumn) -> (result: Result<Value, Error>) {
        Err(Error::Execution(ExecutionError::NoColumn(column_name.to_string())))
    }
}

impl TableColumns for Empty {
    open spec fn columns_wf(&self) -> bool {
        true
    }

    open spec fn spec_resolve_name(&self, name: ColumnNameView) -> Result<
        ResolvedColumnView,
        ErrorView,
    > {
        Err(ErrorView::Execution(ExecutionErrorView::NoColumn(name.column_name)))
    }

    fn resolve_name(&self, name: ColumnName) -> (result: Result<ResolvedColumn, Error>) {
        Err(Error::Execution(ExecutionError::NoColumn(name.to_string())))
    }
}

} // verus!
