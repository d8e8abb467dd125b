//! Expressions whose column names have been matched against the tables of
//! a query.

use vstd::prelude::*;
use crate::ast::BinaryOp;
use crate::data_types::{Value, ValueView};

verus! {

/// A column of one of the tables of a query: the name by which the query
/// knows the table, and the column's name.
#[derive(Debug, Clone, PartialEq, Eq, Hash)]
pub struct ResolvedColumn {
    table_name: String,
    column_name: String,
}

/// What a `ResolvedColumn` holds.
pub struct ResolvedColumnView {
    pub table_name: Seq<char>,
    pub column_name: Seq<char>,
}

impl View for ResolvedColumn {
    type V = ResolvedColumnView;

    closed spec fn view(&self) -> ResolvedColumnView {
        ResolvedColumnView { table_name: self.table_name@, column_name: self.column_name@ }
    }
}

impl DeepView for ResolvedColumn {
    type V = ResolvedColumnView;

    open spec fn deep_view(&self) -> ResolvedColumnView {
        self@
    }
}

impl ResolvedColumn {
    pub fn new(table_name: String, column_name: String) -> (column: Self)
        ensures
            column@ == (ResolvedColumnView {
                table_name: table_name@,
                column_name: column_name@,
            }),
    {
        Self { table_name, column_name }
    }

    /// The two parts of the name: the table's, then the column's.
    pub fn destructure(self) -> (parts: (String, String))
        ensures
            parts.0@ == self@.table_name,
            parts.1@ == self@.column_name,
    {
        (self.table_name, self.column_name)
    }

    /// The column's name alone.
    pub fn take_column_name(self) -> (column: String)
        ensures
            column@ == self@.column_name,
    {
        self.column_name
    }

    /// The name by which the query knows the table.
    pub fn table_name(&self) -> (table: &str)
        ensures
            table@ == self@.table_name,
    {
        self.table_name.as_str()
    }

    /// The column's name.
    pub fn column_name(&self) -> (column: &str)
        ensures
            column@ == self@.column_name,
    {
        self.column_name.as_str()
    }

    /// How the column is shown: its name alone.
    pub fn to_string(&self) -> (text: String)
        ensures
            text@ == self@.column_name,
    {
        self.column_name.clone()
    }

    /// A copy of the column.
    pub fn duplicate(&self) -> (copy: Self)
        ensures
            copy@ == self@,
    {
        Self { table_name: self.table_name.clone(), column_name: self.column_name.clone() }
    }
}

/// An expression over the columns of the tables of a query.
#[derive(Debug)]
pub enum Expression {
    Value(Value),
    Identifier(ResolvedColumn),
    BinaryOp(Box<Expression>, BinaryOp, Box<Expression>),
}

/// What an `Expression` holds.
pub enum ExpressionView {
    Value(ValueView),
    Identifier(ResolvedColumnView),
    BinaryOp(Box<ExpressionView>, BinaryOp, Box<ExpressionView>),
}

impl View for Expression {
    type V = ExpressionView;

    open spec fn view(&self) -> ExpressionView {
        self.spec_view()
    }
}

impl Expression {
    /// What the expression holds.
    pub open spec fn spec_view(&self) -> ExpressionView
        decreases self,
    {
        match self {
            Expression::Value(v) => ExpressionView::Value(v@),
            Expression::Identifier(c) => ExpressionView::Identifier(c@),
            Expression::BinaryOp(l, op, r) => ExpressionView::BinaryOp(
                Box::new(l.spec_view()),
                *op,
                Box::new(r.spec_view()),
            ),
        }
    }

    /// A copy of the expression.
    pub fn duplicate(&self) -> (copy: Self)
        ensures
            copy@ == self@,
        decreases self,
    {
        match self {
            Expression::Value(v) => Expression::Value(v.duplicate()),
            Expression::Identifier(c) => Expression::Identifier(c.duplicate()),
            Expression::BinaryOp(l, op, r) => Expression::BinaryOp(
                Box::new(l.duplicate()),
                *op,
                Box::new(r.duplicate()),
            ),
        }
    }
}

} // verus!
