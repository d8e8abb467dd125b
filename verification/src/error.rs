//! The errors that statements can end in.

use vstd::prelude::*;
use crate::data_types::Type;

verus! {

/// An error caused by an invalid query.
#[derive(Debug, Clone, PartialEq, Eq)]
pub enum ExecutionError {
    /// The table already exists.
    TableExists(String),
    /// The column has already been defined.
    ColumnExists(String),
    /// The table doesn't exist.
    NoTable(String),
    /// The value is the wrong type for the column.
    TypeError { column: String, expected_type: Type, actual_type: Type },
    /// The wrong number of column values were specified.
    WrongNumColumns { expected: usize, actual: usize },
    /// The column doesn't exist.
    NoColumn(String),
    /// The column exists in multiple referenced tables.
    AmbiguousName(String),
    /// A NOT NULL constraint failed.
    NullConstraintFailed(String),
    /// A UNIQUE constraint failed.
    UniqueConstraintFailed(String),
    /// A CHECK constraint failed.
    CheckConstraintFailed(String),
    /// A FOREIGN KEY constraint failed.
    ForeignKeyConstraintFailed(String),
    /// Multiple primary keys were defined.
    MultiplePrimaryKey(String),
    /// Multiple default values were defined.
    MultipleDefault(String),
    /// Multiple NOT NULL constraints were specified for a column.
    MultipleNotNull(String),
    /// Multiple UNIQUE constraints were specified for a column.
    MultipleUnique(String),
    /// The join has no constraint.
    NoConstraintOnJoin,
    /// No tables were specified.
    NoTables,
    /// The table name was duplicated.
    DuplicateTableName(String),
    /// The wrong number of referred columns in a foreign key constraint were specified.
    IncorrectNumForeignKeyReferredColumns { expected: usize, found: usize },
    /// The wrong type for a foreign key constraint was specified.
    IncorrectForeignKeyReferredColumnType {
        this_column_name: String,
        referred_column_name: String,
        this_column_type: Type,
        referred_column_type: Type,
    },
    /// The table could not be deleted as it is referred to in a foreign key constraint.
    ForeignKeyDependencyDelete { parent_table: String, key_name: String },
    /// The foreign key referred columns are not unique.
    ForeignKeyNotUnique(String),
}

/// What an `ExecutionError` says, with every name as a sequence of characters.
pub enum ExecutionErrorView {
    TableExists(Seq<char>),
    ColumnExists(Seq<char>),
    NoTable(Seq<char>),
    TypeError { column: Seq<char>, expected_type: Type, actual_type: Type },
    WrongNumColumns { expected: usize, actual: usize },
    NoColumn(Seq<char>),
    AmbiguousName(Seq<char>),
    NullConstraintFailed(Seq<char>),
    UniqueConstraintFailed(Seq<char>),
    CheckConstraintFailed(Seq<char>),
    ForeignKeyConstraintFailed(Seq<char>),
    MultiplePrimaryKey(Seq<char>),
    MultipleDefault(Seq<char>),
    MultipleNotNull(Seq<char>),
    MultipleUnique(Seq<char>),
    NoConstraintOnJoin,
    NoTables,
    DuplicateTableName(Seq<char>),
    IncorrectNumForeignKeyReferredColumns { expected: usize, found: usize },
    IncorrectForeignKeyReferredColumnType {
        this_column_name: Seq<char>,
        referred_column_name: Seq<char>,
        this_column_type: Type,
        referred_column_type: Type,
    },
    ForeignKeyDependencyDelete { parent_table: Seq<char>, key_name: Seq<char> },
    ForeignKeyNotUnique(Seq<char>),
}

impl View for ExecutionError {
    type V = ExecutionErrorView;

    open spec fn view(&self) -> ExecutionErrorView {
        match *self {
            ExecutionError::TableExists(s) => ExecutionErrorView::TableExists(s@),
            ExecutionError::ColumnExists(s) => ExecutionErrorView::ColumnExists(s@),
            ExecutionError::NoTable(s) => ExecutionErrorView::NoTable(s@),
            ExecutionError::TypeError { column, expected_type, actual_type } => {
                ExecutionErrorView::TypeError { column: column@, expected_type, actual_type }
            },
            ExecutionError::WrongNumColumns { expected, actual } => {
                ExecutionErrorView::WrongNumColumns { expected, actual }
            },
            ExecutionError::NoColumn(s) => ExecutionErrorView::NoColumn(s@),
            ExecutionError::AmbiguousName(s) => ExecutionErrorView::AmbiguousName(s@),
            ExecutionError::NullConstraintFailed(s) => ExecutionErrorView::NullConstraintFailed(s@),
            ExecutionError::UniqueConstraintFailed(s) => {
                ExecutionErrorView::UniqueConstraintFailed(s@)
            },
            ExecutionError::CheckConstraintFailed(s) => {
                ExecutionErrorView::CheckConstraintFailed(s@)
            },
            ExecutionError::ForeignKeyConstraintFailed(s) => {
                ExecutionErrorView::ForeignKeyConstraintFailed(s@)
            },
            ExecutionError::MultiplePrimaryKey(s) => ExecutionErrorView::MultiplePrimaryKey(s@),
            ExecutionError::MultipleDefault(s) => ExecutionErrorView::MultipleDefault(s@),
            ExecutionError::MultipleNotNull(s) => ExecutionErrorView::MultipleNotNull(s@),
            ExecutionError::MultipleUnique(s) => ExecutionErrorView::MultipleUnique(s@),
            ExecutionError::NoConstraintOnJoin => ExecutionErrorView::NoConstraintOnJoin,
            ExecutionError::NoTables => ExecutionErrorView::NoTables,
            ExecutionError::DuplicateTableName(s) => ExecutionErrorView::DuplicateTableName(s@),
            ExecutionError::IncorrectNumForeignKeyReferredColumns { expected, found } => {
                ExecutionErrorView::IncorrectNumForeignKeyReferredColumns { expected, found }
            },
            ExecutionError::IncorrectForeignKeyReferredColumnType {
                this_column_name,
                referred_column_name,
                this_column_type,
                referred_column_type,
            } => ExecutionErrorView::IncorrectForeignKeyReferredColumnType {
                this_column_name: this_column_name@,
                referred_column_name: referred_column_name@,
                this_column_type,
                referred_column_type,
            },
            ExecutionError::ForeignKeyDependencyDelete { parent_table, key_name } => {
                ExecutionErrorView::ForeignKeyDependencyDelete {
                    parent_table: parent_table@,
                    key_name: key_name@,
                }
            },
            ExecutionError::ForeignKeyNotUnique(s) => ExecutionErrorView::ForeignKeyNotUnique(s@),
        }
    }
}

/// The top-level error.
#[derive(Debug, Clone, PartialEq, Eq)]
pub enum Error {
    /// An error caused by an invalid query.
    Execution(ExecutionError),
    /// A broken invariant in encoding or resolution; the text is for people.
    Internal(String),
}

/// What an `Error` says: the execution error, or that an invariant broke.
pub enum ErrorView {
    Execution(ExecutionErrorView),
    Internal,
}

impl View for Error {
    type V = ErrorView;

    open spec fn view(&self) -> ErrorView {
        match *self {
            Error::Execution(e) => ErrorView::Execution(e@),
            Error::Internal(_) => ErrorView::Internal,
        }
    }
}

/// An internal error with the given text.
pub fn internal(message: &str) -> (error: Error)
    ensures
        error@ == ErrorView::Internal,
        error matches Error::Internal(text) && text@ == message@,
{
    Error::Internal(message.to_owned())
}

} // verus!
