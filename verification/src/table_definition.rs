//! The schema of a table with its constraints.

use std::collections::HashMap;
use vstd::prelude::*;
use crate::ast::{ColumnName, ColumnNameView};
use crate::data_types::{Type, Value, ValueView};
use crate::error::{Error, ErrorView, ExecutionError, ExecutionErrorView};
use crate::resolved_expression::{Expression, ExpressionView, ResolvedColumn, ResolvedColumnView};
use crate::storage::{spec_index_of, Columns};
use crate::TableColumns;

verus! {

broadcast use vstd::std_specs::hash::group_hash_axioms;

/// A set of columns, by position, with the name of the constraint on it.
pub struct ColumnSetView {
    pub columns: Seq<usize>,
    pub name: Seq<char>,
}

/// What a set of columns with its constraint's name holds.
pub open spec fn spec_column_set(set: (Vec<usize>, String)) -> ColumnSetView {
    ColumnSetView { columns: set.0@, name: set.1@ }
}

/// What a list of sets of columns holds.
pub open spec fn spec_column_sets(sets: Seq<(Vec<usize>, String)>) -> Seq<ColumnSetView> {
    Seq::new(sets.len(), |i: int| spec_column_set(sets[i]))
}

/// A `CHECK` constraint: its expression and its name.
pub struct CheckView {
    pub expression: ExpressionView,
    pub name: Seq<char>,
}

/// What a list of `CHECK` constraints holds.
pub open spec fn spec_check_views(checks: Seq<(Expression, String)>) -> Seq<CheckView> {
    Seq::new(checks.len(), |i: int| CheckView { expression: checks[i].0@, name: checks[i].1@ })
}

/// The columns of a table and its constraints: the columns that reject
/// null, the sets of columns that must be unique, the primary key, the
/// `CHECK` expressions, and the default value of each column that has one.
#[derive(Debug)]
pub struct TableDefinition {
    columns: Columns,
    not_nulls: Vec<usize>,
    uniques: Vec<(Vec<usize>, String)>,
    primary_key: Option<(Vec<usize>, String)>,
    checks: Vec<(Expression, String)>,
    defaults: HashMap<usize, Value>,
}

/// Whether every position in the list is one of `count` columns.
pub open spec fn spec_in_range(columns: Seq<usize>, count: nat) -> bool {
    forall|i: int| 0 <= i < columns.len() ==> columns[i] < count
}

impl TableDefinition {
    /// The columns.
    pub closed spec fn spec_columns(&self) -> &Columns {
        &self.columns
    }

    /// The columns that reject null.
    pub closed spec fn spec_not_nulls(&self) -> Seq<usize> {
        self.not_nulls@
    }

    /// The sets of columns that must be unique.
    pub closed spec fn spec_uniques(&self) -> Seq<ColumnSetView> {
        spec_column_sets(self.uniques@)
    }

    /// The primary key.
    pub closed spec fn spec_primary_key(&self) -> Option<ColumnSetView> {
        match self.primary_key {
            Some(key) => Some(spec_column_set(key)),
            None => None,
        }
    }

    /// The `CHECK` constraints.
    pub closed spec fn spec_checks(&self) -> Seq<CheckView> {
        spec_check_views(self.checks@)
    }

    /// The default value of a column: null where it has none.
    pub closed spec fn spec_default(&self, column: usize) -> ValueView {
        if self.defaults@.contains_key(column) {
            self.defaults@[column]@
        } else {
            ValueView::Null
        }
    }

    /// The invariant of a definition: the schema is well formed and every
    /// constraint speaks of columns that the schema has.
    pub open spec fn wf(&self) -> bool {
        let count = self.spec_columns().spec_names().len();
        &&& self.spec_columns().wf()
        &&& spec_in_range(self.spec_not_nulls(), count)
        &&& forall|i: int|
            0 <= i < self.spec_uniques().len() ==> spec_in_range(
                (#[trigger] self.spec_uniques()[i]).columns,
                count,
            )
        &&& match self.spec_primary_key() {
            Some(key) => spec_in_range(key.columns, count),
            None => true,
        }
    }

    /// A definition of these columns without constraints.
    pub fn new_empty(columns: Columns) -> (definition: Self)
        requires
            columns.wf(),
        ensures
            definition.wf(),
            *definition.spec_columns() == columns,
            definition.spec_not_nulls() == Seq::<usize>::empty(),
            definition.spec_uniques() == Seq::<ColumnSetView>::empty(),
            definition.spec_primary_key() is None,
            definition.spec_checks() == Seq::<CheckView>::empty(),
            forall|i: usize| definition.spec_default(i) == ValueView::Null,
    {
        let definition = Self {
            columns,
            not_nulls: Vec::new(),
            uniques: Vec::new(),
            primary_key: None,
            checks: Vec::new(),
            defaults: HashMap::new(),
        };
        assert(definition.spec_uniques() =~= Seq::<ColumnSetView>::empty());
        assert(definition.spec_checks() =~= Seq::<CheckView>::empty());
        definition
    }

    /// A definition of these columns with these constraints.
    pub fn new(
        columns: Columns,
        not_nulls: Vec<usize>,
        uniques: Vec<(Vec<usize>, String)>,
        primary_key: Option<(Vec<usize>, String)>,
        checks: Vec<(Expression, String)>,
        defaults: HashMap<usize, Value>,
    ) -> (definition: Self)
        requires
            columns.wf(),
            spec_in_range(not_nulls@, columns.spec_names().len()),
            forall|i: int|
                0 <= i < uniques.len() ==> spec_in_range(
                    (#[trigger] uniques[i]).0@,
                    columns.spec_names().len(),
                ),
            match primary_key {
                Some(key) => spec_in_range(key.0@, columns.spec_names().len()),
                None => true,
            },
        ensures
            definition.wf(),
            *definition.spec_columns() == columns,
            definition.spec_not_nulls() == not_nulls@,
            definition.spec_uniques() == spec_column_sets(uniques@),
            definition.spec_primary_key() == match primary_key {
                Some(key) => Some(spec_column_set(key)),
                None => None,
            },
            definition.spec_checks() == spec_check_views(checks@),
            forall|i: usize|
                definition.spec_default(i) == if defaults@.contains_key(i) {
                    defaults@[i]@
                } else {
                    ValueView::Null
                },
    {
        let definition = Self { columns, not_nulls, uniques, primary_key, checks, defaults };
        assert forall|i: int| 0 <= i < definition.spec_uniques().len() implies spec_in_range(
            (#[trigger] definition.spec_uniques()[i]).columns,
            columns.spec_names().len(),
        ) by {
            assert(definition.spec_uniques()[i].columns == uniques[i].0@);
        }
        definition
    }

    /// The columns.
    pub fn columns(&self) -> (columns: &Columns)
        ensures
            columns == self.spec_columns(),
    {
        &self.columns
    }

    /// The position of the column of that name; `NoColumn` where the table
    /// has none.
    pub fn column_index(&self, column_name: &str) -> (result: Result<usize, Error>)
        requires
            self.wf(),
        ensures
            match result {
                Ok(i) => spec_index_of(self.spec_columns().spec_names(), column_name@) == Some(
                    i as int,
                ) && i < self.spec_columns().spec_names().len(),
                Err(e) => spec_index_of(self.spec_columns().spec_names(), column_name@) is None
                    && e@ == ErrorView::Execution(ExecutionErrorView::NoColumn(column_name@)),
            },
    {
        match self.columns.get_index(column_name) {
            Some(i) => Ok(i),
            None => Err(Error::Execution(ExecutionError::NoColumn(column_name.to_owned()))),
        }
    }

    /// The default value of a column: null where it has none.
    pub fn get_default(&self, column: usize) -> (value: Value)
        ensures
            value@ == self.spec_default(column),
    {
        match self.defaults.get(&column) {
            Some(v) => v.duplicate(),
            None => Value::Null,
        }
    }

    /// The sets of columns that must be unique.
    pub fn uniques(&self) -> (uniques: &Vec<(Vec<usize>, String)>)
        ensures
            spec_column_sets(uniques@) == self.spec_uniques(),
    {
        &self.uniques
    }

    /// The columns that reject null.
    pub fn not_nulls(&self) -> (not_nulls: &Vec<usize>)
        ensures
            not_nulls@ == self.spec_not_nulls(),
    {
        &self.not_nulls
    }

    /// The `CHECK` constraints.
    pub fn checks(&self) -> (checks: &Vec<(Expression, String)>)
        ensures
            spec_check_views(checks@) == self.spec_checks(),
    {
        &self.checks
    }

    /// The primary key.
    pub fn primary_key(&self) -> (key: Option<&(Vec<usize>, String)>)
        ensures
            match key {
                Some(k) => self.spec_primary_key() == Some(spec_column_set(*k)),
                None => self.spec_primary_key() is None,
            },
    {
        self.primary_key.as_ref()
    }

    /// How many columns the table has.
    pub fn num_columns(&self) -> (count: usize)
        ensures
            count == self.spec_columns().spec_names().len(),
    {
        self.columns.num_columns()
    }

    /// Whether the table has a column of that name.
    pub fn contains_column(&self, column: &str) -> (found: bool)
        ensures
            found == self.spec_columns().spec_names().contains(column@),
    {
        self.columns.contains_column(column)
    }

    /// The type of the column of that name.
    pub fn get_data_type(&self, column: &str) -> (t: Option<Type>)
        requires
            self.wf(),
        ensures
            t == match spec_index_of(self.spec_columns().spec_names(), column@) {
                Some(i) => Some(self.spec_columns().spec_types()[i]),
                None => None,
            },
    {
        self.columns.get_data_type(column)
    }
}

impl<'a> TableColumns for (&'a TableDefinition, &'a str) {
    open spec fn columns_wf(&self) -> bool {
        true
    }

    /// A name resolves as it does against the columns of the definition.
    open spec fn spec_resolve_name(&self, name: ColumnNameView) -> Result<
        ResolvedColumnView,
        ErrorView,
    > {
        (self.0.spec_columns(), self.1).spec_resolve_name(name)
    }

    fn resolve_name(&self, name: ColumnName) -> (result: Result<ResolvedColumn, Error>) {
        (self.0.columns(), self.1).resolve_name(name)
    }
}

} // verus!
