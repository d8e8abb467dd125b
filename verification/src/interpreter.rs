//! The executor: it resolves and evaluates expressions and runs statements
//! against the tables of a database.

use vstd::prelude::*;
use crate::ast::{BinaryOp, ColumnNameView, MathematicalOp, UnresolvedExpression};
use crate::data_types::{
    spec_compare, spec_to_integer, spec_truth, spec_truth_value, IntegerStorage, Type,
    TypeContents, TypeContentsView, Value, ValueView,
};
use crate::error::{Error, ErrorView};
use crate::resolved_expression::{Expression, ExpressionView, ResolvedColumnView};
use crate::storage::Columns;
use crate::table_definition::TableDefinition;
use crate::table_handler::{spec_sorted, TableHandler, TableRowView, Tree};
use crate::ast::str_eq;
use crate::error::{ExecutionError, ExecutionErrorView};
use crate::{spec_env, spec_resolver, spec_value_result, GetData, Resolver, RowEnv, TableColumns};

verus! {

/// The expression that `expression` becomes once each of its column names
/// is matched against `table`; the first name that fails, left to right,
/// gives its error.
pub open spec fn spec_resolve_expression(
    expression: UnresolvedExpression,
    table: Resolver,
) -> Result<ExpressionView, ErrorView>
    decreases expression,
{
    match expression {
        UnresolvedExpression::Value(v) => Ok(ExpressionView::Value(v@)),
        UnresolvedExpression::Identifier(i) => match table(i@) {
            Ok(c) => Ok(ExpressionView::Identifier(c)),
            Err(e) => Err(e),
        },
        UnresolvedExpression::BinaryOp(l, op, r) => match spec_resolve_expression(*l, table) {
            Err(e) => Err(e),
            Ok(left) => match spec_resolve_expression(*r, table) {
                Err(e) => Err(e),
                Ok(right) => Ok(ExpressionView::BinaryOp(Box::new(left), op, Box::new(right))),
            },
        },
    }
}

/// What an expression and its error look like from outside.
pub open spec fn spec_expression_result(result: Result<Expression, Error>) -> Result<
    ExpressionView,
    ErrorView,
> {
    match result {
        Ok(e) => Ok(e@),
        Err(e) => Err(e@),
    }
}

/// Matches each column name of an expression against the columns that
/// `table` shows.
pub fn resolve_expression<T: TableColumns>(expression: UnresolvedExpression, table: &T) -> (result:
    Result<Expression, Error>)
    requires
        table.columns_wf(),
    ensures
        spec_expression_result(result) == spec_resolve_expression(expression, spec_resolver(table)),
    decreases expression,
{
    match expression {
        UnresolvedExpression::Value(v) => Ok(Expression::Value(v)),
        UnresolvedExpression::Identifier(i) => match table.resolve_name(i) {
            Ok(c) => Ok(Expression::Identifier(c)),
            Err(e) => Err(e),
        },
        UnresolvedExpression::BinaryOp(l, op, r) => {
            let left = match resolve_expression(*l, table) {
                Ok(left) => left,
                Err(e) => {
                    return Err(e);
                },
            };
            let right = match resolve_expression(*r, table) {
                Ok(right) => right,
                Err(e) => {
                    return Err(e);
                },
            };
            Ok(Expression::BinaryOp(Box::new(left), op, Box::new(right)))
        },
    }
}

/// The result of an arithmetic operator on two integers: sums, differences
/// and products wrap around; a quotient or remainder that does not exist
/// (division by zero, or the least integer by -1) is null.
pub open spec fn spec_arithmetic(op: MathematicalOp, a: IntegerStorage, b: IntegerStorage) -> ValueView {
    match op {
        MathematicalOp::Add => ValueView::TypedValue(TypeContentsView::Integer(a.wrapping_add(b))),
        MathematicalOp::Subtract => ValueView::TypedValue(
            TypeContentsView::Integer(a.wrapping_sub(b)),
        ),
        MathematicalOp::Multiply => ValueView::TypedValue(
            TypeContentsView::Integer(a.wrapping_mul(b)),
        ),
        MathematicalOp::Divide => match a.checked_div(b) {
            Some(q) => ValueView::TypedValue(TypeContentsView::Integer(q)),
            None => ValueView::Null,
        },
        MathematicalOp::Modulus => match a.checked_rem(b) {
            Some(q) => ValueView::TypedValue(TypeContentsView::Integer(q)),
            None => ValueView::Null,
        },
    }
}

/// The value of `left op right`. `AND` and `OR` follow Kleene's
/// three-valued logic on the truth of both sides; a comparison is null
/// where a side is null; arithmetic is null where a side is null, else it
/// works on both sides as integers.
pub open spec fn spec_apply(op: BinaryOp, left: ValueView, right: ValueView) -> ValueView {
    match op {
        BinaryOp::And => spec_truth_value(spec_truth(left).spec_and(spec_truth(right))),
        BinaryOp::Or => spec_truth_value(spec_truth(left).spec_or(spec_truth(right))),
        BinaryOp::Comparison(c) => spec_compare(left, right).spec_get_value(c),
        BinaryOp::Mathematical(m) => match (left, right) {
            (ValueView::TypedValue(a), ValueView::TypedValue(b)) => spec_arithmetic(
                m,
                spec_to_integer(a),
                spec_to_integer(b),
            ),
            _ => ValueView::Null,
        },
    }
}

/// The value of an expression on a row. A column gives what the row holds
/// for it; the first column that the row cannot give, left to right, gives
/// its error.
pub open spec fn spec_evaluate(expression: ExpressionView, row: RowEnv) -> Result<
    ValueView,
    ErrorView,
>
    decreases expression,
{
    match expression {
        ExpressionView::Identifier(c) => row(c),
        ExpressionView::Value(v) => Ok(v),
        ExpressionView::BinaryOp(l, op, r) => match spec_evaluate(*l, row) {
            Err(e) => Err(e),
            Ok(left) => match spec_evaluate(*r, row) {
                Err(e) => Err(e),
                Ok(right) => Ok(spec_apply(op, left, right)),
            },
        },
    }
}

/// The value of `left op right`.
pub fn apply_operator(op: &BinaryOp, left: &Value, right: &Value) -> (value: Value)
    ensures
        value@ == spec_apply(*op, left@, right@),
{
    match op {
        BinaryOp::And => left.and(right),
        BinaryOp::Or => left.or(right),
        BinaryOp::Comparison(c) => left.compare(right).get_value(c),
        BinaryOp::Mathematical(m) => {
            let (a, b): (IntegerStorage, IntegerStorage) = match (left, right) {
                (Value::TypedValue(a), Value::TypedValue(b)) => (a.to_integer(), b.to_integer()),
                _ => {
                    return Value::Null;
                },
            };
            match m {
                MathematicalOp::Add => Value::TypedValue(TypeContents::Integer(a.wrapping_add(b))),
                MathematicalOp::Subtract => Value::TypedValue(
                    TypeContents::Integer(a.wrapping_sub(b)),
                ),
                MathematicalOp::Multiply => Value::TypedValue(
                    TypeContents::Integer(a.wrapping_mul(b)),
                ),
                MathematicalOp::Divide => match a.checked_div(b) {
                    Some(q) => Value::TypedValue(TypeContents::Integer(q)),
                    None => Value::Null,
                },
                MathematicalOp::Modulus => match a.checked_rem(b) {
                    Some(q) => Value::TypedValue(TypeContents::Integer(q)),
                    None => Value::Null,
                },
            }
        },
    }
}

/// Evaluates an expression on a row.
pub fn evaluate_expression<H: GetData>(expression: &Expression, row: &H) -> (result: Result<
    Value,
    Error,
>)
    requires
        row.row_wf(),
    ensures
        spec_value_result(result) == spec_evaluate(expression@, spec_env(row)),
    decreases expression,
{
    match expression {
        Expression::Identifier(column_name) => row.get_data(column_name),
        Expression::Value(v) => Ok(v.duplicate()),
        Expression::BinaryOp(l, op, r) => {
            let left = match evaluate_expression(l, row) {
                Ok(v) => v,
                Err(e) => {
                    return Err(e);
                },
            };
            let right = match evaluate_expression(r, row) {
                Ok(v) => v,
                Err(e) => {
                    return Err(e);
                },
            };
            Ok(apply_operator(op, &left, &right))
        },
    }
}

} // verus!

verus! {

/// The tables that a database knows: the name and the definition of each,
/// and the table of the foreign keys of all of them.
pub struct Catalog {
    names: Vec<String>,
    definitions: Vec<TableDefinition>,
    foreign_key_definition: TableDefinition,
    foreign_key_tree: Tree,
}

/// The position of the first of the names, from `from` on, that is `name`.
pub open spec fn spec_table_position(names: Seq<Seq<char>>, name: Seq<char>, from: int) -> Option<
    int,
>
    decreases names.len() - from,
{
    if from < 0 || from >= names.len() {
        None
    } else if names[from] == name {
        Some(from)
    } else {
        spec_table_position(names, name, from + 1)
    }
}

/// What `spec_table_position` finds: the first table of that name.
pub proof fn lemma_table_position(names: Seq<Seq<char>>, name: Seq<char>, from: int)
    requires
        0 <= from,
    ensures
        match spec_table_position(names, name, from) {
            Some(i) => from <= i < names.len() && names[i] == name && forall|j: int|
                from <= j < i ==> names[j] != name,
            None => forall|j: int| from <= j < names.len() ==> names[j] != name,
        },
    decreases names.len() - from,
{
    if from < names.len() && names[from] != name {
        lemma_table_position(names, name, from + 1);
    }
}

impl Catalog {
    /// The names of the tables.
    pub closed spec fn spec_names(&self) -> Seq<Seq<char>> {
        self.names.deep_view()
    }

    /// The definitions of the tables, each at its name's position.
    pub closed spec fn spec_definitions(&self) -> Seq<TableDefinition> {
        self.definitions@
    }

    /// The definition of the table of foreign keys.
    pub closed spec fn spec_foreign_key_definition(&self) -> &TableDefinition {
        &self.foreign_key_definition
    }

    /// The rows of the table of foreign keys.
    pub closed spec fn spec_foreign_key_rows(&self) -> Seq<TableRowView> {
        self.foreign_key_tree@
    }

    /// The invariant of a catalog: every table has a name and a well-formed
    /// definition, no two tables have one name, and the table of foreign
    /// keys is well formed.
    pub open spec fn wf(&self) -> bool {
        &&& self.spec_names().len() == self.spec_definitions().len()
        &&& self.spec_names().no_duplicates()
        &&& forall|i: int|
            0 <= i < self.spec_definitions().len() ==> (#[trigger] self.spec_definitions()[i]).wf()
        &&& self.spec_foreign_key_definition().wf()
        &&& self.spec_foreign_key_definition().spec_columns().spec_types()
            == crate::foreign_key::spec_foreign_key_types()
        &&& spec_sorted(self.spec_foreign_key_rows())
    }

    /// How many tables the catalog has.
    pub fn len(&self) -> (len: usize)
        requires
            self.wf(),
        ensures
            len == self.spec_names().len(),
    {
        self.definitions.len()
    }

    /// The position of the table of that name.
    pub fn find(&self, name: &str) -> (index: Option<usize>)
        ensures
            match index {
                Some(i) => spec_table_position(self.spec_names(), name@, 0) == Some(i as int) && i
                    < self.spec_names().len(),
                None => spec_table_position(self.spec_names(), name@, 0) is None,
            },
    {
        let mut i: usize = 0;
        while i < self.names.len()
            invariant
                i <= self.names.len(),
                spec_table_position(self.spec_names(), name@, 0) == spec_table_position(
                    self.spec_names(),
                    name@,
                    i as int,
                ),
            decreases self.names.len() - i,
        {
            assert(self.spec_names()[i as int] == self.names[i as int]@);
            if str_eq(self.names[i].as_str(), name) {
                return Some(i);
            }
            i += 1;
        }
        None
    }

    /// The name of the table at a position.
    pub fn name(&self, index: usize) -> (name: &str)
        requires
            index < self.spec_names().len(),
        ensures
            name@ == self.spec_names()[index as int],
    {
        assert(self.spec_names()[index as int] == self.names[index as int]@);
        self.names[index].as_str()
    }

    /// The definition of the table at a position.
    pub fn definition(&self, index: usize) -> (definition: &TableDefinition)
        requires
            index < self.spec_definitions().len(),
        ensures
            *definition == self.spec_definitions()[index as int],
    {
        &self.definitions[index]
    }

    /// The definition of the table of foreign keys.
    pub fn foreign_key_definition(&self) -> (definition: &TableDefinition)
        ensures
            definition == self.spec_foreign_key_definition(),
    {
        &self.foreign_key_definition
    }

    /// The table of foreign keys.
    pub fn foreign_key_tree(&self) -> (tree: &Tree)
        ensures
            tree@ == self.spec_foreign_key_rows(),
    {
        &self.foreign_key_tree
    }
}

/// Whether the stores are those of the tables of a catalog: one for each
/// table, each well formed.
pub open spec fn spec_trees_wf(trees: Seq<Tree>, catalog: &Catalog) -> bool {
    &&& trees.len() == catalog.spec_names().len()
    &&& forall|i: int| 0 <= i < trees.len() ==> (#[trigger] trees[i]).wf()
}

/// What the stores hold.
pub open spec fn spec_trees_view(trees: Seq<Tree>) -> Seq<Seq<TableRowView>> {
    Seq::new(trees.len(), |i: int| trees[i]@)
}

/// A database: its catalog and the rows of its tables.
pub struct Interpreter {
    catalog: Catalog,
    trees: Vec<Tree>,
}

impl Interpreter {
    /// The catalog.
    pub closed spec fn spec_catalog(&self) -> &Catalog {
        &self.catalog
    }

    /// The rows of the tables, each table's at the position of its name.
    pub closed spec fn spec_trees(&self) -> Seq<Tree> {
        self.trees@
    }

    /// The invariant of a database: that of its catalog and of each
    /// table's rows.
    pub open spec fn wf(&self) -> bool {
        self.spec_catalog().wf() && spec_trees_wf(self.spec_trees(), self.spec_catalog())
    }

    /// The catalog.
    pub fn catalog(&self) -> (catalog: &Catalog)
        ensures
            catalog == self.spec_catalog(),
    {
        &self.catalog
    }

    /// Opens the table of that name; `NoTable` where there is none. The
    /// query knows the table by `alias`, if it gives one.
    pub fn open_table<'a>(&'a self, name: String, alias: Option<String>) -> (result: Result<
        TableHandler<'a>,
        Error,
    >)
        requires
            self.wf(),
        ensures
            match result {
                Ok(handler) => {
                    &&& spec_table_position(self.spec_catalog().spec_names(), name@, 0) matches Some(
                        i,
                    )
                    &&& handler.wf()
                    &&& handler.spec_rows() == self.spec_trees()[i]@
                    &&& *handler.spec_definition() == self.spec_catalog().spec_definitions()[i]
                    &&& handler.spec_name() == name@
                    &&& handler.spec_alias() == match alias {
                        Some(a) => Some(a@),
                        None => None,
                    }
                },
                Err(e) => spec_table_position(self.spec_catalog().spec_names(), name@, 0) is None
                    && e@ == ErrorView::Execution(ExecutionErrorView::NoTable(name@)),
            },
    {
        match self.catalog.find(name.as_str()) {
            Some(i) => {
                assert(self.spec_trees()[i as int].wf());
                assert(self.spec_catalog().spec_definitions()[i as int].wf());
                Ok(TableHandler::new(&self.trees[i], self.catalog.definition(i), name, alias))
            },
            None => Err(Error::Execution(ExecutionError::NoTable(name))),
        }
    }
}

} // verus!

verus! {

// ---------------------------------------------------------------------------
// SELECT
// ---------------------------------------------------------------------------

/// What a `SELECT` shows: the names of the columns and, for each, the
/// expression that gives its values.
pub struct ProjectedView {
    pub names: Seq<Seq<char>>,
    pub expressions: Seq<ExpressionView>,
}

/// The columns themselves, shown under their names.
pub open spec fn spec_identifiers(columns: Seq<crate::resolved_expression::ResolvedColumnView>) -> ProjectedView {
    ProjectedView {
        names: Seq::new(columns.len(), |i: int| columns[i].column_name),
        expressions: Seq::new(columns.len(), |i: int| ExpressionView::Identifier(columns[i])),
    }
}

/// What the first `n` items of a `SELECT` show. `*` stands for the
/// columns of all tables and `table.*` for those of one table, both fail
/// with `NoTables` without tables; an expression is shown under its text,
/// or under its alias. The first item that fails gives its error.
pub open spec fn spec_projections(
    handler: &crate::join_handler::JoinHandler,
    projections: Seq<crate::ast::Projection>,
    n: int,
) -> Result<ProjectedView, ErrorView>
    decreases n,
{
    if n <= 0 {
        Ok(ProjectedView { names: Seq::empty(), expressions: Seq::empty() })
    } else {
        match spec_projections(handler, projections, n - 1) {
            Err(e) => Err(e),
            Ok(before) => {
                let added = match projections[n - 1] {
                    crate::ast::Projection::Wildcard => match handler {
                        crate::join_handler::JoinHandler::Join(join) => Ok(
                            spec_identifiers(join.spec_wildcard()),
                        ),
                        crate::join_handler::JoinHandler::Empty => Err(
                            ErrorView::Execution(ExecutionErrorView::NoTables),
                        ),
                    },
                    crate::ast::Projection::QualifiedWildcard(table) => match handler {
                        crate::join_handler::JoinHandler::Join(join) => match join.spec_column_names(
                            table@,
                        ) {
                            Ok(columns) => Ok(spec_identifiers(columns)),
                            Err(e) => Err(e),
                        },
                        crate::join_handler::JoinHandler::Empty => Err(
                            ErrorView::Execution(ExecutionErrorView::NoTables),
                        ),
                    },
                    crate::ast::Projection::Unaliased(e) => match spec_resolve_expression(e, spec_resolver(handler)) {
                        Ok(x) => Ok(
                            ProjectedView { names: seq![e.spec_text()], expressions: seq![x] },
                        ),
                        Err(error) => Err(error),
                    },
                    crate::ast::Projection::Aliased(e, alias) => match spec_resolve_expression(
                        e,
                        spec_resolver(handler),
                    ) {
                        Ok(x) => Ok(ProjectedView { names: seq![alias@], expressions: seq![x] }),
                        Err(error) => Err(error),
                    },
                };
                match added {
                    Err(e) => Err(e),
                    Ok(more) => Ok(
                        ProjectedView {
                            names: before.names + more.names,
                            expressions: before.expressions + more.expressions,
                        },
                    ),
                }
            },
        }
    }
}

/// Once an item fails, more items do not change the error.
pub proof fn lemma_projections_error(
    handler: &crate::join_handler::JoinHandler,
    projections: Seq<crate::ast::Projection>,
    from: int,
    to: int,
)
    requires
        0 <= from <= to,
        spec_projections(handler, projections, from) is Err,
    ensures
        spec_projections(handler, projections, to) == spec_projections(handler, projections, from),
    decreases to - from,
{
    if from < to {
        lemma_projections_error(handler, projections, from, to - 1);
    }
}

/// The values of the first `n` expressions on a row, or the error of the
/// first that cannot be evaluated.
pub open spec fn spec_row_values(expressions: Seq<ExpressionView>, row: RowEnv, n: int) -> Result<
    Seq<ValueView>,
    ErrorView,
>
    decreases n,
{
    if n <= 0 {
        Ok(Seq::empty())
    } else {
        match spec_row_values(expressions, row, n - 1) {
            Err(e) => Err(e),
            Ok(values) => match spec_evaluate(expressions[n - 1], row) {
                Err(e) => Err(e),
                Ok(v) => Ok(values.push(v)),
            },
        }
    }
}

/// Once an expression cannot be evaluated, more expressions do not change
/// the error.
pub proof fn lemma_row_values_error(expressions: Seq<ExpressionView>, row: RowEnv, from: int, to: int)
    requires
        0 <= from <= to,
        spec_row_values(expressions, row, from) is Err,
    ensures
        spec_row_values(expressions, row, to) == spec_row_values(expressions, row, from),
    decreases to - from,
{
    if from < to {
        lemma_row_values_error(expressions, row, from, to - 1);
    }
}

/// The rows that a `SELECT` shows of the first `n` joined rows: for each
/// joined row of which the filter is true, or for each where there is no
/// filter or no table, the values of the expressions. The first joined row
/// that fails gives its error.
pub open spec fn spec_result_rows(
    handler: &crate::join_handler::JoinHandler,
    filter: Option<ExpressionView>,
    expressions: Seq<ExpressionView>,
    rows: Seq<Seq<TableRowView>>,
    n: int,
) -> Result<Seq<Seq<ValueView>>, ErrorView>
    decreases n,
{
    if n <= 0 {
        Ok(Seq::empty())
    } else {
        match spec_result_rows(handler, filter, expressions, rows, n - 1) {
            Err(e) => Err(e),
            Ok(before) => {
                let row = handler.spec_row_env(rows[n - 1]);
                let keep = match (handler, filter) {
                    (crate::join_handler::JoinHandler::Join(_), Some(f)) => match spec_evaluate(
                        f,
                        row,
                    ) {
                        Ok(v) => Ok(crate::data_types::spec_is_true(v)),
                        Err(e) => Err(e),
                    },
                    _ => Ok(true),
                };
                match keep {
                    Err(e) => Err(e),
                    Ok(false) => Ok(before),
                    Ok(true) => match spec_row_values(
                        expressions,
                        row,
                        expressions.len() as int,
                    ) {
                        Err(e) => Err(e),
                        Ok(values) => Ok(before.push(values)),
                    },
                }
            },
        }
    }
}

/// Once a joined row fails, more rows do not change the error.
pub proof fn lemma_result_rows_error(
    handler: &crate::join_handler::JoinHandler,
    filter: Option<ExpressionView>,
    expressions: Seq<ExpressionView>,
    rows: Seq<Seq<TableRowView>>,
    from: int,
    to: int,
)
    requires
        0 <= from <= to,
        spec_result_rows(handler, filter, expressions, rows, from) is Err,
    ensures
        spec_result_rows(handler, filter, expressions, rows, to) == spec_result_rows(
            handler,
            filter,
            expressions,
            rows,
            from,
        ),
    decreases to - from,
{
    if from < to {
        lemma_result_rows_error(handler, filter, expressions, rows, from, to - 1);
    }
}

/// What a `SELECT` over opened tables gives: the filter is resolved, then
/// the items; the joined rows are gone through; and the rows that come of
/// them are sorted.
pub open spec fn spec_select_on(
    handler: &crate::join_handler::JoinHandler,
    select: crate::ast::SelectContents,
) -> Result<crate::relation::RelationView, ErrorView> {
    let filter = match select.selection {
        Some(e) => match spec_resolve_expression(e, spec_resolver(handler)) {
            Ok(f) => Ok(Some(f)),
            Err(error) => Err(error),
        },
        None => Ok(None),
    };
    match filter {
        Err(e) => Err(e),
        Ok(filter) => match spec_projections(
            handler,
            select.projections@,
            select.projections.len() as int,
        ) {
            Err(e) => Err(e),
            Ok(projected) => match handler.spec_rows() {
                Err(e) => Err(e),
                Ok(rows) => match spec_result_rows(
                    handler,
                    filter,
                    projected.expressions,
                    rows,
                    rows.len() as int,
                ) {
                    Err(e) => Err(e),
                    Ok(values) => match crate::relation::spec_sort_keys(
                        projected.names,
                        select.order_by@,
                        select.order_by.len() as int,
                    ) {
                        Err(e) => Err(e),
                        Ok(keys) => Ok(
                            crate::relation::RelationView {
                                column_names: projected.names,
                                rows: crate::relation::spec_sort_rows(keys, values),
                            },
                        ),
                    },
                },
            },
        },
    }
}

/// The values of the first `n` expressions of a literal row: none of them
/// may name a column.
pub open spec fn spec_literal_values(row: Seq<UnresolvedExpression>, n: int) -> Result<
    Seq<ValueView>,
    ErrorView,
>
    decreases n,
{
    if n <= 0 {
        Ok(Seq::empty())
    } else {
        match spec_literal_values(row, n - 1) {
            Err(e) => Err(e),
            Ok(values) => match spec_resolve_expression(row[n - 1], spec_resolver(&crate::Empty)) {
                Err(e) => Err(e),
                Ok(x) => match spec_evaluate(x, spec_env(&crate::Empty)) {
                    Err(e) => Err(e),
                    Ok(v) => Ok(values.push(v)),
                },
            },
        }
    }
}

/// Once an expression of a literal row fails, more do not change the
/// error.
pub proof fn lemma_literal_values_error(row: Seq<UnresolvedExpression>, from: int, to: int)
    requires
        0 <= from <= to,
        spec_literal_values(row, from) is Err,
    ensures
        spec_literal_values(row, to) == spec_literal_values(row, from),
    decreases to - from,
{
    if from < to {
        lemma_literal_values_error(row, from, to - 1);
    }
}

/// The first `n` literal rows as rows of values; a row that has not as
/// many values as the first row fails with `WrongNumColumns`.
pub open spec fn spec_literal_rows(rows: Seq<Vec<UnresolvedExpression>>, n: int) -> Result<
    Seq<Seq<ValueView>>,
    ErrorView,
>
    decreases n,
{
    if n <= 0 {
        Ok(Seq::empty())
    } else {
        match spec_literal_rows(rows, n - 1) {
            Err(e) => Err(e),
            Ok(before) => match spec_literal_values(rows[n - 1]@, rows[n - 1].len() as int) {
                Err(e) => Err(e),
                Ok(values) => if values.len() == rows[0].len() {
                    Ok(before.push(values))
                } else {
                    Err(
                        ErrorView::Execution(
                            ExecutionErrorView::WrongNumColumns {
                                expected: rows[0].len(),
                                actual: values.len() as usize,
                            },
                        ),
                    )
                },
            },
        }
    }
}

/// Once a literal row fails, more rows do not change the error.
pub proof fn lemma_literal_rows_error(rows: Seq<Vec<UnresolvedExpression>>, from: int, to: int)
    requires
        0 <= from <= to,
        spec_literal_rows(rows, from) is Err,
    ensures
        spec_literal_rows(rows, to) == spec_literal_rows(rows, from),
    decreases to - from,
{
    if from < to {
        lemma_literal_rows_error(rows, from, to - 1);
    }
}

/// The texts of expressions.
pub open spec fn spec_texts(row: Seq<UnresolvedExpression>) -> Seq<Seq<char>> {
    Seq::new(row.len(), |i: int| row[i].spec_text())
}

/// What literal rows give: columns named by the texts of the expressions
/// of the first row, and the rows of values. No rows at all are an
/// internal error.
pub open spec fn spec_values(values: crate::ast::Values) -> Result<
    crate::relation::RelationView,
    ErrorView,
> {
    if values.rows.len() == 0 {
        Err(ErrorView::Internal)
    } else {
        match spec_literal_rows(values.rows@, values.rows.len() as int) {
            Err(e) => Err(e),
            Ok(rows) => Ok(
                crate::relation::RelationView { column_names: spec_texts(values.rows[0]@), rows },
            ),
        }
    }
}

/// What a relation and its error look like from outside.
pub open spec fn spec_relation_result(result: Result<crate::relation::Relation, Error>) -> Result<
    crate::relation::RelationView,
    ErrorView,
> {
    match result {
        Ok(r) => Ok(r@),
        Err(e) => Err(e@),
    }
}

} // verus!

verus! {

/// Matches each column name of an expression against the columns that
/// `table` shows, and leaves the expression as it is.
pub fn resolve_expression_ref<T: TableColumns>(expression: &UnresolvedExpression, table: &T) -> (result:
    Result<Expression, Error>)
    requires
        table.columns_wf(),
    ensures
        spec_expression_result(result) == spec_resolve_expression(*expression, spec_resolver(table)),
    decreases expression,
{
    match expression {
        UnresolvedExpression::Value(v) => Ok(Expression::Value(v.duplicate())),
        UnresolvedExpression::Identifier(i) => match table.resolve_name(i.duplicate()) {
            Ok(c) => Ok(Expression::Identifier(c)),
            Err(e) => Err(e),
        },
        UnresolvedExpression::BinaryOp(l, op, r) => {
            let left = match resolve_expression_ref(l, table) {
                Ok(left) => left,
                Err(e) => {
                    return Err(e);
                },
            };
            let right = match resolve_expression_ref(r, table) {
                Ok(right) => right,
                Err(e) => {
                    return Err(e);
                },
            };
            Ok(Expression::BinaryOp(Box::new(left), *op, Box::new(right)))
        },
    }
}

/// What expressions hold.
pub open spec fn spec_expression_views(expressions: Seq<Expression>) -> Seq<ExpressionView> {
    Seq::new(expressions.len(), |i: int| expressions[i]@)
}

/// The values of expressions on a row.
pub fn row_values<H: GetData>(expressions: &Vec<Expression>, row: &H) -> (result: Result<
    Vec<Value>,
    Error,
>)
    requires
        row.row_wf(),
    ensures
        crate::foreign_key::spec_values_result(result) == spec_row_values(
            spec_expression_views(expressions@),
            spec_env(row),
            expressions.len() as int,
        ),
{
    let mut values: Vec<Value> = Vec::new();
    let ghost views = spec_expression_views(expressions@);
    let mut i: usize = 0;
    assert(values.deep_view() =~= Seq::<ValueView>::empty());
    while i < expressions.len()
        invariant
            row.row_wf(),
            i <= expressions.len(),
            views == spec_expression_views(expressions@),
            spec_row_values(views, spec_env(row), i as int) == Ok::<Seq<ValueView>, ErrorView>(
                values.deep_view(),
            ),
        decreases expressions.len() - i,
    {
        assert(views[i as int] == expressions[i as int]@);
        let ghost before = values.deep_view();
        match evaluate_expression(&expressions[i], row) {
            Ok(v) => {
                values.push(v);
                assert(values.deep_view() =~= before.push(v@));
            },
            Err(e) => {
                proof {
                    lemma_row_values_error(views, spec_env(row), i + 1, expressions.len() as int);
                }
                return Err(e);
            },
        }
        i += 1;
    }
    Ok(values)
}

fn literal_values(row: &Vec<UnresolvedExpression>) -> (result: Result<Vec<Value>, Error>)
    ensures
        crate::foreign_key::spec_values_result(result) == spec_literal_values(
            row@,
            row.len() as int,
        ),
{
    let mut values: Vec<Value> = Vec::new();
    let mut i: usize = 0;
    assert(values.deep_view() =~= Seq::<ValueView>::empty());
    while i < row.len()
        invariant
            i <= row.len(),
            spec_literal_values(row@, i as int) == Ok::<Seq<ValueView>, ErrorView>(
                values.deep_view(),
            ),
        decreases row.len() - i,
    {
        let ghost before = values.deep_view();
        let resolved = match resolve_expression_ref(&row[i], &crate::Empty) {
            Ok(x) => x,
            Err(e) => {
                proof {
                    lemma_literal_values_error(row@, i + 1, row.len() as int);
                }
                return Err(e);
            },
        };
        match evaluate_expression(&resolved, &crate::Empty) {
            Ok(v) => {
                values.push(v);
                assert(values.deep_view() =~= before.push(v@));
            },
            Err(e) => {
                proof {
                    lemma_literal_values_error(row@, i + 1, row.len() as int);
                }
                return Err(e);
            },
        }
        i += 1;
    }
    Ok(values)
}

/// The relation of literal rows.
pub fn execute_values(values: &crate::ast::Values) -> (result: Result<
    crate::relation::Relation,
    Error,
>)
    ensures
        spec_relation_result(result) == spec_values(*values),
        result matches Ok(r) ==> r.wf(),
{
    if values.rows.len() == 0 {
        return Err(crate::error::internal("empty rows"));
    }
    let names = texts(&values.rows[0]);
    let mut result = crate::relation::Relation::new(names);
    let ghost all = values.rows@;
    let mut i: usize = 0;
    while i < values.rows.len()
        invariant
            values.rows.len() > 0,
            i <= values.rows.len(),
            all == values.rows@,
            result.wf(),
            result@.column_names == spec_texts(all[0]@),
            spec_literal_rows(all, i as int) == Ok::<Seq<Seq<ValueView>>, ErrorView>(
                result@.rows,
            ),
        decreases values.rows.len() - i,
    {
        match add_literal_row(&mut result, &values.rows, i) {
            Ok(()) => {},
            Err(e) => {
                proof {
                    lemma_literal_rows_error(all, i + 1, values.rows.len() as int);
                }
                return Err(e);
            },
        }
        i += 1;
    }
    Ok(result)
}

fn texts(row: &Vec<UnresolvedExpression>) -> (names: Vec<String>)
    ensures
        names.deep_view() == spec_texts(row@),
{
    let mut names: Vec<String> = Vec::new();
    let mut c: usize = 0;
    while c < row.len()
        invariant
            c <= row.len(),
            names.len() == c,
            forall|k: int| 0 <= k < c ==> names[k]@ == row[k].spec_text(),
        decreases row.len() - c,
    {
        names.push(row[c].to_string());
        c += 1;
    }
    assert(names.deep_view() =~= spec_texts(row@));
    names
}

fn add_literal_row(
    result: &mut crate::relation::Relation,
    rows: &Vec<Vec<UnresolvedExpression>>,
    i: usize,
) -> (added: Result<(), Error>)
    requires
        i < rows.len(),
        old(result).wf(),
        old(result)@.column_names == spec_texts(rows[0]@),
        spec_literal_rows(rows@, i as int) == Ok::<Seq<Seq<ValueView>>, ErrorView>(
            old(result)@.rows,
        ),
    ensures
        final(result).wf(),
        final(result)@.column_names == old(result)@.column_names,
        match added {
            Ok(()) => spec_literal_rows(rows@, i + 1) == Ok::<Seq<Seq<ValueView>>, ErrorView>(
                final(result)@.rows,
            ),
            Err(e) => spec_literal_rows(rows@, i + 1) == Err::<Seq<Seq<ValueView>>, ErrorView>(
                e@,
            ),
        },
{
    let row_values = match literal_values(&rows[i]) {
        Ok(v) => v,
        Err(e) => {
            return Err(e);
        },
    };
    result.add_row(row_values)
}

fn push_identifiers(
    columns: Vec<crate::resolved_expression::ResolvedColumn>,
    names: &mut Vec<String>,
    expressions: &mut Vec<Expression>,
)
    ensures
        final(names).deep_view() == old(names).deep_view() + spec_identifiers(
            columns.deep_view(),
        ).names,
        spec_expression_views(final(expressions)@) == spec_expression_views(old(expressions)@)
            + spec_identifiers(columns.deep_view()).expressions,
{
    let ghost views = columns.deep_view();
    let mut i: usize = 0;
    while i < columns.len()
        invariant
            i <= columns.len(),
            views == columns.deep_view(),
            names.deep_view() == old(names).deep_view() + spec_identifiers(views).names.take(
                i as int,
            ),
            spec_expression_views(expressions@) == spec_expression_views(old(expressions)@)
                + spec_identifiers(views).expressions.take(i as int),
        decreases columns.len() - i,
    {
        assert(views[i as int] == columns[i as int]@);
        let ghost names_before = names.deep_view();
        let ghost expressions_before = spec_expression_views(expressions@);
        names.push(columns[i].to_string());
        expressions.push(Expression::Identifier(columns[i].duplicate()));
        i += 1;
        proof {
            assert(names.deep_view() =~= names_before.push(views[i - 1].column_name));
            assert(spec_expression_views(expressions@) =~= expressions_before.push(
                ExpressionView::Identifier(views[i - 1]),
            ));
            assert(spec_identifiers(views).names.take(i as int) =~= spec_identifiers(
                views,
            ).names.take(i - 1).push(views[i - 1].column_name));
            assert(spec_identifiers(views).expressions.take(i as int) =~= spec_identifiers(
                views,
            ).expressions.take(i - 1).push(ExpressionView::Identifier(views[i - 1])));
            assert(names.deep_view() =~= old(names).deep_view() + spec_identifiers(
                views,
            ).names.take(i as int));
            assert(spec_expression_views(expressions@) =~= spec_expression_views(
                old(expressions)@,
            ) + spec_identifiers(views).expressions.take(i as int));
        }
    }
    proof {
        assert(spec_identifiers(views).names.take(columns.len() as int) =~= spec_identifiers(
            views,
        ).names);
        assert(spec_identifiers(views).expressions.take(columns.len() as int)
            =~= spec_identifiers(views).expressions);
    }
}

/// What the items of a `SELECT` show.
pub fn resolve_projections(
    handler: &crate::join_handler::JoinHandler,
    projections: &Vec<crate::ast::Projection>,
) -> (result: Result<(Vec<String>, Vec<Expression>), Error>)
    ensures
        match result {
            Ok((names, expressions)) => spec_projections(
                handler,
                projections@,
                projections.len() as int,
            ) == Ok::<ProjectedView, ErrorView>(
                ProjectedView {
                    names: names.deep_view(),
                    expressions: spec_expression_views(expressions@),
                },
            ),
            Err(e) => spec_projections(handler, projections@, projections.len() as int) == Err::<
                ProjectedView,
                ErrorView,
            >(e@),
        },
{
    let mut names: Vec<String> = Vec::new();
    let mut expressions: Vec<Expression> = Vec::new();
    let mut i: usize = 0;
    proof {
        assert(names.deep_view() =~= Seq::<Seq<char>>::empty());
        assert(spec_expression_views(expressions@) =~= Seq::<ExpressionView>::empty());
    }
    while i < projections.len()
        invariant
            i <= projections.len(),
            spec_projections(handler, projections@, i as int) == Ok::<ProjectedView, ErrorView>(
                ProjectedView {
                    names: names.deep_view(),
                    expressions: spec_expression_views(expressions@),
                },
            ),
        decreases projections.len() - i,
    {
        let ghost names_before = names.deep_view();
        let ghost expressions_before = spec_expression_views(expressions@);
        match &projections[i] {
            crate::ast::Projection::Wildcard => {
                match handler.all_column_names() {
                    Ok(columns) => {
                        push_identifiers(columns, &mut names, &mut expressions);
                    },
                    Err(e) => {
                        proof {
                            lemma_projections_error(
                                handler,
                                projections@,
                                i + 1,
                                projections.len() as int,
                            );
                        }
                        return Err(e);
                    },
                }
            },
            crate::ast::Projection::QualifiedWildcard(table_name) => {
                match handler.column_names(table_name.as_str()) {
                    Ok(columns) => {
                        push_identifiers(columns, &mut names, &mut expressions);
                    },
                    Err(e) => {
                        proof {
                            lemma_projections_error(
                                handler,
                                projections@,
                                i + 1,
                                projections.len() as int,
                            );
                        }
                        return Err(e);
                    },
                }
            },
            crate::ast::Projection::Unaliased(e) => {
                let resolved = match resolve_expression_ref(e, handler) {
                    Ok(x) => x,
                    Err(error) => {
                        proof {
                            lemma_projections_error(
                                handler,
                                projections@,
                                i + 1,
                                projections.len() as int,
                            );
                        }
                        return Err(error);
                    },
                };
                names.push(e.to_string());
                expressions.push(resolved);
                proof {
                    assert(names.deep_view() =~= names_before + seq![e.spec_text()]);
                    assert(spec_expression_views(expressions@) =~= expressions_before
                        + seq![resolved@]);
                }
            },
            crate::ast::Projection::Aliased(e, alias) => {
                let resolved = match resolve_expression_ref(e, handler) {
                    Ok(x) => x,
                    Err(error) => {
                        proof {
                            lemma_projections_error(
                                handler,
                                projections@,
                                i + 1,
                                projections.len() as int,
                            );
                        }
                        return Err(error);
                    },
                };
                names.push(alias.clone());
                expressions.push(resolved);
                proof {
                    assert(names.deep_view() =~= names_before + seq![alias@]);
                    assert(spec_expression_views(expressions@) =~= expressions_before
                        + seq![resolved@]);
                }
            },
        }
        i += 1;
    }
    Ok((names, expressions))
}

/// What an expression that may be missing holds.
pub open spec fn spec_optional(expression: Option<Expression>) -> Option<ExpressionView> {
    match expression {
        Some(e) => Some(e@),
        None => None,
    }
}

/// The relation of the rows that a `SELECT` shows, before they are
/// sorted.
pub fn generate_results(
    result_column_names: Vec<String>,
    projections: Vec<Expression>,
    table: &crate::join_handler::JoinHandler,
    filter: Option<Expression>,
) -> (result: Result<crate::relation::Relation, Error>)
    requires
        table.wf(),
        result_column_names.len() == projections.len(),
    ensures
        match result {
            Ok(relation) => {
                &&& relation.wf()
                &&& relation@.column_names == result_column_names.deep_view()
                &&& table.spec_rows() matches Ok(rows) && spec_result_rows(
                    table,
                    spec_optional(filter),
                    spec_expression_views(projections@),
                    rows,
                    rows.len() as int,
                ) == Ok::<Seq<Seq<ValueView>>, ErrorView>(relation@.rows)
            },
            Err(e) => match table.spec_rows() {
                Err(error) => e@ == error,
                Ok(rows) => spec_result_rows(
                    table,
                    spec_optional(filter),
                    spec_expression_views(projections@),
                    rows,
                    rows.len() as int,
                ) == Err::<Seq<Seq<ValueView>>, ErrorView>(e@),
            },
        },
{
    let rows = match table.rows() {
        Ok(rows) => rows,
        Err(e) => {
            return Err(e);
        },
    };
    let mut result_set = crate::relation::Relation::new(result_column_names);
    let ghost buffers = crate::join_handler::spec_buffers(rows@);
    let ghost filter_view: Option<ExpressionView> = spec_optional(filter);
    let ghost views = spec_expression_views(projections@);
    let mut i: usize = 0;
    while i < rows.len()
        invariant
            table.wf(),
            i <= rows.len(),
            result_set.wf(),
            result_set@.column_names == result_column_names.deep_view(),
            result_column_names.len() == projections.len(),
            buffers == crate::join_handler::spec_buffers(rows@),
            table.spec_rows() == Ok::<Seq<Seq<TableRowView>>, ErrorView>(buffers),
            filter_view == spec_optional(filter),
            views == spec_expression_views(projections@),
            spec_result_rows(table, filter_view, views, buffers, i as int) == Ok::<
                Seq<Seq<ValueView>>,
                ErrorView,
            >(result_set@.rows),
        decreases rows.len() - i,
    {
        assert(buffers[i as int] == crate::table_handler::spec_table_rows(rows[i as int]@));
        let row = match table {
            crate::join_handler::JoinHandler::Join(_) => crate::join_handler::RowValue::Data(
                &rows[i],
            ),
            crate::join_handler::JoinHandler::Empty => crate::join_handler::RowValue::Empty,
        };
        assert(spec_env(&(table, &row)) =~= table.spec_row_env(buffers[i as int]));
        let keep = match (table, &filter) {
            (crate::join_handler::JoinHandler::Join(_), Some(f)) => {
                match evaluate_expression(f, &(table, &row)) {
                    Ok(v) => v.is_true(),
                    Err(e) => {
                        proof {
                            lemma_result_rows_error(
                                table,
                                filter_view,
                                views,
                                buffers,
                                i + 1,
                                rows.len() as int,
                            );
                        }
                        return Err(e);
                    },
                }
            },
            _ => true,
        };
        if keep {
            let row_values = match row_values(&projections, &(table, &row)) {
                Ok(v) => v,
                Err(e) => {
                    proof {
                        lemma_result_rows_error(
                            table,
                            filter_view,
                            views,
                            buffers,
                            i + 1,
                            rows.len() as int,
                        );
                    }
                    return Err(e);
                },
            };
            proof {
                lemma_row_values_len(views, spec_env(&(table, &row)), projections.len() as int);
            }
            match result_set.add_row(row_values) {
                Ok(()) => {},
                Err(e) => {
                    assert(false);
                    return Err(e);
                },
            }
        }
        i += 1;
    }
    Ok(result_set)
}

/// As many values as expressions.
pub proof fn lemma_row_values_len(expressions: Seq<ExpressionView>, row: RowEnv, n: int)
    requires
        0 <= n,
    ensures
        spec_row_values(expressions, row, n) matches Ok(values) ==> values.len() == n,
    decreases n,
{
    if n > 0 {
        lemma_row_values_len(expressions, row, n - 1);
    }
}

} // verus!

verus! {

/// Whether opened tables are those of a `FROM` clause in a database.
pub open spec fn spec_handler_built(
    interpreter: &Interpreter,
    from: Option<crate::ast::TableJoins>,
    handler: &crate::join_handler::JoinHandler,
) -> bool {
    match from {
        Some(joins) => handler matches crate::join_handler::JoinHandler::Join(join)
            && crate::join_handler::spec_built(interpreter, joins, join),
        None => handler is Empty,
    }
}

/// Whether a query gives that relation in a database.
pub open spec fn spec_select_gives(
    interpreter: &Interpreter,
    select: crate::ast::SelectQuery,
    relation: crate::relation::RelationView,
) -> bool {
    match select {
        crate::ast::SelectQuery::Values(values) => spec_values(values) == Ok::<
            crate::relation::RelationView,
            ErrorView,
        >(relation),
        crate::ast::SelectQuery::Select(contents) => exists|
            handler: crate::join_handler::JoinHandler,
        |
            #[trigger] spec_handler_built(interpreter, contents.from, &handler) && spec_select_on(
                &handler,
                contents,
            ) == Ok::<crate::relation::RelationView, ErrorView>(relation),
    }
}

/// Whether a query fails with that error in a database: its tables cannot
/// be opened, or what is done over the opened tables fails.
pub open spec fn spec_select_fails(
    interpreter: &Interpreter,
    select: crate::ast::SelectQuery,
    error: ErrorView,
) -> bool {
    match select {
        crate::ast::SelectQuery::Values(values) => spec_values(values) == Err::<
            crate::relation::RelationView,
            ErrorView,
        >(error),
        crate::ast::SelectQuery::Select(contents) => (contents.from matches Some(joins)
            && crate::join_handler::spec_build_fails(interpreter, joins, error)) || exists|
            handler: crate::join_handler::JoinHandler,
        |
            #[trigger] spec_handler_built(interpreter, contents.from, &handler) && spec_select_on(
                &handler,
                contents,
            ) == Err::<crate::relation::RelationView, ErrorView>(error),
    }
}

impl Interpreter {
    /// Runs a query: literal rows, or a `SELECT` over the tables of the
    /// database.
    pub fn execute_select(&self, select: crate::ast::SelectQuery) -> (result: Result<
        crate::relation::Relation,
        Error,
    >)
        requires
            self.wf(),
        ensures
            match result {
                Ok(relation) => relation.wf() && spec_select_gives(self, select, relation@),
                Err(e) => spec_select_fails(self, select, e@),
            },
    {
        match select {
            crate::ast::SelectQuery::Values(values) => execute_values(&values),
            crate::ast::SelectQuery::Select(contents) => {
                let ghost original = contents;
                let crate::ast::SelectContents { projections, from, selection, order_by } = contents;
                let join_handler = match crate::join_handler::JoinHandler::new(self, from) {
                    Ok(h) => h,
                    Err(e) => {
                        return Err(e);
                    },
                };
                assert(spec_handler_built(self, original.from, &join_handler));
                let selection = match &selection {
                    Some(e) => match resolve_expression_ref(e, &join_handler) {
                        Ok(f) => Some(f),
                        Err(error) => {
                            return Err(error);
                        },
                    },
                    None => None,
                };
                let (names, expressions) = match resolve_projections(&join_handler, &projections) {
                    Ok(p) => p,
                    Err(e) => {
                        return Err(e);
                    },
                };
                proof {
                    lemma_projections_len(
                        &join_handler,
                        projections@,
                        projections.len() as int,
                    );
                }
                let mut result = match generate_results(
                    names,
                    expressions,
                    &join_handler,
                    selection,
                ) {
                    Ok(r) => r,
                    Err(e) => {
                        return Err(e);
                    },
                };
                match result.sort(order_by) {
                    Ok(()) => {},
                    Err(e) => {
                        return Err(e);
                    },
                }
                Ok(result)
            },
        }
    }
}

/// As many names as expressions.
pub proof fn lemma_projections_len(
    handler: &crate::join_handler::JoinHandler,
    projections: Seq<crate::ast::Projection>,
    n: int,
)
    ensures
        spec_projections(handler, projections, n) matches Ok(p) ==> p.names.len()
            == p.expressions.len(),
    decreases n,
{
    if n > 0 {
        lemma_projections_len(handler, projections, n - 1);
    }
}

} // verus!

verus! {

// ---------------------------------------------------------------------------
// INSERT
// ---------------------------------------------------------------------------

/// The recorded foreign keys of a catalog.
pub open spec fn spec_catalog_records(catalog: &Catalog) -> Result<
    Seq<crate::foreign_key::ForeignKeyRecordView>,
    ErrorView,
> {
    crate::foreign_key::spec_records(
        catalog.spec_foreign_key_rows(),
        catalog.spec_foreign_key_rows().len() as int,
    )
}

/// The rows of a database after the first `n` rows of a source are
/// inserted into a table, one after the other; with `columns`, a row of
/// the source gives values for the columns of those names only.
pub open spec fn spec_insert_rows(
    catalog: &Catalog,
    records: Seq<crate::foreign_key::ForeignKeyRecordView>,
    rows: crate::foreign_key::Rows,
    table: int,
    columns: Option<Seq<Seq<char>>>,
    source: Seq<Seq<ValueView>>,
    n: int,
) -> Result<crate::foreign_key::Rows, ErrorView>
    decreases n,
{
    if n <= 0 {
        Ok(rows)
    } else {
        match spec_insert_rows(catalog, records, rows, table, columns, source, n - 1) {
            Err(e) => Err(e),
            Ok(before) => {
                let values = match columns {
                    Some(names) => crate::table_handler::spec_built_row(
                        &catalog.spec_definitions()[table],
                        names,
                        source[n - 1],
                        names.len() as int,
                    ),
                    None => Ok(source[n - 1]),
                };
                match values {
                    Err(e) => Err(e),
                    Ok(values) => crate::foreign_key::spec_insert(
                        catalog,
                        records,
                        before,
                        table,
                        values,
                    ),
                }
            },
        }
    }
}

/// Once a row cannot be inserted, more rows do not change the error.
pub proof fn lemma_insert_rows_error(
    catalog: &Catalog,
    records: Seq<crate::foreign_key::ForeignKeyRecordView>,
    rows: crate::foreign_key::Rows,
    table: int,
    columns: Option<Seq<Seq<char>>>,
    source: Seq<Seq<ValueView>>,
    from: int,
    to: int,
)
    requires
        0 <= from <= to,
        spec_insert_rows(catalog, records, rows, table, columns, source, from) is Err,
    ensures
        spec_insert_rows(catalog, records, rows, table, columns, source, to) == spec_insert_rows(
            catalog,
            records,
            rows,
            table,
            columns,
            source,
            from,
        ),
    decreases to - from,
{
    if from < to {
        lemma_insert_rows_error(catalog, records, rows, table, columns, source, from, to - 1);
    }
}

/// The rows of a database after the rows of a source are inserted into a
/// table. The source must have as many columns as the statement names, or
/// as the table has where it names none, else the statement fails with
/// `WrongNumColumns`; then every row must pass.
pub open spec fn spec_insert_source(
    catalog: &Catalog,
    rows: crate::foreign_key::Rows,
    table: int,
    columns: Option<Seq<Seq<char>>>,
    source: crate::relation::RelationView,
) -> Result<crate::foreign_key::Rows, ErrorView> {
    let expected = match columns {
        Some(names) => names.len(),
        None => catalog.spec_definitions()[table].spec_columns().spec_names().len(),
    };
    if source.column_names.len() != expected {
        Err(
            ErrorView::Execution(
                ExecutionErrorView::WrongNumColumns {
                    expected: expected as usize,
                    actual: source.column_names.len() as usize,
                },
            ),
        )
    } else {
        match spec_catalog_records(catalog) {
            Err(e) => Err(e),
            Ok(records) => spec_insert_rows(
                catalog,
                records,
                rows,
                table,
                columns,
                source.rows,
                source.rows.len() as int,
            ),
        }
    }
}

/// What the names of the columns of a statement hold.
pub open spec fn spec_column_list(columns: Option<Vec<String>>) -> Option<Seq<Seq<char>>> {
    match columns {
        Some(names) => Some(names.deep_view()),
        None => None,
    }
}

/// A copy of the rows of the tables.
pub fn copy_trees(trees: &Vec<Tree>) -> (copy: Vec<Tree>)
    ensures
        spec_trees_view(copy@) == spec_trees_view(trees@),
        copy.len() == trees.len(),
        forall|i: int| 0 <= i < copy.len() ==> (#[trigger] copy[i]).wf() == trees[i].wf(),
{
    let mut copy: Vec<Tree> = Vec::new();
    let mut i: usize = 0;
    while i < trees.len()
        invariant
            i <= trees.len(),
            copy.len() == i,
            forall|k: int| 0 <= k < i ==> (#[trigger] copy[k])@ == trees[k]@,
        decreases trees.len() - i,
    {
        copy.push(trees[i].duplicate());
        i += 1;
    }
    assert(spec_trees_view(copy@) =~= spec_trees_view(trees@));
    copy
}

fn build_row(definition: &TableDefinition, columns: &Vec<String>, row: &Vec<Value>) -> (result:
    Result<Vec<Value>, Error>)
    requires
        definition.wf(),
        row.len() == columns.len(),
    ensures
        crate::foreign_key::spec_values_result(result) == crate::table_handler::spec_built_row(
            definition,
            columns.deep_view(),
            row.deep_view(),
            columns.len() as int,
        ),
{
    let mut builder = crate::table_handler::RowBuilder::new(definition);
    let mut i: usize = 0;
    while i < columns.len()
        invariant
            i <= columns.len(),
            row.len() == columns.len(),
            builder.wf(),
            builder.spec_definition() == definition,
            crate::table_handler::spec_built_row(
                definition,
                columns.deep_view(),
                row.deep_view(),
                i as int,
            ) == Ok::<Seq<ValueView>, ErrorView>(builder.spec_row()),
        decreases columns.len() - i,
    {
        assert(columns.deep_view()[i as int] == columns[i as int]@);
        assert(row.deep_view()[i as int] == row[i as int]@);
        match builder.insert(columns[i].as_str(), row[i].duplicate()) {
            Ok(()) => {},
            Err(e) => {
                proof {
                    crate::table_handler::lemma_built_row_error(
                        definition,
                        columns.deep_view(),
                        row.deep_view(),
                        i + 1,
                        columns.len() as int,
                    );
                }
                return Err(e);
            },
        }
        i += 1;
    }
    Ok(builder.finalise())
}

fn copy_row(values: &Vec<Value>) -> (copy: Vec<Value>)
    ensures
        copy.deep_view() == values.deep_view(),
{
    let mut copy: Vec<Value> = Vec::new();
    let mut i: usize = 0;
    while i < values.len()
        invariant
            i <= values.len(),
            copy.len() == i,
            forall|k: int| 0 <= k < i ==> copy[k]@ == values[k]@,
        decreases values.len() - i,
    {
        copy.push(values[i].duplicate());
        i += 1;
    }
    assert(copy.deep_view() =~= values.deep_view());
    copy
}

/// Inserts row `i` of a source into a table of working rows.
fn insert_one(
    catalog: &Catalog,
    records: &Vec<crate::foreign_key::ForeignKeyRecord>,
    trees: &mut Vec<Tree>,
    table: usize,
    columns: &Option<Vec<String>>,
    rows: &Vec<Vec<Value>>,
    i: usize,
    Ghost(start): Ghost<crate::foreign_key::Rows>,
) -> (result: Result<(), Error>)
    requires
        catalog.wf(),
        spec_trees_wf(old(trees)@, catalog),
        table < catalog.spec_names().len(),
        i < rows.len(),
        match columns {
            Some(c) => rows[i as int].len() == c.len(),
            None => true,
        },
        spec_insert_rows(
            catalog,
            records.deep_view(),
            start,
            table as int,
            spec_column_list(*columns),
            crate::relation::spec_rows_view(rows@),
            i as int,
        ) == Ok::<crate::foreign_key::Rows, ErrorView>(spec_trees_view(old(trees)@)),
    ensures
        result is Ok ==> spec_trees_wf(final(trees)@, catalog),
        crate::foreign_key::spec_rows_result(result, final(trees)@) == spec_insert_rows(
            catalog,
            records.deep_view(),
            start,
            table as int,
            spec_column_list(*columns),
            crate::relation::spec_rows_view(rows@),
            i + 1,
        ),
{
    assert(catalog.spec_definitions()[table as int].wf());
    assert(crate::relation::spec_rows_view(rows@)[i as int] == rows[i as int].deep_view());
    let values = match columns {
        Some(c) => match build_row(catalog.definition(table), c, &rows[i]) {
            Ok(v) => v,
            Err(e) => {
                return Err(e);
            },
        },
        None => copy_row(&rows[i]),
    };
    crate::foreign_key::insert_values(catalog, records, trees, table, values)
}

/// Inserts the rows of a source into a table of working rows.
fn insert_source(
    catalog: &Catalog,
    trees: &mut Vec<Tree>,
    table: usize,
    columns: &Option<Vec<String>>,
    source: &crate::relation::Relation,
) -> (result: Result<(), Error>)
    requires
        catalog.wf(),
        spec_trees_wf(old(trees)@, catalog),
        table < catalog.spec_names().len(),
        source.wf(),
    ensures
        result is Ok ==> spec_trees_wf(final(trees)@, catalog),
        crate::foreign_key::spec_rows_result(result, final(trees)@) == spec_insert_source(
            catalog,
            spec_trees_view(old(trees)@),
            table as int,
            spec_column_list(*columns),
            source@,
        ),
{
    assert(catalog.spec_definitions()[table as int].wf());
    let expected = match columns {
        Some(c) => c.len(),
        None => catalog.definition(table).num_columns(),
    };
    if source.num_columns() != expected {
        return Err(
            Error::Execution(
                ExecutionError::WrongNumColumns { expected, actual: source.num_columns() },
            ),
        );
    }
    let records = match crate::foreign_key::load_records(catalog) {
        Ok(r) => r,
        Err(e) => {
            return Err(e);
        },
    };
    let rows = source.rows();
    let ghost start = spec_trees_view(trees@);
    let ghost names = spec_column_list(*columns);
    let ghost all = source@.rows;
    let mut i: usize = 0;
    while i < rows.len()
        invariant
            catalog.wf(),
            spec_trees_wf(trees@, catalog),
            table < catalog.spec_names().len(),
            source.wf(),
            i <= rows.len(),
            names == spec_column_list(*columns),
            all == source@.rows,
            all == crate::relation::spec_rows_view(rows@),
            start == spec_trees_view(old(trees)@),
            spec_catalog_records(catalog) == Ok::<
                Seq<crate::foreign_key::ForeignKeyRecordView>,
                ErrorView,
            >(records.deep_view()),
            source@.column_names.len() == match columns {
                Some(c) => c.len() as nat,
                None => catalog.spec_definitions()[table as int].spec_columns().spec_names().len(),
            },
            match columns {
                Some(c) => source@.column_names.len() == c.len(),
                None => true,
            },
            spec_insert_rows(catalog, records.deep_view(), start, table as int, names, all, i as int)
                == Ok::<crate::foreign_key::Rows, ErrorView>(spec_trees_view(trees@)),
        decreases rows.len() - i,
    {
        assert(all[i as int] == rows[i as int].deep_view());
        assert(all[i as int].len() == source@.column_names.len());
        match insert_one(catalog, &records, trees, table, columns, rows, i, Ghost(start)) {
            Ok(()) => {},
            Err(e) => {
                proof {
                    lemma_insert_rows_error(
                        catalog,
                        records.deep_view(),
                        start,
                        table as int,
                        names,
                        all,
                        i + 1,
                        rows.len() as int,
                    );
                }
                return Err(e);
            },
        }
        i += 1;
    }
    Ok(())
}

impl Interpreter {
    /// The rows of the tables.
    pub open spec fn spec_rows(&self) -> crate::foreign_key::Rows {
        spec_trees_view(self.spec_trees())
    }

    /// Runs an `INSERT`: the rows of its source are inserted into its
    /// table, all of them or, where one of them fails, none.
    pub fn execute_insert(&mut self, insert: crate::ast::Insert) -> (result: Result<
        crate::relation::Relation,
        Error,
    >)
        requires
            old(self).wf(),
        ensures
            final(self).wf(),
            spec_executed_insert(old(self), insert, final(self), spec_relation_result(result)),
    {
        let crate::ast::Insert { table, columns, values } = insert;
        let t = match self.catalog.find(table.name.as_str()) {
            Some(t) => t,
            None => {
                return Err(Error::Execution(ExecutionError::NoTable(table.name)));
            },
        };
        let source = match self.execute_select(values) {
            Ok(s) => s,
            Err(e) => {
                return Err(e);
            },
        };
        let mut work = copy_trees(&self.trees);
        match insert_source(&self.catalog, &mut work, t, &columns, &source) {
            Ok(()) => {},
            Err(e) => {
                return Err(e);
            },
        }
        self.trees = work;
        Ok(crate::relation::Relation::new(Vec::new()))
    }
}

} // verus!

verus! {

// ---------------------------------------------------------------------------
// DELETE and UPDATE
// ---------------------------------------------------------------------------

/// How many rows the first `n` tables hold.
pub open spec fn spec_total_rows(rows: crate::foreign_key::Rows, n: int) -> nat
    decreases n,
{
    if n <= 0 {
        0
    } else {
        spec_total_rows(rows, n - 1) + rows[n - 1].len()
    }
}

/// How long a cascade may get: one step more than the database has rows,
/// as far as that can be counted.
pub open spec fn spec_fuel(rows: crate::foreign_key::Rows) -> nat {
    if spec_total_rows(rows, rows.len() as int) + 1 > usize::MAX {
        usize::MAX as nat
    } else {
        spec_total_rows(rows, rows.len() as int) + 1
    }
}

fn fuel_for(trees: &Vec<Tree>) -> (fuel: usize)
    ensures
        fuel == spec_fuel(spec_trees_view(trees@)),
{
    let mut total: usize = 0;
    let mut saturated: bool = false;
    let ghost rows = spec_trees_view(trees@);
    let mut i: usize = 0;
    while i < trees.len()
        invariant
            i <= trees.len(),
            rows == spec_trees_view(trees@),
            !saturated ==> total == spec_total_rows(rows, i as int),
            saturated ==> spec_total_rows(rows, i as int) > usize::MAX,
        decreases trees.len() - i,
    {
        assert(rows[i as int] == trees[i as int]@);
        if !saturated {
            match total.checked_add(trees[i].len()) {
                Some(t) => {
                    total = t;
                },
                None => {
                    saturated = true;
                },
            }
        }
        i += 1;
    }
    if saturated || total == usize::MAX {
        usize::MAX
    } else {
        total + 1
    }
}

/// The expression of a `WHERE` clause over one table: the clause with its
/// names resolved, or what is always true where there is none.
pub open spec fn spec_predicate(
    names: Seq<Seq<char>>,
    table: Seq<char>,
    predicate: Option<UnresolvedExpression>,
) -> Result<ExpressionView, ErrorView> {
    match predicate {
        Some(e) => spec_resolve_expression(
            e,
            crate::table_handler::spec_table_resolver(names, table),
        ),
        None => Ok(crate::join_handler::spec_true_expression()),
    }
}

/// What a stored row of a table of a catalog holds for each column.
pub open spec fn spec_table_env(catalog: &Catalog, table: int, row: TableRowView) -> RowEnv {
    crate::table_handler::spec_stored_env(
        catalog.spec_definitions()[table].spec_columns(),
        catalog.spec_names()[table],
        row,
    )
}

/// The rows of a database after those rows of a table of which a
/// predicate is true are deleted: the rows that the table had at first are
/// gone through by key, from `from` on; a row that has gone since is
/// passed over; the predicate is evaluated on the row as it is when its
/// turn comes.
#[verifier::opaque]
pub open spec fn spec_delete_matching(
    catalog: &Catalog,
    records: Seq<crate::foreign_key::ForeignKeyRecordView>,
    rows: crate::foreign_key::Rows,
    table: int,
    predicate: ExpressionView,
    fuel: nat,
    snapshot: Seq<TableRowView>,
    from: int,
) -> Result<crate::foreign_key::Rows, ErrorView>
    decreases snapshot.len() - from,
{
    if from < 0 || from >= snapshot.len() {
        Ok(rows)
    } else {
        let key = snapshot[from].left;
        match crate::table_handler::spec_find(rows[table], key, 0) {
            None => spec_delete_matching(
                catalog,
                records,
                rows,
                table,
                predicate,
                fuel,
                snapshot,
                from + 1,
            ),
            Some(i) => match spec_evaluate(
                predicate,
                spec_table_env(catalog, table, rows[table][i]),
            ) {
                Err(e) => Err(e),
                Ok(v) => if crate::data_types::spec_is_true(v) {
                    match crate::foreign_key::spec_delete_row(
                        catalog,
                        records,
                        rows,
                        table,
                        key,
                        Seq::empty(),
                        fuel,
                    ) {
                        Err(e) => Err(e),
                        Ok(after) => spec_delete_matching(
                            catalog,
                            records,
                            after,
                            table,
                            predicate,
                            fuel,
                            snapshot,
                            from + 1,
                        ),
                    }
                } else {
                    spec_delete_matching(
                        catalog,
                        records,
                        rows,
                        table,
                        predicate,
                        fuel,
                        snapshot,
                        from + 1,
                    )
                },
            },
        }
    }
}

/// The rows of a database after a `DELETE` on one of its tables.
pub open spec fn spec_delete(
    catalog: &Catalog,
    rows: crate::foreign_key::Rows,
    table: int,
    predicate: Option<UnresolvedExpression>,
) -> Result<crate::foreign_key::Rows, ErrorView> {
    match spec_predicate(
        catalog.spec_definitions()[table].spec_columns().spec_names(),
        catalog.spec_names()[table],
        predicate,
    ) {
        Err(e) => Err(e),
        Ok(p) => match spec_catalog_records(catalog) {
            Err(e) => Err(e),
            Ok(records) => spec_delete_matching(
                catalog,
                records,
                rows,
                table,
                p,
                spec_fuel(rows),
                rows[table],
                0,
            ),
        },
    }
}

/// An assignment of an `UPDATE` with its names resolved: the position of
/// the column, and the expression of its new value.
pub struct AssignmentView {
    pub column: int,
    pub value: ExpressionView,
}

/// The first `n` assignments of an `UPDATE` with their names resolved; a
/// column that the table does not have fails with `NoColumn`.
pub open spec fn spec_assignments(
    names: Seq<Seq<char>>,
    table: Seq<char>,
    assignments: Seq<(String, UnresolvedExpression)>,
    n: int,
) -> Result<Seq<AssignmentView>, ErrorView>
    decreases n,
{
    if n <= 0 {
        Ok(Seq::empty())
    } else {
        match spec_assignments(names, table, assignments, n - 1) {
            Err(e) => Err(e),
            Ok(before) => match crate::storage::spec_index_of(names, assignments[n - 1].0@) {
                None => Err(
                    ErrorView::Execution(ExecutionErrorView::NoColumn(assignments[n - 1].0@)),
                ),
                Some(column) => match spec_resolve_expression(
                    assignments[n - 1].1,
                    crate::table_handler::spec_table_resolver(names, table),
                ) {
                    Err(e) => Err(e),
                    Ok(value) => Ok(before.push(AssignmentView { column, value })),
                },
            },
        }
    }
}

/// Once an assignment fails, more assignments do not change the error.
pub proof fn lemma_assignments_error(
    names: Seq<Seq<char>>,
    table: Seq<char>,
    assignments: Seq<(String, UnresolvedExpression)>,
    from: int,
    to: int,
)
    requires
        0 <= from <= to,
        spec_assignments(names, table, assignments, from) is Err,
    ensures
        spec_assignments(names, table, assignments, to) == spec_assignments(
            names,
            table,
            assignments,
            from,
        ),
    decreases to - from,
{
    if from < to {
        lemma_assignments_error(names, table, assignments, from, to - 1);
    }
}

/// The values of a row after the first `n` assignments: each new value is
/// evaluated on the row as it is stored, and a later assignment to a column
/// replaces an earlier one.
pub open spec fn spec_assigned(
    values: Seq<ValueView>,
    assignments: Seq<AssignmentView>,
    row: RowEnv,
    n: int,
) -> Result<Seq<ValueView>, ErrorView>
    decreases n,
{
    if n <= 0 {
        Ok(values)
    } else {
        match spec_assigned(values, assignments, row, n - 1) {
            Err(e) => Err(e),
            Ok(before) => match spec_evaluate(assignments[n - 1].value, row) {
                Err(e) => Err(e),
                Ok(v) => Ok(before.update(assignments[n - 1].column, v)),
            },
        }
    }
}

/// Once an assignment cannot be evaluated, more do not change the error.
pub proof fn lemma_assigned_error(
    values: Seq<ValueView>,
    assignments: Seq<AssignmentView>,
    row: RowEnv,
    from: int,
    to: int,
)
    requires
        0 <= from <= to,
        spec_assigned(values, assignments, row, from) is Err,
    ensures
        spec_assigned(values, assignments, row, to) == spec_assigned(
            values,
            assignments,
            row,
            from,
        ),
    decreases to - from,
{
    if from < to {
        lemma_assigned_error(values, assignments, row, from, to - 1);
    }
}

/// The rows of a database after those rows of a table of which a
/// predicate is true get new values: the rows that the table had at first
/// are gone through by key, from `from` on; a row that has gone since is
/// passed over.
#[verifier::opaque]
pub open spec fn spec_update_matching(
    catalog: &Catalog,
    records: Seq<crate::foreign_key::ForeignKeyRecordView>,
    rows: crate::foreign_key::Rows,
    table: int,
    predicate: ExpressionView,
    assignments: Seq<AssignmentView>,
    fuel: nat,
    snapshot: Seq<TableRowView>,
    from: int,
) -> Result<crate::foreign_key::Rows, ErrorView>
    decreases snapshot.len() - from,
{
    if from < 0 || from >= snapshot.len() {
        Ok(rows)
    } else {
        let key = snapshot[from].left;
        match crate::table_handler::spec_find(rows[table], key, 0) {
            None => spec_update_matching(
                catalog,
                records,
                rows,
                table,
                predicate,
                assignments,
                fuel,
                snapshot,
                from + 1,
            ),
            Some(i) => {
                let row = spec_table_env(catalog, table, rows[table][i]);
                match spec_evaluate(predicate, row) {
                    Err(e) => Err(e),
                    Ok(v) => if crate::data_types::spec_is_true(v) {
                        match crate::foreign_key::spec_values_of(catalog, table, rows[table][i]) {
                            Err(e) => Err(e),
                            Ok(old_values) => match spec_assigned(
                                old_values,
                                assignments,
                                row,
                                assignments.len() as int,
                            ) {
                                Err(e) => Err(e),
                                Ok(values) => match crate::foreign_key::spec_update_row(
                                    catalog,
                                    records,
                                    rows,
                                    table,
                                    key,
                                    values,
                                    Seq::empty(),
                                    fuel,
                                ) {
                                    Err(e) => Err(e),
                                    Ok(after) => spec_update_matching(
                                        catalog,
                                        records,
                                        after,
                                        table,
                                        predicate,
                                        assignments,
                                        fuel,
                                        snapshot,
                                        from + 1,
                                    ),
                                },
                            },
                        }
                    } else {
                        spec_update_matching(
                            catalog,
                            records,
                            rows,
                            table,
                            predicate,
                            assignments,
                            fuel,
                            snapshot,
                            from + 1,
                        )
                    },
                }
            },
        }
    }
}

/// The rows of a database after an `UPDATE` on one of its tables: the
/// assignments are resolved, then the filter, then the rows are gone
/// through.
pub open spec fn spec_update(
    catalog: &Catalog,
    rows: crate::foreign_key::Rows,
    table: int,
    assignments: Seq<(String, UnresolvedExpression)>,
    filter: Option<UnresolvedExpression>,
) -> Result<crate::foreign_key::Rows, ErrorView> {
    let names = catalog.spec_definitions()[table].spec_columns().spec_names();
    match spec_assignments(names, catalog.spec_names()[table], assignments, assignments.len() as int) {
        Err(e) => Err(e),
        Ok(resolved) => match spec_predicate(names, catalog.spec_names()[table], filter) {
            Err(e) => Err(e),
            Ok(p) => match spec_catalog_records(catalog) {
                Err(e) => Err(e),
                Ok(records) => spec_update_matching(
                    catalog,
                    records,
                    rows,
                    table,
                    p,
                    resolved,
                    spec_fuel(rows),
                    rows[table],
                    0,
                ),
            },
        },
    }
}

} // verus!

verus! {

fn resolve_predicate(
    catalog: &Catalog,
    table: usize,
    predicate: &Option<UnresolvedExpression>,
) -> (result: Result<Expression, Error>)
    requires
        catalog.wf(),
        table < catalog.spec_names().len(),
    ensures
        spec_expression_result(result) == spec_predicate(
            catalog.spec_definitions()[table as int].spec_columns().spec_names(),
            catalog.spec_names()[table as int],
            *predicate,
        ),
{
    match predicate {
        Some(e) => {
            let tree = Tree::new();
            let handler = TableHandler::new(
                &tree,
                catalog.definition(table),
                catalog.name(table).to_owned(),
                None,
            );
            assert(spec_resolver(&handler) =~= crate::table_handler::spec_table_resolver(
                catalog.spec_definitions()[table as int].spec_columns().spec_names(),
                catalog.spec_names()[table as int],
            ));
            resolve_expression_ref(e, &handler)
        },
        None => Ok(
            Expression::Value(Value::TypedValue(crate::data_types::TypeContents::Integer(1))),
        ),
    }
}

/// Whether a predicate is true of the row of a table at a position.
fn row_matches(
    catalog: &Catalog,
    trees: &Vec<Tree>,
    table: usize,
    index: usize,
    predicate: &Expression,
) -> (result: Result<bool, Error>)
    requires
        catalog.wf(),
        spec_trees_wf(trees@, catalog),
        table < catalog.spec_names().len(),
        index < spec_trees_view(trees@)[table as int].len(),
    ensures
        match result {
            Ok(b) => spec_evaluate(
                predicate@,
                spec_table_env(catalog, table as int, spec_trees_view(trees@)[table as int][index as int]),
            ) matches Ok(v) && b == crate::data_types::spec_is_true(v),
            Err(e) => spec_evaluate(
                predicate@,
                spec_table_env(catalog, table as int, spec_trees_view(trees@)[table as int][index as int]),
            ) == Err::<ValueView, ErrorView>(e@),
        },
{
    let handler = crate::foreign_key::handler_of(catalog, trees, table);
    let rows = handler.iter();
    assert(crate::table_handler::spec_table_rows(rows@)[index as int] == rows[index as int]@);
    assert(spec_env(&(&handler, &rows[index as int])) =~= spec_table_env(
        catalog,
        table as int,
        rows[index as int]@,
    ));
    match evaluate_expression(predicate, &(&handler, &rows[index])) {
        Ok(v) => Ok(v.is_true()),
        Err(e) => Err(e),
    }
}

fn delete_one(
    catalog: &Catalog,
    records: &Vec<crate::foreign_key::ForeignKeyRecord>,
    trees: &mut Vec<Tree>,
    table: usize,
    predicate: &Expression,
    fuel: usize,
    snapshot: &Tree,
    j: usize,
) -> (result: Result<(), Error>)
    requires
        catalog.wf(),
        spec_trees_wf(old(trees)@, catalog),
        table < catalog.spec_names().len(),
        j < snapshot@.len(),
    ensures
        result is Ok ==> spec_trees_wf(final(trees)@, catalog),
        match result {
            Ok(()) => spec_delete_matching(
                catalog,
                records.deep_view(),
                spec_trees_view(old(trees)@),
                table as int,
                predicate@,
                fuel as nat,
                snapshot@,
                j as int,
            ) == spec_delete_matching(
                catalog,
                records.deep_view(),
                spec_trees_view(final(trees)@),
                table as int,
                predicate@,
                fuel as nat,
                snapshot@,
                j + 1,
            ),
            Err(e) => spec_delete_matching(
                catalog,
                records.deep_view(),
                spec_trees_view(old(trees)@),
                table as int,
                predicate@,
                fuel as nat,
                snapshot@,
                j as int,
            ) == Err::<crate::foreign_key::Rows, ErrorView>(e@),
        },
{
    proof {
        reveal(spec_delete_matching);
    }
    let key = snapshot.row(j).key();
    assert(trees@[table as int].wf());
    let index = match trees[table].find(key) {
        Some(i) => i,
        None => {
            return Ok(());
        },
    };
    let matches = match row_matches(catalog, trees, table, index, predicate) {
        Ok(b) => b,
        Err(e) => {
            return Err(e);
        },
    };
    if matches {
        let chain: Vec<crate::foreign_key::VisitedRow> = Vec::new();
        assert(chain.deep_view() =~= Seq::<crate::foreign_key::Visit>::empty());
        crate::foreign_key::delete_row(catalog, records, trees, table, key, &chain, fuel)
    } else {
        Ok(())
    }
}

/// Deletes from a table of working rows the rows of which a predicate is
/// true.
fn delete_matching(
    catalog: &Catalog,
    trees: &mut Vec<Tree>,
    table: usize,
    predicate: &Option<UnresolvedExpression>,
) -> (result: Result<(), Error>)
    requires
        catalog.wf(),
        spec_trees_wf(old(trees)@, catalog),
        table < catalog.spec_names().len(),
    ensures
        result is Ok ==> spec_trees_wf(final(trees)@, catalog),
        crate::foreign_key::spec_rows_result(result, final(trees)@) == spec_delete(
            catalog,
            spec_trees_view(old(trees)@),
            table as int,
            *predicate,
        ),
{
    let resolved = match resolve_predicate(catalog, table, predicate) {
        Ok(p) => p,
        Err(e) => {
            return Err(e);
        },
    };
    let records = match crate::foreign_key::load_records(catalog) {
        Ok(r) => r,
        Err(e) => {
            return Err(e);
        },
    };
    let fuel = fuel_for(trees);
    assert(trees@[table as int].wf());
    let snapshot = trees[table].duplicate();
    let ghost start = spec_trees_view(trees@);
    let count = snapshot.len();
    let mut j: usize = 0;
    while j < count
        invariant
            catalog.wf(),
            spec_trees_wf(trees@, catalog),
            table < catalog.spec_names().len(),
            j <= count,
            count == snapshot@.len(),
            start == spec_trees_view(old(trees)@),
            snapshot@ == start[table as int],
            fuel == spec_fuel(start),
            spec_predicate(
                catalog.spec_definitions()[table as int].spec_columns().spec_names(),
                catalog.spec_names()[table as int],
                *predicate,
            ) == Ok::<ExpressionView, ErrorView>(resolved@),
            spec_catalog_records(catalog) == Ok::<
                Seq<crate::foreign_key::ForeignKeyRecordView>,
                ErrorView,
            >(records.deep_view()),
            spec_delete_matching(
                catalog,
                records.deep_view(),
                start,
                table as int,
                resolved@,
                fuel as nat,
                snapshot@,
                0,
            ) == spec_delete_matching(
                catalog,
                records.deep_view(),
                spec_trees_view(trees@),
                table as int,
                resolved@,
                fuel as nat,
                snapshot@,
                j as int,
            ),
        decreases count - j,
    {
        match delete_one(catalog, &records, trees, table, &resolved, fuel, &snapshot, j) {
            Ok(()) => {},
            Err(e) => {
                return Err(e);
            },
        }
        j += 1;
    }
    proof {
        reveal(spec_delete_matching);
    }
    Ok(())
}

fn resolve_assignments(
    catalog: &Catalog,
    table: usize,
    assignments: &Vec<(String, UnresolvedExpression)>,
) -> (result: Result<Vec<(usize, Expression)>, Error>)
    requires
        catalog.wf(),
        table < catalog.spec_names().len(),
    ensures
        match result {
            Ok(resolved) => spec_assignments(
                catalog.spec_definitions()[table as int].spec_columns().spec_names(),
                catalog.spec_names()[table as int],
                assignments@,
                assignments.len() as int,
            ) == Ok::<Seq<AssignmentView>, ErrorView>(spec_assignment_views(resolved@))
                && forall|k: int|
                0 <= k < resolved.len() ==> (#[trigger] resolved[k]).0
                    < catalog.spec_definitions()[table as int].spec_columns().spec_names().len(),
            Err(e) => spec_assignments(
                catalog.spec_definitions()[table as int].spec_columns().spec_names(),
                catalog.spec_names()[table as int],
                assignments@,
                assignments.len() as int,
            ) == Err::<Seq<AssignmentView>, ErrorView>(e@),
        },
{
    let tree = Tree::new();
    assert(catalog.spec_definitions()[table as int].wf());
    let definition = catalog.definition(table);
    let handler = TableHandler::new(&tree, definition, catalog.name(table).to_owned(), None);
    let ghost names = catalog.spec_definitions()[table as int].spec_columns().spec_names();
    let ghost name = catalog.spec_names()[table as int];
    assert(spec_resolver(&handler) =~= crate::table_handler::spec_table_resolver(names, name));
    let mut resolved: Vec<(usize, Expression)> = Vec::new();
    let mut i: usize = 0;
    assert(spec_assignment_views(resolved@) =~= Seq::<AssignmentView>::empty());
    while i < assignments.len()
        invariant
            i <= assignments.len(),
            definition.wf(),
            definition.spec_columns().spec_names() == names,
            names == catalog.spec_definitions()[table as int].spec_columns().spec_names(),
            name == catalog.spec_names()[table as int],
            spec_resolver(&handler) == crate::table_handler::spec_table_resolver(names, name),
            spec_assignments(names, name, assignments@, i as int) == Ok::<
                Seq<AssignmentView>,
                ErrorView,
            >(spec_assignment_views(resolved@)),
            forall|k: int| 0 <= k < resolved.len() ==> (#[trigger] resolved[k]).0 < names.len(),
        decreases assignments.len() - i,
    {
        let ghost before = spec_assignment_views(resolved@);
        let column = match definition.column_index(assignments[i].0.as_str()) {
            Ok(c) => c,
            Err(e) => {
                proof {
                    lemma_assignments_error(names, name, assignments@, i + 1, assignments.len() as int);
                }
                return Err(e);
            },
        };
        let value = match resolve_expression_ref(&assignments[i].1, &handler) {
            Ok(v) => v,
            Err(e) => {
                proof {
                    lemma_assignments_error(names, name, assignments@, i + 1, assignments.len() as int);
                }
                return Err(e);
            },
        };
        resolved.push((column, value));
        assert(spec_assignment_views(resolved@) =~= before.push(
            AssignmentView { column: column as int, value: value@ },
        ));
        i += 1;
    }
    Ok(resolved)
}

/// What resolved assignments hold.
pub open spec fn spec_assignment_views(assignments: Seq<(usize, Expression)>) -> Seq<AssignmentView> {
    Seq::new(
        assignments.len(),
        |i: int| AssignmentView { column: assignments[i].0 as int, value: assignments[i].1@ },
    )
}

/// The new values of the row of a table at a position.
fn assigned_values(
    catalog: &Catalog,
    trees: &Vec<Tree>,
    table: usize,
    index: usize,
    assignments: &Vec<(usize, Expression)>,
) -> (result: Result<Vec<Value>, Error>)
    requires
        catalog.wf(),
        spec_trees_wf(trees@, catalog),
        table < catalog.spec_names().len(),
        index < spec_trees_view(trees@)[table as int].len(),
        forall|k: int|
            0 <= k < assignments.len() ==> (#[trigger] assignments[k]).0
                < catalog.spec_definitions()[table as int].spec_columns().spec_names().len(),
    ensures
        crate::foreign_key::spec_values_result(result) == match crate::foreign_key::spec_values_of(
            catalog,
            table as int,
            spec_trees_view(trees@)[table as int][index as int],
        ) {
            Err(e) => Err(e),
            Ok(old_values) => spec_assigned(
                old_values,
                spec_assignment_views(assignments@),
                spec_table_env(catalog, table as int, spec_trees_view(trees@)[table as int][index as int]),
                assignments.len() as int,
            ),
        },
{
    let handler = crate::foreign_key::handler_of(catalog, trees, table);
    let rows = handler.iter();
    let row = &rows[index];
    assert(crate::table_handler::spec_table_rows(rows@)[index as int] == rows[index as int]@);
    let ghost env = spec_table_env(catalog, table as int, row@);
    assert(spec_env(&(&handler, row)) =~= env);
    let mut updater = match crate::table_handler::TableRowUpdater::new(row, &handler) {
        Ok(u) => u,
        Err(e) => {
            return Err(e);
        },
    };
    let ghost old_values = updater.spec_row();
    let ghost views = spec_assignment_views(assignments@);
    proof {
        crate::foreign_key::lemma_decode_row_len(
            crate::foreign_key::spec_types_of(catalog, table as int),
            row@.right,
            crate::foreign_key::spec_types_of(catalog, table as int).len() as int,
        );
    }
    let mut i: usize = 0;
    while i < assignments.len()
        invariant
            handler.wf(),
            i <= assignments.len(),
            views == spec_assignment_views(assignments@),
            spec_env(&(&handler, row)) == env,
            env == spec_table_env(
                catalog,
                table as int,
                spec_trees_view(trees@)[table as int][index as int],
            ),
            crate::foreign_key::spec_values_of(
                catalog,
                table as int,
                spec_trees_view(trees@)[table as int][index as int],
            ) == Ok::<Seq<ValueView>, ErrorView>(old_values),
            updater.spec_row().len() == old_values.len(),
            old_values.len()
                == catalog.spec_definitions()[table as int].spec_columns().spec_names().len(),
            forall|k: int|
                0 <= k < assignments.len() ==> (#[trigger] assignments[k]).0
                    < catalog.spec_definitions()[table as int].spec_columns().spec_names().len(),
            spec_assigned(old_values, views, env, i as int) == Ok::<Seq<ValueView>, ErrorView>(
                updater.spec_row(),
            ),
        decreases assignments.len() - i,
    {
        assert(views[i as int].value == assignments[i as int].1@);
        let value = match evaluate_expression(&assignments[i].1, &(&handler, row)) {
            Ok(v) => v,
            Err(e) => {
                proof {
                    lemma_assigned_error(old_values, views, env, i + 1, assignments.len() as int);
                }
                return Err(e);
            },
        };
        match updater.add_update(assignments[i].0, value) {
            Ok(()) => {},
            Err(e) => {
                assert(false);
                return Err(e);
            },
        }
        i += 1;
    }
    Ok(updater.finalise())
}

fn update_one(
    catalog: &Catalog,
    records: &Vec<crate::foreign_key::ForeignKeyRecord>,
    trees: &mut Vec<Tree>,
    table: usize,
    predicate: &Expression,
    assignments: &Vec<(usize, Expression)>,
    fuel: usize,
    snapshot: &Tree,
    j: usize,
) -> (result: Result<(), Error>)
    requires
        catalog.wf(),
        spec_trees_wf(old(trees)@, catalog),
        table < catalog.spec_names().len(),
        j < snapshot@.len(),
        forall|k: int|
            0 <= k < assignments.len() ==> (#[trigger] assignments[k]).0
                < catalog.spec_definitions()[table as int].spec_columns().spec_names().len(),
    ensures
        result is Ok ==> spec_trees_wf(final(trees)@, catalog),
        match result {
            Ok(()) => spec_update_matching(
                catalog,
                records.deep_view(),
                spec_trees_view(old(trees)@),
                table as int,
                predicate@,
                spec_assignment_views(assignments@),
                fuel as nat,
                snapshot@,
                j as int,
            ) == spec_update_matching(
                catalog,
                records.deep_view(),
                spec_trees_view(final(trees)@),
                table as int,
                predicate@,
                spec_assignment_views(assignments@),
                fuel as nat,
                snapshot@,
                j + 1,
            ),
            Err(e) => spec_update_matching(
                catalog,
                records.deep_view(),
                spec_trees_view(old(trees)@),
                table as int,
                predicate@,
                spec_assignment_views(assignments@),
                fuel as nat,
                snapshot@,
                j as int,
            ) == Err::<crate::foreign_key::Rows, ErrorView>(e@),
        },
{
    proof {
        reveal(spec_update_matching);
    }
    let key = snapshot.row(j).key();
    assert(trees@[table as int].wf());
    let index = match trees[table].find(key) {
        Some(i) => i,
        None => {
            return Ok(());
        },
    };
    let matches = match row_matches(catalog, trees, table, index, predicate) {
        Ok(b) => b,
        Err(e) => {
            return Err(e);
        },
    };
    if matches {
        let values = match assigned_values(catalog, trees, table, index, assignments) {
            Ok(v) => v,
            Err(e) => {
                return Err(e);
            },
        };
        let chain: Vec<crate::foreign_key::VisitedRow> = Vec::new();
        assert(chain.deep_view() =~= Seq::<crate::foreign_key::Visit>::empty());
        crate::foreign_key::update_row(catalog, records, trees, table, key, values, &chain, fuel)
    } else {
        Ok(())
    }
}

/// Gives new values to the rows of a table of working rows of which a
/// predicate is true.
fn update_matching(
    catalog: &Catalog,
    trees: &mut Vec<Tree>,
    table: usize,
    assignments: &Vec<(String, UnresolvedExpression)>,
    filter: &Option<UnresolvedExpression>,
) -> (result: Result<(), Error>)
    requires
        catalog.wf(),
        spec_trees_wf(old(trees)@, catalog),
        table < catalog.spec_names().len(),
    ensures
        result is Ok ==> spec_trees_wf(final(trees)@, catalog),
        crate::foreign_key::spec_rows_result(result, final(trees)@) == spec_update(
            catalog,
            spec_trees_view(old(trees)@),
            table as int,
            assignments@,
            *filter,
        ),
{
    let resolved = match resolve_assignments(catalog, table, assignments) {
        Ok(a) => a,
        Err(e) => {
            return Err(e);
        },
    };
    let predicate = match resolve_predicate(catalog, table, filter) {
        Ok(p) => p,
        Err(e) => {
            return Err(e);
        },
    };
    let records = match crate::foreign_key::load_records(catalog) {
        Ok(r) => r,
        Err(e) => {
            return Err(e);
        },
    };
    let fuel = fuel_for(trees);
    assert(trees@[table as int].wf());
    let snapshot = trees[table].duplicate();
    let ghost start = spec_trees_view(trees@);
    let count = snapshot.len();
    let mut j: usize = 0;
    while j < count
        invariant
            catalog.wf(),
            spec_trees_wf(trees@, catalog),
            table < catalog.spec_names().len(),
            j <= count,
            count == snapshot@.len(),
            forall|k: int|
                0 <= k < resolved.len() ==> (#[trigger] resolved[k]).0
                    < catalog.spec_definitions()[table as int].spec_columns().spec_names().len(),
            start == spec_trees_view(old(trees)@),
            snapshot@ == start[table as int],
            fuel == spec_fuel(start),
            spec_assignments(
                catalog.spec_definitions()[table as int].spec_columns().spec_names(),
                catalog.spec_names()[table as int],
                assignments@,
                assignments.len() as int,
            ) == Ok::<Seq<AssignmentView>, ErrorView>(spec_assignment_views(resolved@)),
            spec_predicate(
                catalog.spec_definitions()[table as int].spec_columns().spec_names(),
                catalog.spec_names()[table as int],
                *filter,
            ) == Ok::<ExpressionView, ErrorView>(predicate@),
            spec_catalog_records(catalog) == Ok::<
                Seq<crate::foreign_key::ForeignKeyRecordView>,
                ErrorView,
            >(records.deep_view()),
            spec_update_matching(
                catalog,
                records.deep_view(),
                start,
                table as int,
                predicate@,
                spec_assignment_views(resolved@),
                fuel as nat,
                snapshot@,
                0,
            ) == spec_update_matching(
                catalog,
                records.deep_view(),
                spec_trees_view(trees@),
                table as int,
                predicate@,
                spec_assignment_views(resolved@),
                fuel as nat,
                snapshot@,
                j as int,
            ),
        decreases count - j,
    {
        match update_one(catalog, &records, trees, table, &predicate, &resolved, fuel, &snapshot, j) {
            Ok(()) => {},
            Err(e) => {
                return Err(e);
            },
        }
        j += 1;
    }
    proof {
        reveal(spec_update_matching);
    }
    Ok(())
}

impl Interpreter {
    /// Runs a `DELETE`: the rows of its table of which its predicate is
    /// true are deleted, with what that does to the rows that refer to
    /// them; all of it or, where anything fails, nothing.
    pub fn execute_delete(&mut self, delete: crate::ast::Delete) -> (result: Result<
        crate::relation::Relation,
        Error,
    >)
        requires
            old(self).wf(),
        ensures
            final(self).wf(),
            spec_executed_delete(old(self), delete, final(self), spec_relation_result(result)),
    {
        let t = match self.catalog.find(delete.table_name.as_str()) {
            Some(t) => t,
            None => {
                return Err(Error::Execution(ExecutionError::NoTable(delete.table_name)));
            },
        };
        let mut work = copy_trees(&self.trees);
        match delete_matching(&self.catalog, &mut work, t, &delete.predicate) {
            Ok(()) => {},
            Err(e) => {
                return Err(e);
            },
        }
        self.trees = work;
        Ok(crate::relation::Relation::new(Vec::new()))
    }

    /// Runs an `UPDATE`: the rows of its table of which its filter is true
    /// get new values, with what that does to the rows that refer to them;
    /// all of it or, where anything fails, nothing.
    pub fn execute_update(&mut self, update: crate::ast::Update) -> (result: Result<
        crate::relation::Relation,
        Error,
    >)
        requires
            old(self).wf(),
        ensures
            final(self).wf(),
            spec_executed_update(old(self), update, final(self), spec_relation_result(result)),
    {
        let t = match self.catalog.find(update.table_name.as_str()) {
            Some(t) => t,
            None => {
                return Err(Error::Execution(ExecutionError::NoTable(update.table_name)));
            },
        };
        let mut work = copy_trees(&self.trees);
        match update_matching(&self.catalog, &mut work, t, &update.assignments, &update.filter) {
            Ok(()) => {},
            Err(e) => {
                return Err(e);
            },
        }
        self.trees = work;
        Ok(crate::relation::Relation::new(Vec::new()))
    }
}

} // verus!

verus! {

broadcast use vstd::std_specs::hash::group_hash_axioms;

// ---------------------------------------------------------------------------
// CREATE TABLE
// ---------------------------------------------------------------------------

/// The value of an expression that names no column.
pub open spec fn spec_literal(expression: UnresolvedExpression) -> Result<ValueView, ErrorView> {
    match spec_resolve_expression(expression, spec_resolver(&crate::Empty)) {
        Err(e) => Err(e),
        Ok(x) => spec_evaluate(x, spec_env(&crate::Empty)),
    }
}

/// The columns of a new table: their names and types, the positions of
/// those that reject null, and the default values by position.
pub struct NewColumnsView {
    pub names: Seq<Seq<char>>,
    pub types: Seq<Type>,
    pub not_nulls: Seq<usize>,
    pub defaults: Map<usize, ValueView>,
}

/// The first `n` columns of a new table. Each column's default is
/// evaluated, and may name no column; then the column is added; a name
/// that an earlier column has fails with `ColumnExists`, and a column with
/// which a row of nulls would be too long is an internal error.
pub open spec fn spec_new_columns(columns: Seq<crate::ast::Column>, n: int) -> Result<
    NewColumnsView,
    ErrorView,
>
    decreases n,
{
    if n <= 0 {
        Ok(
            NewColumnsView {
                names: Seq::empty(),
                types: Seq::empty(),
                not_nulls: Seq::empty(),
                defaults: Map::empty(),
            },
        )
    } else {
        match spec_new_columns(columns, n - 1) {
            Err(e) => Err(e),
            Ok(before) => {
                let column = columns[n - 1];
                let default = match column.default {
                    Some(d) => match spec_literal(d) {
                        Ok(v) => Ok(Some(v)),
                        Err(e) => Err(e),
                    },
                    None => Ok(None),
                };
                match default {
                    Err(e) => Err(e),
                    Ok(default) => if before.names.contains(column.name@) {
                        Err(ErrorView::Execution(ExecutionErrorView::ColumnExists(column.name@)))
                    } else if crate::storage::fixed_len(before.types.push(column.data_type))
                        > crate::storage::MAX_ROW_LEN {
                        Err(ErrorView::Internal)
                    } else {
                        Ok(
                            NewColumnsView {
                                names: before.names.push(column.name@),
                                types: before.types.push(column.data_type),
                                not_nulls: if column.not_null {
                                    before.not_nulls.push((n - 1) as usize)
                                } else {
                                    before.not_nulls
                                },
                                defaults: match default {
                                    Some(v) => before.defaults.insert((n - 1) as usize, v),
                                    None => before.defaults,
                                },
                            },
                        )
                    },
                }
            },
        }
    }
}

/// Once a column fails, more columns do not change the error.
pub proof fn lemma_new_columns_error(columns: Seq<crate::ast::Column>, from: int, to: int)
    requires
        0 <= from <= to,
        spec_new_columns(columns, from) is Err,
    ensures
        spec_new_columns(columns, to) == spec_new_columns(columns, from),
    decreases to - from,
{
    if from < to {
        lemma_new_columns_error(columns, from, to - 1);
    }
}

/// Whether a map of values holds what a map of their views says.
pub open spec fn spec_defaults_match(defaults: Map<usize, Value>, views: Map<usize, ValueView>) -> bool {
    &&& forall|i: usize| defaults.contains_key(i) == views.contains_key(i)
    &&& forall|i: usize| defaults.contains_key(i) ==> #[trigger] defaults[i]@ == views[i]
}

fn literal(expression: &UnresolvedExpression) -> (result: Result<Value, Error>)
    ensures
        spec_value_result(result) == spec_literal(*expression),
{
    match resolve_expression_ref(expression, &crate::Empty) {
        Ok(x) => evaluate_expression(&x, &crate::Empty),
        Err(e) => Err(e),
    }
}

/// The columns of a new table.
pub fn new_columns(columns: &Vec<crate::ast::Column>) -> (result: Result<
    (Columns, Vec<usize>, std::collections::HashMap<usize, Value>),
    Error,
>)
    ensures
        match result {
            Ok((made, not_nulls, defaults)) => {
                &&& spec_new_columns(columns@, columns.len() as int) matches Ok(view)
                &&& made.wf()
                &&& made.spec_names() == view.names
                &&& made.spec_types() == view.types
                &&& not_nulls@ == view.not_nulls
                &&& spec_defaults_match(defaults@, view.defaults)
                &&& crate::table_definition::spec_in_range(not_nulls@, view.names.len())
                &&& view.names.len() == columns.len()
            },
            Err(e) => spec_new_columns(columns@, columns.len() as int) == Err::<
                NewColumnsView,
                ErrorView,
            >(e@),
        },
{
    let mut made = Columns::with_capacity(columns.len());
    let mut not_nulls: Vec<usize> = Vec::new();
    let mut defaults: std::collections::HashMap<usize, Value> = std::collections::HashMap::new();
    let mut i: usize = 0;
    while i < columns.len()
        invariant
            i <= columns.len(),
            made.wf(),
            spec_new_columns(columns@, i as int) matches Ok(view) && made.spec_names()
                == view.names && made.spec_types() == view.types && not_nulls@ == view.not_nulls
                && spec_defaults_match(defaults@, view.defaults) && view.names.len() == i,
            crate::table_definition::spec_in_range(not_nulls@, i as nat),
        decreases columns.len() - i,
    {
        let column = &columns[i];
        let ghost before = spec_new_columns(columns@, i as int)->Ok_0;
        let default = match &column.default {
            Some(d) => match literal(d) {
                Ok(v) => Some(v),
                Err(e) => {
                    proof {
                        lemma_new_columns_error(columns@, i + 1, columns.len() as int);
                    }
                    return Err(e);
                },
            },
            None => None,
        };
        match made.add_column(column.name.clone(), column.data_type) {
            Ok(_) => {},
            Err(e) => {
                proof {
                    lemma_new_columns_error(columns@, i + 1, columns.len() as int);
                }
                return Err(e);
            },
        }
        if column.not_null {
            not_nulls.push(i);
        }
        match default {
            Some(v) => {
                let _ = defaults.insert(i, v);
            },
            None => {},
        }
        i += 1;
    }
    Ok((made, not_nulls, defaults))
}

/// The first `n` `CHECK` constraints of a new table with their names
/// resolved against its columns.
pub open spec fn spec_new_checks(
    resolver: Resolver,
    checks: Seq<(UnresolvedExpression, String)>,
    n: int,
) -> Result<Seq<crate::table_definition::CheckView>, ErrorView>
    decreases n,
{
    if n <= 0 {
        Ok(Seq::empty())
    } else {
        match spec_new_checks(resolver, checks, n - 1) {
            Err(e) => Err(e),
            Ok(before) => match spec_resolve_expression(checks[n - 1].0, resolver) {
                Err(e) => Err(e),
                Ok(x) => Ok(
                    before.push(
                        crate::table_definition::CheckView { expression: x, name: checks[n - 1].1@ },
                    ),
                ),
            },
        }
    }
}

/// Once a `CHECK` constraint fails, more do not change the error.
pub proof fn lemma_new_checks_error(
    resolver: Resolver,
    checks: Seq<(UnresolvedExpression, String)>,
    from: int,
    to: int,
)
    requires
        0 <= from <= to,
        spec_new_checks(resolver, checks, from) is Err,
    ensures
        spec_new_checks(resolver, checks, to) == spec_new_checks(resolver, checks, from),
    decreases to - from,
{
    if from < to {
        lemma_new_checks_error(resolver, checks, from, to - 1);
    }
}

/// The `CHECK` constraints of a new table.
pub fn new_checks(columns: &Columns, table_name: &str, checks: &Vec<(UnresolvedExpression, String)>) -> (result:
    Result<Vec<(Expression, String)>, Error>)
    ensures
        match result {
            Ok(resolved) => spec_new_checks(
                crate::storage::spec_columns_resolver(columns.spec_names(), table_name@),
                checks@,
                checks.len() as int,
            ) == Ok::<Seq<crate::table_definition::CheckView>, ErrorView>(
                crate::table_definition::spec_check_views(resolved@),
            ),
            Err(e) => spec_new_checks(
                crate::storage::spec_columns_resolver(columns.spec_names(), table_name@),
                checks@,
                checks.len() as int,
            ) == Err::<Seq<crate::table_definition::CheckView>, ErrorView>(e@),
        },
{
    let mut resolved: Vec<(Expression, String)> = Vec::new();
    let ghost resolver = crate::storage::spec_columns_resolver(columns.spec_names(), table_name@);
    assert(spec_resolver(&(columns, table_name)) =~= resolver);
    let mut i: usize = 0;
    assert(crate::table_definition::spec_check_views(resolved@) =~= Seq::<
        crate::table_definition::CheckView,
    >::empty());
    while i < checks.len()
        invariant
            i <= checks.len(),
            resolver == crate::storage::spec_columns_resolver(columns.spec_names(), table_name@),
            resolver == spec_resolver(&(columns, table_name)),
            spec_new_checks(resolver, checks@, i as int) == Ok::<
                Seq<crate::table_definition::CheckView>,
                ErrorView,
            >(crate::table_definition::spec_check_views(resolved@)),
        decreases checks.len() - i,
    {
        let ghost before = crate::table_definition::spec_check_views(resolved@);
        match resolve_expression_ref(&checks[i].0, &(columns, table_name)) {
            Ok(x) => {
                resolved.push((x, checks[i].1.clone()));
                assert(crate::table_definition::spec_check_views(resolved@) =~= before.push(
                    crate::table_definition::CheckView { expression: x@, name: checks[i as int].1@ },
                ));
            },
            Err(e) => {
                proof {
                    lemma_new_checks_error(resolver, checks@, i + 1, checks.len() as int);
                }
                return Err(e);
            },
        }
        i += 1;
    }
    Ok(resolved)
}

/// Whether every set of columns of the constraints of a new table is made
/// of columns that the table has.
pub open spec fn spec_sets_in_range(
    uniques: Seq<(Vec<usize>, String)>,
    primary_key: Option<(Vec<usize>, String)>,
    count: nat,
) -> bool {
    &&& forall|i: int|
        0 <= i < uniques.len() ==> crate::table_definition::spec_in_range(
            (#[trigger] uniques[i]).0@,
            count,
        )
    &&& match primary_key {
        Some(key) => crate::table_definition::spec_in_range(key.0@, count),
        None => true,
    }
}

fn columns_in_range(columns: &Vec<usize>, count: usize) -> (ok: bool)
    ensures
        ok == crate::table_definition::spec_in_range(columns@, count as nat),
{
    let mut i: usize = 0;
    while i < columns.len()
        invariant
            i <= columns.len(),
            forall|k: int| 0 <= k < i ==> columns[k] < count,
        decreases columns.len() - i,
    {
        if columns[i] >= count {
            return false;
        }
        i += 1;
    }
    true
}

fn sets_in_range(
    uniques: &Vec<(Vec<usize>, String)>,
    primary_key: &Option<(Vec<usize>, String)>,
    count: usize,
) -> (ok: bool)
    ensures
        ok == spec_sets_in_range(uniques@, *primary_key, count as nat),
{
    let mut i: usize = 0;
    while i < uniques.len()
        invariant
            i <= uniques.len(),
            forall|k: int|
                0 <= k < i ==> crate::table_definition::spec_in_range(
                    (#[trigger] uniques[k]).0@,
                    count as nat,
                ),
        decreases uniques.len() - i,
    {
        if !columns_in_range(&uniques[i].0, count) {
            return false;
        }
        i += 1;
    }
    match primary_key {
        Some(key) => columns_in_range(&key.0, count),
        None => true,
    }
}

} // verus!

verus! {

/// A sorted list of columns with one more column: it comes after the last
/// column that is not greater.
pub open spec fn spec_insert_column(sorted: Seq<usize>, column: usize) -> Seq<usize>
    decreases sorted.len(),
{
    if sorted.len() > 0 && sorted.last() > column {
        spec_insert_column(sorted.drop_last(), column).push(sorted.last())
    } else {
        sorted.push(column)
    }
}

/// The columns in rising order.
pub open spec fn spec_sorted_columns(columns: Seq<usize>) -> Seq<usize>
    decreases columns.len(),
{
    if columns.len() == 0 {
        Seq::empty()
    } else {
        spec_insert_column(spec_sorted_columns(columns.drop_last()), columns.last())
    }
}

/// The columns in rising order.
pub fn sort_columns(columns: &Vec<usize>) -> (sorted: Vec<usize>)
    ensures
        sorted@ == spec_sorted_columns(columns@),
{
    let mut sorted: Vec<usize> = Vec::new();
    let mut i: usize = 0;
    proof {
        assert(columns@.take(0) =~= Seq::<usize>::empty());
    }
    while i < columns.len()
        invariant
            i <= columns.len(),
            sorted@ == spec_sorted_columns(columns@.take(i as int)),
        decreases columns.len() - i,
    {
        let column = columns[i];
        let ghost before = sorted@;
        proof {
            assert(columns@.take(i + 1).drop_last() =~= columns@.take(i as int));
            assert(columns@.take(i + 1).last() == column);
        }
        let mut at: usize = sorted.len();
        proof {
            assert(before.take(at as int) =~= before);
            assert(before.skip(at as int) =~= Seq::<usize>::empty());
        }
        while at > 0 && sorted[at - 1] > column
            invariant
                at <= sorted.len(),
                sorted@ == before,
                spec_insert_column(before, column) == spec_insert_column(
                    before.take(at as int),
                    column,
                ) + before.skip(at as int),
            decreases at,
        {
            proof {
                assert(before.take(at as int).last() == before[at - 1]);
                assert(before.take(at as int).drop_last() =~= before.take(at - 1));
                assert(spec_insert_column(before.take(at - 1), column).push(before[at - 1])
                    + before.skip(at as int) =~= spec_insert_column(before.take(at - 1), column)
                    + before.skip(at - 1));
            }
            at -= 1;
        }
        proof {
            if at > 0 {
                assert(before.take(at as int).last() == before[at - 1]);
            }
            assert(spec_insert_column(before.take(at as int), column) == before.take(
                at as int,
            ).push(column));
        }
        sorted.insert(at, column);
        assert(sorted@ =~= before.take(at as int).push(column) + before.skip(at as int));
        i += 1;
    }
    assert(columns@.take(columns.len() as int) =~= columns@);
    sorted
}

/// Whether the columns of a table cover one of its sets of columns that
/// must be unique: then no two rows agree on the columns.
pub open spec fn spec_covered(definition: &TableDefinition, columns: Seq<usize>) -> bool {
    exists|i: int|
        0 <= i < crate::table_handler::spec_all_uniques(definition).len()
            && crate::table_handler::spec_is_subsequence(
            (#[trigger] crate::table_handler::spec_all_uniques(definition)[i]).columns,
            columns,
        )
}

/// Whether each referring column, from position `from` on, has the type
/// of the column that it refers to: a column that its table does not have
/// fails with `NoColumn`, the column referred to first, and two types that
/// differ with `IncorrectForeignKeyReferredColumnType`.
pub open spec fn spec_types_agree(
    child: &Columns,
    parent: &Columns,
    columns: Seq<Seq<char>>,
    referred: Seq<Seq<char>>,
    from: int,
) -> Result<(), ErrorView>
    decreases columns.len() - from,
{
    if from < 0 || from >= columns.len() || from >= referred.len() {
        Ok(())
    } else {
        match crate::storage::spec_index_of(parent.spec_names(), referred[from]) {
            None => Err(ErrorView::Execution(ExecutionErrorView::NoColumn(referred[from]))),
            Some(p) => match crate::storage::spec_index_of(child.spec_names(), columns[from]) {
                None => Err(ErrorView::Execution(ExecutionErrorView::NoColumn(columns[from]))),
                Some(c) => if parent.spec_types()[p] != child.spec_types()[c] {
                    Err(
                        ErrorView::Execution(
                            ExecutionErrorView::IncorrectForeignKeyReferredColumnType {
                                this_column_name: columns[from],
                                referred_column_name: referred[from],
                                this_column_type: child.spec_types()[c],
                                referred_column_type: parent.spec_types()[p],
                            },
                        ),
                    )
                } else {
                    spec_types_agree(child, parent, columns, referred, from + 1)
                },
            },
        }
    }
}

/// What a catalog says of a foreign key of a new table: the table
/// referred to must be there, else `NoTable`; it must have the columns
/// referred to, else `NoColumn`; those columns, in rising order, must
/// cover a set of columns that is unique in it, else
/// `ForeignKeyNotUnique`; and the types must agree.
pub open spec fn spec_key_valid(
    catalog: &Catalog,
    definition: &TableDefinition,
    key: crate::ast::ForeignKey,
) -> Result<(), ErrorView> {
    match spec_table_position(catalog.spec_names(), key.foreign_table@, 0) {
        None => Err(ErrorView::Execution(ExecutionErrorView::NoTable(key.foreign_table@))),
        Some(p) => {
            let parent = &catalog.spec_definitions()[p];
            match crate::foreign_key::spec_resolve_columns(
                parent.spec_columns().spec_names(),
                key.referred_columns.deep_view(),
                key.referred_columns.len() as int,
            ) {
                Err(e) => Err(e),
                Ok(indexes) => if !spec_covered(parent, spec_sorted_columns(indexes)) {
                    Err(ErrorView::Execution(ExecutionErrorView::ForeignKeyNotUnique(key.name@)))
                } else {
                    spec_types_agree(
                        definition.spec_columns(),
                        parent.spec_columns(),
                        key.columns.deep_view(),
                        key.referred_columns.deep_view(),
                        0,
                    )
                },
            }
        },
    }
}

/// What a catalog says of the foreign keys of a new table from position
/// `from` on: the first that fails gives its error.
pub open spec fn spec_keys_valid(
    catalog: &Catalog,
    definition: &TableDefinition,
    keys: Seq<crate::ast::ForeignKey>,
    from: int,
) -> Result<(), ErrorView>
    decreases keys.len() - from,
{
    if from < 0 || from >= keys.len() {
        Ok(())
    } else {
        match spec_key_valid(catalog, definition, keys[from]) {
            Err(e) => Err(e),
            Ok(()) => spec_keys_valid(catalog, definition, keys, from + 1),
        }
    }
}

fn types_agree(
    child: &TableDefinition,
    parent: &TableDefinition,
    columns: &Vec<String>,
    referred: &Vec<String>,
) -> (result: Result<(), Error>)
    requires
        child.wf(),
        parent.wf(),
    ensures
        crate::table_handler::spec_unit_result(result) == spec_types_agree(
            child.spec_columns(),
            parent.spec_columns(),
            columns.deep_view(),
            referred.deep_view(),
            0,
        ),
{
    let mut i: usize = 0;
    while i < columns.len() && i < referred.len()
        invariant
            child.wf(),
            parent.wf(),
            spec_types_agree(
                child.spec_columns(),
                parent.spec_columns(),
                columns.deep_view(),
                referred.deep_view(),
                0,
            ) == spec_types_agree(
                child.spec_columns(),
                parent.spec_columns(),
                columns.deep_view(),
                referred.deep_view(),
                i as int,
            ),
        decreases columns.len() - i,
    {
        assert(columns.deep_view()[i as int] == columns[i as int]@);
        assert(referred.deep_view()[i as int] == referred[i as int]@);
        let referred_type = match parent.get_data_type(referred[i].as_str()) {
            Some(t) => t,
            None => {
                return Err(Error::Execution(ExecutionError::NoColumn(referred[i].clone())));
            },
        };
        let this_type = match child.get_data_type(columns[i].as_str()) {
            Some(t) => t,
            None => {
                return Err(Error::Execution(ExecutionError::NoColumn(columns[i].clone())));
            },
        };
        if referred_type != this_type {
            return Err(
                Error::Execution(
                    ExecutionError::IncorrectForeignKeyReferredColumnType {
                        this_column_name: columns[i].clone(),
                        referred_column_name: referred[i].clone(),
                        this_column_type: this_type,
                        referred_column_type: referred_type,
                    },
                ),
            );
        }
        i += 1;
    }
    Ok(())
}

fn key_valid(
    catalog: &Catalog,
    trees: &Vec<Tree>,
    definition: &TableDefinition,
    key: &crate::ast::ForeignKey,
) -> (result: Result<(), Error>)
    requires
        catalog.wf(),
        spec_trees_wf(trees@, catalog),
        definition.wf(),
    ensures
        crate::table_handler::spec_unit_result(result) == spec_key_valid(catalog, definition, *key),
{
    let p = match catalog.find(key.foreign_table.as_str()) {
        Some(p) => p,
        None => {
            return Err(Error::Execution(ExecutionError::NoTable(key.foreign_table.clone())));
        },
    };
    let foreign_table = crate::foreign_key::handler_of(catalog, trees, p);
    let indexes = match crate::foreign_key::resolve_columns(
        foreign_table.definition(),
        &key.referred_columns,
    ) {
        Ok(i) => i,
        Err(e) => {
            return Err(e);
        },
    };
    let sorted = sort_columns(&indexes);
    if !foreign_table.contains_unique(sorted) {
        return Err(Error::Execution(ExecutionError::ForeignKeyNotUnique(key.name.clone())));
    }
    types_agree(definition, foreign_table.definition(), &key.columns, &key.referred_columns)
}

fn keys_valid(
    catalog: &Catalog,
    trees: &Vec<Tree>,
    definition: &TableDefinition,
    keys: &Vec<crate::ast::ForeignKey>,
) -> (result: Result<(), Error>)
    requires
        catalog.wf(),
        spec_trees_wf(trees@, catalog),
        definition.wf(),
    ensures
        crate::table_handler::spec_unit_result(result) == spec_keys_valid(
            catalog,
            definition,
            keys@,
            0,
        ),
{
    let mut i: usize = 0;
    while i < keys.len()
        invariant
            catalog.wf(),
            spec_trees_wf(trees@, catalog),
            definition.wf(),
            i <= keys.len(),
            spec_keys_valid(catalog, definition, keys@, 0) == spec_keys_valid(
                catalog,
                definition,
                keys@,
                i as int,
            ),
        decreases keys.len() - i,
    {
        match key_valid(catalog, trees, definition, &keys[i]) {
            Ok(()) => {},
            Err(e) => {
                return Err(e);
            },
        }
        i += 1;
    }
    Ok(())
}

/// The rows of the table of foreign keys after the first `n` keys of a
/// new table are recorded, each under the next key of the table.
pub open spec fn spec_added_keys(
    rows: Seq<TableRowView>,
    keys: Seq<crate::ast::ForeignKey>,
    table: Seq<char>,
    n: int,
) -> Result<Seq<TableRowView>, ErrorView>
    decreases n,
{
    if n <= 0 {
        Ok(rows)
    } else {
        match spec_added_keys(rows, keys, table, n - 1) {
            Err(e) => Err(e),
            Ok(before) => match crate::table_handler::spec_next_key(before) {
                Err(e) => Err(e),
                Ok(key) => {
                    let row = crate::storage::spec_encode_row(
                        crate::foreign_key::spec_foreign_key_types(),
                        crate::foreign_key::spec_record_values(keys[n - 1], table),
                    );
                    if row.len() > crate::storage::MAX_ROW_LEN {
                        Err(ErrorView::Internal)
                    } else {
                        Ok(
                            crate::table_handler::spec_tree_insert(
                                before,
                                crate::table_handler::spec_key_bytes(key),
                                row,
                            ),
                        )
                    }
                },
            },
        }
    }
}

/// Once a key cannot be recorded, more keys do not change the error.
pub proof fn lemma_added_keys_error(
    rows: Seq<TableRowView>,
    keys: Seq<crate::ast::ForeignKey>,
    table: Seq<char>,
    from: int,
    to: int,
)
    requires
        0 <= from <= to,
        spec_added_keys(rows, keys, table, from) is Err,
    ensures
        spec_added_keys(rows, keys, table, to) == spec_added_keys(rows, keys, table, from),
    decreases to - from,
{
    if from < to {
        lemma_added_keys_error(rows, keys, table, from, to - 1);
    }
}

fn copy_names(names: &Vec<String>) -> (copy: Vec<String>)
    ensures
        copy.deep_view() == names.deep_view(),
{
    let mut copy: Vec<String> = Vec::new();
    let mut i: usize = 0;
    while i < names.len()
        invariant
            i <= names.len(),
            copy.len() == i,
            forall|k: int| 0 <= k < i ==> copy[k]@ == names[k]@,
        decreases names.len() - i,
    {
        copy.push(names[i].clone());
        i += 1;
    }
    assert(copy.deep_view() =~= names.deep_view());
    copy
}

fn copy_foreign_key(key: &crate::ast::ForeignKey) -> (copy: crate::ast::ForeignKey)
    ensures
        forall|table: Seq<char>|
            crate::foreign_key::spec_record_values(copy, table)
                == #[trigger] crate::foreign_key::spec_record_values(*key, table),
{
    crate::ast::ForeignKey::new(
        key.name.clone(),
        copy_names(&key.columns),
        key.foreign_table.clone(),
        copy_names(&key.referred_columns),
        key.on_delete,
        key.on_update,
    )
}

/// Records the foreign keys of a new table in a working copy of the table
/// of foreign keys.
fn add_keys(
    definition: &TableDefinition,
    tree: &mut Tree,
    keys: &Vec<crate::ast::ForeignKey>,
    table_name: &str,
) -> (result: Result<(), Error>)
    requires
        definition.wf(),
        definition.spec_columns().spec_types() == crate::foreign_key::spec_foreign_key_types(),
        old(tree).wf(),
    ensures
        result is Ok ==> final(tree).wf(),
        match result {
            Ok(()) => spec_added_keys(old(tree)@, keys@, table_name@, keys.len() as int) == Ok::<
                Seq<TableRowView>,
                ErrorView,
            >(final(tree)@),
            Err(e) => spec_added_keys(old(tree)@, keys@, table_name@, keys.len() as int) == Err::<
                Seq<TableRowView>,
                ErrorView,
            >(e@),
        },
{
    let ghost start = tree@;
    let mut i: usize = 0;
    while i < keys.len()
        invariant
            i <= keys.len(),
            definition.wf(),
            definition.spec_columns().spec_types() == crate::foreign_key::spec_foreign_key_types(),
            tree.wf(),
            start == old(tree)@,
            spec_added_keys(start, keys@, table_name@, i as int) == Ok::<
                Seq<TableRowView>,
                ErrorView,
            >(tree@),
        decreases keys.len() - i,
    {
        let key = match crate::table_handler::next_key(tree) {
            Ok(k) => k,
            Err(e) => {
                proof {
                    lemma_added_keys_error(start, keys@, table_name@, i + 1, keys.len() as int);
                }
                return Err(e);
            },
        };
        let values = crate::foreign_key::record_values(copy_foreign_key(&keys[i]), table_name);
        proof {
            assert(values.deep_view() == crate::foreign_key::spec_record_values(
                keys[i as int],
                table_name@,
            ));
            assert(values.deep_view().len() == 7);
            assert(crate::foreign_key::spec_foreign_key_types().len() == 7);
        }
        let row = match definition.columns().generate_row(values) {
            Ok(r) => r,
            Err(e) => {
                proof {
                    lemma_added_keys_error(start, keys@, table_name@, i + 1, keys.len() as int);
                }
                return Err(e);
            },
        };
        tree.insert(crate::table_handler::key_bytes(key), row);
        i += 1;
    }
    Ok(())
}

} // verus!

verus! {

/// Whether a definition is that of the table that a `CREATE TABLE`
/// describes.
pub open spec fn spec_defined(create: crate::ast::CreateTable, definition: &TableDefinition) -> bool {
    &&& spec_new_columns(create.columns@, create.columns.len() as int) matches Ok(view) && {
        &&& definition.spec_columns().spec_names() == view.names
        &&& definition.spec_columns().spec_types() == view.types
        &&& definition.spec_not_nulls() == view.not_nulls
        &&& forall|i: usize|
            #[trigger] definition.spec_default(i) == if view.defaults.contains_key(i) {
                view.defaults[i]
            } else {
                ValueView::Null
            }
    }
    &&& definition.spec_uniques() == crate::table_definition::spec_column_sets(create.uniques@)
    &&& definition.spec_primary_key() == match create.primary_key {
        Some(key) => Some(crate::table_definition::spec_column_set(key)),
        None => None,
    }
    &&& spec_new_checks(
        crate::storage::spec_columns_resolver(
            definition.spec_columns().spec_names(),
            create.name@,
        ),
        create.checks@,
        create.checks.len() as int,
    ) == Ok::<Seq<crate::table_definition::CheckView>, ErrorView>(definition.spec_checks())
}

/// Whether a name is kept for the tables of the database itself: it
/// begins with `@`.
pub open spec fn spec_reserved(name: Seq<char>) -> bool {
    name.len() > 0 && name[0] == '@'
}

/// Whether a database is what another becomes when a table is created in
/// it: the new table comes last, without rows, and its foreign keys are
/// recorded.
pub open spec fn spec_created(
    before: &Interpreter,
    create: crate::ast::CreateTable,
    after: &Interpreter,
) -> bool {
    let old_catalog = before.spec_catalog();
    let new_catalog = after.spec_catalog();
    &&& new_catalog.spec_names() == old_catalog.spec_names().push(create.name@)
    &&& new_catalog.spec_definitions().len() == old_catalog.spec_definitions().len() + 1
    &&& new_catalog.spec_definitions().drop_last() == old_catalog.spec_definitions()
    &&& new_catalog.spec_foreign_key_definition() == old_catalog.spec_foreign_key_definition()
    &&& after.spec_rows() == before.spec_rows().push(Seq::empty())
    &&& spec_defined(create, &new_catalog.spec_definitions().last())
    &&& spec_keys_valid(
        old_catalog,
        &new_catalog.spec_definitions().last(),
        create.foreign_keys@,
        0,
    ) == Ok::<(), ErrorView>(())
    &&& spec_added_keys(
        old_catalog.spec_foreign_key_rows(),
        create.foreign_keys@,
        create.name@,
        create.foreign_keys.len() as int,
    ) == Ok::<Seq<TableRowView>, ErrorView>(new_catalog.spec_foreign_key_rows())
}

/// Whether a `CREATE TABLE` for a table that the database does not have
/// fails with that error: in its columns, in its `CHECK` constraints, in
/// the sets of columns of its constraints, which may speak of the table's
/// own columns only, or in its foreign keys.
pub open spec fn spec_create_fails(
    before: &Interpreter,
    create: crate::ast::CreateTable,
    error: ErrorView,
) -> bool {
    match spec_new_columns(create.columns@, create.columns.len() as int) {
        Err(e) => error == e,
        Ok(view) => match spec_new_checks(
            crate::storage::spec_columns_resolver(view.names, create.name@),
            create.checks@,
            create.checks.len() as int,
        ) {
            Err(e) => error == e,
            Ok(_) => if !spec_sets_in_range(create.uniques@, create.primary_key, view.names.len()) {
                error == ErrorView::Internal
            } else {
                exists|definition: TableDefinition|
                    #[trigger] spec_defined(create, &definition) && definition.wf() && (
                    spec_keys_valid(before.spec_catalog(), &definition, create.foreign_keys@, 0)
                        == Err::<(), ErrorView>(error) || spec_added_keys(
                        before.spec_catalog().spec_foreign_key_rows(),
                        create.foreign_keys@,
                        create.name@,
                        create.foreign_keys.len() as int,
                    ) == Err::<Seq<TableRowView>, ErrorView>(error))
            },
        },
    }
}

fn reserved(name: &str) -> (r: bool)
    ensures
        r == spec_reserved(name@),
{
    if name.unicode_len() == 0 {
        false
    } else {
        name.get_char(0) == '@'
    }
}

impl Interpreter {
    /// A database without tables.
    pub fn new() -> (result: Result<Interpreter, Error>)
        ensures
            result matches Ok(interpreter) && interpreter.wf()
                && interpreter.spec_catalog().spec_names().len() == 0
                && interpreter.spec_catalog().spec_foreign_key_rows().len() == 0,
    {
        let columns = match crate::foreign_key::foreign_key_columns() {
            Some(c) => c,
            None => {
                return Err(crate::error::internal("The table of foreign keys cannot be made"));
            },
        };
        let catalog = Catalog {
            names: Vec::new(),
            definitions: Vec::new(),
            foreign_key_definition: TableDefinition::new_empty(columns),
            foreign_key_tree: Tree::new(),
        };
        assert(catalog.spec_names() =~= Seq::<Seq<char>>::empty());
        Ok(Interpreter { catalog, trees: Vec::new() })
    }

    /// Runs a `CREATE TABLE`. Where the table is there already, nothing
    /// happens with `IF NOT EXISTS`, and the statement fails with
    /// `TableExists` without it; a name that begins with `@` fails so too.
    /// A statement that fails leaves the database as it was.
    pub fn execute_create_table(&mut self, create_table: crate::ast::CreateTable) -> (result: Result<
        crate::relation::Relation,
        Error,
    >)
        requires
            old(self).wf(),
        ensures
            final(self).wf(),
            spec_executed_create(old(self), create_table, final(self), spec_relation_result(result)),
    {
        let ghost original = create_table;
        let crate::ast::CreateTable {
            name,
            columns,
            uniques,
            primary_key,
            checks,
            foreign_keys,
            if_not_exists,
        } = create_table;
        if self.catalog.find(name.as_str()).is_some() {
            if if_not_exists {
                return Ok(crate::relation::Relation::new(Vec::new()));
            } else {
                return Err(Error::Execution(ExecutionError::TableExists(name)));
            }
        }
        if reserved(name.as_str()) {
            return Err(Error::Execution(ExecutionError::TableExists(name)));
        }
        let (columns_definition, not_nulls, defaults) = match new_columns(&columns) {
            Ok(made) => made,
            Err(e) => {
                return Err(e);
            },
        };
        let checks = match new_checks(&columns_definition, name.as_str(), &checks) {
            Ok(c) => c,
            Err(e) => {
                return Err(e);
            },
        };
        if !sets_in_range(&uniques, &primary_key, columns_definition.num_columns()) {
            return Err(crate::error::internal("A constraint names a column that is not there"));
        }
        let table_definition = TableDefinition::new(
            columns_definition,
            not_nulls,
            uniques,
            primary_key,
            checks,
            defaults,
        );
        proof {
            let view = spec_new_columns(original.columns@, original.columns.len() as int)->Ok_0;
            assert forall|i: usize|
                #[trigger] table_definition.spec_default(i) == if view.defaults.contains_key(i) {
                    view.defaults[i]
                } else {
                    ValueView::Null
                } by {
                if defaults@.contains_key(i) {
                    assert(defaults@[i]@ == view.defaults[i]);
                }
            }
            assert(spec_defined(original, &table_definition));
        }
        match keys_valid(&self.catalog, &self.trees, &table_definition, &foreign_keys) {
            Ok(()) => {},
            Err(e) => {
                return Err(e);
            },
        }
        let mut keys_tree = self.catalog.foreign_key_tree.duplicate();
        match add_keys(
            &self.catalog.foreign_key_definition,
            &mut keys_tree,
            &foreign_keys,
            name.as_str(),
        ) {
            Ok(()) => {},
            Err(e) => {
                return Err(e);
            },
        }
        proof {
            lemma_table_position(self.catalog.spec_names(), name@, 0);
        }
        let ghost old_names = self.catalog.spec_names();
        let ghost old_rows = self.spec_rows();
        self.catalog.names.push(name);
        self.catalog.definitions.push(table_definition);
        self.catalog.foreign_key_tree = keys_tree;
        self.trees.push(Tree::new());
        proof {
            assert(self.catalog.spec_names() =~= old_names.push(original.name@));
            assert(self.spec_rows() =~= old_rows.push(Seq::<TableRowView>::empty()));
            assert(self.catalog.spec_definitions().drop_last() =~= old(
                self,
            ).catalog.spec_definitions());
            assert(self.catalog.spec_definitions().last() == table_definition);
            assert(self.catalog.spec_names().no_duplicates()) by {
                assert forall|i: int, j: int|
                    0 <= i < self.catalog.spec_names().len() && 0 <= j
                        < self.catalog.spec_names().len() && i
                        != j implies self.catalog.spec_names()[i]
                    != self.catalog.spec_names()[j] by {
                    if i < old_names.len() && j < old_names.len() {
                        assert(old_names[i] != old_names[j]);
                    }
                }
            }
            assert forall|i: int| 0 <= i < self.catalog.spec_definitions().len() implies (
            #[trigger] self.catalog.spec_definitions()[i]).wf() by {
                if i < old_names.len() {
                    assert(self.catalog.spec_definitions()[i] == old(
                        self,
                    ).catalog.spec_definitions()[i]);
                }
            }
            assert forall|i: int| 0 <= i < self.trees.len() implies (#[trigger] self.trees[i]).wf() by {
                if i < old_names.len() {
                    assert(self.trees[i] == old(self).trees[i]);
                }
            }
        }
        Ok(crate::relation::Relation::new(Vec::new()))
    }
}

} // verus!

verus! {

// ---------------------------------------------------------------------------
// DROP TABLE
// ---------------------------------------------------------------------------

/// The rows of the table of foreign keys after a table is dropped, as far
/// as the first `n` recorded keys go: the keys of the table itself go, and
/// a key of another table that refers to it fails with
/// `ForeignKeyDependencyDelete`.
pub open spec fn spec_drop_keys(
    records: Seq<crate::foreign_key::ForeignKeyRecordView>,
    rows: Seq<TableRowView>,
    name: Seq<char>,
    n: int,
) -> Result<Seq<TableRowView>, ErrorView>
    decreases n,
{
    if n <= 0 {
        Ok(rows)
    } else {
        match spec_drop_keys(records, rows, name, n - 1) {
            Err(e) => Err(e),
            Ok(kept) => if records[n - 1].table == name {
                Ok(crate::table_handler::spec_tree_remove(kept, rows[n - 1].left))
            } else if records[n - 1].referred_table == name {
                Err(
                    ErrorView::Execution(
                        ExecutionErrorView::ForeignKeyDependencyDelete {
                            parent_table: records[n - 1].table,
                            key_name: records[n - 1].name,
                        },
                    ),
                )
            } else {
                Ok(kept)
            },
        }
    }
}

/// Once a key forbids the drop, more keys do not change the error.
pub proof fn lemma_drop_keys_error(
    records: Seq<crate::foreign_key::ForeignKeyRecordView>,
    rows: Seq<TableRowView>,
    name: Seq<char>,
    from: int,
    to: int,
)
    requires
        0 <= from <= to,
        spec_drop_keys(records, rows, name, from) is Err,
    ensures
        spec_drop_keys(records, rows, name, to) == spec_drop_keys(records, rows, name, from),
    decreases to - from,
{
    if from < to {
        lemma_drop_keys_error(records, rows, name, from, to - 1);
    }
}

/// What is left of a database as tables are dropped: the names of its
/// tables, for each the position that it had at first, and the rows of the
/// table of foreign keys.
pub struct DropView {
    pub names: Seq<Seq<char>>,
    pub kept: Seq<int>,
    pub keys: Seq<TableRowView>,
}

/// What is left after one table is dropped. First the recorded keys are
/// gone through; then a table that is not there fails with `NoTable`,
/// unless the statement says `IF EXISTS`.
pub open spec fn spec_drop_one(state: DropView, name: Seq<char>, if_exists: bool) -> Result<
    DropView,
    ErrorView,
> {
    match crate::foreign_key::spec_records(state.keys, state.keys.len() as int) {
        Err(e) => Err(e),
        Ok(records) => match spec_drop_keys(records, state.keys, name, records.len() as int) {
            Err(e) => Err(e),
            Ok(keys) => match spec_table_position(state.names, name, 0) {
                None => if if_exists {
                    Ok(DropView { names: state.names, kept: state.kept, keys })
                } else {
                    Err(ErrorView::Execution(ExecutionErrorView::NoTable(name)))
                },
                Some(p) => Ok(
                    DropView { names: state.names.remove(p), kept: state.kept.remove(p), keys },
                ),
            },
        },
    }
}

/// What is left after the first `n` tables of a `DROP TABLE` are dropped,
/// one after the other.
pub open spec fn spec_drop_all(state: DropView, names: Seq<Seq<char>>, if_exists: bool, n: int) -> Result<
    DropView,
    ErrorView,
>
    decreases n,
{
    if n <= 0 {
        Ok(state)
    } else {
        match spec_drop_all(state, names, if_exists, n - 1) {
            Err(e) => Err(e),
            Ok(before) => spec_drop_one(before, names[n - 1], if_exists),
        }
    }
}

/// Once a table cannot be dropped, more tables do not change the error.
pub proof fn lemma_drop_all_error(
    state: DropView,
    names: Seq<Seq<char>>,
    if_exists: bool,
    from: int,
    to: int,
)
    requires
        0 <= from <= to,
        spec_drop_all(state, names, if_exists, from) is Err,
    ensures
        spec_drop_all(state, names, if_exists, to) == spec_drop_all(state, names, if_exists, from),
    decreases to - from,
{
    if from < to {
        lemma_drop_all_error(state, names, if_exists, from, to - 1);
    }
}

/// A database before any table is dropped.
pub open spec fn spec_drop_start(interpreter: &Interpreter) -> DropView {
    DropView {
        names: interpreter.spec_catalog().spec_names(),
        kept: Seq::new(interpreter.spec_catalog().spec_names().len(), |i: int| i),
        keys: interpreter.spec_catalog().spec_foreign_key_rows(),
    }
}

/// Whether a database is what is left of another.
pub open spec fn spec_dropped(before: &Interpreter, state: DropView, after: &Interpreter) -> bool {
    &&& after.spec_catalog().spec_names() == state.names
    &&& after.spec_catalog().spec_foreign_key_rows() == state.keys
    &&& after.spec_catalog().spec_foreign_key_definition()
        == before.spec_catalog().spec_foreign_key_definition()
    &&& after.spec_catalog().spec_definitions().len() == state.kept.len()
    &&& after.spec_trees().len() == state.kept.len()
    &&& forall|i: int|
        0 <= i < state.kept.len() ==> 0 <= #[trigger] state.kept[i]
            < before.spec_catalog().spec_definitions().len()
            && after.spec_catalog().spec_definitions()[i]
            == before.spec_catalog().spec_definitions()[state.kept[i]] && after.spec_trees()[i]
            == before.spec_trees()[state.kept[i]]
}

/// Takes the keys of a table out of a working copy of the table of
/// foreign keys.
fn drop_keys(definition: &TableDefinition, tree: &mut Tree, name: &str) -> (result: Result<(), Error>)
    requires
        definition.wf(),
        definition.spec_columns().spec_types() == crate::foreign_key::spec_foreign_key_types(),
        old(tree).wf(),
    ensures
        result is Ok ==> final(tree).wf(),
        match crate::foreign_key::spec_records(old(tree)@, old(tree)@.len() as int) {
            Err(e) => result matches Err(error) && error@ == e,
            Ok(records) => match result {
                Ok(()) => spec_drop_keys(records, old(tree)@, name@, records.len() as int) == Ok::<
                    Seq<TableRowView>,
                    ErrorView,
                >(final(tree)@),
                Err(e) => spec_drop_keys(records, old(tree)@, name@, records.len() as int)
                    == Err::<Seq<TableRowView>, ErrorView>(e@),
            },
        },
{
    let snapshot = tree.duplicate();
    let records = {
        let handler = TableHandler::new(&snapshot, definition, "@foreign_keys".to_owned(), None);
        let rows = handler.iter();
        let mut records: Vec<crate::foreign_key::ForeignKeyRecord> = Vec::new();
        let mut i: usize = 0;
        assert(records.deep_view() =~= Seq::<crate::foreign_key::ForeignKeyRecordView>::empty());
        while i < rows.len()
            invariant
                handler.wf(),
                i <= rows.len(),
                snapshot@ == crate::table_handler::spec_table_rows(rows@),
                snapshot@ == old(tree)@,
                handler.spec_columns().spec_types() == crate::foreign_key::spec_foreign_key_types(),
                crate::foreign_key::spec_records(snapshot@, i as int) == Ok::<
                    Seq<crate::foreign_key::ForeignKeyRecordView>,
                    ErrorView,
                >(records.deep_view()),
            decreases rows.len() - i,
        {
            assert(snapshot@[i as int] == rows[i as int]@);
            let ghost before = records.deep_view();
            let values = match crate::foreign_key::decode_row(&handler, &rows[i]) {
                Ok(v) => v,
                Err(e) => {
                    proof {
                        crate::foreign_key::lemma_records_error(
                            snapshot@,
                            i + 1,
                            rows.len() as int,
                        );
                    }
                    return Err(e);
                },
            };
            match crate::foreign_key::record_of(values) {
                Ok(record) => {
                    records.push(record);
                    assert(records.deep_view() =~= before.push(record@));
                },
                Err(e) => {
                    proof {
                        crate::foreign_key::lemma_records_error(
                            snapshot@,
                            i + 1,
                            rows.len() as int,
                        );
                    }
                    return Err(e);
                },
            }
            i += 1;
        }
        records
    };
    proof {
        lemma_records_len(snapshot@, snapshot@.len() as int);
    }
    let mut i: usize = 0;
    while i < records.len()
        invariant
            i <= records.len(),
            records.len() == snapshot@.len(),
            snapshot@ == old(tree)@,
            tree.wf(),
            crate::foreign_key::spec_records(snapshot@, snapshot@.len() as int) == Ok::<
                Seq<crate::foreign_key::ForeignKeyRecordView>,
                ErrorView,
            >(records.deep_view()),
            spec_drop_keys(records.deep_view(), snapshot@, name@, i as int) == Ok::<
                Seq<TableRowView>,
                ErrorView,
            >(tree@),
        decreases records.len() - i,
    {
        assert(records.deep_view()[i as int] == records[i as int]@);
        if str_eq(records[i].table.as_str(), name) {
            let _ = tree.remove(snapshot.row(i).key());
        } else if str_eq(records[i].referred_table.as_str(), name) {
            proof {
                lemma_drop_keys_error(
                    records.deep_view(),
                    snapshot@,
                    name@,
                    i + 1,
                    records.len() as int,
                );
            }
            return Err(
                Error::Execution(
                    ExecutionError::ForeignKeyDependencyDelete {
                        parent_table: records[i].table.clone(),
                        key_name: records[i].name.clone(),
                    },
                ),
            );
        }
        i += 1;
    }
    Ok(())
}

/// As many records as rows.
pub proof fn lemma_records_len(rows: Seq<TableRowView>, n: int)
    requires
        0 <= n,
    ensures
        crate::foreign_key::spec_records(rows, n) matches Ok(records) ==> records.len() == n,
    decreases n,
{
    if n > 0 {
        lemma_records_len(rows, n - 1);
    }
}

impl Interpreter {
    /// Runs a `DROP TABLE`: its tables are dropped one after the other,
    /// all of them or, where one cannot be dropped, none. A table goes
    /// with its rows and its own foreign keys; a table that another table
    /// refers to cannot be dropped.
    pub fn execute_drop_table(&mut self, drop_table: crate::ast::DropTable) -> (result: Result<
        crate::relation::Relation,
        Error,
    >)
        requires
            old(self).wf(),
        ensures
            final(self).wf(),
            spec_executed_drop(old(self), drop_table, final(self), spec_relation_result(result)),
    {
        // Go through the tables on copies first, and note what goes.
        let mut names = copy_names(&self.catalog.names);
        let mut keys = self.catalog.foreign_key_tree.duplicate();
        let mut removed: Vec<Option<usize>> = Vec::new();
        let ghost start = spec_drop_start(self);
        let ghost dropped = drop_table.names.deep_view();
        let ghost mut state = start;
        let mut i: usize = 0;
        while i < drop_table.names.len()
            invariant
                self.wf(),
                i <= drop_table.names.len(),
                removed.len() == i,
                keys.wf(),
                start == spec_drop_start(self),
                dropped == drop_table.names.deep_view(),
                spec_drop_all(start, dropped, drop_table.if_exists, i as int) == Ok::<
                    DropView,
                    ErrorView,
                >(state),
                state.names == names.deep_view(),
                state.keys == keys@,
                state.kept.len() == state.names.len(),
                spec_removals(start.kept, removed@, i as int) == state.kept,
                forall|k: int|
                    0 <= k < i ==> match #[trigger] removed[k] {
                        Some(p) => p < spec_removals(start.kept, removed@, k).len(),
                        None => true,
                    },
            decreases drop_table.names.len() - i,
        {
            let name = &drop_table.names[i];
            assert(dropped[i as int] == name@);
            match drop_keys(&self.catalog.foreign_key_definition, &mut keys, name.as_str()) {
                Ok(()) => {},
                Err(e) => {
                    proof {
                        lemma_drop_all_error(
                            start,
                            dropped,
                            drop_table.if_exists,
                            i + 1,
                            drop_table.names.len() as int,
                        );
                    }
                    return Err(e);
                },
            }
            let position = find_name(&names, name.as_str());
            match position {
                Some(p) => {
                    let _ = names.remove(p);
                    proof {
                        assert(names.deep_view() =~= state.names.remove(p as int));
                    }
                },
                None => {
                    if !drop_table.if_exists {
                        proof {
                            lemma_drop_all_error(
                                start,
                                dropped,
                                drop_table.if_exists,
                                i + 1,
                                drop_table.names.len() as int,
                            );
                        }
                        return Err(Error::Execution(ExecutionError::NoTable(name.clone())));
                    }
                },
            }
            let ghost old_removed = removed@;
            removed.push(position);
            proof {
                let next = spec_drop_one(state, name@, drop_table.if_exists)->Ok_0;
                lemma_removals_prefix(start.kept, old_removed, removed@, i as int);
                assert forall|k: int| 0 <= k < i + 1 implies match #[trigger] removed[k] {
                    Some(p) => p < spec_removals(start.kept, removed@, k).len(),
                    None => true,
                } by {
                    lemma_removals_prefix(start.kept, old_removed, removed@, k);
                }
                state = next;
            }
            i += 1;
        }
        // Nothing failed: let the tables go.
        let ghost kept_start = start.kept;
        let mut j: usize = 0;
        let ghost before = *self;
        while j < removed.len()
            invariant
                j <= removed.len(),
                before.wf(),
                kept_start == spec_drop_start(&before).kept,
                self.catalog.foreign_key_definition == before.catalog.foreign_key_definition,
                self.catalog.foreign_key_tree == before.catalog.foreign_key_tree,
                self.catalog.definitions.len() == spec_removals(kept_start, removed@, j as int).len(),
                self.catalog.names.len() == self.catalog.definitions.len(),
                self.trees.len() == self.catalog.definitions.len(),
                forall|k: int|
                    0 <= k < removed.len() ==> match #[trigger] removed[k] {
                        Some(p) => p < spec_removals(kept_start, removed@, k).len(),
                        None => true,
                    },
                forall|k: int|
                    0 <= k < self.catalog.definitions.len() ==> 0 <= #[trigger] spec_removals(
                        kept_start,
                        removed@,
                        j as int,
                    )[k] < before.catalog.definitions.len() && self.catalog.definitions[k]
                        == before.catalog.definitions[spec_removals(kept_start, removed@, j as int)[k]]
                        && self.trees[k] == before.trees[spec_removals(
                        kept_start,
                        removed@,
                        j as int,
                    )[k]],
            decreases removed.len() - j,
        {
            let ghost kept = spec_removals(kept_start, removed@, j as int);
            match removed[j] {
                Some(p) => {
                    let _ = self.catalog.names.remove(p);
                    let _ = self.catalog.definitions.remove(p);
                    let _ = self.trees.remove(p);
                    proof {
                        let after = spec_removals(kept_start, removed@, j + 1);
                        assert(after == kept.remove(p as int));
                        assert forall|k: int|
                            0 <= k < self.catalog.definitions.len() implies 0 <= #[trigger] after[k]
                            < before.catalog.definitions.len() && self.catalog.definitions[k]
                            == before.catalog.definitions[after[k]] && self.trees[k]
                            == before.trees[after[k]] by {
                            if k < p {
                                assert(after[k] == kept[k]);
                            } else {
                                assert(after[k] == kept[k + 1]);
                            }
                        }
                    }
                },
                None => {},
            }
            j += 1;
        }
        self.catalog.names = names;
        self.catalog.foreign_key_tree = keys;
        proof {
            assert(spec_removals(kept_start, removed@, removed.len() as int) == state.kept);
            lemma_kept_distinct(
                before.catalog.spec_names(),
                drop_table.names.deep_view(),
                drop_table.if_exists,
                drop_table.names.len() as int,
                spec_drop_start(&before),
            );
            assert forall|k: int| 0 <= k < self.catalog.spec_definitions().len() implies (
            #[trigger] self.catalog.spec_definitions()[k]).wf() by {
                assert(before.catalog.spec_definitions()[state.kept[k]].wf());
            }
            assert forall|k: int| 0 <= k < self.trees.len() implies (#[trigger] self.trees[k]).wf() by {
                assert(before.trees[state.kept[k]].wf());
            }
        }
        Ok(crate::relation::Relation::new(Vec::new()))
    }
}

/// What is left of a list of positions after the first `n` removals.
pub open spec fn spec_removals(kept: Seq<int>, removed: Seq<Option<usize>>, n: int) -> Seq<int>
    decreases n,
{
    if n <= 0 {
        kept
    } else {
        match removed[n - 1] {
            Some(p) => spec_removals(kept, removed, n - 1).remove(p as int),
            None => spec_removals(kept, removed, n - 1),
        }
    }
}

/// The first removals do not depend on the later ones.
pub proof fn lemma_removals_prefix(
    kept: Seq<int>,
    shorter: Seq<Option<usize>>,
    longer: Seq<Option<usize>>,
    n: int,
)
    requires
        0 <= n <= shorter.len(),
        shorter.len() <= longer.len(),
        forall|k: int| 0 <= k < shorter.len() ==> shorter[k] == longer[k],
    ensures
        spec_removals(kept, shorter, n) == spec_removals(kept, longer, n),
    decreases n,
{
    if n > 0 {
        lemma_removals_prefix(kept, shorter, longer, n - 1);
    }
}

/// The names that are left are still all different.
pub proof fn lemma_kept_distinct(
    names: Seq<Seq<char>>,
    dropped: Seq<Seq<char>>,
    if_exists: bool,
    n: int,
    start: DropView,
)
    requires
        names.no_duplicates(),
        start.names == names,
        0 <= n,
    ensures
        spec_drop_all(start, dropped, if_exists, n) matches Ok(state) ==> state.names.no_duplicates(),
    decreases n,
{
    if n > 0 {
        lemma_kept_distinct(names, dropped, if_exists, n - 1, start);
        match spec_drop_all(start, dropped, if_exists, n - 1) {
            Ok(before) => {
                match spec_drop_one(before, dropped[n - 1], if_exists) {
                    Ok(after) => {
                        match spec_table_position(before.names, dropped[n - 1], 0) {
                            Some(p) => {
                                lemma_table_position(before.names, dropped[n - 1], 0);
                                assert forall|i: int, j: int|
                                    0 <= i < after.names.len() && 0 <= j < after.names.len() && i
                                        != j implies after.names[i] != after.names[j] by {
                                    let a = if i < p {
                                        i
                                    } else {
                                        i + 1
                                    };
                                    let b = if j < p {
                                        j
                                    } else {
                                        j + 1
                                    };
                                    assert(after.names[i] == before.names[a]);
                                    assert(after.names[j] == before.names[b]);
                                }
                            },
                            None => {},
                        }
                    },
                    Err(_) => {},
                }
            },
            Err(_) => {},
        }
    }
}

fn find_name(names: &Vec<String>, name: &str) -> (index: Option<usize>)
    ensures
        match index {
            Some(i) => spec_table_position(names.deep_view(), name@, 0) == Some(i as int) && i
                < names.len(),
            None => spec_table_position(names.deep_view(), name@, 0) is None,
        },
{
    let mut i: usize = 0;
    while i < names.len()
        invariant
            i <= names.len(),
            spec_table_position(names.deep_view(), name@, 0) == spec_table_position(
                names.deep_view(),
                name@,
                i as int,
            ),
        decreases names.len() - i,
    {
        assert(names.deep_view()[i as int] == names[i as int]@);
        if str_eq(names[i].as_str(), name) {
            return Some(i);
        }
        i += 1;
    }
    None
}

} // verus!

verus! {

/// What an `INSERT` does to a database and gives back: the rows of its
/// source are inserted into its table, all of them or, where one fails, none.
pub open spec fn spec_executed_insert(
    before: &Interpreter,
    insert: crate::ast::Insert,
    after: &Interpreter,
    result: Result<crate::relation::RelationView, ErrorView>,
) -> bool {
    &&& after.spec_catalog() == before.spec_catalog()
    &&& match result {
        Ok(relation) => {
            &&& relation.column_names.len() == 0 && relation.rows.len() == 0
            &&& spec_table_position(
                before.spec_catalog().spec_names(),
                insert.table.name@,
                0,
            ) matches Some(t) && exists|source: crate::relation::RelationView|
                #[trigger] spec_select_gives(before, insert.values, source)
                    && spec_insert_source(
                    before.spec_catalog(),
                    before.spec_rows(),
                    t,
                    spec_column_list(insert.columns),
                    source,
                ) == Ok::<crate::foreign_key::Rows, ErrorView>(after.spec_rows())
        },
        Err(e) => {
            &&& after.spec_trees() == before.spec_trees()
            &&& match spec_table_position(
                before.spec_catalog().spec_names(),
                insert.table.name@,
                0,
            ) {
                None => e == ErrorView::Execution(
                    ExecutionErrorView::NoTable(insert.table.name@),
                ),
                Some(t) => spec_select_fails(before, insert.values, e) || exists|
                    source: crate::relation::RelationView,
                |
                    #[trigger] spec_select_gives(before, insert.values, source)
                        && spec_insert_source(
                        before.spec_catalog(),
                        before.spec_rows(),
                        t,
                        spec_column_list(insert.columns),
                        source,
                    ) == Err::<crate::foreign_key::Rows, ErrorView>(e),
            }
        },
    }
}

/// What a `DELETE` does to a database and gives back.
pub open spec fn spec_executed_delete(
    before: &Interpreter,
    delete: crate::ast::Delete,
    after: &Interpreter,
    result: Result<crate::relation::RelationView, ErrorView>,
) -> bool {
    &&& after.spec_catalog() == before.spec_catalog()
    &&& match result {
        Ok(relation) => {
            &&& relation.column_names.len() == 0 && relation.rows.len() == 0
            &&& spec_table_position(
                before.spec_catalog().spec_names(),
                delete.table_name@,
                0,
            ) matches Some(t) && spec_delete(
                before.spec_catalog(),
                before.spec_rows(),
                t,
                delete.predicate,
            ) == Ok::<crate::foreign_key::Rows, ErrorView>(after.spec_rows())
        },
        Err(e) => {
            &&& after.spec_trees() == before.spec_trees()
            &&& match spec_table_position(
                before.spec_catalog().spec_names(),
                delete.table_name@,
                0,
            ) {
                None => e == ErrorView::Execution(
                    ExecutionErrorView::NoTable(delete.table_name@),
                ),
                Some(t) => spec_delete(
                    before.spec_catalog(),
                    before.spec_rows(),
                    t,
                    delete.predicate,
                ) == Err::<crate::foreign_key::Rows, ErrorView>(e),
            }
        },
    }
}

/// What an `UPDATE` does to a database and gives back.
pub open spec fn spec_executed_update(
    before: &Interpreter,
    update: crate::ast::Update,
    after: &Interpreter,
    result: Result<crate::relation::RelationView, ErrorView>,
) -> bool {
    &&& after.spec_catalog() == before.spec_catalog()
    &&& match result {
        Ok(relation) => {
            &&& relation.column_names.len() == 0 && relation.rows.len() == 0
            &&& spec_table_position(
                before.spec_catalog().spec_names(),
                update.table_name@,
                0,
            ) matches Some(t) && spec_update(
                before.spec_catalog(),
                before.spec_rows(),
                t,
                update.assignments@,
                update.filter,
            ) == Ok::<crate::foreign_key::Rows, ErrorView>(after.spec_rows())
        },
        Err(e) => {
            &&& after.spec_trees() == before.spec_trees()
            &&& match spec_table_position(
                before.spec_catalog().spec_names(),
                update.table_name@,
                0,
            ) {
                None => e == ErrorView::Execution(
                    ExecutionErrorView::NoTable(update.table_name@),
                ),
                Some(t) => spec_update(
                    before.spec_catalog(),
                    before.spec_rows(),
                    t,
                    update.assignments@,
                    update.filter,
                ) == Err::<crate::foreign_key::Rows, ErrorView>(e),
            }
        },
    }
}

/// What a `CREATE TABLE` does to a database and gives back.
pub open spec fn spec_executed_create(
    before: &Interpreter,
    create_table: crate::ast::CreateTable,
    after: &Interpreter,
    result: Result<crate::relation::RelationView, ErrorView>,
) -> bool {
    &&& match result {
        Ok(relation) => {
            &&& relation.column_names.len() == 0 && relation.rows.len() == 0
            &&& if spec_table_position(
                before.spec_catalog().spec_names(),
                create_table.name@,
                0,
            ) is Some {
                create_table.if_not_exists && *after == *before
            } else {
                !spec_reserved(create_table.name@) && spec_created(
                    before,
                    create_table,
                    after,
                )
            }
        },
        Err(e) => {
            &&& *after == *before
            &&& if spec_table_position(
                before.spec_catalog().spec_names(),
                create_table.name@,
                0,
            ) is Some {
                !create_table.if_not_exists && e == ErrorView::Execution(
                    ExecutionErrorView::TableExists(create_table.name@),
                )
            } else if spec_reserved(create_table.name@) {
                e == ErrorView::Execution(
                    ExecutionErrorView::TableExists(create_table.name@),
                )
            } else {
                spec_create_fails(before, create_table, e)
            }
        },
    }
}

/// What a `DROP TABLE` does to a database and gives back.
pub open spec fn spec_executed_drop(
    before: &Interpreter,
    drop_table: crate::ast::DropTable,
    after: &Interpreter,
    result: Result<crate::relation::RelationView, ErrorView>,
) -> bool {
    &&& match result {
        Ok(relation) => {
            &&& relation.column_names.len() == 0 && relation.rows.len() == 0
            &&& spec_drop_all(
                spec_drop_start(before),
                drop_table.names.deep_view(),
                drop_table.if_exists,
                drop_table.names.len() as int,
            ) matches Ok(state) && spec_dropped(before, state, after)
        },
        Err(e) => *after == *before && spec_drop_all(
            spec_drop_start(before),
            drop_table.names.deep_view(),
            drop_table.if_exists,
            drop_table.names.len() as int,
        ) == Err::<DropView, ErrorView>(e),
    }
}

/// What a statement does to a database and gives back.
pub open spec fn spec_executed(
    before: &Interpreter,
    query: crate::ast::SqlQuery,
    after: &Interpreter,
    result: Result<crate::relation::RelationView, ErrorView>,
) -> bool {
    match query {
        crate::ast::SqlQuery::CreateTable(create_table) => spec_executed_create(
            before,
            create_table,
            after,
            result,
        ),
        crate::ast::SqlQuery::Insert(insert) => spec_executed_insert(before, insert, after, result),
        crate::ast::SqlQuery::SelectQuery(select) => *after == *before && match result {
            Ok(relation) => spec_select_gives(before, select, relation),
            Err(e) => spec_select_fails(before, select, e),
        },
        crate::ast::SqlQuery::DropTable(drop_table) => spec_executed_drop(
            before,
            drop_table,
            after,
            result,
        ),
        crate::ast::SqlQuery::Delete(delete) => spec_executed_delete(before, delete, after, result),
        crate::ast::SqlQuery::Update(update) => spec_executed_update(before, update, after, result),
    }
}

impl Interpreter {
    /// Runs a statement.
    pub fn execute(&mut self, query: crate::ast::SqlQuery) -> (result: Result<
        crate::relation::Relation,
        Error,
    >)
        requires
            old(self).wf(),
        ensures
            final(self).wf(),
            spec_executed(old(self), query, final(self), spec_relation_result(result)),
    {
        match query {
            crate::ast::SqlQuery::CreateTable(create_table) => self.execute_create_table(
                create_table,
            ),
            crate::ast::SqlQuery::Insert(insert) => self.execute_insert(insert),
            crate::ast::SqlQuery::SelectQuery(select) => self.execute_select(select),
            crate::ast::SqlQuery::DropTable(drop_table) => self.execute_drop_table(drop_table),
            crate::ast::SqlQuery::Delete(delete) => self.execute_delete(delete),
            crate::ast::SqlQuery::Update(update) => self.execute_update(update),
        }
    }

    /// The rows of the table at a position.
    pub fn tree(&self, index: usize) -> (tree: &Tree)
        requires
            index < self.spec_trees().len(),
        ensures
            *tree == self.spec_trees()[index as int],
    {
        &self.trees[index]
    }

    /// How many tables the database has.
    pub fn num_tables(&self) -> (count: usize)
        requires
            self.wf(),
        ensures
            count == self.spec_trees().len(),
            count == self.spec_catalog().spec_names().len(),
    {
        self.trees.len()
    }

    /// Puts a table with its rows, each a key and the bytes of its values,
    /// into the database, as a store hands them over. A name that the
    /// database has already fails with `TableExists` and changes nothing.
    pub fn restore_table(
        &mut self,
        name: String,
        definition: TableDefinition,
        rows: Vec<(Vec<u8>, Vec<u8>)>,
    ) -> (result: Result<(), Error>)
        requires
            old(self).wf(),
            definition.wf(),
        ensures
            final(self).wf(),
            match result {
                Ok(()) => spec_table_position(old(self).spec_catalog().spec_names(), name@, 0)
                    is None && final(self).spec_catalog().spec_names() == old(
                    self,
                ).spec_catalog().spec_names().push(name@)
                    && final(self).spec_catalog().spec_definitions() == old(
                    self,
                ).spec_catalog().spec_definitions().push(definition)
                    && final(self).spec_rows().drop_last() == old(self).spec_rows()
                    && final(self).spec_rows().last() == spec_restored(
                    Seq::empty(),
                    rows@,
                    rows.len() as int,
                ),
                Err(e) => *final(self) == *old(self) && spec_table_position(
                    old(self).spec_catalog().spec_names(),
                    name@,
                    0,
                ) is Some && e@ == ErrorView::Execution(ExecutionErrorView::TableExists(name@)),
            },
    {
        if self.catalog.find(name.as_str()).is_some() {
            return Err(Error::Execution(ExecutionError::TableExists(name)));
        }
        let tree = restore_tree(rows);
        proof {
            lemma_table_position(self.catalog.spec_names(), name@, 0);
        }
        let ghost old_names = self.catalog.spec_names();
        let ghost old_rows = self.spec_rows();
        self.catalog.names.push(name);
        self.catalog.definitions.push(definition);
        self.trees.push(tree);
        proof {
            assert(self.catalog.spec_names() =~= old_names.push(name@));
            assert(self.spec_rows().drop_last() =~= old_rows);
            assert(self.catalog.spec_names().no_duplicates()) by {
                assert forall|i: int, j: int|
                    0 <= i < self.catalog.spec_names().len() && 0 <= j
                        < self.catalog.spec_names().len() && i
                        != j implies self.catalog.spec_names()[i]
                    != self.catalog.spec_names()[j] by {
                    if i < old_names.len() && j < old_names.len() {
                        assert(old_names[i] != old_names[j]);
                    }
                }
            }
            assert forall|i: int| 0 <= i < self.catalog.spec_definitions().len() implies (
            #[trigger] self.catalog.spec_definitions()[i]).wf() by {
                if i < old_names.len() {
                    assert(self.catalog.spec_definitions()[i] == old(
                        self,
                    ).catalog.spec_definitions()[i]);
                }
            }
            assert forall|i: int| 0 <= i < self.trees.len() implies (#[trigger] self.trees[i]).wf() by {
                if i < old_names.len() {
                    assert(self.trees[i] == old(self).trees[i]);
                }
            }
        }
        Ok(())
    }

    /// Puts the rows of the table of foreign keys into the database, as a
    /// store hands them over, in place of those that it has.
    pub fn restore_foreign_keys(&mut self, rows: Vec<(Vec<u8>, Vec<u8>)>)
        requires
            old(self).wf(),
        ensures
            final(self).wf(),
            final(self).spec_trees() == old(self).spec_trees(),
            final(self).spec_catalog().spec_names() == old(self).spec_catalog().spec_names(),
            final(self).spec_catalog().spec_definitions() == old(
                self,
            ).spec_catalog().spec_definitions(),
            final(self).spec_catalog().spec_foreign_key_rows() == spec_restored(
                Seq::empty(),
                rows@,
                rows.len() as int,
            ),
    {
        self.catalog.foreign_key_tree = restore_tree(rows);
    }
}

/// The rows of a store after the first `n` of the pairs of a key and a
/// value are put into it, one after the other.
pub open spec fn spec_restored(rows: Seq<TableRowView>, pairs: Seq<(Vec<u8>, Vec<u8>)>, n: int) -> Seq<
    TableRowView,
>
    decreases n,
{
    if n <= 0 {
        rows
    } else {
        crate::table_handler::spec_tree_insert(
            spec_restored(rows, pairs, n - 1),
            pairs[n - 1].0@,
            pairs[n - 1].1@,
        )
    }
}

fn copy_bytes(bytes: &Vec<u8>) -> (copy: Vec<u8>)
    ensures
        copy@ == bytes@,
{
    let mut copy: Vec<u8> = Vec::new();
    let mut i: usize = 0;
    while i < bytes.len()
        invariant
            i <= bytes.len(),
            copy@ == bytes@.take(i as int),
        decreases bytes.len() - i,
    {
        copy.push(bytes[i]);
        i += 1;
        assert(copy@ =~= bytes@.take(i as int));
    }
    assert(bytes@.take(bytes.len() as int) =~= bytes@);
    copy
}

fn restore_tree(rows: Vec<(Vec<u8>, Vec<u8>)>) -> (tree: Tree)
    ensures
        tree.wf(),
        tree@ == spec_restored(Seq::empty(), rows@, rows.len() as int),
{
    let mut tree = Tree::new();
    let mut i: usize = 0;
    while i < rows.len()
        invariant
            i <= rows.len(),
            tree.wf(),
            tree@ == spec_restored(Seq::empty(), rows@, i as int),
        decreases rows.len() - i,
    {
        tree.insert(copy_bytes(&rows[i].0), copy_bytes(&rows[i].1));
        i += 1;
    }
    tree
}

} // verus!
