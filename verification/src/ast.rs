//! The statements that the engine executes, as a parser hands them over.

use vstd::prelude::*;
use vstd::string::StringExecFns;
use crate::data_types::{
    int_to_string, spec_int_to_string, IntegerStorage, Type, TypeContents, TypeContentsView, Value,
    ValueView,
};
use crate::error::{internal, Error, ErrorView};

verus! {

/// A statement.
#[derive(Debug)]
pub enum SqlQuery {
    CreateTable(CreateTable),
    Insert(Insert),
    SelectQuery(SelectQuery),
    DropTable(DropTable),
    Delete(Delete),
    Update(Update),
}

/// `CREATE TABLE`: the columns and the constraints of a new table. A set of
/// columns is a list of positions among `columns`.
#[derive(Debug)]
pub struct CreateTable {
    pub name: String,
    pub columns: Vec<Column>,
    pub uniques: Vec<(Vec<usize>, String)>,
    pub primary_key: Option<(Vec<usize>, String)>,
    pub checks: Vec<(UnresolvedExpression, String)>,
    pub foreign_keys: Vec<ForeignKey>,
    pub if_not_exists: bool,
}

impl CreateTable {
    pub fn new(
        name: String,
        columns: Vec<Column>,
        uniques: Vec<(Vec<usize>, String)>,
        primary_key: Option<(Vec<usize>, String)>,
        checks: Vec<(UnresolvedExpression, String)>,
        foreign_keys: Vec<ForeignKey>,
        if_not_exists: bool,
    ) -> (statement: Self)
        ensures
            statement.name == name,
            statement.columns == columns,
            statement.uniques == uniques,
            statement.primary_key == primary_key,
            statement.checks == checks,
            statement.foreign_keys == foreign_keys,
            statement.if_not_exists == if_not_exists,
    {
        Self { name, columns, uniques, primary_key, checks, foreign_keys, if_not_exists }
    }
}

/// A foreign key as a statement declares it: the columns of the new table,
/// the table referred to and its columns, and what happens to a referring
/// row when the row it refers to is deleted or updated.
#[derive(Debug, Clone)]
pub struct ForeignKey {
    pub name: String,
    pub columns: Vec<String>,
    pub foreign_table: String,
    pub referred_columns: Vec<String>,
    pub on_delete: Option<ForeignKeyAction>,
    pub on_update: Option<ForeignKeyAction>,
}

impl ForeignKey {
    pub fn new(
        name: String,
        columns: Vec<String>,
        foreign_table: String,
        referred_columns: Vec<String>,
        on_delete: Option<ForeignKeyAction>,
        on_update: Option<ForeignKeyAction>,
    ) -> (key: Self)
        ensures
            key.name == name,
            key.columns == columns,
            key.foreign_table == foreign_table,
            key.referred_columns == referred_columns,
            key.on_delete == on_delete,
            key.on_update == on_update,
    {
        Self { name, columns, foreign_table, referred_columns, on_delete, on_update }
    }
}

/// What happens to a referring row when the row it refers to goes or
/// changes.
#[derive(Debug, Clone, Copy, PartialEq, Eq, Structural)]
pub enum ForeignKeyAction {
    NoAction,
    Cascade,
    SetNull,
    SetDefault,
}

impl ForeignKeyAction {
    /// The number under which the action is stored.
    pub open spec fn spec_code(self) -> IntegerStorage {
        match self {
            ForeignKeyAction::NoAction => 0,
            ForeignKeyAction::Cascade => 1,
            ForeignKeyAction::SetNull => 2,
            ForeignKeyAction::SetDefault => 3,
        }
    }

    /// The number under which the action is stored.
    pub fn code(self) -> (code: IntegerStorage)
        ensures
            code == self.spec_code(),
    {
        match self {
            ForeignKeyAction::NoAction => 0,
            ForeignKeyAction::Cascade => 1,
            ForeignKeyAction::SetNull => 2,
            ForeignKeyAction::SetDefault => 3,
        }
    }

    /// The action stored under a number; an internal error for a number
    /// that stores none.
    pub fn from_code(value: IntegerStorage) -> (result: Result<Self, Error>)
        ensures
            match result {
                Ok(action) => action.spec_code() == value,
                Err(e) => e@ == ErrorView::Internal && !(0 <= value <= 3),
            },
    {
        if value == 0 {
            Ok(ForeignKeyAction::NoAction)
        } else if value == 1 {
            Ok(ForeignKeyAction::Cascade)
        } else if value == 2 {
            Ok(ForeignKeyAction::SetNull)
        } else if value == 3 {
            Ok(ForeignKeyAction::SetDefault)
        } else {
            Err(internal("Incorrect number for a foreign key action"))
        }
    }
}

impl Default for ForeignKeyAction {
    fn default() -> (action: Self)
        ensures
            action == ForeignKeyAction::NoAction,
    {
        ForeignKeyAction::NoAction
    }
}

/// A column of a new table.
#[derive(Debug)]
pub struct Column {
    pub name: String,
    pub data_type: Type,
    pub default: Option<UnresolvedExpression>,
    pub not_null: bool,
}

impl Column {
    pub fn new(
        name: String,
        data_type: Type,
        default: Option<UnresolvedExpression>,
        not_null: bool,
    ) -> (column: Self)
        ensures
            column.name == name,
            column.data_type == data_type,
            column.default == default,
            column.not_null == not_null,
    {
        Self { name, data_type, default, not_null }
    }
}

/// `INSERT`: the table, the columns named if any, and where the rows come
/// from.
#[derive(Debug)]
pub struct Insert {
    pub table: TableName,
    pub columns: Option<Vec<String>>,
    pub values: SelectQuery,
}

impl Insert {
    pub fn new(table: String, columns: Option<Vec<String>>, values: SelectQuery) -> (insert: Self)
        ensures
            insert.table.name == table,
            insert.table.alias is None,
            insert.columns == columns,
            insert.values == values,
    {
        Self { table: TableName::new(table, None), columns, values }
    }
}

/// A query that yields rows: literal rows or a `SELECT`.
#[derive(Debug)]
pub enum SelectQuery {
    Values(Values),
    Select(SelectContents),
}

/// Literal rows.
#[derive(Debug)]
pub struct Values {
    pub rows: Vec<Vec<UnresolvedExpression>>,
}

impl Values {
    pub fn new(rows: Vec<Vec<UnresolvedExpression>>) -> (values: Self)
        ensures
            values.rows == rows,
    {
        Self { rows }
    }
}

/// The name of a column as a statement writes it, with the table's name or
/// alias in front where the statement gave one.
#[derive(Debug, Clone, Default, Hash, PartialEq, Eq)]
pub struct ColumnName {
    table_name: Option<String>,
    column_name: String,
}

/// What a `ColumnName` holds.
pub struct ColumnNameView {
    pub table_name: Option<Seq<char>>,
    pub column_name: Seq<char>,
}

impl View for ColumnName {
    type V = ColumnNameView;

    closed spec fn view(&self) -> ColumnNameView {
        ColumnNameView {
            table_name: match self.table_name {
                Some(t) => Some(t@),
                None => None,
            },
            column_name: self.column_name@,
        }
    }
}

impl ColumnName {
    pub fn new(table_name: Option<String>, column_name: String) -> (name: Self)
        ensures
            name@.column_name == column_name@,
            name@.table_name == match table_name {
                Some(t) => Some(t@),
                None => None,
            },
    {
        Self { table_name, column_name }
    }

    /// The table's name or alias, where the statement gave one.
    pub fn table_name(&self) -> (table: Option<&str>)
        ensures
            match table {
                Some(t) => self@.table_name == Some(t@),
                None => self@.table_name is None,
            },
    {
        match &self.table_name {
            Some(t) => Some(t.as_str()),
            None => None,
        }
    }

    /// The column's name.
    pub fn column_name(&self) -> (column: &str)
        ensures
            column@ == self@.column_name,
    {
        self.column_name.as_str()
    }

    /// The two parts of the name.
    pub fn destructure(self) -> (parts: (Option<String>, String))
        ensures
            parts.1@ == self@.column_name,
            match parts.0 {
                Some(t) => self@.table_name == Some(t@),
                None => self@.table_name is None,
            },
    {
        (self.table_name, self.column_name)
    }

    /// A copy of the name.
    pub fn duplicate(&self) -> (copy: Self)
        ensures
            copy@ == self@,
    {
        let table_name = match &self.table_name {
            Some(t) => Some(t.clone()),
            None => None,
        };
        Self { table_name, column_name: self.column_name.clone() }
    }

    /// How the name is shown: the column's name alone.
    pub fn to_string(&self) -> (text: String)
        ensures
            text@ == self@.column_name,
    {
        self.column_name.clone()
    }
}

/// A comparison operator.
#[derive(Debug, Clone, Copy, PartialEq, Eq, Structural)]
pub enum ComparisonOp {
    Eq,
    NotEq,
    Gt,
    Lt,
    GtEq,
    LtEq,
}

/// An arithmetic operator.
#[derive(Debug, Clone, Copy, PartialEq, Eq, Structural)]
pub enum MathematicalOp {
    Add,
    Subtract,
    Multiply,
    Divide,
    Modulus,
}

/// A binary operator.
#[derive(Debug, Clone, Copy, PartialEq, Eq, Structural)]
pub enum BinaryOp {
    And,
    Or,
    Comparison(ComparisonOp),
    Mathematical(MathematicalOp),
}

impl ComparisonOp {
    /// How the operator is written.
    pub open spec fn spec_symbol(self) -> Seq<char> {
        match self {
            ComparisonOp::Eq => "="@,
            ComparisonOp::NotEq => "<>"@,
            ComparisonOp::Gt => ">"@,
            ComparisonOp::Lt => "<"@,
            ComparisonOp::GtEq => ">="@,
            ComparisonOp::LtEq => "<="@,
        }
    }

    /// How the operator is written.
    pub fn symbol(&self) -> (symbol: &'static str)
        ensures
            symbol@ == self.spec_symbol(),
    {
        match self {
            ComparisonOp::Eq => "=",
            ComparisonOp::NotEq => "<>",
            ComparisonOp::Gt => ">",
            ComparisonOp::Lt => "<",
            ComparisonOp::GtEq => ">=",
            ComparisonOp::LtEq => "<=",
        }
    }
}

impl MathematicalOp {
    /// How the operator is written.
    pub open spec fn spec_symbol(self) -> Seq<char> {
        match self {
            MathematicalOp::Add => "+"@,
            MathematicalOp::Subtract => "-"@,
            MathematicalOp::Multiply => "*"@,
            MathematicalOp::Divide => "/"@,
            MathematicalOp::Modulus => "%"@,
        }
    }

    /// How the operator is written.
    pub fn symbol(&self) -> (symbol: &'static str)
        ensures
            symbol@ == self.spec_symbol(),
    {
        match self {
            MathematicalOp::Add => "+",
            MathematicalOp::Subtract => "-",
            MathematicalOp::Multiply => "*",
            MathematicalOp::Divide => "/",
            MathematicalOp::Modulus => "%",
        }
    }
}

impl BinaryOp {
    /// How the operator is written.
    pub open spec fn spec_symbol(self) -> Seq<char> {
        match self {
            BinaryOp::And => "AND"@,
            BinaryOp::Or => "OR"@,
            BinaryOp::Comparison(c) => c.spec_symbol(),
            BinaryOp::Mathematical(m) => m.spec_symbol(),
        }
    }

    /// How the operator is written.
    pub fn symbol(&self) -> (symbol: &'static str)
        ensures
            symbol@ == self.spec_symbol(),
    {
        match self {
            BinaryOp::And => "AND",
            BinaryOp::Or => "OR",
            BinaryOp::Comparison(c) => c.symbol(),
            BinaryOp::Mathematical(m) => m.symbol(),
        }
    }
}

/// How a value is shown: `NULL`, the string itself, or the integer in
/// decimal.
pub open spec fn spec_value_text(v: ValueView) -> Seq<char> {
    match v {
        ValueView::Null => "NULL"@,
        ValueView::TypedValue(TypeContentsView::Integer(i)) => spec_int_to_string(i),
        ValueView::TypedValue(TypeContentsView::String(s)) => s,
    }
}

/// How a value is shown.
pub fn value_text(v: &Value) -> (text: String)
    ensures
        text@ == spec_value_text(v@),
{
    match v {
        Value::Null => "NULL".to_owned(),
        Value::TypedValue(TypeContents::Integer(i)) => int_to_string(*i),
        Value::TypedValue(TypeContents::String(s)) => s.clone(),
    }
}

/// An expression whose column names are as the statement wrote them.
#[derive(Debug)]
pub enum UnresolvedExpression {
    Value(Value),
    Identifier(ColumnName),
    BinaryOp(Box<UnresolvedExpression>, BinaryOp, Box<UnresolvedExpression>),
}

/// What an `UnresolvedExpression` holds.
pub enum UnresolvedExpressionView {
    Value(ValueView),
    Identifier(ColumnNameView),
    BinaryOp(Box<UnresolvedExpressionView>, BinaryOp, Box<UnresolvedExpressionView>),
}

impl View for UnresolvedExpression {
    type V = UnresolvedExpressionView;

    open spec fn view(&self) -> UnresolvedExpressionView {
        self.spec_view()
    }
}

impl UnresolvedExpression {
    /// What the expression holds.
    pub open spec fn spec_view(&self) -> UnresolvedExpressionView
        decreases self,
    {
        match self {
            UnresolvedExpression::Value(v) => UnresolvedExpressionView::Value(v@),
            UnresolvedExpression::Identifier(c) => UnresolvedExpressionView::Identifier(c@),
            UnresolvedExpression::BinaryOp(l, op, r) => UnresolvedExpressionView::BinaryOp(
                Box::new(l.spec_view()),
                *op,
                Box::new(r.spec_view()),
            ),
        }
    }

    /// How the expression is shown: a value or a column's name as it is,
    /// and the two sides of an operator with the operator between two
    /// spaces.
    pub open spec fn spec_text(self) -> Seq<char>
        decreases self,
    {
        match self {
            UnresolvedExpression::Value(v) => spec_value_text(v@),
            UnresolvedExpression::Identifier(i) => i@.column_name,
            UnresolvedExpression::BinaryOp(l, op, r) => l.spec_text() + " "@ + op.spec_symbol()
                + " "@ + r.spec_text(),
        }
    }

    /// How the expression is shown.
    pub fn to_string(&self) -> (text: String)
        ensures
            text@ == self.spec_text(),
        decreases self,
    {
        match self {
            UnresolvedExpression::Value(v) => value_text(v),
            UnresolvedExpression::Identifier(i) => i.to_string(),
            UnresolvedExpression::BinaryOp(l, op, r) => {
                let mut text = l.to_string();
                text.append(" ");
                text.append(op.symbol());
                text.append(" ");
                let right = r.to_string();
                text.append(right.as_str());
                text
            },
        }
    }

    /// The column name under which the expression is shown: an identifier
    /// is its own name, anything else is named by its text, without a
    /// table.
    pub fn to_column_name(&self) -> (name: ColumnName)
        ensures
            name@ == match *self {
                UnresolvedExpression::Identifier(c) => c@,
                _ => ColumnNameView { table_name: None, column_name: self.spec_text() },
            },
    {
        match self {
            UnresolvedExpression::Identifier(c) => c.duplicate(),
            UnresolvedExpression::Value(v) => ColumnName::new(None, value_text(v)),
            UnresolvedExpression::BinaryOp(_, _, _) => ColumnName::new(None, self.to_string()),
        }
    }
}

/// The direction of an ordering.
#[derive(Debug, Clone, Copy, PartialEq, Eq, Structural)]
pub enum OrderByDirection {
    Ascending,
    Descending,
}

/// One key of an `ORDER BY`.
#[derive(Debug)]
pub struct OrderBy {
    pub expression: UnresolvedExpression,
    pub direction: OrderByDirection,
    pub nulls_first: bool,
}

impl OrderBy {
    pub fn new(expression: UnresolvedExpression, direction: OrderByDirection, nulls_first: bool) -> (order: Self)
        ensures
            order.expression == expression,
            order.direction == direction,
            order.nulls_first == nulls_first,
    {
        Self { expression, direction, nulls_first }
    }
}

/// `SELECT`: what to show, from which tables, which rows, in what order.
#[derive(Debug)]
pub struct SelectContents {
    pub projections: Vec<Projection>,
    pub from: Option<TableJoins>,
    pub selection: Option<UnresolvedExpression>,
    pub order_by: Vec<OrderBy>,
}

impl SelectContents {
    pub fn new(
        projections: Vec<Projection>,
        from: Option<TableJoins>,
        selection: Option<UnresolvedExpression>,
        order_by: Vec<OrderBy>,
    ) -> (select: Self)
        ensures
            select.projections == projections,
            select.from == from,
            select.selection == selection,
            select.order_by == order_by,
    {
        Self { projections, from, selection, order_by }
    }
}

/// One item of what a `SELECT` shows.
#[derive(Debug)]
pub enum Projection {
    Wildcard,
    QualifiedWildcard(String),
    Unaliased(UnresolvedExpression),
    Aliased(UnresolvedExpression, String),
}

/// A table in a `FROM` clause, with its alias if it has one.
#[derive(Debug)]
pub struct TableName {
    pub name: String,
    pub alias: Option<String>,
}

impl TableName {
    pub fn new(name: String, alias: Option<String>) -> (table: Self)
        ensures
            table.name == name,
            table.alias == alias,
    {
        Self { name, alias }
    }

    /// The name by which the query knows the table: its alias if it has
    /// one, else its own name.
    pub open spec fn spec_aliased_name(self) -> Seq<char> {
        match self.alias {
            Some(a) => a@,
            None => self.name@,
        }
    }

    /// The name by which the query knows the table.
    pub fn aliased_name(&self) -> (name: &str)
        ensures
            name@ == self.spec_aliased_name(),
    {
        match &self.alias {
            Some(a) => a.as_str(),
            None => self.name.as_str(),
        }
    }
}

/// How two sides of a join are put together.
#[derive(Debug, Clone, Copy, PartialEq, Eq, Structural)]
pub enum JoinOperator {
    Inner,
    Left,
    Right,
}

/// Which pairs of rows a join keeps.
#[derive(Debug)]
pub enum JoinConstraint {
    On(UnresolvedExpression),
    Natural,
    Using(Vec<String>),
    Unconstrained,
}

/// The tables of a `FROM` clause: one table, or a join of two sides.
#[derive(Debug)]
pub enum TableJoins {
    Table(TableName),
    Join {
        left: Box<TableJoins>,
        right: Box<TableJoins>,
        operator: JoinOperator,
        constraint: JoinConstraint,
    },
}

impl TableJoins {
    /// The names by which the query knows the tables, left to right.
    pub open spec fn spec_table_names(self) -> Seq<Seq<char>>
        decreases self,
    {
        match self {
            TableJoins::Table(name) => seq![name.spec_aliased_name()],
            TableJoins::Join { left, right, .. } => left.spec_table_names()
                + right.spec_table_names(),
        }
    }

    /// Whether one of the tables is known by the name `table_name`.
    pub fn contains_table(&self, table_name: &str) -> (found: bool)
        ensures
            found == self.spec_table_names().contains(table_name@),
        decreases self,
    {
        match self {
            TableJoins::Table(name) => {
                let found = str_eq(table_name, name.aliased_name());
                proof {
                    let names = self.spec_table_names();
                    assert(names[0] == name.spec_aliased_name());
                }
                found
            },
            TableJoins::Join { left, right, .. } => {
                let in_left = left.contains_table(table_name);
                let in_right = right.contains_table(table_name);
                proof {
                    let l = left.spec_table_names();
                    let r = right.spec_table_names();
                    if in_left {
                        let i = choose|i: int| 0 <= i < l.len() && l[i] == table_name@;
                        assert((l + r)[i] == table_name@);
                    }
                    if in_right {
                        let i = choose|i: int| 0 <= i < r.len() && r[i] == table_name@;
                        assert((l + r)[l.len() + i] == table_name@);
                    }
                    if (l + r).contains(table_name@) {
                        let i = choose|i: int| 0 <= i < (l + r).len() && (l + r)[i] == table_name@;
                        if i < l.len() {
                            assert(l[i] == table_name@);
                        } else {
                            assert(r[i - l.len()] == table_name@);
                        }
                    }
                }
                in_left || in_right
            },
        }
    }

    /// The names by which the query knows the tables, left to right.
    pub fn table_names(&self) -> (names: Vec<String>)
        ensures
            names.deep_view() == self.spec_table_names(),
        decreases self,
    {
        match self {
            TableJoins::Table(n) => {
                let mut names: Vec<String> = Vec::new();
                names.push(n.aliased_name().to_owned());
                assert(names.deep_view() =~= self.spec_table_names());
                names
            },
            TableJoins::Join { left, right, .. } => {
                let mut names = left.table_names();
                let mut others = right.table_names();
                let ghost l = names.deep_view();
                let ghost r = others.deep_view();
                names.append(&mut others);
                assert(names.deep_view() =~= l + r);
                names
            },
        }
    }
}

/// Whether two strings hold the same characters.
pub fn str_eq(a: &str, b: &str) -> (equal: bool)
    ensures
        equal == (a@ == b@),
{
    let x = a.as_bytes();
    let y = b.as_bytes();
    if x.len() != y.len() {
        return false;
    }
    let mut i: usize = 0;
    while i < x.len()
        invariant
            i <= x@.len(),
            x@.len() == y@.len(),
            x@ == vstd::utf8::encode_utf8(a@),
            y@ == vstd::utf8::encode_utf8(b@),
            forall|k: int| 0 <= k < i ==> x@[k] == y@[k],
        decreases x@.len() - i,
    {
        if x[i] != y[i] {
            return false;
        }
        i += 1;
    }
    proof {
        assert(x@ =~= y@);
        vstd::utf8::encode_utf8_decode_utf8(a@);
        vstd::utf8::encode_utf8_decode_utf8(b@);
    }
    true
}

/// `DROP TABLE`.
#[derive(Debug)]
pub struct DropTable {
    pub if_exists: bool,
    pub names: Vec<String>,
}

impl DropTable {
    pub fn new(if_exists: bool, names: Vec<String>) -> (statement: Self)
        ensures
            statement.if_exists == if_exists,
            statement.names == names,
    {
        Self { if_exists, names }
    }
}

/// `DELETE`: the table and which rows go.
#[derive(Debug)]
pub struct Delete {
    pub table_name: String,
    pub predicate: Option<UnresolvedExpression>,
}

impl Delete {
    pub fn new(table_name: String, predicate: Option<UnresolvedExpression>) -> (statement: Self)
        ensures
            statement.table_name == table_name,
            statement.predicate == predicate,
    {
        Self { table_name, predicate }
    }
}

/// `UPDATE`: the table, the new values by column, and which rows change.
#[derive(Debug)]
pub struct Update {
    pub table_name: String,
    pub assignments: Vec<(String, UnresolvedExpression)>,
    pub filter: Option<UnresolvedExpression>,
}

impl Update {
    pub fn new(
        table_name: String,
        assignments: Vec<(String, UnresolvedExpression)>,
        filter: Option<UnresolvedExpression>,
    ) -> (statement: Self)
        ensures
            statement.table_name == table_name,
            statement.assignments == assignments,
            statement.filter == filter,
    {
        Self { table_name, assignments, filter }
    }
}

} // verus!
