//! From the statements that a parser of SQL gives to the statements that
//! the engine executes.
//!
//! The parser is not part of this library: what it gives is handed over as
//! the plain statements of this module.

use vstd::prelude::*;
use vstd::std_specs::iter::IteratorSpec;
use vstd::string::StringExecFns;
use crate::ast::{
    BinaryOp, Column, ColumnName, ColumnNameView, ComparisonOp, CreateTable, Delete, DropTable,
    ForeignKey, ForeignKeyAction, Insert, MathematicalOp, OrderBy, OrderByDirection, Projection,
    SelectContents, SelectQuery, SqlQuery, TableJoins, TableName, UnresolvedExpression,
    UnresolvedExpressionView, Update, Values,
};
use crate::data_types::{Type, TypeContents, TypeContentsView, Value, ValueView};
use crate::error::{internal, Error, ErrorView, ExecutionError, ExecutionErrorView};
use crate::interpreter::{sort_columns, spec_sorted_columns};

verus! {

broadcast use vstd::string::group_string_axioms;

/// A literal as the parser gives it.
#[derive(Debug)]
pub enum Literal {
    SingleQuotedString(String),
    DoubleQuotedString(String),
    Number(String),
    Boolean(bool),
    Null,
}

/// A binary operator as the parser gives it.
#[derive(Debug, Clone, Copy, PartialEq, Eq, Structural)]
pub enum BinaryOperator {
    And,
    Or,
    Eq,
    NotEq,
    Lt,
    Gt,
    LtEq,
    GtEq,
    Plus,
    Minus,
    Multiply,
    Divide,
    Modulus,
}

/// An expression as the parser gives it.
#[derive(Debug)]
pub enum Expr {
    Value(Literal),
    Identifier(String),
    CompoundIdentifier(Vec<String>),
    BinaryOp { left: Box<Expr>, op: BinaryOperator, right: Box<Expr> },
}

/// The number that decimal digits, from position `from` on, add to the
/// number `so_far` that the digits before them spell.
pub open spec fn spec_digits(s: Seq<char>, from: int, so_far: int) -> int
    decreases s.len() - from,
{
    if from < 0 || from >= s.len() {
        so_far
    } else {
        spec_digits(s, from + 1, so_far * 10 + crate::data_types::digit_value(s[from]))
    }
}

/// Whether every character from position `from` on is a decimal digit.
pub open spec fn spec_all_digits(s: Seq<char>, from: int) -> bool {
    forall|i: int| from <= i < s.len() ==> crate::data_types::is_digit(#[trigger] s[i])
}

/// The integer that a number of a statement stands for: decimal digits, at
/// least one, after a sign or none; nothing where the text is anything
/// else, or the number does not fit.
pub open spec fn spec_parse_number(s: Seq<char>) -> Option<i64> {
    let negative = s.len() > 0 && s[0] == '-';
    let start: int = if s.len() > 0 && (s[0] == '-' || s[0] == '+') {
        1
    } else {
        0
    };
    if s.len() <= start || !spec_all_digits(s, start) {
        None
    } else {
        let magnitude = spec_digits(s, start, 0);
        let value = if negative {
            -magnitude
        } else {
            magnitude
        };
        if i64::MIN <= value <= i64::MAX {
            Some(value as i64)
        } else {
            None
        }
    }
}

/// More digits do not make a number smaller.
pub proof fn lemma_digits_grow(s: Seq<char>, from: int, so_far: int)
    requires
        0 <= so_far,
        0 <= from,
    ensures
        spec_digits(s, from, so_far) >= so_far,
    decreases s.len() - from,
{
    if from < s.len() {
        lemma_digits_grow(s, from + 1, so_far * 10 + crate::data_types::digit_value(s[from]));
    }
}

/// The integer that a number of a statement stands for.
pub fn parse_number(text: &str) -> (number: Option<i64>)
    ensures
        number == spec_parse_number(text@),
{
    let mut characters = text.chars();
    let ghost s = text@;
    let first = match characters.next() {
        Some(c) => c,
        None => {
            return None;
        },
    };
    let negative = first == '-';
    let signed = first == '-' || first == '+';
    let ghost start: int = if signed {
        1
    } else {
        0
    };
    // The magnitude, counted downwards so that the least integer fits.
    let mut total: i64 = 0;
    let mut any: bool = false;
    let ghost mut at: int = 1;
    if !signed {
        let code: u32 = first as u32;
        if 0x30 <= code && code <= 0x39 {
            total = -((code - 0x30) as i64);
            any = true;
        } else {
            assert(!crate::data_types::is_digit(s[0]));
            return None;
        }
    }
    loop
        invariant_except_break
            characters.remaining() == s.skip(at),
        invariant
            s == text@,
            start <= at <= s.len(),
            any == (at > start),
            start == if s[0] == '-' || s[0] == '+' {
                1int
            } else {
                0int
            },
            negative == (s[0] == '-'),
            s.len() > 0,
            total <= 0,
            forall|i: int| start <= i < at ==> crate::data_types::is_digit(#[trigger] s[i]),
            spec_digits(s, start, 0) == spec_digits(s, at, -(total as int)),
        ensures
            at == s.len(),
        decreases s.len() - at,
    {
        match characters.next() {
            Some(c) => {
                assert(s.skip(at)[0] == s[at]);
                let code: u32 = c as u32;
                if !(0x30 <= code && code <= 0x39) {
                    assert(!crate::data_types::is_digit(s[at]));
                    return None;
                }
                let digit: i64 = (code - 0x30) as i64;
                proof {
                    lemma_digits_grow(s, at + 1, (-(total as int)) * 10 + digit);
                }
                if total < (i64::MIN + digit) / 10 {
                    return None;
                }
                total = total * 10 - digit;
                any = true;
                proof {
                    assert(s.skip(at).drop_first() =~= s.skip(at + 1));
                    at = at + 1;
                }
            },
            None => {
                break ;
            },
        }
    }
    if !any {
        return None;
    }
    if negative {
        Some(total)
    } else if total == i64::MIN {
        None
    } else {
        Some(-total)
    }
}

/// The value that a literal stands for: a string, the integer of a
/// number, 1 or 0 for true or false, or null; a number that is no integer
/// is an internal error.
pub open spec fn spec_parse_value(value: Literal) -> Result<ValueView, ErrorView> {
    match value {
        Literal::SingleQuotedString(s) => Ok(ValueView::TypedValue(TypeContentsView::String(s@))),
        Literal::DoubleQuotedString(s) => Ok(ValueView::TypedValue(TypeContentsView::String(s@))),
        Literal::Number(s) => match spec_parse_number(s@) {
            Some(i) => Ok(ValueView::TypedValue(TypeContentsView::Integer(i))),
            None => Err(ErrorView::Internal),
        },
        Literal::Boolean(b) => Ok(crate::data_types::spec_bool_value(b)),
        Literal::Null => Ok(ValueView::Null),
    }
}

/// The value that a literal stands for.
pub fn parse_value(value: Literal) -> (result: Result<Value, Error>)
    ensures
        crate::spec_value_result(result) == spec_parse_value(value),
{
    match value {
        Literal::SingleQuotedString(s) => Ok(Value::TypedValue(TypeContents::String(s))),
        Literal::DoubleQuotedString(s) => Ok(Value::TypedValue(TypeContents::String(s))),
        Literal::Number(s) => match parse_number(s.as_str()) {
            Some(i) => Ok(Value::TypedValue(TypeContents::Integer(i))),
            None => Err(internal("Number string was not a number")),
        },
        Literal::Boolean(b) => Ok(Value::from(b)),
        Literal::Null => Ok(Value::Null),
    }
}

/// The operator of the engine for an operator of the parser.
pub open spec fn spec_operator(op: BinaryOperator) -> BinaryOp {
    match op {
        BinaryOperator::And => BinaryOp::And,
        BinaryOperator::Or => BinaryOp::Or,
        BinaryOperator::Eq => BinaryOp::Comparison(ComparisonOp::Eq),
        BinaryOperator::NotEq => BinaryOp::Comparison(ComparisonOp::NotEq),
        BinaryOperator::Lt => BinaryOp::Comparison(ComparisonOp::Lt),
        BinaryOperator::Gt => BinaryOp::Comparison(ComparisonOp::Gt),
        BinaryOperator::LtEq => BinaryOp::Comparison(ComparisonOp::LtEq),
        BinaryOperator::GtEq => BinaryOp::Comparison(ComparisonOp::GtEq),
        BinaryOperator::Plus => BinaryOp::Mathematical(MathematicalOp::Add),
        BinaryOperator::Minus => BinaryOp::Mathematical(MathematicalOp::Subtract),
        BinaryOperator::Multiply => BinaryOp::Mathematical(MathematicalOp::Multiply),
        BinaryOperator::Divide => BinaryOp::Mathematical(MathematicalOp::Divide),
        BinaryOperator::Modulus => BinaryOp::Mathematical(MathematicalOp::Modulus),
    }
}

/// The operator of the engine for an operator of the parser.
pub fn parse_operator(op: BinaryOperator) -> (result: BinaryOp)
    ensures
        result == spec_operator(op),
{
    match op {
        BinaryOperator::And => BinaryOp::And,
        BinaryOperator::Or => BinaryOp::Or,
        BinaryOperator::Eq => BinaryOp::Comparison(ComparisonOp::Eq),
        BinaryOperator::NotEq => BinaryOp::Comparison(ComparisonOp::NotEq),
        BinaryOperator::Lt => BinaryOp::Comparison(ComparisonOp::Lt),
        BinaryOperator::Gt => BinaryOp::Comparison(ComparisonOp::Gt),
        BinaryOperator::LtEq => BinaryOp::Comparison(ComparisonOp::LtEq),
        BinaryOperator::GtEq => BinaryOp::Comparison(ComparisonOp::GtEq),
        BinaryOperator::Plus => BinaryOp::Mathematical(MathematicalOp::Add),
        BinaryOperator::Minus => BinaryOp::Mathematical(MathematicalOp::Subtract),
        BinaryOperator::Multiply => BinaryOp::Mathematical(MathematicalOp::Multiply),
        BinaryOperator::Divide => BinaryOp::Mathematical(MathematicalOp::Divide),
        BinaryOperator::Modulus => BinaryOp::Mathematical(MathematicalOp::Modulus),
    }
}

/// The column that the parts of a name with dots stand for: the last part
/// is the column and the part before it, if there is one, the table; no
/// parts at all are an internal error.
pub open spec fn spec_compound_identifier(parts: Seq<Seq<char>>) -> Result<ColumnNameView, ErrorView> {
    if parts.len() == 0 {
        Err(ErrorView::Internal)
    } else if parts.len() == 1 {
        Ok(ColumnNameView { table_name: None, column_name: parts[0] })
    } else {
        Ok(
            ColumnNameView {
                table_name: Some(parts[parts.len() - 2]),
                column_name: parts[parts.len() - 1],
            },
        )
    }
}

/// The column that the parts of a name with dots stand for.
pub fn parse_compound_identifier(identifier: &Vec<String>) -> (result: Result<ColumnName, Error>)
    ensures
        match result {
            Ok(name) => spec_compound_identifier(identifier.deep_view()) == Ok::<
                ColumnNameView,
                ErrorView,
            >(name@),
            Err(e) => spec_compound_identifier(identifier.deep_view()) == Err::<
                ColumnNameView,
                ErrorView,
            >(e@),
        },
{
    let n = identifier.len();
    if n == 0 {
        Err(internal("A name has at least one part"))
    } else if n == 1 {
        assert(identifier.deep_view()[0] == identifier[0]@);
        Ok(ColumnName::new(None, identifier[0].clone()))
    } else {
        assert(identifier.deep_view()[n - 2] == identifier[n - 2]@);
        assert(identifier.deep_view()[n - 1] == identifier[n - 1]@);
        Ok(ColumnName::new(Some(identifier[n - 2].clone()), identifier[n - 1].clone()))
    }
}

/// The expression of the engine for an expression of the parser; the
/// leftmost part that is an internal error gives it.
pub open spec fn spec_parse_expression(expression: Expr) -> Result<
    UnresolvedExpressionView,
    ErrorView,
>
    decreases expression,
{
    match expression {
        Expr::Value(v) => match spec_parse_value(v) {
            Ok(value) => Ok(UnresolvedExpressionView::Value(value)),
            Err(e) => Err(e),
        },
        Expr::Identifier(i) => Ok(
            UnresolvedExpressionView::Identifier(
                ColumnNameView { table_name: None, column_name: i@ },
            ),
        ),
        Expr::CompoundIdentifier(parts) => match spec_compound_identifier(parts.deep_view()) {
            Ok(name) => Ok(UnresolvedExpressionView::Identifier(name)),
            Err(e) => Err(e),
        },
        Expr::BinaryOp { left, op, right } => match spec_parse_expression(*left) {
            Err(e) => Err(e),
            Ok(l) => match spec_parse_expression(*right) {
                Err(e) => Err(e),
                Ok(r) => Ok(
                    UnresolvedExpressionView::BinaryOp(Box::new(l), spec_operator(op), Box::new(r)),
                ),
            },
        },
    }
}

/// What an expression and its error look like from outside.
pub open spec fn spec_unresolved_result(result: Result<UnresolvedExpression, Error>) -> Result<
    UnresolvedExpressionView,
    ErrorView,
> {
    match result {
        Ok(e) => Ok(e@),
        Err(e) => Err(e@),
    }
}

/// The expression of the engine for an expression of the parser.
pub fn parse_expression(expression: Expr) -> (result: Result<UnresolvedExpression, Error>)
    ensures
        spec_unresolved_result(result) == spec_parse_expression(expression),
    decreases expression,
{
    match expression {
        Expr::Value(v) => match parse_value(v) {
            Ok(value) => Ok(UnresolvedExpression::Value(value)),
            Err(e) => Err(e),
        },
        Expr::Identifier(i) => Ok(UnresolvedExpression::Identifier(ColumnName::new(None, i))),
        Expr::CompoundIdentifier(parts) => match parse_compound_identifier(&parts) {
            Ok(name) => Ok(UnresolvedExpression::Identifier(name)),
            Err(e) => Err(e),
        },
        Expr::BinaryOp { left, op, right } => {
            let l = match parse_expression(*left) {
                Ok(l) => l,
                Err(e) => {
                    return Err(e);
                },
            };
            let r = match parse_expression(*right) {
                Ok(r) => r,
                Err(e) => {
                    return Err(e);
                },
            };
            Ok(UnresolvedExpression::BinaryOp(Box::new(l), parse_operator(op), Box::new(r)))
        },
    }
}

} // verus!

verus! {

// ---------------------------------------------------------------------------
// Queries
// ---------------------------------------------------------------------------

/// The constraint of a join as the parser gives it.
#[derive(Debug)]
pub enum JoinConstraint {
    On(Expr),
    Using(Vec<String>),
    Natural,
    Unconstrained,
}

/// The operator of a join as the parser gives it.
#[derive(Debug)]
pub enum JoinOperator {
    Inner(JoinConstraint),
    LeftOuter(JoinConstraint),
    RightOuter(JoinConstraint),
    CrossJoin,
}

/// A table of a `FROM` clause as the parser gives it: a table by name, or
/// tables in brackets.
#[derive(Debug)]
pub enum TableFactor {
    Table { name: String, alias: Option<String> },
    NestedJoin(Box<TableWithJoins>),
}

/// A table joined to what comes before it.
#[derive(Debug)]
pub struct Join {
    pub relation: TableFactor,
    pub join_operator: JoinOperator,
}

/// A table with the tables joined to it.
#[derive(Debug)]
pub struct TableWithJoins {
    pub relation: TableFactor,
    pub joins: Vec<Join>,
}

/// One item of what a `SELECT` shows, as the parser gives it.
#[derive(Debug)]
pub enum SelectItem {
    UnnamedExpr(Expr),
    ExprWithAlias { expr: Expr, alias: String },
    Wildcard,
    QualifiedWildcard(String),
}

/// A `SELECT` as the parser gives it.
#[derive(Debug)]
pub struct Select {
    pub projection: Vec<SelectItem>,
    pub from: Vec<TableWithJoins>,
    pub selection: Option<Expr>,
}

/// The body of a query as the parser gives it.
#[derive(Debug)]
pub enum SetExpr {
    Values(Vec<Vec<Expr>>),
    Select(Select),
}

/// One key of an `ORDER BY` as the parser gives it.
#[derive(Debug)]
pub struct OrderByExpr {
    pub expr: Expr,
    pub asc: Option<bool>,
    pub nulls_first: Option<bool>,
}

/// A query as the parser gives it.
#[derive(Debug)]
pub struct Query {
    pub body: SetExpr,
    pub order_by: Vec<OrderByExpr>,
}

/// What the constraint of a join holds.
pub enum JoinConstraintView {
    On(UnresolvedExpressionView),
    Natural,
    Using(Seq<Seq<char>>),
    Unconstrained,
}

/// What the tables of a `FROM` clause hold.
pub enum TableJoinsView {
    Table { name: Seq<char>, alias: Option<Seq<char>> },
    Join {
        left: Box<TableJoinsView>,
        right: Box<TableJoinsView>,
        operator: crate::ast::JoinOperator,
        constraint: JoinConstraintView,
    },
}

/// What a string that may be missing holds.
pub open spec fn spec_optional_text(text: Option<String>) -> Option<Seq<char>> {
    match text {
        Some(t) => Some(t@),
        None => None,
    }
}

/// What the constraint of a join of the engine holds.
pub open spec fn spec_constraint_view(constraint: crate::ast::JoinConstraint) -> JoinConstraintView {
    match constraint {
        crate::ast::JoinConstraint::On(e) => JoinConstraintView::On(e@),
        crate::ast::JoinConstraint::Natural => JoinConstraintView::Natural,
        crate::ast::JoinConstraint::Using(columns) => JoinConstraintView::Using(
            columns.deep_view(),
        ),
        crate::ast::JoinConstraint::Unconstrained => JoinConstraintView::Unconstrained,
    }
}

/// What the tables of a `FROM` clause of the engine hold.
pub open spec fn spec_joins_view(joins: TableJoins) -> TableJoinsView
    decreases joins,
{
    match joins {
        TableJoins::Table(table) => TableJoinsView::Table {
            name: table.name@,
            alias: spec_optional_text(table.alias),
        },
        TableJoins::Join { left, right, operator, constraint } => TableJoinsView::Join {
            left: Box::new(spec_joins_view(*left)),
            right: Box::new(spec_joins_view(*right)),
            operator,
            constraint: spec_constraint_view(constraint),
        },
    }
}

/// The names by which a query knows the tables, left to right.
pub open spec fn spec_view_names(joins: TableJoinsView) -> Seq<Seq<char>>
    decreases joins,
{
    match joins {
        TableJoinsView::Table { name, alias } => seq![
            match alias {
                Some(a) => a,
                None => name,
            },
        ],
        TableJoinsView::Join { left, right, .. } => spec_view_names(*left) + spec_view_names(*right),
    }
}

/// The names of the view are those of the tables.
pub proof fn lemma_view_names(joins: TableJoins)
    ensures
        spec_view_names(spec_joins_view(joins)) == joins.spec_table_names(),
    decreases joins,
{
    match joins {
        TableJoins::Table(_) => {},
        TableJoins::Join { left, right, .. } => {
            lemma_view_names(*left);
            lemma_view_names(*right);
        },
    }
}

/// The constraint of the engine for a constraint of the parser.
pub open spec fn spec_parse_join_constraint(constraint: JoinConstraint) -> Result<
    JoinConstraintView,
    ErrorView,
> {
    match constraint {
        JoinConstraint::On(e) => match spec_parse_expression(e) {
            Ok(x) => Ok(JoinConstraintView::On(x)),
            Err(error) => Err(error),
        },
        JoinConstraint::Unconstrained => Ok(JoinConstraintView::Unconstrained),
        JoinConstraint::Natural => Ok(JoinConstraintView::Natural),
        JoinConstraint::Using(columns) => Ok(JoinConstraintView::Using(columns.deep_view())),
    }
}

/// The constraint of the engine for a constraint of the parser.
pub fn parse_join_constraint(constraint: JoinConstraint) -> (result: Result<
    crate::ast::JoinConstraint,
    Error,
>)
    ensures
        match result {
            Ok(c) => spec_parse_join_constraint(constraint) == Ok::<JoinConstraintView, ErrorView>(
                spec_constraint_view(c),
            ),
            Err(e) => spec_parse_join_constraint(constraint) == Err::<
                JoinConstraintView,
                ErrorView,
            >(e@),
        },
{
    match constraint {
        JoinConstraint::On(e) => match parse_expression(e) {
            Ok(x) => Ok(crate::ast::JoinConstraint::On(x)),
            Err(error) => Err(error),
        },
        JoinConstraint::Unconstrained => Ok(crate::ast::JoinConstraint::Unconstrained),
        JoinConstraint::Natural => Ok(crate::ast::JoinConstraint::Natural),
        JoinConstraint::Using(columns) => Ok(crate::ast::JoinConstraint::Using(columns)),
    }
}

/// The first of the names that is one of the others.
pub open spec fn spec_first_shared(names: Seq<Seq<char>>, others: Seq<Seq<char>>, from: int) -> Option<
    Seq<char>,
>
    decreases names.len() - from,
{
    if from < 0 || from >= names.len() {
        None
    } else if others.contains(names[from]) {
        Some(names[from])
    } else {
        spec_first_shared(names, others, from + 1)
    }
}

/// Two sides put together by a join: a name by which the query knows a
/// table of the right side and of the left side too fails with
/// `DuplicateTableName`.
pub open spec fn spec_joined(
    left: TableJoinsView,
    right: TableJoinsView,
    operator: crate::ast::JoinOperator,
    constraint: JoinConstraintView,
) -> Result<TableJoinsView, ErrorView> {
    match spec_first_shared(spec_view_names(right), spec_view_names(left), 0) {
        Some(name) => Err(ErrorView::Execution(ExecutionErrorView::DuplicateTableName(name))),
        None => Ok(
            TableJoinsView::Join {
                left: Box::new(left),
                right: Box::new(right),
                operator,
                constraint,
            },
        ),
    }
}

/// The operator and the constraint of the engine for an operator of the
/// parser: a cross join is an inner join without a constraint.
pub open spec fn spec_parse_join_operator(operator: JoinOperator) -> Result<
    (crate::ast::JoinOperator, JoinConstraintView),
    ErrorView,
> {
    match operator {
        JoinOperator::Inner(c) => match spec_parse_join_constraint(c) {
            Ok(c) => Ok((crate::ast::JoinOperator::Inner, c)),
            Err(e) => Err(e),
        },
        JoinOperator::LeftOuter(c) => match spec_parse_join_constraint(c) {
            Ok(c) => Ok((crate::ast::JoinOperator::Left, c)),
            Err(e) => Err(e),
        },
        JoinOperator::RightOuter(c) => match spec_parse_join_constraint(c) {
            Ok(c) => Ok((crate::ast::JoinOperator::Right, c)),
            Err(e) => Err(e),
        },
        JoinOperator::CrossJoin => Ok(
            (crate::ast::JoinOperator::Inner, JoinConstraintView::Unconstrained),
        ),
    }
}

/// The tables of the engine for a table of the parser.
pub open spec fn spec_parse_table_factor(factor: TableFactor) -> Result<TableJoinsView, ErrorView>
    decreases factor, 0nat, 0nat,
{
    match factor {
        TableFactor::Table { name, alias } => Ok(
            TableJoinsView::Table { name: name@, alias: spec_optional_text(alias) },
        ),
        TableFactor::NestedJoin(join) => spec_parse_with_join(*join),
    }
}

/// The tables of the engine for a table with the tables joined to it:
/// each join in turn takes what comes before it as its left side.
pub open spec fn spec_parse_with_join(join: TableWithJoins) -> Result<TableJoinsView, ErrorView>
    decreases join, 0nat, 0nat,
{
    match spec_parse_table_factor(join.relation) {
        Err(e) => Err(e),
        Ok(left) => spec_parse_joins(left, join.joins, join.joins.len() as int),
    }
}

/// What comes before a join, joined to it.
pub open spec fn spec_add_join(before: TableJoinsView, join: Join) -> Result<
    TableJoinsView,
    ErrorView,
>
    decreases join, 0nat, 0nat,
{
    match spec_parse_table_factor(join.relation) {
        Err(e) => Err(e),
        Ok(right) => match spec_first_shared(spec_view_names(right), spec_view_names(before), 0) {
            Some(name) => Err(ErrorView::Execution(ExecutionErrorView::DuplicateTableName(name))),
            None => match spec_parse_join_operator(join.join_operator) {
                Err(e) => Err(e),
                Ok((operator, constraint)) => Ok(
                    TableJoinsView::Join {
                        left: Box::new(before),
                        right: Box::new(right),
                        operator,
                        constraint,
                    },
                ),
            },
        },
    }
}

/// What comes before the joins with the first `n` joins.
pub open spec fn spec_parse_joins(left: TableJoinsView, joins: Vec<Join>, n: int) -> Result<
    TableJoinsView,
    ErrorView,
>
    decreases joins, 1nat, n,
{
    if n <= 0 || n > joins.len() {
        Ok(left)
    } else {
        match spec_parse_joins(left, joins, n - 1) {
            Err(e) => Err(e),
            Ok(before) => spec_add_join(before, joins[n - 1]),
        }
    }
}

} // verus!

verus! {

/// What tables and their error look like from outside.
pub open spec fn spec_joins_result(result: Result<TableJoins, Error>) -> Result<
    TableJoinsView,
    ErrorView,
> {
    match result {
        Ok(j) => Ok(spec_joins_view(j)),
        Err(e) => Err(e@),
    }
}

fn first_shared(names: &Vec<String>, left: &TableJoins) -> (shared: Option<String>)
    ensures
        match shared {
            Some(name) => spec_first_shared(names.deep_view(), left.spec_table_names(), 0) == Some(
                name@,
            ),
            None => spec_first_shared(names.deep_view(), left.spec_table_names(), 0) is None,
        },
{
    let mut i: usize = 0;
    while i < names.len()
        invariant
            i <= names.len(),
            spec_first_shared(names.deep_view(), left.spec_table_names(), 0) == spec_first_shared(
                names.deep_view(),
                left.spec_table_names(),
                i as int,
            ),
        decreases names.len() - i,
    {
        assert(names.deep_view()[i as int] == names[i as int]@);
        if left.contains_table(names[i].as_str()) {
            return Some(names[i].clone());
        }
        i += 1;
    }
    None
}

fn join_sides(
    left: TableJoins,
    right: TableJoins,
    operator: crate::ast::JoinOperator,
    constraint: crate::ast::JoinConstraint,
) -> (result: Result<TableJoins, Error>)
    ensures
        spec_joins_result(result) == spec_joined(
            spec_joins_view(left),
            spec_joins_view(right),
            operator,
            spec_constraint_view(constraint),
        ),
{
    proof {
        lemma_view_names(left);
        lemma_view_names(right);
    }
    let names = right.table_names();
    match first_shared(&names, &left) {
        Some(name) => Err(Error::Execution(ExecutionError::DuplicateTableName(name))),
        None => Ok(
            TableJoins::Join { left: Box::new(left), right: Box::new(right), operator, constraint },
        ),
    }
}

fn parse_join_operator(operator: JoinOperator) -> (result: Result<
    (crate::ast::JoinOperator, crate::ast::JoinConstraint),
    Error,
>)
    ensures
        match result {
            Ok((op, c)) => spec_parse_join_operator(operator) == Ok::<
                (crate::ast::JoinOperator, JoinConstraintView),
                ErrorView,
            >((op, spec_constraint_view(c))),
            Err(e) => spec_parse_join_operator(operator) == Err::<
                (crate::ast::JoinOperator, JoinConstraintView),
                ErrorView,
            >(e@),
        },
{
    match operator {
        JoinOperator::Inner(c) => match parse_join_constraint(c) {
            Ok(c) => Ok((crate::ast::JoinOperator::Inner, c)),
            Err(e) => Err(e),
        },
        JoinOperator::LeftOuter(c) => match parse_join_constraint(c) {
            Ok(c) => Ok((crate::ast::JoinOperator::Left, c)),
            Err(e) => Err(e),
        },
        JoinOperator::RightOuter(c) => match parse_join_constraint(c) {
            Ok(c) => Ok((crate::ast::JoinOperator::Right, c)),
            Err(e) => Err(e),
        },
        JoinOperator::CrossJoin => Ok(
            (crate::ast::JoinOperator::Inner, crate::ast::JoinConstraint::Unconstrained),
        ),
    }
}

/// The tables of the engine for a table of the parser.
pub fn parse_table_factor(factor: TableFactor) -> (result: Result<TableJoins, Error>)
    ensures
        spec_joins_result(result) == spec_parse_table_factor(factor),
    decreases factor, 0nat, 0nat,
{
    match factor {
        TableFactor::Table { name, alias } => Ok(TableJoins::Table(TableName::new(name, alias))),
        TableFactor::NestedJoin(join) => parse_with_join(*join),
    }
}

/// Once a join fails, more joins do not change the error.
pub proof fn lemma_parse_joins_error(left: TableJoinsView, joins: Vec<Join>, from: int, to: int)
    requires
        0 <= from <= to <= joins.len(),
        spec_parse_joins(left, joins, from) is Err,
    ensures
        spec_parse_joins(left, joins, to) == spec_parse_joins(left, joins, from),
    decreases to - from,
{
    if from < to {
        lemma_parse_joins_error(left, joins, from, to - 1);
    }
}

/// What comes before a join, joined to it.
pub fn add_join(left: TableJoins, join: Join) -> (result: Result<TableJoins, Error>)
    ensures
        spec_joins_result(result) == spec_add_join(spec_joins_view(left), join),
    decreases join, 0nat, 0nat,
{
    let Join { relation, join_operator } = join;
    let right = match parse_table_factor(relation) {
        Ok(r) => r,
        Err(e) => {
            return Err(e);
        },
    };
    proof {
        lemma_view_names(left);
        lemma_view_names(right);
    }
    let names = right.table_names();
    match first_shared(&names, &left) {
        Some(name) => {
            return Err(Error::Execution(ExecutionError::DuplicateTableName(name)));
        },
        None => {},
    }
    let (operator, constraint) = match parse_join_operator(join_operator) {
        Ok(parsed) => parsed,
        Err(e) => {
            return Err(e);
        },
    };
    Ok(TableJoins::Join { left: Box::new(left), right: Box::new(right), operator, constraint })
}

/// The tables of the engine for a table with the tables joined to it.
#[verifier::loop_isolation(false)]
pub fn parse_with_join(join: TableWithJoins) -> (result: Result<TableJoins, Error>)
    ensures
        spec_joins_result(result) == spec_parse_with_join(join),
    decreases join, 0nat, 0nat,
{
    let ghost original = join;
    let TableWithJoins { relation, joins } = join;
    let mut left = match parse_table_factor(relation) {
        Ok(l) => l,
        Err(e) => {
            return Err(e);
        },
    };
    let ghost first = spec_joins_view(left);
    let ghost all = joins;
    let mut rest = joins;
    let n = rest.len();
    let mut i: usize = 0;
    proof {
        assert(rest@.skip(0) =~= rest@);
    }
    while i < n
        invariant
            i <= n,
            n == all.len(),
            rest@ == all@.skip(i as int),
            spec_parse_joins(first, all, i as int) == Ok::<TableJoinsView, ErrorView>(
                spec_joins_view(left),
            ),
        decreases n - i,
    {
        let next = rest.remove(0);
        proof {
            assert(next == all@[i as int]);
            assert(rest@ =~= all@.skip(i + 1));
        }
        left = match add_join(left, next) {
            Ok(joined) => joined,
            Err(e) => {
                proof {
                    lemma_parse_joins_error(first, all, i + 1, n as int);
                }
                return Err(e);
            },
        };
        i += 1;
    }
    Ok(left)
}

/// What comes before an item of a `FROM` clause, joined to it by an inner
/// join without a constraint.
pub open spec fn spec_add_item(before: Option<TableJoinsView>, item: TableWithJoins) -> Result<
    Option<TableJoinsView>,
    ErrorView,
> {
    match spec_parse_with_join(item) {
        Err(e) => Err(e),
        Ok(right) => match before {
            None => Ok(Some(right)),
            Some(left) => match spec_joined(
                left,
                right,
                crate::ast::JoinOperator::Inner,
                JoinConstraintView::Unconstrained,
            ) {
                Ok(joined) => Ok(Some(joined)),
                Err(e) => Err(e),
            },
        },
    }
}

/// The tables of a `FROM` clause with the first `n` of its items: the
/// items after the first are joined to what comes before them by inner
/// joins without constraints; no items give no tables.
pub open spec fn spec_parse_table_joins(from: Seq<TableWithJoins>, n: int) -> Result<
    Option<TableJoinsView>,
    ErrorView,
>
    decreases n,
{
    if n <= 0 {
        Ok(None)
    } else {
        match spec_parse_table_joins(from, n - 1) {
            Err(e) => Err(e),
            Ok(before) => spec_add_item(before, from[n - 1]),
        }
    }
}

/// Once an item fails, more items do not change the error.
pub proof fn lemma_parse_table_joins_error(from: Seq<TableWithJoins>, a: int, b: int)
    requires
        0 <= a <= b,
        spec_parse_table_joins(from, a) is Err,
    ensures
        spec_parse_table_joins(from, b) == spec_parse_table_joins(from, a),
    decreases b - a,
{
    if a < b {
        lemma_parse_table_joins_error(from, a, b - 1);
    }
}

/// What tables that may be missing hold.
pub open spec fn spec_optional_joins(joins: Option<TableJoins>) -> Option<TableJoinsView> {
    match joins {
        Some(j) => Some(spec_joins_view(j)),
        None => None,
    }
}

fn add_item(left: Option<TableJoins>, item: TableWithJoins) -> (result: Result<
    Option<TableJoins>,
    Error,
>)
    ensures
        match result {
            Ok(joins) => spec_add_item(spec_optional_joins(left), item) == Ok::<
                Option<TableJoinsView>,
                ErrorView,
            >(spec_optional_joins(joins)),
            Err(e) => spec_add_item(spec_optional_joins(left), item) == Err::<
                Option<TableJoinsView>,
                ErrorView,
            >(e@),
        },
{
    let right = match parse_with_join(item) {
        Ok(r) => r,
        Err(e) => {
            return Err(e);
        },
    };
    match left {
        None => Ok(Some(right)),
        Some(l) => match join_sides(
            l,
            right,
            crate::ast::JoinOperator::Inner,
            crate::ast::JoinConstraint::Unconstrained,
        ) {
            Ok(joined) => Ok(Some(joined)),
            Err(e) => Err(e),
        },
    }
}

/// The tables of a `FROM` clause.
#[verifier::loop_isolation(false)]
pub fn parse_table_joins(from: Vec<TableWithJoins>) -> (result: Result<Option<TableJoins>, Error>)
    ensures
        match result {
            Ok(joins) => spec_parse_table_joins(from@, from.len() as int) == Ok::<
                Option<TableJoinsView>,
                ErrorView,
            >(spec_optional_joins(joins)),
            Err(e) => spec_parse_table_joins(from@, from.len() as int) == Err::<
                Option<TableJoinsView>,
                ErrorView,
            >(e@),
        },
{
    let ghost all = from@;
    let mut rest = from;
    let n = rest.len();
    let mut left: Option<TableJoins> = None;
    let mut i: usize = 0;
    proof {
        assert(rest@.skip(0) =~= rest@);
    }
    while i < n
        invariant
            i <= n,
            n == all.len(),
            rest@ == all.skip(i as int),
            spec_parse_table_joins(all, i as int) == Ok::<Option<TableJoinsView>, ErrorView>(
                spec_optional_joins(left),
            ),
        decreases n - i,
    {
        let next = rest.remove(0);
        proof {
            assert(next == all[i as int]);
            assert(rest@ =~= all.skip(i + 1));
        }
        left = match add_item(left, next) {
            Ok(joined) => joined,
            Err(e) => {
                proof {
                    lemma_parse_table_joins_error(all, i + 1, n as int);
                }
                return Err(e);
            },
        };
        i += 1;
    }
    Ok(left)
}

} // verus!

verus! {

// ---------------------------------------------------------------------------
// Lists in which the first failure wins
// ---------------------------------------------------------------------------

/// What `f` makes of the first `n` items, in order; the first item that
/// fails gives its error.
pub open spec fn spec_try_map<A, B>(
    items: Seq<A>,
    f: spec_fn(A) -> Result<B, ErrorView>,
    n: int,
) -> Result<Seq<B>, ErrorView>
    decreases n,
{
    if n <= 0 {
        Ok(Seq::empty())
    } else {
        match spec_try_map(items, f, n - 1) {
            Err(e) => Err(e),
            Ok(before) => match f(items[n - 1]) {
                Err(e) => Err(e),
                Ok(b) => Ok(before.push(b)),
            },
        }
    }
}

/// Once an item fails, more items do not change the error.
pub proof fn lemma_try_map_error<A, B>(
    items: Seq<A>,
    f: spec_fn(A) -> Result<B, ErrorView>,
    a: int,
    b: int,
)
    requires
        0 <= a <= b,
        spec_try_map(items, f, a) is Err,
    ensures
        spec_try_map(items, f, b) == spec_try_map(items, f, a),
    decreases b - a,
{
    if a < b {
        lemma_try_map_error(items, f, a, b - 1);
    }
}

/// The conversion of expressions, as a function.
pub open spec fn spec_expression_parser() -> spec_fn(Expr) -> Result<
    UnresolvedExpressionView,
    ErrorView,
> {
    |e: Expr| spec_parse_expression(e)
}

/// What a list of expressions holds.
pub open spec fn spec_expressions_view(expressions: Seq<UnresolvedExpression>) -> Seq<
    UnresolvedExpressionView,
> {
    expressions.map_values(|e: UnresolvedExpression| e@)
}

/// The expressions of the engine for a list of expressions of the parser.
#[verifier::loop_isolation(false)]
pub fn parse_expressions(expressions: Vec<Expr>) -> (result: Result<
    Vec<UnresolvedExpression>,
    Error,
>)
    ensures
        match result {
            Ok(parsed) => spec_try_map(
                expressions@,
                spec_expression_parser(),
                expressions.len() as int,
            ) == Ok::<Seq<UnresolvedExpressionView>, ErrorView>(spec_expressions_view(parsed@)),
            Err(e) => spec_try_map(
                expressions@,
                spec_expression_parser(),
                expressions.len() as int,
            ) == Err::<Seq<UnresolvedExpressionView>, ErrorView>(e@),
        },
{
    let ghost all = expressions@;
    let mut rest = expressions;
    let n = rest.len();
    let mut parsed: Vec<UnresolvedExpression> = Vec::new();
    let mut i: usize = 0;
    proof {
        assert(rest@.skip(0) =~= rest@);
        assert(spec_expressions_view(parsed@) =~= Seq::empty());
    }
    while i < n
        invariant
            i <= n,
            n == all.len(),
            rest@ == all.skip(i as int),
            spec_try_map(all, spec_expression_parser(), i as int) == Ok::<
                Seq<UnresolvedExpressionView>,
                ErrorView,
            >(spec_expressions_view(parsed@)),
        decreases n - i,
    {
        let next = rest.remove(0);
        let ghost before = parsed@;
        proof {
            assert(next == all[i as int]);
            assert(rest@ =~= all.skip(i + 1));
        }
        match parse_expression(next) {
            Ok(e) => {
                parsed.push(e);
                proof {
                    assert(spec_expressions_view(parsed@) =~= spec_expressions_view(before).push(
                        e@,
                    ));
                }
            },
            Err(e) => {
                proof {
                    lemma_try_map_error(all, spec_expression_parser(), i + 1, n as int);
                }
                return Err(e);
            },
        }
        i += 1;
    }
    Ok(parsed)
}

/// The expression of the engine for an expression that may be missing.
pub open spec fn spec_parse_optional(expression: Option<Expr>) -> Result<
    Option<UnresolvedExpressionView>,
    ErrorView,
> {
    match expression {
        None => Ok(None),
        Some(e) => match spec_parse_expression(e) {
            Ok(parsed) => Ok(Some(parsed)),
            Err(e) => Err(e),
        },
    }
}

/// What an expression that may be missing holds.
pub open spec fn spec_optional_view(expression: Option<UnresolvedExpression>) -> Option<
    UnresolvedExpressionView,
> {
    match expression {
        None => None,
        Some(e) => Some(e@),
    }
}

/// The expression of the engine for an expression that may be missing.
pub fn parse_optional(expression: Option<Expr>) -> (result: Result<
    Option<UnresolvedExpression>,
    Error,
>)
    ensures
        match result {
            Ok(parsed) => spec_parse_optional(expression) == Ok::<
                Option<UnresolvedExpressionView>,
                ErrorView,
            >(spec_optional_view(parsed)),
            Err(e) => spec_parse_optional(expression) == Err::<
                Option<UnresolvedExpressionView>,
                ErrorView,
            >(e@),
        },
{
    match expression {
        None => Ok(None),
        Some(e) => match parse_expression(e) {
            Ok(parsed) => Ok(Some(parsed)),
            Err(e) => Err(e),
        },
    }
}

// ---------------------------------------------------------------------------
// SELECT and VALUES
// ---------------------------------------------------------------------------

/// What one key of an `ORDER BY` holds.
pub struct OrderByView {
    pub expression: UnresolvedExpressionView,
    pub direction: OrderByDirection,
    pub nulls_first: bool,
}

/// What one key of an `ORDER BY` holds.
pub open spec fn spec_order_view(order: OrderBy) -> OrderByView {
    OrderByView {
        expression: order.expression@,
        direction: order.direction,
        nulls_first: order.nulls_first,
    }
}

/// The key of the engine for a key of the parser: rising unless the
/// statement says falling, nulls last unless it says first.
pub open spec fn spec_parse_order_by(order: OrderByExpr) -> Result<OrderByView, ErrorView> {
    match spec_parse_expression(order.expr) {
        Err(e) => Err(e),
        Ok(expression) => Ok(
            OrderByView {
                expression,
                direction: if order.asc == Some(false) {
                    OrderByDirection::Descending
                } else {
                    OrderByDirection::Ascending
                },
                nulls_first: order.nulls_first == Some(true),
            },
        ),
    }
}

/// The key of the engine for a key of the parser.
pub fn parse_order_by(order: OrderByExpr) -> (result: Result<OrderBy, Error>)
    ensures
        match result {
            Ok(parsed) => spec_parse_order_by(order) == Ok::<OrderByView, ErrorView>(
                spec_order_view(parsed),
            ),
            Err(e) => spec_parse_order_by(order) == Err::<OrderByView, ErrorView>(e@),
        },
{
    let OrderByExpr { expr, asc, nulls_first } = order;
    let expression = match parse_expression(expr) {
        Ok(e) => e,
        Err(e) => {
            return Err(e);
        },
    };
    let direction = match asc {
        Some(false) => OrderByDirection::Descending,
        _ => OrderByDirection::Ascending,
    };
    let first = match nulls_first {
        Some(true) => true,
        _ => false,
    };
    Ok(OrderBy::new(expression, direction, first))
}

/// What one item of what a `SELECT` shows holds.
pub enum ProjectionView {
    Wildcard,
    QualifiedWildcard(Seq<char>),
    Unaliased(UnresolvedExpressionView),
    Aliased(UnresolvedExpressionView, Seq<char>),
}

/// What one item of what a `SELECT` shows holds.
pub open spec fn spec_projection_view(projection: Projection) -> ProjectionView {
    match projection {
        Projection::Wildcard => ProjectionView::Wildcard,
        Projection::QualifiedWildcard(t) => ProjectionView::QualifiedWildcard(t@),
        Projection::Unaliased(e) => ProjectionView::Unaliased(e@),
        Projection::Aliased(e, a) => ProjectionView::Aliased(e@, a@),
    }
}

/// The item of the engine for an item of the parser.
pub open spec fn spec_parse_projection(item: SelectItem) -> Result<ProjectionView, ErrorView> {
    match item {
        SelectItem::Wildcard => Ok(ProjectionView::Wildcard),
        SelectItem::QualifiedWildcard(t) => Ok(ProjectionView::QualifiedWildcard(t@)),
        SelectItem::UnnamedExpr(e) => match spec_parse_expression(e) {
            Ok(parsed) => Ok(ProjectionView::Unaliased(parsed)),
            Err(e) => Err(e),
        },
        SelectItem::ExprWithAlias { expr, alias } => match spec_parse_expression(expr) {
            Ok(parsed) => Ok(ProjectionView::Aliased(parsed, alias@)),
            Err(e) => Err(e),
        },
    }
}

/// The item of the engine for an item of the parser.
pub fn parse_projection(item: SelectItem) -> (result: Result<Projection, Error>)
    ensures
        match result {
            Ok(parsed) => spec_parse_projection(item) == Ok::<ProjectionView, ErrorView>(
                spec_projection_view(parsed),
            ),
            Err(e) => spec_parse_projection(item) == Err::<ProjectionView, ErrorView>(e@),
        },
{
    match item {
        SelectItem::Wildcard => Ok(Projection::Wildcard),
        SelectItem::QualifiedWildcard(t) => Ok(Projection::QualifiedWildcard(t)),
        SelectItem::UnnamedExpr(e) => match parse_expression(e) {
            Ok(parsed) => Ok(Projection::Unaliased(parsed)),
            Err(e) => Err(e),
        },
        SelectItem::ExprWithAlias { expr, alias } => match parse_expression(expr) {
            Ok(parsed) => Ok(Projection::Aliased(parsed, alias)),
            Err(e) => Err(e),
        },
    }
}

/// The conversion of the items that a `SELECT` shows, as a function.
pub open spec fn spec_projection_parser() -> spec_fn(SelectItem) -> Result<
    ProjectionView,
    ErrorView,
> {
    |item: SelectItem| spec_parse_projection(item)
}

/// The conversion of the keys of an `ORDER BY`, as a function.
pub open spec fn spec_order_parser() -> spec_fn(OrderByExpr) -> Result<OrderByView, ErrorView> {
    |order: OrderByExpr| spec_parse_order_by(order)
}

/// The conversion of rows of expressions, as a function.
pub open spec fn spec_row_parser() -> spec_fn(Vec<Expr>) -> Result<
    Seq<UnresolvedExpressionView>,
    ErrorView,
> {
    |row: Vec<Expr>| spec_try_map(row@, spec_expression_parser(), row.len() as int)
}

/// What a list of items that a `SELECT` shows holds.
pub open spec fn spec_projections_view(projections: Seq<Projection>) -> Seq<ProjectionView> {
    projections.map_values(|p: Projection| spec_projection_view(p))
}

/// What a list of keys of an `ORDER BY` holds.
pub open spec fn spec_orders_view(orders: Seq<OrderBy>) -> Seq<OrderByView> {
    orders.map_values(|o: OrderBy| spec_order_view(o))
}

/// What literal rows hold.
pub open spec fn spec_rows_view(rows: Seq<Vec<UnresolvedExpression>>) -> Seq<
    Seq<UnresolvedExpressionView>,
> {
    rows.map_values(|row: Vec<UnresolvedExpression>| spec_expressions_view(row@))
}

/// The items of the engine for the items that a `SELECT` shows.
#[verifier::loop_isolation(false)]
pub fn parse_projections(items: Vec<SelectItem>) -> (result: Result<Vec<Projection>, Error>)
    ensures
        match result {
            Ok(parsed) => spec_try_map(items@, spec_projection_parser(), items.len() as int)
                == Ok::<Seq<ProjectionView>, ErrorView>(spec_projections_view(parsed@)),
            Err(e) => spec_try_map(items@, spec_projection_parser(), items.len() as int) == Err::<
                Seq<ProjectionView>,
                ErrorView,
            >(e@),
        },
{
    let ghost all = items@;
    let mut rest = items;
    let n = rest.len();
    let mut parsed: Vec<Projection> = Vec::new();
    let mut i: usize = 0;
    proof {
        assert(rest@.skip(0) =~= rest@);
        assert(spec_projections_view(parsed@) =~= Seq::empty());
    }
    while i < n
        invariant
            i <= n,
            n == all.len(),
            rest@ == all.skip(i as int),
            spec_try_map(all, spec_projection_parser(), i as int) == Ok::<
                Seq<ProjectionView>,
                ErrorView,
            >(spec_projections_view(parsed@)),
        decreases n - i,
    {
        let next = rest.remove(0);
        let ghost before = parsed@;
        proof {
            assert(next == all[i as int]);
            assert(rest@ =~= all.skip(i + 1));
        }
        match parse_projection(next) {
            Ok(p) => {
                parsed.push(p);
                proof {
                    assert(spec_projections_view(parsed@) =~= spec_projections_view(before).push(
                        spec_projection_view(p),
                    ));
                }
            },
            Err(e) => {
                proof {
                    lemma_try_map_error(all, spec_projection_parser(), i + 1, n as int);
                }
                return Err(e);
            },
        }
        i += 1;
    }
    Ok(parsed)
}

/// The keys of the engine for the keys of an `ORDER BY`.
#[verifier::loop_isolation(false)]
pub fn parse_orders(orders: Vec<OrderByExpr>) -> (result: Result<Vec<OrderBy>, Error>)
    ensures
        match result {
            Ok(parsed) => spec_try_map(orders@, spec_order_parser(), orders.len() as int) == Ok::<
                Seq<OrderByView>,
                ErrorView,
            >(spec_orders_view(parsed@)),
            Err(e) => spec_try_map(orders@, spec_order_parser(), orders.len() as int) == Err::<
                Seq<OrderByView>,
                ErrorView,
            >(e@),
        },
{
    let ghost all = orders@;
    let mut rest = orders;
    let n = rest.len();
    let mut parsed: Vec<OrderBy> = Vec::new();
    let mut i: usize = 0;
    proof {
        assert(rest@.skip(0) =~= rest@);
        assert(spec_orders_view(parsed@) =~= Seq::empty());
    }
    while i < n
        invariant
            i <= n,
            n == all.len(),
            rest@ == all.skip(i as int),
            spec_try_map(all, spec_order_parser(), i as int) == Ok::<Seq<OrderByView>, ErrorView>(
                spec_orders_view(parsed@),
            ),
        decreases n - i,
    {
        let next = rest.remove(0);
        let ghost before = parsed@;
        proof {
            assert(next == all[i as int]);
            assert(rest@ =~= all.skip(i + 1));
        }
        match parse_order_by(next) {
            Ok(o) => {
                parsed.push(o);
                proof {
                    assert(spec_orders_view(parsed@) =~= spec_orders_view(before).push(
                        spec_order_view(o),
                    ));
                }
            },
            Err(e) => {
                proof {
                    lemma_try_map_error(all, spec_order_parser(), i + 1, n as int);
                }
                return Err(e);
            },
        }
        i += 1;
    }
    Ok(parsed)
}

/// The rows of the engine for literal rows of the parser.
#[verifier::loop_isolation(false)]
pub fn parse_rows(rows: Vec<Vec<Expr>>) -> (result: Result<Vec<Vec<UnresolvedExpression>>, Error>)
    ensures
        match result {
            Ok(parsed) => spec_try_map(rows@, spec_row_parser(), rows.len() as int) == Ok::<
                Seq<Seq<UnresolvedExpressionView>>,
                ErrorView,
            >(spec_rows_view(parsed@)),
            Err(e) => spec_try_map(rows@, spec_row_parser(), rows.len() as int) == Err::<
                Seq<Seq<UnresolvedExpressionView>>,
                ErrorView,
            >(e@),
        },
{
    let ghost all = rows@;
    let mut rest = rows;
    let n = rest.len();
    let mut parsed: Vec<Vec<UnresolvedExpression>> = Vec::new();
    let mut i: usize = 0;
    proof {
        assert(rest@.skip(0) =~= rest@);
        assert(spec_rows_view(parsed@) =~= Seq::empty());
    }
    while i < n
        invariant
            i <= n,
            n == all.len(),
            rest@ == all.skip(i as int),
            spec_try_map(all, spec_row_parser(), i as int) == Ok::<
                Seq<Seq<UnresolvedExpressionView>>,
                ErrorView,
            >(spec_rows_view(parsed@)),
        decreases n - i,
    {
        let next = rest.remove(0);
        let ghost before = parsed@;
        proof {
            assert(next == all[i as int]);
            assert(rest@ =~= all.skip(i + 1));
        }
        match parse_expressions(next) {
            Ok(row) => {
                parsed.push(row);
                proof {
                    assert(spec_rows_view(parsed@) =~= spec_rows_view(before).push(
                        spec_expressions_view(row@),
                    ));
                }
            },
            Err(e) => {
                proof {
                    lemma_try_map_error(all, spec_row_parser(), i + 1, n as int);
                }
                return Err(e);
            },
        }
        i += 1;
    }
    Ok(parsed)
}

/// What a `SELECT` holds.
pub struct SelectView {
    pub projections: Seq<ProjectionView>,
    pub from: Option<TableJoinsView>,
    pub selection: Option<UnresolvedExpressionView>,
    pub order_by: Seq<OrderByView>,
}

/// What a query that yields rows holds.
pub enum SelectQueryView {
    Values(Seq<Seq<UnresolvedExpressionView>>),
    Select(SelectView),
}

/// What a `SELECT` holds.
pub open spec fn spec_select_view(select: SelectContents) -> SelectView {
    SelectView {
        projections: spec_projections_view(select.projections@),
        from: spec_optional_joins(select.from),
        selection: spec_optional_view(select.selection),
        order_by: spec_orders_view(select.order_by@),
    }
}

/// What a query that yields rows holds.
pub open spec fn spec_select_query_view(query: SelectQuery) -> SelectQueryView {
    match query {
        SelectQuery::Values(v) => SelectQueryView::Values(spec_rows_view(v.rows@)),
        SelectQuery::Select(s) => SelectQueryView::Select(spec_select_view(s)),
    }
}

/// The `SELECT` of the engine for a `SELECT` of the parser and the keys of
/// its `ORDER BY`. The parts are converted in the order in which they are
/// written down here, and the first that fails gives its error.
pub open spec fn spec_parse_select(select: Select, order_by: Vec<OrderByExpr>) -> Result<
    SelectView,
    ErrorView,
> {
    match spec_try_map(
        select.projection@,
        spec_projection_parser(),
        select.projection.len() as int,
    ) {
        Err(e) => Err(e),
        Ok(projections) => match spec_parse_table_joins(select.from@, select.from.len() as int) {
            Err(e) => Err(e),
            Ok(from) => match spec_parse_optional(select.selection) {
                Err(e) => Err(e),
                Ok(selection) => match spec_try_map(
                    order_by@,
                    spec_order_parser(),
                    order_by.len() as int,
                ) {
                    Err(e) => Err(e),
                    Ok(orders) => Ok(
                        SelectView { projections, from, selection, order_by: orders },
                    ),
                },
            },
        },
    }
}

/// The `SELECT` of the engine for a `SELECT` of the parser.
pub fn parse_select(select: Select, order_by: Vec<OrderByExpr>) -> (result: Result<
    SelectContents,
    Error,
>)
    ensures
        match result {
            Ok(parsed) => spec_parse_select(select, order_by) == Ok::<SelectView, ErrorView>(
                spec_select_view(parsed),
            ),
            Err(e) => spec_parse_select(select, order_by) == Err::<SelectView, ErrorView>(e@),
        },
{
    let Select { projection, from, selection } = select;
    let projections = match parse_projections(projection) {
        Ok(p) => p,
        Err(e) => {
            return Err(e);
        },
    };
    let tables = match parse_table_joins(from) {
        Ok(t) => t,
        Err(e) => {
            return Err(e);
        },
    };
    let filter = match parse_optional(selection) {
        Ok(f) => f,
        Err(e) => {
            return Err(e);
        },
    };
    let orders = match parse_orders(order_by) {
        Ok(o) => o,
        Err(e) => {
            return Err(e);
        },
    };
    Ok(SelectContents::new(projections, tables, filter, orders))
}

/// The query of the engine for a query of the parser.
pub open spec fn spec_parse_select_query(query: Query) -> Result<SelectQueryView, ErrorView> {
    match query.body {
        SetExpr::Values(rows) => match spec_try_map(
            rows@,
            spec_row_parser(),
            rows.len() as int,
        ) {
            Ok(parsed) => Ok(SelectQueryView::Values(parsed)),
            Err(e) => Err(e),
        },
        SetExpr::Select(select) => match spec_parse_select(select, query.order_by) {
            Ok(parsed) => Ok(SelectQueryView::Select(parsed)),
            Err(e) => Err(e),
        },
    }
}

/// The query of the engine for a query of the parser.
pub fn parse_select_query(query: Query) -> (result: Result<SelectQuery, Error>)
    ensures
        match result {
            Ok(parsed) => spec_parse_select_query(query) == Ok::<SelectQueryView, ErrorView>(
                spec_select_query_view(parsed),
            ),
            Err(e) => spec_parse_select_query(query) == Err::<SelectQueryView, ErrorView>(e@),
        },
{
    let Query { body, order_by } = query;
    match body {
        SetExpr::Values(rows) => match parse_rows(rows) {
            Ok(parsed) => Ok(SelectQuery::Values(Values::new(parsed))),
            Err(e) => Err(e),
        },
        SetExpr::Select(select) => match parse_select(select, order_by) {
            Ok(parsed) => Ok(SelectQuery::Select(parsed)),
            Err(e) => Err(e),
        },
    }
}

} // verus!

verus! {

// ---------------------------------------------------------------------------
// INSERT, UPDATE, DELETE, DROP TABLE
// ---------------------------------------------------------------------------

/// What an `INSERT` holds.
pub struct InsertView {
    pub table: Seq<char>,
    pub columns: Option<Seq<Seq<char>>>,
    pub values: SelectQueryView,
}

/// What a list of names that may be missing holds.
pub open spec fn spec_optional_names(names: Option<Vec<String>>) -> Option<Seq<Seq<char>>> {
    match names {
        None => None,
        Some(n) => Some(n.deep_view()),
    }
}

/// What an `INSERT` holds.
pub open spec fn spec_insert_view(insert: Insert) -> InsertView {
    InsertView {
        table: insert.table.name@,
        columns: spec_optional_names(insert.columns),
        values: spec_select_query_view(insert.values),
    }
}

/// The `INSERT` of the engine for the parts that the parser gives: no names
/// of columns stand for every column of the table.
pub open spec fn spec_parse_insert(table_name: String, columns: Vec<String>, source: Query) -> Result<
    InsertView,
    ErrorView,
> {
    match spec_parse_select_query(source) {
        Err(e) => Err(e),
        Ok(values) => Ok(
            InsertView {
                table: table_name@,
                columns: if columns.len() == 0 {
                    None
                } else {
                    Some(columns.deep_view())
                },
                values,
            },
        ),
    }
}

/// The `INSERT` of the engine for the parts that the parser gives.
pub fn parse_insert(table_name: String, columns: Vec<String>, source: Query) -> (result: Result<
    Insert,
    Error,
>)
    ensures
        match result {
            Ok(parsed) => spec_parse_insert(table_name, columns, source) == Ok::<
                InsertView,
                ErrorView,
            >(spec_insert_view(parsed)),
            Err(e) => spec_parse_insert(table_name, columns, source) == Err::<
                InsertView,
                ErrorView,
            >(e@),
        },
{
    let names = if columns.len() == 0 {
        None
    } else {
        Some(columns)
    };
    match parse_select_query(source) {
        Ok(values) => Ok(Insert::new(table_name, names, values)),
        Err(e) => Err(e),
    }
}

/// One new value of an `UPDATE` as the parser gives it.
#[derive(Debug)]
pub struct Assignment {
    pub id: String,
    pub value: Expr,
}

/// The new value of the engine for a new value of the parser.
pub open spec fn spec_parse_assignment(assignment: Assignment) -> Result<
    (Seq<char>, UnresolvedExpressionView),
    ErrorView,
> {
    match spec_parse_expression(assignment.value) {
        Ok(value) => Ok((assignment.id@, value)),
        Err(e) => Err(e),
    }
}

/// The conversion of the new values of an `UPDATE`, as a function.
pub open spec fn spec_assignment_parser() -> spec_fn(Assignment) -> Result<
    (Seq<char>, UnresolvedExpressionView),
    ErrorView,
> {
    |assignment: Assignment| spec_parse_assignment(assignment)
}

/// What the new values of an `UPDATE` hold.
pub open spec fn spec_assignments_view(assignments: Seq<(String, UnresolvedExpression)>) -> Seq<
    (Seq<char>, UnresolvedExpressionView),
> {
    assignments.map_values(|a: (String, UnresolvedExpression)| (a.0@, a.1@))
}

/// The new values of the engine for the new values of the parser.
#[verifier::loop_isolation(false)]
pub fn parse_assignments(assignments: Vec<Assignment>) -> (result: Result<
    Vec<(String, UnresolvedExpression)>,
    Error,
>)
    ensures
        match result {
            Ok(parsed) => spec_try_map(
                assignments@,
                spec_assignment_parser(),
                assignments.len() as int,
            ) == Ok::<Seq<(Seq<char>, UnresolvedExpressionView)>, ErrorView>(
                spec_assignments_view(parsed@),
            ),
            Err(e) => spec_try_map(
                assignments@,
                spec_assignment_parser(),
                assignments.len() as int,
            ) == Err::<Seq<(Seq<char>, UnresolvedExpressionView)>, ErrorView>(e@),
        },
{
    let ghost all = assignments@;
    let mut rest = assignments;
    let n = rest.len();
    let mut parsed: Vec<(String, UnresolvedExpression)> = Vec::new();
    let mut i: usize = 0;
    proof {
        assert(rest@.skip(0) =~= rest@);
        assert(spec_assignments_view(parsed@) =~= Seq::empty());
    }
    while i < n
        invariant
            i <= n,
            n == all.len(),
            rest@ == all.skip(i as int),
            spec_try_map(all, spec_assignment_parser(), i as int) == Ok::<
                Seq<(Seq<char>, UnresolvedExpressionView)>,
                ErrorView,
            >(spec_assignments_view(parsed@)),
        decreases n - i,
    {
        let next = rest.remove(0);
        let ghost before = parsed@;
        proof {
            assert(next == all[i as int]);
            assert(rest@ =~= all.skip(i + 1));
        }
        let Assignment { id, value } = next;
        match parse_expression(value) {
            Ok(e) => {
                parsed.push((id, e));
                proof {
                    assert(spec_assignments_view(parsed@) =~= spec_assignments_view(before).push(
                        (id@, e@),
                    ));
                }
            },
            Err(e) => {
                proof {
                    lemma_try_map_error(all, spec_assignment_parser(), i + 1, n as int);
                }
                return Err(e);
            },
        }
        i += 1;
    }
    Ok(parsed)
}

/// What an `UPDATE` holds.
pub struct UpdateView {
    pub table_name: Seq<char>,
    pub assignments: Seq<(Seq<char>, UnresolvedExpressionView)>,
    pub filter: Option<UnresolvedExpressionView>,
}

/// What an `UPDATE` holds.
pub open spec fn spec_update_view(update: Update) -> UpdateView {
    UpdateView {
        table_name: update.table_name@,
        assignments: spec_assignments_view(update.assignments@),
        filter: spec_optional_view(update.filter),
    }
}

/// The `UPDATE` of the engine for the parts that the parser gives.
pub open spec fn spec_parse_update(
    name: String,
    assignments: Vec<Assignment>,
    selection: Option<Expr>,
) -> Result<UpdateView, ErrorView> {
    match spec_try_map(assignments@, spec_assignment_parser(), assignments.len() as int) {
        Err(e) => Err(e),
        Ok(parsed) => match spec_parse_optional(selection) {
            Err(e) => Err(e),
            Ok(filter) => Ok(UpdateView { table_name: name@, assignments: parsed, filter }),
        },
    }
}

/// The `UPDATE` of the engine for the parts that the parser gives.
pub fn parse_update(name: String, assignments: Vec<Assignment>, selection: Option<Expr>) -> (result:
    Result<Update, Error>)
    ensures
        match result {
            Ok(parsed) => spec_parse_update(name, assignments, selection) == Ok::<
                UpdateView,
                ErrorView,
            >(spec_update_view(parsed)),
            Err(e) => spec_parse_update(name, assignments, selection) == Err::<
                UpdateView,
                ErrorView,
            >(e@),
        },
{
    let parsed = match parse_assignments(assignments) {
        Ok(p) => p,
        Err(e) => {
            return Err(e);
        },
    };
    match parse_optional(selection) {
        Ok(filter) => Ok(Update::new(name, parsed, filter)),
        Err(e) => Err(e),
    }
}

/// What a `DELETE` holds.
pub struct DeleteView {
    pub table_name: Seq<char>,
    pub predicate: Option<UnresolvedExpressionView>,
}

/// What a `DELETE` holds.
pub open spec fn spec_delete_view(delete: Delete) -> DeleteView {
    DeleteView { table_name: delete.table_name@, predicate: spec_optional_view(delete.predicate) }
}

/// The `DELETE` of the engine for the parts that the parser gives.
pub open spec fn spec_parse_delete(table_name: String, selection: Option<Expr>) -> Result<
    DeleteView,
    ErrorView,
> {
    match spec_parse_optional(selection) {
        Err(e) => Err(e),
        Ok(predicate) => Ok(DeleteView { table_name: table_name@, predicate }),
    }
}

/// The `DELETE` of the engine for the parts that the parser gives.
pub fn parse_delete(table_name: String, selection: Option<Expr>) -> (result: Result<Delete, Error>)
    ensures
        match result {
            Ok(parsed) => spec_parse_delete(table_name, selection) == Ok::<DeleteView, ErrorView>(
                spec_delete_view(parsed),
            ),
            Err(e) => spec_parse_delete(table_name, selection) == Err::<DeleteView, ErrorView>(e@),
        },
{
    match parse_optional(selection) {
        Ok(predicate) => Ok(Delete::new(table_name, predicate)),
        Err(e) => Err(e),
    }
}

/// The `DROP TABLE` of the engine for the parts that the parser gives.
pub fn parse_drop(if_exists: bool, names: Vec<String>) -> (statement: DropTable)
    ensures
        statement.if_exists == if_exists,
        statement.names == names,
{
    DropTable::new(if_exists, names)
}

} // verus!

verus! {

// ---------------------------------------------------------------------------
// CREATE TABLE
// ---------------------------------------------------------------------------

/// The type of a column as the parser gives it.
#[derive(Debug, Clone, Copy, PartialEq, Eq, Structural)]
pub enum DataType {
    String,
    Int,
}

/// What a statement asks for a referring row when the row it refers to
/// goes or changes.
#[derive(Debug, Clone, Copy, PartialEq, Eq, Structural)]
pub enum ReferentialAction {
    Restrict,
    Cascade,
    SetNull,
    NoAction,
    SetDefault,
}

/// One thing that a statement says of a column.
#[derive(Debug)]
pub enum ColumnOption {
    Default(Expr),
    NotNull,
    Unique { is_primary: bool },
    ForeignKey {
        foreign_table: String,
        referred_columns: Vec<String>,
        on_delete: Option<ReferentialAction>,
        on_update: Option<ReferentialAction>,
    },
    Check(Expr),
}

/// One thing that a statement says of a column, with the name it gives to
/// it, if any.
#[derive(Debug)]
pub struct ColumnOptionDef {
    pub name: Option<String>,
    pub option: ColumnOption,
}

/// A column of a new table as the parser gives it.
#[derive(Debug)]
pub struct ColumnDef {
    pub name: String,
    pub data_type: DataType,
    pub options: Vec<ColumnOptionDef>,
}

/// A constraint of a new table, written after its columns.
#[derive(Debug)]
pub enum TableConstraint {
    Unique { name: Option<String>, columns: Vec<String>, is_primary: bool },
    ForeignKey {
        name: Option<String>,
        columns: Vec<String>,
        foreign_table: String,
        referred_columns: Vec<String>,
        on_delete: Option<ReferentialAction>,
        on_update: Option<ReferentialAction>,
    },
    Check { name: Option<String>, expr: Expr },
}

/// The type of the engine for a type of the parser.
pub open spec fn spec_data_type(t: DataType) -> Type {
    match t {
        DataType::String => Type::String,
        DataType::Int => Type::Integer,
    }
}

/// The type of the engine for a type of the parser.
pub fn convert_data_type(t: DataType) -> (converted: Type)
    ensures
        converted == spec_data_type(t),
{
    match t {
        DataType::String => Type::String,
        DataType::Int => Type::Integer,
    }
}

/// The action of the engine for an action of a statement: to restrict is
/// to take no action.
pub open spec fn spec_action(action: ReferentialAction) -> ForeignKeyAction {
    match action {
        ReferentialAction::Restrict => ForeignKeyAction::NoAction,
        ReferentialAction::NoAction => ForeignKeyAction::NoAction,
        ReferentialAction::Cascade => ForeignKeyAction::Cascade,
        ReferentialAction::SetNull => ForeignKeyAction::SetNull,
        ReferentialAction::SetDefault => ForeignKeyAction::SetDefault,
    }
}

/// The action of the engine for an action of a statement.
pub fn parse_foreign_key_action(action: ReferentialAction) -> (converted: ForeignKeyAction)
    ensures
        converted == spec_action(action),
{
    match action {
        ReferentialAction::Restrict => ForeignKeyAction::NoAction,
        ReferentialAction::NoAction => ForeignKeyAction::NoAction,
        ReferentialAction::Cascade => ForeignKeyAction::Cascade,
        ReferentialAction::SetNull => ForeignKeyAction::SetNull,
        ReferentialAction::SetDefault => ForeignKeyAction::SetDefault,
    }
}

/// The action of the engine for an action that a statement may leave out.
pub open spec fn spec_optional_action(action: Option<ReferentialAction>) -> Option<
    ForeignKeyAction,
> {
    match action {
        None => None,
        Some(a) => Some(spec_action(a)),
    }
}

fn optional_action(action: Option<ReferentialAction>) -> (converted: Option<ForeignKeyAction>)
    ensures
        converted == spec_optional_action(action),
{
    match action {
        None => None,
        Some(a) => Some(parse_foreign_key_action(a)),
    }
}

/// What a foreign key of a statement holds.
pub struct ForeignKeyView {
    pub name: Seq<char>,
    pub columns: Seq<Seq<char>>,
    pub foreign_table: Seq<char>,
    pub referred_columns: Seq<Seq<char>>,
    pub on_delete: Option<ForeignKeyAction>,
    pub on_update: Option<ForeignKeyAction>,
}

/// What a column of a new table holds.
pub struct ColumnView {
    pub name: Seq<char>,
    pub data_type: Type,
    pub default: Option<UnresolvedExpressionView>,
    pub not_null: bool,
}

/// What the constraints gathered from a statement hold, with the number of
/// checks that the statement gave no name.
pub struct ConstraintsView {
    pub uniques: Seq<(Seq<usize>, Seq<char>)>,
    pub primary_key: Option<(Seq<usize>, Seq<char>)>,
    pub checks: Seq<(UnresolvedExpressionView, Seq<char>)>,
    pub foreign_keys: Seq<ForeignKeyView>,
    pub unnamed_checks: nat,
}

/// What a `CREATE TABLE` holds.
pub struct CreateTableView {
    pub name: Seq<char>,
    pub columns: Seq<ColumnView>,
    pub uniques: Seq<(Seq<usize>, Seq<char>)>,
    pub primary_key: Option<(Seq<usize>, Seq<char>)>,
    pub checks: Seq<(UnresolvedExpressionView, Seq<char>)>,
    pub foreign_keys: Seq<ForeignKeyView>,
    pub if_not_exists: bool,
}

/// What a foreign key of a statement holds.
pub open spec fn spec_key_view(key: ForeignKey) -> ForeignKeyView {
    ForeignKeyView {
        name: key.name@,
        columns: key.columns.deep_view(),
        foreign_table: key.foreign_table@,
        referred_columns: key.referred_columns.deep_view(),
        on_delete: key.on_delete,
        on_update: key.on_update,
    }
}

/// What a column of a new table holds.
pub open spec fn spec_column_view(column: Column) -> ColumnView {
    ColumnView {
        name: column.name@,
        data_type: column.data_type,
        default: spec_optional_view(column.default),
        not_null: column.not_null,
    }
}

/// What a list of columns holds.
pub open spec fn spec_columns_view(columns: Seq<Column>) -> Seq<ColumnView> {
    columns.map_values(|c: Column| spec_column_view(c))
}

/// What a list of named sets of columns holds.
pub open spec fn spec_sets_view(sets: Seq<(Vec<usize>, String)>) -> Seq<(Seq<usize>, Seq<char>)> {
    sets.map_values(|s: (Vec<usize>, String)| (s.0@, s.1@))
}

/// What a named set of columns that may be missing holds.
pub open spec fn spec_optional_set(set: Option<(Vec<usize>, String)>) -> Option<
    (Seq<usize>, Seq<char>),
> {
    match set {
        None => None,
        Some(s) => Some((s.0@, s.1@)),
    }
}

/// What a list of named checks holds.
pub open spec fn spec_checks_view(checks: Seq<(UnresolvedExpression, String)>) -> Seq<
    (UnresolvedExpressionView, Seq<char>),
> {
    checks.map_values(|c: (UnresolvedExpression, String)| (c.0@, c.1@))
}

/// What a list of foreign keys holds.
pub open spec fn spec_keys_view(keys: Seq<ForeignKey>) -> Seq<ForeignKeyView> {
    keys.map_values(|k: ForeignKey| spec_key_view(k))
}

/// What a `CREATE TABLE` holds.
pub open spec fn spec_create_view(statement: CreateTable) -> CreateTableView {
    CreateTableView {
        name: statement.name@,
        columns: spec_columns_view(statement.columns@),
        uniques: spec_sets_view(statement.uniques@),
        primary_key: spec_optional_set(statement.primary_key),
        checks: spec_checks_view(statement.checks@),
        foreign_keys: spec_keys_view(statement.foreign_keys@),
        if_not_exists: statement.if_not_exists,
    }
}

/// The constraints gathered from a statement so far.
#[derive(Debug)]
pub struct Constraints {
    pub uniques: Vec<(Vec<usize>, String)>,
    pub primary_key: Option<(Vec<usize>, String)>,
    pub checks: Vec<(UnresolvedExpression, String)>,
    pub foreign_keys: Vec<ForeignKey>,
    pub unnamed_checks: usize,
}

impl Constraints {
    /// No more checks went without a name than there are checks.
    pub open spec fn wf(self) -> bool {
        self.unnamed_checks <= self.checks.len()
    }

    /// What the constraints hold.
    pub open spec fn spec_view(self) -> ConstraintsView {
        ConstraintsView {
            uniques: spec_sets_view(self.uniques@),
            primary_key: spec_optional_set(self.primary_key),
            checks: spec_checks_view(self.checks@),
            foreign_keys: spec_keys_view(self.foreign_keys@),
            unnamed_checks: self.unnamed_checks as nat,
        }
    }

    /// No constraints.
    pub open spec fn spec_empty() -> ConstraintsView {
        ConstraintsView {
            uniques: Seq::empty(),
            primary_key: None,
            checks: Seq::empty(),
            foreign_keys: Seq::empty(),
            unnamed_checks: 0,
        }
    }

    /// No constraints.
    pub fn new() -> (constraints: Self)
        ensures
            constraints.wf(),
            constraints.spec_view() == Self::spec_empty(),
    {
        let constraints = Constraints {
            uniques: Vec::new(),
            primary_key: None,
            checks: Vec::new(),
            foreign_keys: Vec::new(),
            unnamed_checks: 0,
        };
        proof {
            assert(spec_sets_view(constraints.uniques@) =~= Seq::empty());
            assert(spec_checks_view(constraints.checks@) =~= Seq::empty());
            assert(spec_keys_view(constraints.foreign_keys@) =~= Seq::empty());
        }
        constraints
    }

    /// The constraints with one more unique set of columns.
    pub fn add_unique(self, set: Vec<usize>, name: String) -> (constraints: Self)
        requires
            self.wf(),
        ensures
            constraints.wf(),
            constraints.spec_view() == (ConstraintsView {
                uniques: self.spec_view().uniques.push((set@, name@)),
                ..self.spec_view()
            }),
    {
        let ghost before = self.uniques@;
        let mut constraints = self;
        constraints.uniques.push((set, name));
        proof {
            assert(spec_sets_view(constraints.uniques@) =~= spec_sets_view(before).push(
                (set@, name@),
            ));
        }
        constraints
    }

    /// The constraints with one more check.
    pub fn add_check(self, check: UnresolvedExpression, name: String, unnamed: bool) -> (constraints:
        Self)
        requires
            self.wf(),
        ensures
            constraints.wf(),
            constraints.spec_view() == (ConstraintsView {
                checks: self.spec_view().checks.push((check@, name@)),
                unnamed_checks: if unnamed {
                    self.spec_view().unnamed_checks + 1
                } else {
                    self.spec_view().unnamed_checks
                },
                ..self.spec_view()
            }),
    {
        let ghost before = self.checks@;
        let mut constraints = self;
        constraints.checks.push((check, name));
        let total = constraints.checks.len();
        if unnamed {
            assert(constraints.unnamed_checks < total);
            constraints.unnamed_checks = constraints.unnamed_checks + 1;
        }
        proof {
            assert(spec_checks_view(constraints.checks@) =~= spec_checks_view(before).push(
                (check@, name@),
            ));
        }
        constraints
    }

    /// The constraints with one more foreign key.
    pub fn add_key(self, key: ForeignKey) -> (constraints: Self)
        requires
            self.wf(),
        ensures
            constraints.wf(),
            constraints.spec_view() == (ConstraintsView {
                foreign_keys: self.spec_view().foreign_keys.push(spec_key_view(key)),
                ..self.spec_view()
            }),
    {
        let ghost before = self.foreign_keys@;
        let mut constraints = self;
        constraints.foreign_keys.push(key);
        proof {
            assert(spec_keys_view(constraints.foreign_keys@) =~= spec_keys_view(before).push(
                spec_key_view(key),
            ));
        }
        constraints
    }
}

/// A prefix with a number in decimal behind it.
pub open spec fn spec_numbered(prefix: Seq<char>, n: nat) -> Seq<char> {
    prefix + crate::data_types::nat_to_digits(n)
}

/// A prefix with a number in decimal behind it.
pub fn numbered(prefix: &str, n: usize) -> (name: String)
    ensures
        name@ == spec_numbered(prefix@, n as nat),
{
    let mut name = prefix.to_owned();
    let digits = crate::data_types::nat_to_string(n as u64);
    name.append(digits.as_str());
    name
}

/// The names with a comma and a space between them.
pub open spec fn spec_comma_names(names: Seq<Seq<char>>) -> Seq<char>
    decreases names.len(),
{
    if names.len() == 0 {
        Seq::empty()
    } else if names.len() == 1 {
        names[0]
    } else {
        spec_comma_names(names.drop_last()) + seq![',', ' '] + names.last()
    }
}

/// The names with a comma and a space between them.
pub fn comma_names(names: &Vec<String>) -> (text: String)
    ensures
        text@ == spec_comma_names(names.deep_view()),
{
    let mut text = String::new();
    let mut i: usize = 0;
    proof {
        reveal_strlit(", ");
        assert(names.deep_view().take(0) =~= Seq::<Seq<char>>::empty());
        assert(", "@ =~= seq![',', ' ']);
    }
    while i < names.len()
        invariant
            i <= names.len(),
            text@ == spec_comma_names(names.deep_view().take(i as int)),
            ", "@ == seq![',', ' '],
        decreases names.len() - i,
    {
        let ghost before = names.deep_view().take(i as int);
        let ghost after = names.deep_view().take(i + 1);
        proof {
            assert(after.drop_last() =~= before);
            assert(after.last() == names[i as int]@);
        }
        if i > 0 {
            text.append(", ");
        }
        text.append(names[i].as_str());
        proof {
            if i == 0 {
                assert(Seq::<char>::empty() + names[i as int]@ =~= names[i as int]@);
            }
        }
        i += 1;
    }
    assert(names.deep_view().take(names.len() as int) =~= names.deep_view());
    text
}

/// The position of the first column from `from` on that has the name.
pub open spec fn spec_column_position(columns: Seq<ColumnView>, name: Seq<char>, from: int) -> Option<
    usize,
>
    decreases columns.len() - from,
{
    if from < 0 || from >= columns.len() {
        None
    } else if columns[from].name == name {
        Some(from as usize)
    } else {
        spec_column_position(columns, name, from + 1)
    }
}

/// The position of the first column that has the name.
pub fn column_position(columns: &Vec<Column>, name: &str) -> (position: Option<usize>)
    ensures
        position == spec_column_position(spec_columns_view(columns@), name@, 0),
{
    let ghost views = spec_columns_view(columns@);
    let mut i: usize = 0;
    while i < columns.len()
        invariant
            i <= columns.len(),
            views == spec_columns_view(columns@),
            spec_column_position(views, name@, 0) == spec_column_position(views, name@, i as int),
        decreases columns.len() - i,
    {
        if crate::ast::str_eq(columns[i].name.as_str(), name) {
            return Some(i);
        }
        i += 1;
    }
    None
}

/// The search for a column by its name, as a function: a name that no
/// column has is an error.
pub open spec fn spec_position_finder(columns: Seq<ColumnView>) -> spec_fn(Seq<char>) -> Result<
    usize,
    ErrorView,
> {
    |name: Seq<char>|
        match spec_column_position(columns, name, 0) {
            Some(p) => Ok(p),
            None => Err(ErrorView::Execution(ExecutionErrorView::NoColumn(name))),
        }
}

/// The positions of the columns with the names, in the order of the names.
#[verifier::loop_isolation(false)]
pub fn column_positions(columns: &Vec<Column>, names: &Vec<String>) -> (result: Result<
    Vec<usize>,
    Error,
>)
    ensures
        match result {
            Ok(positions) => spec_try_map(
                names.deep_view(),
                spec_position_finder(spec_columns_view(columns@)),
                names.len() as int,
            ) == Ok::<Seq<usize>, ErrorView>(positions@),
            Err(e) => spec_try_map(
                names.deep_view(),
                spec_position_finder(spec_columns_view(columns@)),
                names.len() as int,
            ) == Err::<Seq<usize>, ErrorView>(e@),
        },
{
    let ghost finder = spec_position_finder(spec_columns_view(columns@));
    let mut positions: Vec<usize> = Vec::new();
    let mut i: usize = 0;
    while i < names.len()
        invariant
            i <= names.len(),
            spec_try_map(names.deep_view(), finder, i as int) == Ok::<Seq<usize>, ErrorView>(
                positions@,
            ),
        decreases names.len() - i,
    {
        proof {
            assert(names.deep_view()[i as int] == names[i as int]@);
        }
        match column_position(columns, names[i].as_str()) {
            Some(p) => {
                positions.push(p);
            },
            None => {
                proof {
                    lemma_try_map_error(names.deep_view(), finder, i + 1, names.len() as int);
                }
                return Err(Error::Execution(ExecutionError::NoColumn(names[i].clone())));
            },
        }
        i += 1;
    }
    Ok(positions)
}

} // verus!

verus! {

/// What has been gathered of one column so far: its default and whether it
/// must be present, whether it was said to be unique, and the constraints
/// of the table.
#[derive(Debug)]
pub struct ColumnProgress {
    pub default: Option<UnresolvedExpression>,
    pub not_null: bool,
    pub unique: bool,
    pub constraints: Constraints,
}

/// What has been gathered of one column so far.
pub struct ColumnProgressView {
    pub default: Option<UnresolvedExpressionView>,
    pub not_null: bool,
    pub unique: bool,
    pub constraints: ConstraintsView,
}

impl ColumnProgress {
    /// What has been gathered.
    pub open spec fn spec_view(self) -> ColumnProgressView {
        ColumnProgressView {
            default: spec_optional_view(self.default),
            not_null: self.not_null,
            unique: self.unique,
            constraints: self.constraints.spec_view(),
        }
    }
}

/// The name of a foreign key that the statement gave none: `__fkey` and
/// the number of keys before it.
pub open spec fn spec_key_name(n: nat) -> Seq<char> {
    spec_numbered("__fkey"@, n)
}

/// The name of a check that the statement gave none: `__check` and the
/// number of such checks before it.
pub open spec fn spec_check_name(n: nat) -> Seq<char> {
    spec_numbered("__check"@, n)
}

/// What is gathered of a column after one more thing that the statement
/// says of it. What has no name of its own goes by the column's name. A
/// second default, a second `NOT NULL` and a second `UNIQUE` or
/// `PRIMARY KEY` of one column are errors, and so is a second primary key
/// of the table, a foreign key that does not refer to exactly one column,
/// and an expression that cannot be converted.
pub open spec fn spec_column_option(
    table: Seq<char>,
    column: Seq<char>,
    index: usize,
    progress: ColumnProgressView,
    option: ColumnOptionDef,
) -> Result<ColumnProgressView, ErrorView> {
    let name = match option.name {
        Some(n) => n@,
        None => column,
    };
    let constraints = progress.constraints;
    match option.option {
        ColumnOption::Default(expr) => if progress.default is Some {
            Err(ErrorView::Execution(ExecutionErrorView::MultipleDefault(column)))
        } else {
            match spec_parse_expression(expr) {
                Err(e) => Err(e),
                Ok(default) => Ok(ColumnProgressView { default: Some(default), ..progress }),
            }
        },
        ColumnOption::NotNull => if progress.not_null {
            Err(ErrorView::Execution(ExecutionErrorView::MultipleNotNull(column)))
        } else {
            Ok(ColumnProgressView { not_null: true, ..progress })
        },
        ColumnOption::Unique { is_primary } => if progress.unique {
            Err(ErrorView::Execution(ExecutionErrorView::MultipleUnique(column)))
        } else if !is_primary {
            Ok(
                ColumnProgressView {
                    unique: true,
                    constraints: ConstraintsView {
                        uniques: constraints.uniques.push((seq![index], name)),
                        ..constraints
                    },
                    ..progress
                },
            )
        } else if constraints.primary_key is Some {
            Err(ErrorView::Execution(ExecutionErrorView::MultiplePrimaryKey(table)))
        } else {
            Ok(
                ColumnProgressView {
                    unique: true,
                    constraints: ConstraintsView {
                        primary_key: Some((seq![index], name)),
                        ..constraints
                    },
                    ..progress
                },
            )
        },
        ColumnOption::ForeignKey { foreign_table, referred_columns, on_delete, on_update } => if
            referred_columns.len() != 1 {
            Err(
                ErrorView::Execution(
                    ExecutionErrorView::IncorrectNumForeignKeyReferredColumns {
                        expected: 1,
                        found: referred_columns.len(),
                    },
                ),
            )
        } else {
            Ok(
                ColumnProgressView {
                    constraints: ConstraintsView {
                        foreign_keys: constraints.foreign_keys.push(
                            ForeignKeyView {
                                name,
                                columns: seq![column],
                                foreign_table: foreign_table@,
                                referred_columns: referred_columns.deep_view(),
                                on_delete: spec_optional_action(on_delete),
                                on_update: spec_optional_action(on_update),
                            },
                        ),
                        ..constraints
                    },
                    ..progress
                },
            )
        },
        ColumnOption::Check(expr) => match spec_parse_expression(expr) {
            Err(e) => Err(e),
            Ok(check) => Ok(
                ColumnProgressView {
                    constraints: ConstraintsView {
                        checks: constraints.checks.push((check, name)),
                        ..constraints
                    },
                    ..progress
                },
            ),
        },
    }
}

/// What is gathered of a column after one more thing that the statement
/// says of it.
pub fn column_option(
    table: &str,
    column: &str,
    index: usize,
    progress: ColumnProgress,
    option: ColumnOptionDef,
) -> (result: Result<ColumnProgress, Error>)
    requires
        progress.constraints.wf(),
    ensures
        match result {
            Ok(after) => after.constraints.wf() && spec_column_option(
                table@,
                column@,
                index,
                progress.spec_view(),
                option,
            ) == Ok::<ColumnProgressView, ErrorView>(after.spec_view()),
            Err(e) => spec_column_option(table@, column@, index, progress.spec_view(), option)
                == Err::<ColumnProgressView, ErrorView>(e@),
        },
{
    let ColumnOptionDef { name: given, option: what } = option;
    let name = match given {
        Some(n) => n,
        None => column.to_owned(),
    };
    let ColumnProgress { default, not_null, unique, constraints } = progress;
    match what {
        ColumnOption::Default(expr) => {
            if default.is_some() {
                return Err(Error::Execution(ExecutionError::MultipleDefault(column.to_owned())));
            }
            match parse_expression(expr) {
                Err(e) => Err(e),
                Ok(parsed) => Ok(
                    ColumnProgress { default: Some(parsed), not_null, unique, constraints },
                ),
            }
        },
        ColumnOption::NotNull => {
            if not_null {
                return Err(Error::Execution(ExecutionError::MultipleNotNull(column.to_owned())));
            }
            Ok(ColumnProgress { default, not_null: true, unique, constraints })
        },
        ColumnOption::Unique { is_primary } => {
            if unique {
                return Err(Error::Execution(ExecutionError::MultipleUnique(column.to_owned())));
            }
            let mut set: Vec<usize> = Vec::new();
            set.push(index);
            proof {
                assert(set@ =~= seq![index]);
            }
            if !is_primary {
                let constraints = constraints.add_unique(set, name);
                Ok(ColumnProgress { default, not_null, unique: true, constraints })
            } else if constraints.primary_key.is_some() {
                Err(Error::Execution(ExecutionError::MultiplePrimaryKey(table.to_owned())))
            } else {
                let Constraints { uniques, primary_key: _, checks, foreign_keys, unnamed_checks } =
                    constraints;
                let constraints = Constraints {
                    uniques,
                    primary_key: Some((set, name)),
                    checks,
                    foreign_keys,
                    unnamed_checks,
                };
                Ok(ColumnProgress { default, not_null, unique: true, constraints })
            }
        },
        ColumnOption::ForeignKey { foreign_table, referred_columns, on_delete, on_update } => {
            if referred_columns.len() != 1 {
                return Err(
                    Error::Execution(
                        ExecutionError::IncorrectNumForeignKeyReferredColumns {
                            expected: 1,
                            found: referred_columns.len(),
                        },
                    ),
                );
            }
            let mut columns: Vec<String> = Vec::new();
            columns.push(column.to_owned());
            proof {
                assert(columns.deep_view() =~= seq![column@]);
            }
            let key = ForeignKey::new(
                name,
                columns,
                foreign_table,
                referred_columns,
                optional_action(on_delete),
                optional_action(on_update),
            );
            let constraints = constraints.add_key(key);
            Ok(ColumnProgress { default, not_null, unique, constraints })
        },
        ColumnOption::Check(expr) => match parse_expression(expr) {
            Err(e) => Err(e),
            Ok(check) => {
                let constraints = constraints.add_check(check, name, false);
                Ok(ColumnProgress { default, not_null, unique, constraints })
            },
        },
    }
}

/// What is gathered of a column after the first `n` things that the
/// statement says of it; the first that fails gives its error.
pub open spec fn spec_column_options(
    table: Seq<char>,
    column: Seq<char>,
    index: usize,
    start: ColumnProgressView,
    options: Seq<ColumnOptionDef>,
    n: int,
) -> Result<ColumnProgressView, ErrorView>
    decreases n,
{
    if n <= 0 {
        Ok(start)
    } else {
        match spec_column_options(table, column, index, start, options, n - 1) {
            Err(e) => Err(e),
            Ok(before) => spec_column_option(table, column, index, before, options[n - 1]),
        }
    }
}

/// Once something fails, what follows does not change the error.
pub proof fn lemma_column_options_error(
    table: Seq<char>,
    column: Seq<char>,
    index: usize,
    start: ColumnProgressView,
    options: Seq<ColumnOptionDef>,
    a: int,
    b: int,
)
    requires
        0 <= a <= b,
        spec_column_options(table, column, index, start, options, a) is Err,
    ensures
        spec_column_options(table, column, index, start, options, b) == spec_column_options(
            table,
            column,
            index,
            start,
            options,
            a,
        ),
    decreases b - a,
{
    if a < b {
        lemma_column_options_error(table, column, index, start, options, a, b - 1);
    }
}

/// A column of the engine for a column of the parser, and the constraints
/// of the table with those that the column adds.
pub open spec fn spec_parse_column(
    table: Seq<char>,
    index: usize,
    constraints: ConstraintsView,
    column: ColumnDef,
) -> Result<(ColumnView, ConstraintsView), ErrorView> {
    match spec_column_options(
        table,
        column.name@,
        index,
        ColumnProgressView { default: None, not_null: false, unique: false, constraints },
        column.options@,
        column.options.len() as int,
    ) {
        Err(e) => Err(e),
        Ok(progress) => Ok(
            (
                ColumnView {
                    name: column.name@,
                    data_type: spec_data_type(column.data_type),
                    default: progress.default,
                    not_null: progress.not_null,
                },
                progress.constraints,
            ),
        ),
    }
}

/// A column of the engine for a column of the parser.
#[verifier::loop_isolation(false)]
pub fn parse_column(table: &str, index: usize, constraints: Constraints, column: ColumnDef) -> (result:
    Result<(Column, Constraints), Error>)
    requires
        constraints.wf(),
    ensures
        match result {
            Ok((parsed, after)) => after.wf() && spec_parse_column(
                table@,
                index,
                constraints.spec_view(),
                column,
            ) == Ok::<(ColumnView, ConstraintsView), ErrorView>(
                (spec_column_view(parsed), after.spec_view()),
            ),
            Err(e) => spec_parse_column(table@, index, constraints.spec_view(), column) == Err::<
                (ColumnView, ConstraintsView),
                ErrorView,
            >(e@),
        },
{
    let ColumnDef { name, data_type, options } = column;
    let ghost all = options@;
    let mut progress = ColumnProgress { default: None, not_null: false, unique: false, constraints };
    let ghost start = progress.spec_view();
    let mut rest = options;
    let n = rest.len();
    let mut i: usize = 0;
    proof {
        assert(rest@.skip(0) =~= rest@);
    }
    while i < n
        invariant
            i <= n,
            n == all.len(),
            rest@ == all.skip(i as int),
            progress.constraints.wf(),
            spec_column_options(table@, name@, index, start, all, i as int) == Ok::<
                ColumnProgressView,
                ErrorView,
            >(progress.spec_view()),
        decreases n - i,
    {
        let next = rest.remove(0);
        proof {
            assert(next == all[i as int]);
            assert(rest@ =~= all.skip(i + 1));
        }
        progress = match column_option(table, name.as_str(), index, progress, next) {
            Ok(after) => after,
            Err(e) => {
                proof {
                    lemma_column_options_error(table@, name@, index, start, all, i + 1, n as int);
                }
                return Err(e);
            },
        };
        i += 1;
    }
    let ColumnProgress { default, not_null, unique: _, constraints: after } = progress;
    Ok((Column::new(name, convert_data_type(data_type), default, not_null), after))
}

/// The columns of the engine for the first `n` columns of the parser, and
/// the constraints that they add; the first that fails gives its error.
pub open spec fn spec_parse_columns(table: Seq<char>, columns: Seq<ColumnDef>, n: int) -> Result<
    (Seq<ColumnView>, ConstraintsView),
    ErrorView,
>
    decreases n,
{
    if n <= 0 {
        Ok((Seq::empty(), Constraints::spec_empty()))
    } else {
        match spec_parse_columns(table, columns, n - 1) {
            Err(e) => Err(e),
            Ok((before, constraints)) => match spec_parse_column(
                table,
                (n - 1) as usize,
                constraints,
                columns[n - 1],
            ) {
                Err(e) => Err(e),
                Ok((column, after)) => Ok((before.push(column), after)),
            },
        }
    }
}

/// Once a column fails, more columns do not change the error.
pub proof fn lemma_parse_columns_error(table: Seq<char>, columns: Seq<ColumnDef>, a: int, b: int)
    requires
        0 <= a <= b,
        spec_parse_columns(table, columns, a) is Err,
    ensures
        spec_parse_columns(table, columns, b) == spec_parse_columns(table, columns, a),
    decreases b - a,
{
    if a < b {
        lemma_parse_columns_error(table, columns, a, b - 1);
    }
}

/// The columns of the engine for the columns of the parser.
#[verifier::loop_isolation(false)]
pub fn parse_columns(table: &str, columns: Vec<ColumnDef>) -> (result: Result<
    (Vec<Column>, Constraints),
    Error,
>)
    ensures
        match result {
            Ok((parsed, constraints)) => constraints.wf() && spec_parse_columns(
                table@,
                columns@,
                columns.len() as int,
            ) == Ok::<(Seq<ColumnView>, ConstraintsView), ErrorView>(
                (spec_columns_view(parsed@), constraints.spec_view()),
            ),
            Err(e) => spec_parse_columns(table@, columns@, columns.len() as int) == Err::<
                (Seq<ColumnView>, ConstraintsView),
                ErrorView,
            >(e@),
        },
{
    let ghost all = columns@;
    let mut rest = columns;
    let n = rest.len();
    let mut parsed: Vec<Column> = Vec::new();
    let mut constraints = Constraints::new();
    let mut i: usize = 0;
    proof {
        assert(rest@.skip(0) =~= rest@);
        assert(spec_columns_view(parsed@) =~= Seq::empty());
    }
    while i < n
        invariant
            i <= n,
            n == all.len(),
            rest@ == all.skip(i as int),
            constraints.wf(),
            spec_parse_columns(table@, all, i as int) == Ok::<
                (Seq<ColumnView>, ConstraintsView),
                ErrorView,
            >((spec_columns_view(parsed@), constraints.spec_view())),
        decreases n - i,
    {
        let next = rest.remove(0);
        let ghost before = parsed@;
        proof {
            assert(next == all[i as int]);
            assert(rest@ =~= all.skip(i + 1));
        }
        match parse_column(table, i, constraints, next) {
            Ok((column, after)) => {
                parsed.push(column);
                constraints = after;
                proof {
                    assert(spec_columns_view(parsed@) =~= spec_columns_view(before).push(
                        spec_column_view(column),
                    ));
                }
            },
            Err(e) => {
                proof {
                    lemma_parse_columns_error(table@, all, i + 1, n as int);
                }
                return Err(e);
            },
        }
        i += 1;
    }
    Ok((parsed, constraints))
}

} // verus!

verus! {

/// The constraints of a table with one more constraint written after the
/// columns. A set of columns without a name goes by the names of its
/// columns, with commas between them; its columns are looked up among the
/// columns of the table and held in rising order. A foreign key without a
/// name goes by the number of keys before it, a check without a name by the
/// number of such checks before it. A second primary key is an error, and
/// so is a foreign key that refers to another number of columns than it
/// has.
pub open spec fn spec_table_constraint(
    table: Seq<char>,
    columns: Seq<ColumnView>,
    constraints: ConstraintsView,
    constraint: TableConstraint,
) -> Result<ConstraintsView, ErrorView> {
    match constraint {
        TableConstraint::Unique { name, columns: names, is_primary } => {
            let set_name = match name {
                Some(n) => n@,
                None => spec_comma_names(names.deep_view()),
            };
            match spec_try_map(
                names.deep_view(),
                spec_position_finder(columns),
                names.len() as int,
            ) {
                Err(e) => Err(e),
                Ok(positions) => {
                    let set = spec_sorted_columns(positions);
                    if !is_primary {
                        Ok(
                            ConstraintsView {
                                uniques: constraints.uniques.push((set, set_name)),
                                ..constraints
                            },
                        )
                    } else if constraints.primary_key is Some {
                        Err(ErrorView::Execution(ExecutionErrorView::MultiplePrimaryKey(table)))
                    } else {
                        Ok(ConstraintsView { primary_key: Some((set, set_name)), ..constraints })
                    }
                },
            }
        },
        TableConstraint::ForeignKey {
            name,
            columns: names,
            foreign_table,
            referred_columns,
            on_delete,
            on_update,
        } => if names.len() != referred_columns.len() {
            Err(
                ErrorView::Execution(
                    ExecutionErrorView::IncorrectNumForeignKeyReferredColumns {
                        expected: names.len(),
                        found: referred_columns.len(),
                    },
                ),
            )
        } else {
            Ok(
                ConstraintsView {
                    foreign_keys: constraints.foreign_keys.push(
                        ForeignKeyView {
                            name: match name {
                                Some(n) => n@,
                                None => spec_key_name(constraints.foreign_keys.len()),
                            },
                            columns: names.deep_view(),
                            foreign_table: foreign_table@,
                            referred_columns: referred_columns.deep_view(),
                            on_delete: spec_optional_action(on_delete),
                            on_update: spec_optional_action(on_update),
                        },
                    ),
                    ..constraints
                },
            )
        },
        TableConstraint::Check { name, expr } => match spec_parse_expression(expr) {
            Err(e) => Err(e),
            Ok(check) => match name {
                Some(n) => Ok(
                    ConstraintsView {
                        checks: constraints.checks.push((check, n@)),
                        ..constraints
                    },
                ),
                None => Ok(
                    ConstraintsView {
                        checks: constraints.checks.push(
                            (check, spec_check_name(constraints.unnamed_checks)),
                        ),
                        unnamed_checks: constraints.unnamed_checks + 1,
                        ..constraints
                    },
                ),
            },
        },
    }
}

/// The constraints of a table with one more constraint written after the
/// columns.
pub fn table_constraint(
    table: &str,
    columns: &Vec<Column>,
    constraints: Constraints,
    constraint: TableConstraint,
) -> (result: Result<Constraints, Error>)
    requires
        constraints.wf(),
    ensures
        match result {
            Ok(after) => after.wf() && spec_table_constraint(
                table@,
                spec_columns_view(columns@),
                constraints.spec_view(),
                constraint,
            ) == Ok::<ConstraintsView, ErrorView>(after.spec_view()),
            Err(e) => spec_table_constraint(
                table@,
                spec_columns_view(columns@),
                constraints.spec_view(),
                constraint,
            ) == Err::<ConstraintsView, ErrorView>(e@),
        },
{
    match constraint {
        TableConstraint::Unique { name, columns: names, is_primary } => {
            let set_name = match name {
                Some(n) => n,
                None => comma_names(&names),
            };
            let positions = match column_positions(columns, &names) {
                Ok(p) => p,
                Err(e) => {
                    return Err(e);
                },
            };
            let set = sort_columns(&positions);
            if !is_primary {
                Ok(constraints.add_unique(set, set_name))
            } else if constraints.primary_key.is_some() {
                Err(Error::Execution(ExecutionError::MultiplePrimaryKey(table.to_owned())))
            } else {
                let Constraints { uniques, primary_key: _, checks, foreign_keys, unnamed_checks } =
                    constraints;
                Ok(
                    Constraints {
                        uniques,
                        primary_key: Some((set, set_name)),
                        checks,
                        foreign_keys,
                        unnamed_checks,
                    },
                )
            }
        },
        TableConstraint::ForeignKey {
            name,
            columns: names,
            foreign_table,
            referred_columns,
            on_delete,
            on_update,
        } => {
            if names.len() != referred_columns.len() {
                return Err(
                    Error::Execution(
                        ExecutionError::IncorrectNumForeignKeyReferredColumns {
                            expected: names.len(),
                            found: referred_columns.len(),
                        },
                    ),
                );
            }
            let key_name = match name {
                Some(n) => n,
                None => numbered("__fkey", constraints.foreign_keys.len()),
            };
            let key = ForeignKey::new(
                key_name,
                names,
                foreign_table,
                referred_columns,
                optional_action(on_delete),
                optional_action(on_update),
            );
            Ok(constraints.add_key(key))
        },
        TableConstraint::Check { name, expr } => match parse_expression(expr) {
            Err(e) => Err(e),
            Ok(check) => match name {
                Some(n) => Ok(constraints.add_check(check, n, false)),
                None => {
                    let check_name = numbered("__check", constraints.unnamed_checks);
                    Ok(constraints.add_check(check, check_name, true))
                },
            },
        },
    }
}

/// The constraints of a table after the first `n` constraints written
/// after the columns; the first that fails gives its error.
pub open spec fn spec_table_constraints(
    table: Seq<char>,
    columns: Seq<ColumnView>,
    start: ConstraintsView,
    constraints: Seq<TableConstraint>,
    n: int,
) -> Result<ConstraintsView, ErrorView>
    decreases n,
{
    if n <= 0 {
        Ok(start)
    } else {
        match spec_table_constraints(table, columns, start, constraints, n - 1) {
            Err(e) => Err(e),
            Ok(before) => spec_table_constraint(table, columns, before, constraints[n - 1]),
        }
    }
}

/// Once a constraint fails, more constraints do not change the error.
pub proof fn lemma_table_constraints_error(
    table: Seq<char>,
    columns: Seq<ColumnView>,
    start: ConstraintsView,
    constraints: Seq<TableConstraint>,
    a: int,
    b: int,
)
    requires
        0 <= a <= b,
        spec_table_constraints(table, columns, start, constraints, a) is Err,
    ensures
        spec_table_constraints(table, columns, start, constraints, b) == spec_table_constraints(
            table,
            columns,
            start,
            constraints,
            a,
        ),
    decreases b - a,
{
    if a < b {
        lemma_table_constraints_error(table, columns, start, constraints, a, b - 1);
    }
}

/// The `CREATE TABLE` of the engine for the parts that the parser gives:
/// the columns with what the statement says of each, then the constraints
/// written after them.
pub open spec fn spec_parse_create_table(
    name: String,
    columns: Vec<ColumnDef>,
    constraints: Vec<TableConstraint>,
    if_not_exists: bool,
) -> Result<CreateTableView, ErrorView> {
    match spec_parse_columns(name@, columns@, columns.len() as int) {
        Err(e) => Err(e),
        Ok((parsed, gathered)) => match spec_table_constraints(
            name@,
            parsed,
            gathered,
            constraints@,
            constraints.len() as int,
        ) {
            Err(e) => Err(e),
            Ok(all) => Ok(
                CreateTableView {
                    name: name@,
                    columns: parsed,
                    uniques: all.uniques,
                    primary_key: all.primary_key,
                    checks: all.checks,
                    foreign_keys: all.foreign_keys,
                    if_not_exists,
                },
            ),
        },
    }
}

/// The `CREATE TABLE` of the engine for the parts that the parser gives.
#[verifier::loop_isolation(false)]
pub fn parse_create_table(
    name: String,
    columns: Vec<ColumnDef>,
    constraints: Vec<TableConstraint>,
    if_not_exists: bool,
) -> (result: Result<CreateTable, Error>)
    ensures
        match result {
            Ok(parsed) => spec_parse_create_table(name, columns, constraints, if_not_exists)
                == Ok::<CreateTableView, ErrorView>(spec_create_view(parsed)),
            Err(e) => spec_parse_create_table(name, columns, constraints, if_not_exists) == Err::<
                CreateTableView,
                ErrorView,
            >(e@),
        },
{
    let (table_columns, gathered) = match parse_columns(name.as_str(), columns) {
        Ok(parsed) => parsed,
        Err(e) => {
            return Err(e);
        },
    };
    let ghost views = spec_columns_view(table_columns@);
    let ghost start = gathered.spec_view();
    let ghost all = constraints@;
    let mut rest = constraints;
    let n = rest.len();
    let mut state = gathered;
    let mut i: usize = 0;
    proof {
        assert(rest@.skip(0) =~= rest@);
    }
    while i < n
        invariant
            i <= n,
            n == all.len(),
            rest@ == all.skip(i as int),
            state.wf(),
            spec_table_constraints(name@, views, start, all, i as int) == Ok::<
                ConstraintsView,
                ErrorView,
            >(state.spec_view()),
        decreases n - i,
    {
        let next = rest.remove(0);
        proof {
            assert(next == all[i as int]);
            assert(rest@ =~= all.skip(i + 1));
        }
        state = match table_constraint(name.as_str(), &table_columns, state, next) {
            Ok(after) => after,
            Err(e) => {
                proof {
                    lemma_table_constraints_error(name@, views, start, all, i + 1, n as int);
                }
                return Err(e);
            },
        };
        i += 1;
    }
    let Constraints { uniques, primary_key, checks, foreign_keys, unnamed_checks: _ } = state;
    Ok(
        CreateTable::new(
            name,
            table_columns,
            uniques,
            primary_key,
            checks,
            foreign_keys,
            if_not_exists,
        ),
    )
}

// ---------------------------------------------------------------------------
// Statements
// ---------------------------------------------------------------------------

/// A statement as the parser gives it.
#[derive(Debug)]
pub enum Statement {
    CreateTable {
        name: String,
        columns: Vec<ColumnDef>,
        constraints: Vec<TableConstraint>,
        if_not_exists: bool,
    },
    Insert { table_name: String, columns: Vec<String>, source: Query },
    Drop { if_exists: bool, names: Vec<String> },
    Query(Query),
    Delete { table_name: String, selection: Option<Expr> },
    Update { table_name: String, assignments: Vec<Assignment>, selection: Option<Expr> },
}

/// What a statement of the engine holds.
pub enum SqlQueryView {
    CreateTable(CreateTableView),
    Insert(InsertView),
    DropTable { if_exists: bool, names: Seq<Seq<char>> },
    SelectQuery(SelectQueryView),
    Delete(DeleteView),
    Update(UpdateView),
}

/// What a statement of the engine holds.
pub open spec fn spec_query_view(query: SqlQuery) -> SqlQueryView {
    match query {
        SqlQuery::CreateTable(c) => SqlQueryView::CreateTable(spec_create_view(c)),
        SqlQuery::Insert(i) => SqlQueryView::Insert(spec_insert_view(i)),
        SqlQuery::DropTable(d) => SqlQueryView::DropTable {
            if_exists: d.if_exists,
            names: d.names.deep_view(),
        },
        SqlQuery::SelectQuery(s) => SqlQueryView::SelectQuery(spec_select_query_view(s)),
        SqlQuery::Delete(d) => SqlQueryView::Delete(spec_delete_view(d)),
        SqlQuery::Update(u) => SqlQueryView::Update(spec_update_view(u)),
    }
}

/// The statement of the engine for a statement of the parser.
pub open spec fn spec_process_query(statement: Statement) -> Result<SqlQueryView, ErrorView> {
    match statement {
        Statement::CreateTable { name, columns, constraints, if_not_exists } => {
            match spec_parse_create_table(name, columns, constraints, if_not_exists) {
                Ok(c) => Ok(SqlQueryView::CreateTable(c)),
                Err(e) => Err(e),
            }
        },
        Statement::Insert { table_name, columns, source } => match spec_parse_insert(
            table_name,
            columns,
            source,
        ) {
            Ok(i) => Ok(SqlQueryView::Insert(i)),
            Err(e) => Err(e),
        },
        Statement::Drop { if_exists, names } => Ok(
            SqlQueryView::DropTable { if_exists, names: names.deep_view() },
        ),
        Statement::Query(q) => match spec_parse_select_query(q) {
            Ok(s) => Ok(SqlQueryView::SelectQuery(s)),
            Err(e) => Err(e),
        },
        Statement::Delete { table_name, selection } => match spec_parse_delete(
            table_name,
            selection,
        ) {
            Ok(d) => Ok(SqlQueryView::Delete(d)),
            Err(e) => Err(e),
        },
        Statement::Update { table_name, assignments, selection } => match spec_parse_update(
            table_name,
            assignments,
            selection,
        ) {
            Ok(u) => Ok(SqlQueryView::Update(u)),
            Err(e) => Err(e),
        },
    }
}

/// The statement of the engine for a statement of the parser.
pub fn process_query(statement: Statement) -> (result: Result<SqlQuery, Error>)
    ensures
        match result {
            Ok(query) => spec_process_query(statement) == Ok::<SqlQueryView, ErrorView>(
                spec_query_view(query),
            ),
            Err(e) => spec_process_query(statement) == Err::<SqlQueryView, ErrorView>(e@),
        },
{
    match statement {
        Statement::CreateTable { name, columns, constraints, if_not_exists } => {
            match parse_create_table(name, columns, constraints, if_not_exists) {
                Ok(c) => Ok(SqlQuery::CreateTable(c)),
                Err(e) => Err(e),
            }
        },
        Statement::Insert { table_name, columns, source } => match parse_insert(
            table_name,
            columns,
            source,
        ) {
            Ok(i) => Ok(SqlQuery::Insert(i)),
            Err(e) => Err(e),
        },
        Statement::Drop { if_exists, names } => Ok(SqlQuery::DropTable(parse_drop(if_exists, names))),
        Statement::Query(q) => match parse_select_query(q) {
            Ok(s) => Ok(SqlQuery::SelectQuery(s)),
            Err(e) => Err(e),
        },
        Statement::Delete { table_name, selection } => match parse_delete(table_name, selection) {
            Ok(d) => Ok(SqlQuery::Delete(d)),
            Err(e) => Err(e),
        },
        Statement::Update { table_name, assignments, selection } => match parse_update(
            table_name,
            assignments,
            selection,
        ) {
            Ok(u) => Ok(SqlQuery::Update(u)),
            Err(e) => Err(e),
        },
    }
}

} // verus!
