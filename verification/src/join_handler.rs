//! Joins: the tables of a `FROM` clause put together by nested loops.

use vstd::prelude::*;
use crate::ast::{
    str_eq, BinaryOp, ColumnName, ColumnNameView, ComparisonOp, JoinConstraint, JoinOperator,
    TableJoins,
};
use crate::data_types::{spec_is_true, Value, ValueView};
use crate::error::{internal, Error, ErrorView, ExecutionError, ExecutionErrorView};
use crate::interpreter::{evaluate_expression, resolve_expression, spec_evaluate, Interpreter};
use crate::resolved_expression::{
    Expression, ExpressionView, ResolvedColumn, ResolvedColumnView,
};
use crate::table_handler::{
    spec_stored_value, spec_table_rows, TableHandler, TableRow, TableRowView,
};
use crate::{spec_env, spec_value_result, GetData, RowEnv, TableColumns};

verus! {

/// The tables of a query: one open table, or two sides joined by an
/// operator, with the expression that a pair of rows must satisfy, if
/// there is one, and the columns of the right side that `*` leaves out.
pub enum Join<'a> {
    Table(TableHandler<'a>),
    Join {
        left: Box<Join<'a>>,
        right: Box<Join<'a>>,
        constraint: Option<Expression>,
        join_operator: JoinOperator,
        exclude_columns: Vec<ResolvedColumn>,
    },
}

/// What a list of joined rows holds: for each, one stored row for each
/// table.
pub open spec fn spec_buffers(rows: Seq<Vec<TableRow>>) -> Seq<Seq<TableRowView>> {
    Seq::new(rows.len(), |i: int| spec_table_rows(rows[i]@))
}

/// The rows that stand for rows of nulls of `n` tables.
pub open spec fn spec_null_rows(n: nat) -> Seq<TableRowView> {
    Seq::new(n, |i: int| TableRowView { left: Seq::empty(), right: Seq::empty() })
}

impl<'a> Join<'a> {
    /// The invariant of a join: that of each of its tables.
    pub open spec fn wf(&self) -> bool
        decreases self,
    {
        match self {
            Join::Table(t) => t.wf(),
            Join::Join { left, right, .. } => left.wf() && right.wf() && left.spec_num_tables()
                + right.spec_num_tables() <= usize::MAX,
        }
    }

    /// How many tables the join has.
    pub open spec fn spec_num_tables(&self) -> nat
        decreases self,
    {
        match self {
            Join::Table(_) => 1,
            Join::Join { left, right, .. } => left.spec_num_tables() + right.spec_num_tables(),
        }
    }

    /// Whether the query knows one of the tables by that name.
    pub open spec fn spec_has_table(&self, table_name: Seq<char>) -> bool
        decreases self,
    {
        match self {
            Join::Table(t) => t.spec_aliased_name() == table_name,
            Join::Join { left, right, .. } => left.spec_has_table(table_name)
                || right.spec_has_table(table_name),
        }
    }

    /// What a joined row holds for a column, where the rows of this join's
    /// tables start at position `start` of the joined row. The column is
    /// looked for in the left side first; a table that the join does not
    /// have, or for which the joined row has no row, is an internal error.
    pub open spec fn spec_value_at(
        &self,
        buffer: Seq<TableRowView>,
        start: int,
        column: ResolvedColumnView,
    ) -> Result<ValueView, ErrorView>
        decreases self,
    {
        match self {
            Join::Table(t) => if 0 <= start < buffer.len() {
                spec_stored_value(t.spec_columns(), t.spec_aliased_name(), buffer[start], column)
            } else {
                Err(ErrorView::Internal)
            },
            Join::Join { left, right, .. } => if left.spec_has_table(column.table_name) {
                left.spec_value_at(buffer, start, column)
            } else if right.spec_has_table(column.table_name) {
                right.spec_value_at(buffer, start + left.spec_num_tables(), column)
            } else {
                Err(ErrorView::Internal)
            },
        }
    }

    /// What a joined row holds for each column.
    pub open spec fn spec_row_env(&self, buffer: Seq<TableRowView>) -> RowEnv {
        |column: ResolvedColumnView| self.spec_value_at(buffer, 0, column)
    }

    /// Whether the join keeps a pair of rows: where it has a constraint,
    /// whether the constraint is true of the joined row.
    pub open spec fn spec_keep(&self, buffer: Seq<TableRowView>) -> Result<bool, ErrorView> {
        match self {
            Join::Join { constraint: Some(c), .. } => match spec_evaluate(
                c@,
                self.spec_row_env(buffer),
            ) {
                Err(e) => Err(e),
                Ok(v) => Ok(spec_is_true(v)),
            },
            _ => Ok(true),
        }
    }

    /// The joined rows that one row of one side makes with the first `n`
    /// rows of the other side, in their order: those that the join keeps.
    /// `fixed_left` says that the one row is of the left side.
    pub open spec fn spec_matches(
        &self,
        fixed: Seq<TableRowView>,
        others: Seq<Seq<TableRowView>>,
        fixed_left: bool,
        n: int,
    ) -> Result<Seq<Seq<TableRowView>>, ErrorView>
        decreases n,
    {
        if n <= 0 {
            Ok(Seq::empty())
        } else {
            match self.spec_matches(fixed, others, fixed_left, n - 1) {
                Err(e) => Err(e),
                Ok(found) => {
                    let candidate = if fixed_left {
                        fixed + others[n - 1]
                    } else {
                        others[n - 1] + fixed
                    };
                    match self.spec_keep(candidate) {
                        Err(e) => Err(e),
                        Ok(true) => Ok(found.push(candidate)),
                        Ok(false) => Ok(found),
                    }
                },
            }
        }
    }

    /// What one row of one side gives: the joined rows that it makes with
    /// the rows of the other side, or, in an outer join where it makes
    /// none, itself beside nulls for the `width` tables of the other side.
    pub open spec fn spec_group(
        &self,
        fixed: Seq<TableRowView>,
        others: Seq<Seq<TableRowView>>,
        fixed_left: bool,
        outer: bool,
        width: nat,
    ) -> Result<Seq<Seq<TableRowView>>, ErrorView> {
        match self.spec_matches(fixed, others, fixed_left, others.len() as int) {
            Err(e) => Err(e),
            Ok(found) => if outer && found.len() == 0 {
                Ok(
                    seq![
                        if fixed_left {
                            fixed + spec_null_rows(width)
                        } else {
                            spec_null_rows(width) + fixed
                        },
                    ],
                )
            } else {
                Ok(found)
            },
        }
    }

    /// What the first `n` rows of one side give, one after the other.
    pub open spec fn spec_groups(
        &self,
        outers: Seq<Seq<TableRowView>>,
        others: Seq<Seq<TableRowView>>,
        fixed_left: bool,
        outer: bool,
        width: nat,
        n: int,
    ) -> Result<Seq<Seq<TableRowView>>, ErrorView>
        decreases n,
    {
        if n <= 0 {
            Ok(Seq::empty())
        } else {
            match self.spec_groups(outers, others, fixed_left, outer, width, n - 1) {
                Err(e) => Err(e),
                Ok(before) => match self.spec_group(
                    outers[n - 1],
                    others,
                    fixed_left,
                    outer,
                    width,
                ) {
                    Err(e) => Err(e),
                    Ok(group) => Ok(before + group),
                },
            }
        }
    }

    /// The joined rows of the join, in the order of the nested loops. A
    /// table gives its rows by key. An inner join gives, for each row of
    /// the left side in turn, the pairs with the rows of the right side
    /// that the constraint is true of, or all pairs without a constraint. A
    /// left join gives the same, and a left row that makes no pair once,
    /// beside nulls; a right join does so with the sides changed round.
    pub open spec fn spec_rows(&self) -> Result<Seq<Seq<TableRowView>>, ErrorView>
        decreases self,
    {
        match self {
            Join::Table(t) => Ok(Seq::new(t.spec_rows().len(), |i: int| seq![t.spec_rows()[i]])),
            Join::Join { left, right, join_operator, .. } => match left.spec_rows() {
                Err(e) => Err(e),
                Ok(l) => match right.spec_rows() {
                    Err(e) => Err(e),
                    Ok(r) => match join_operator {
                        JoinOperator::Inner => self.spec_groups(
                            l,
                            r,
                            true,
                            false,
                            right.spec_num_tables(),
                            l.len() as int,
                        ),
                        JoinOperator::Left => self.spec_groups(
                            l,
                            r,
                            true,
                            true,
                            right.spec_num_tables(),
                            l.len() as int,
                        ),
                        JoinOperator::Right => self.spec_groups(
                            r,
                            l,
                            false,
                            true,
                            left.spec_num_tables(),
                            r.len() as int,
                        ),
                    },
                },
            },
        }
    }

    /// Whether every outer join has a constraint: the first that has none,
    /// left side first, fails with `NoConstraintOnJoin`.
    pub open spec fn spec_validate(&self) -> Result<(), ErrorView>
        decreases self,
    {
        match self {
            Join::Table(_) => Ok(()),
            Join::Join { left, right, join_operator, constraint, .. } => match left.spec_validate() {
                Err(e) => Err(e),
                Ok(()) => match right.spec_validate() {
                    Err(e) => Err(e),
                    Ok(()) => if *join_operator != JoinOperator::Inner && constraint is None {
                        Err(ErrorView::Execution(ExecutionErrorView::NoConstraintOnJoin))
                    } else {
                        Ok(())
                    },
                },
            },
        }
    }

    /// Whether the query knows one of the tables by that name.
    pub fn has_table(&self, table_name: &str) -> (found: bool)
        ensures
            found == self.spec_has_table(table_name@),
        decreases self,
    {
        match self {
            Join::Table(table) => str_eq(table.aliased_table_name(), table_name),
            Join::Join { left, right, .. } => left.has_table(table_name) || right.has_table(
                table_name,
            ),
        }
    }

    /// How many tables the join has.
    pub fn num_tables(&self) -> (count: usize)
        requires
            self.wf(),
        ensures
            count == self.spec_num_tables(),
        decreases self,
    {
        match self {
            Join::Table(_) => 1,
            Join::Join { left, right, .. } => left.num_tables() + right.num_tables(),
        }
    }

    /// What a joined row holds for a column, where the rows of this join's
    /// tables start at position `start` of the joined row.
    pub fn value_at(&self, buffer: &Vec<TableRow>, start: usize, column: &ResolvedColumn) -> (result:
        Result<Value, Error>)
        requires
            self.wf(),
        ensures
            spec_value_result(result) == self.spec_value_at(
                spec_table_rows(buffer@),
                start as int,
                column@,
            ),
        decreases self,
    {
        match self {
            Join::Table(handler) => {
                if start < buffer.len() {
                    assert(spec_table_rows(buffer@)[start as int] == buffer[start as int]@);
                    (handler, &buffer[start]).get_data(column)
                } else {
                    Err(internal("The joined row has no row for the table"))
                }
            },
            Join::Join { left, right, .. } => {
                let table_name = column.table_name();
                let length: usize = buffer.len();
                assert(spec_table_rows(buffer@).len() == length);
                if left.has_table(table_name) {
                    left.value_at(buffer, start, column)
                } else if right.has_table(table_name) {
                    match start.checked_add(left.num_tables()) {
                        Some(at) => right.value_at(buffer, at, column),
                        None => {
                            proof {
                                right.lemma_value_out_of_range(
                                    spec_table_rows(buffer@),
                                    start + left.spec_num_tables(),
                                    column@,
                                );
                            }
                            Err(internal("The joined row has no row for the table"))
                        },
                    }
                } else {
                    Err(internal("Neither side has the table"))
                }
            },
        }
    }

    /// A joined row that ends before the rows of this join start holds
    /// nothing for its columns.
    pub proof fn lemma_value_out_of_range(
        &self,
        buffer: Seq<TableRowView>,
        start: int,
        column: ResolvedColumnView,
    )
        requires
            start >= buffer.len(),
        ensures
            self.spec_value_at(buffer, start, column) == Err::<ValueView, ErrorView>(
                ErrorView::Internal,
            ),
        decreases self,
    {
        match self {
            Join::Table(_) => {},
            Join::Join { left, right, .. } => {
                left.lemma_value_out_of_range(buffer, start, column);
                right.lemma_value_out_of_range(buffer, start + left.spec_num_tables(), column);
            },
        }
    }
}

impl<'a, 'b> GetData for (&'b Join<'a>, &'b Vec<TableRow>) {
    open spec fn row_wf(&self) -> bool {
        self.0.wf()
    }

    open spec fn spec_get_data(&self, column: ResolvedColumnView) -> Result<ValueView, ErrorView> {
        self.0.spec_value_at(spec_table_rows(self.1@), 0, column)
    }

    fn get_data(&self, column_name: &ResolvedColumn) -> (result: Result<Value, Error>) {
        self.0.value_at(self.1, 0, column_name)
    }
}

} // verus!

verus! {

/// What joined rows and their error look like from outside.
pub open spec fn spec_buffers_result(result: Result<Vec<Vec<TableRow>>, Error>) -> Result<
    Seq<Seq<TableRowView>>,
    ErrorView,
> {
    match result {
        Ok(rows) => Ok(spec_buffers(rows@)),
        Err(e) => Err(e@),
    }
}

fn concat_rows(a: &Vec<TableRow>, b: &Vec<TableRow>) -> (joined: Vec<TableRow>)
    ensures
        spec_table_rows(joined@) == spec_table_rows(a@) + spec_table_rows(b@),
{
    let mut joined: Vec<TableRow> = Vec::new();
    let mut i: usize = 0;
    while i < a.len()
        invariant
            i <= a.len(),
            joined.len() == i,
            forall|k: int| 0 <= k < i ==> joined[k]@ == a[k]@,
        decreases a.len() - i,
    {
        joined.push(a[i].duplicate());
        i += 1;
    }
    let mut j: usize = 0;
    while j < b.len()
        invariant
            j <= b.len(),
            joined.len() == a.len() + j,
            forall|k: int| 0 <= k < a.len() ==> joined[k]@ == a[k]@,
            forall|k: int| 0 <= k < j ==> joined[a.len() + k]@ == b[k]@,
        decreases b.len() - j,
    {
        joined.push(b[j].duplicate());
        j += 1;
    }
    assert(spec_table_rows(joined@) =~= spec_table_rows(a@) + spec_table_rows(b@));
    joined
}

fn null_rows(n: usize) -> (rows: Vec<TableRow>)
    ensures
        spec_table_rows(rows@) == spec_null_rows(n as nat),
{
    let mut rows: Vec<TableRow> = Vec::new();
    let mut i: usize = 0;
    while i < n
        invariant
            i <= n,
            rows.len() == i,
            forall|k: int| 0 <= k < i ==> rows[k]@.left.len() == 0 && rows[k]@.right.len() == 0,
        decreases n - i,
    {
        rows.push(TableRow::new(Vec::new(), Vec::new()));
        i += 1;
    }
    assert forall|k: int| 0 <= k < n implies spec_table_rows(rows@)[k] == spec_null_rows(
        n as nat,
    )[k] by {
        assert(rows[k]@.left =~= Seq::<u8>::empty());
        assert(rows[k]@.right =~= Seq::<u8>::empty());
    }
    assert(spec_table_rows(rows@) =~= spec_null_rows(n as nat));
    rows
}

impl<'a> Join<'a> {
    /// Whether the join keeps a pair of rows.
    pub fn keep(&self, buffer: &Vec<TableRow>) -> (result: Result<bool, Error>)
        requires
            self.wf(),
        ensures
            match result {
                Ok(b) => self.spec_keep(spec_table_rows(buffer@)) == Ok::<bool, ErrorView>(b),
                Err(e) => self.spec_keep(spec_table_rows(buffer@)) == Err::<bool, ErrorView>(e@),
            },
    {
        match self {
            Join::Join { constraint: Some(c), .. } => {
                assert(spec_env(&(self, buffer)) =~= self.spec_row_env(spec_table_rows(buffer@)));
                match evaluate_expression(c, &(self, buffer)) {
                    Ok(v) => Ok(v.is_true()),
                    Err(e) => Err(e),
                }
            },
            _ => Ok(true),
        }
    }

    fn matches(&self, fixed: &Vec<TableRow>, others: &Vec<Vec<TableRow>>, fixed_left: bool) -> (result:
        Result<Vec<Vec<TableRow>>, Error>)
        requires
            self.wf(),
        ensures
            spec_buffers_result(result) == self.spec_matches(
                spec_table_rows(fixed@),
                spec_buffers(others@),
                fixed_left,
                others.len() as int,
            ),
    {
        let mut found: Vec<Vec<TableRow>> = Vec::new();
        let mut j: usize = 0;
        assert(spec_buffers(found@) =~= Seq::<Seq<TableRowView>>::empty());
        while j < others.len()
            invariant
                self.wf(),
                j <= others.len(),
                self.spec_matches(
                    spec_table_rows(fixed@),
                    spec_buffers(others@),
                    fixed_left,
                    j as int,
                ) == Ok::<Seq<Seq<TableRowView>>, ErrorView>(spec_buffers(found@)),
            decreases others.len() - j,
        {
            let candidate = if fixed_left {
                concat_rows(fixed, &others[j])
            } else {
                concat_rows(&others[j], fixed)
            };
            assert(spec_buffers(others@)[j as int] == spec_table_rows(others[j as int]@));
            let ghost before = spec_buffers(found@);
            match self.keep(&candidate) {
                Err(e) => {
                    proof {
                        self.lemma_matches_error(
                            spec_table_rows(fixed@),
                            spec_buffers(others@),
                            fixed_left,
                            j + 1,
                            others.len() as int,
                        );
                    }
                    return Err(e);
                },
                Ok(true) => {
                    found.push(candidate);
                    assert(spec_buffers(found@) =~= before.push(spec_table_rows(candidate@)));
                },
                Ok(false) => {},
            }
            j += 1;
        }
        Ok(found)
    }

    /// Once a row fails to be compared, more rows do not change the error.
    pub proof fn lemma_matches_error(
        &self,
        fixed: Seq<TableRowView>,
        others: Seq<Seq<TableRowView>>,
        fixed_left: bool,
        from: int,
        to: int,
    )
        requires
            0 <= from <= to,
            self.spec_matches(fixed, others, fixed_left, from) is Err,
        ensures
            self.spec_matches(fixed, others, fixed_left, to) == self.spec_matches(
                fixed,
                others,
                fixed_left,
                from,
            ),
        decreases to - from,
    {
        if from < to {
            self.lemma_matches_error(fixed, others, fixed_left, from, to - 1);
        }
    }

    /// Once a row of one side fails, more rows do not change the error.
    pub proof fn lemma_groups_error(
        &self,
        outers: Seq<Seq<TableRowView>>,
        others: Seq<Seq<TableRowView>>,
        fixed_left: bool,
        outer: bool,
        width: nat,
        from: int,
        to: int,
    )
        requires
            0 <= from <= to,
            self.spec_groups(outers, others, fixed_left, outer, width, from) is Err,
        ensures
            self.spec_groups(outers, others, fixed_left, outer, width, to) == self.spec_groups(
                outers,
                others,
                fixed_left,
                outer,
                width,
                from,
            ),
        decreases to - from,
    {
        if from < to {
            self.lemma_groups_error(outers, others, fixed_left, outer, width, from, to - 1);
        }
    }

    fn groups(
        &self,
        outers: &Vec<Vec<TableRow>>,
        others: &Vec<Vec<TableRow>>,
        fixed_left: bool,
        outer: bool,
        width: usize,
    ) -> (result: Result<Vec<Vec<TableRow>>, Error>)
        requires
            self.wf(),
        ensures
            spec_buffers_result(result) == self.spec_groups(
                spec_buffers(outers@),
                spec_buffers(others@),
                fixed_left,
                outer,
                width as nat,
                outers.len() as int,
            ),
    {
        let mut rows: Vec<Vec<TableRow>> = Vec::new();
        let mut i: usize = 0;
        assert(spec_buffers(rows@) =~= Seq::<Seq<TableRowView>>::empty());
        while i < outers.len()
            invariant
                self.wf(),
                i <= outers.len(),
                self.spec_groups(
                    spec_buffers(outers@),
                    spec_buffers(others@),
                    fixed_left,
                    outer,
                    width as nat,
                    i as int,
                ) == Ok::<Seq<Seq<TableRowView>>, ErrorView>(spec_buffers(rows@)),
            decreases outers.len() - i,
        {
            assert(spec_buffers(outers@)[i as int] == spec_table_rows(outers[i as int]@));
            let ghost before = spec_buffers(rows@);
            let mut found = match self.matches(&outers[i], others, fixed_left) {
                Ok(found) => found,
                Err(e) => {
                    proof {
                        self.lemma_groups_error(
                            spec_buffers(outers@),
                            spec_buffers(others@),
                            fixed_left,
                            outer,
                            width as nat,
                            i + 1,
                            outers.len() as int,
                        );
                    }
                    return Err(e);
                },
            };
            if outer && found.len() == 0 {
                let nulls = null_rows(width);
                let padded = if fixed_left {
                    concat_rows(&outers[i], &nulls)
                } else {
                    concat_rows(&nulls, &outers[i])
                };
                found.push(padded);
                assert(spec_buffers(found@) =~= seq![spec_table_rows(padded@)]);
            }
            let ghost group = spec_buffers(found@);
            rows.append(&mut found);
            assert(spec_buffers(rows@) =~= before + group);
            i += 1;
        }
        Ok(rows)
    }

    /// The joined rows of the join, in the order of the nested loops.
    pub fn rows(&self) -> (result: Result<Vec<Vec<TableRow>>, Error>)
        requires
            self.wf(),
        ensures
            spec_buffers_result(result) == self.spec_rows(),
        decreases self,
    {
        match self {
            Join::Table(table) => {
                let stored = table.iter();
                let mut rows: Vec<Vec<TableRow>> = Vec::new();
                let mut i: usize = 0;
                while i < stored.len()
                    invariant
                        i <= stored.len(),
                        rows.len() == i,
                        spec_table_rows(stored@) == table.spec_rows(),
                        forall|k: int|
                            0 <= k < i ==> spec_table_rows((#[trigger] rows[k])@)
                                == seq![stored[k]@],
                    decreases stored.len() - i,
                {
                    let mut buffer: Vec<TableRow> = Vec::new();
                    buffer.push(stored[i].duplicate());
                    assert(spec_table_rows(buffer@) =~= seq![stored[i as int]@]);
                    rows.push(buffer);
                    i += 1;
                }
                assert(spec_buffers(rows@) =~= Seq::new(
                    table.spec_rows().len(),
                    |i: int| seq![table.spec_rows()[i]],
                ));
                Ok(rows)
            },
            Join::Join { left, right, join_operator, .. } => {
                let l = match left.rows() {
                    Ok(l) => l,
                    Err(e) => {
                        return Err(e);
                    },
                };
                let r = match right.rows() {
                    Ok(r) => r,
                    Err(e) => {
                        return Err(e);
                    },
                };
                match join_operator {
                    JoinOperator::Inner => self.groups(&l, &r, true, false, right.num_tables()),
                    JoinOperator::Left => self.groups(&l, &r, true, true, right.num_tables()),
                    JoinOperator::Right => self.groups(&r, &l, false, true, left.num_tables()),
                }
            },
        }
    }

    /// Checks that every outer join has a constraint.
    pub fn validate(&self) -> (result: Result<(), Error>)
        ensures
            crate::table_handler::spec_unit_result(result) == self.spec_validate(),
        decreases self,
    {
        match self {
            Join::Table(_) => Ok(()),
            Join::Join { left, right, join_operator, constraint, .. } => {
                match left.validate() {
                    Err(e) => {
                        return Err(e);
                    },
                    Ok(()) => {},
                }
                match right.validate() {
                    Err(e) => {
                        return Err(e);
                    },
                    Ok(()) => {},
                }
                if !matches!(join_operator, JoinOperator::Inner) && constraint.is_none() {
                    Err(Error::Execution(ExecutionError::NoConstraintOnJoin))
                } else {
                    Ok(())
                }
            },
        }
    }
}

} // verus!

verus! {

// ---------------------------------------------------------------------------
// Columns
// ---------------------------------------------------------------------------

/// The columns of a table as a query names them, in the table's order.
pub open spec fn spec_table_columns(table: &TableHandler) -> Seq<ResolvedColumnView> {
    Seq::new(
        table.spec_columns().spec_names().len(),
        |i: int|
            ResolvedColumnView {
                table_name: table.spec_aliased_name(),
                column_name: table.spec_columns().spec_names()[i],
            },
    )
}

/// The first `n` of the columns without those that are excluded.
pub open spec fn spec_without(
    columns: Seq<ResolvedColumnView>,
    excluded: Seq<ResolvedColumnView>,
    n: int,
) -> Seq<ResolvedColumnView>
    decreases n,
{
    if n <= 0 {
        Seq::empty()
    } else {
        let before = spec_without(columns, excluded, n - 1);
        if excluded.contains(columns[n - 1]) {
            before
        } else {
            before.push(columns[n - 1])
        }
    }
}

/// The column that a name resolves to over two sides: the one side's where
/// only one side has it, `AmbiguousName` where both have it, and the left
/// side's error where neither has it.
pub open spec fn spec_resolve_pair(
    left: Result<ResolvedColumnView, ErrorView>,
    right: Result<ResolvedColumnView, ErrorView>,
) -> Result<ResolvedColumnView, ErrorView> {
    match (left, right) {
        (Ok(l), Ok(_)) => Err(ErrorView::Execution(ExecutionErrorView::AmbiguousName(l.column_name))),
        (Ok(l), Err(_)) => Ok(l),
        (Err(_), Ok(r)) => Ok(r),
        (Err(e), Err(_)) => Err(e),
    }
}

fn resolve_pair(left: Result<ResolvedColumn, Error>, right: Result<ResolvedColumn, Error>) -> (result:
    Result<ResolvedColumn, Error>)
    ensures
        crate::spec_column_result(result) == spec_resolve_pair(
            crate::spec_column_result(left),
            crate::spec_column_result(right),
        ),
{
    match (left, right) {
        (Ok(l), Ok(_)) => Err(Error::Execution(ExecutionError::AmbiguousName(l.take_column_name()))),
        (Ok(l), Err(_)) => Ok(l),
        (Err(_), Ok(r)) => Ok(r),
        (Err(e), Err(_)) => Err(e),
    }
}

fn column_eq(a: &ResolvedColumn, b: &ResolvedColumn) -> (equal: bool)
    ensures
        equal == (a@ == b@),
{
    str_eq(a.table_name(), b.table_name()) && str_eq(a.column_name(), b.column_name())
}

fn contains_column(columns: &Vec<ResolvedColumn>, column: &ResolvedColumn) -> (found: bool)
    ensures
        found == columns.deep_view().contains(column@),
{
    let mut i: usize = 0;
    while i < columns.len()
        invariant
            i <= columns.len(),
            forall|k: int| 0 <= k < i ==> columns.deep_view()[k] != column@,
        decreases columns.len() - i,
    {
        assert(columns.deep_view()[i as int] == columns[i as int]@);
        if column_eq(&columns[i], column) {
            return true;
        }
        i += 1;
    }
    false
}

/// What resolved columns and their error look like from outside.
pub open spec fn spec_columns_result(result: Result<Vec<ResolvedColumn>, Error>) -> Result<
    Seq<ResolvedColumnView>,
    ErrorView,
> {
    match result {
        Ok(columns) => Ok(columns.deep_view()),
        Err(e) => Err(e@),
    }
}

fn table_columns(table: &TableHandler) -> (columns: Vec<ResolvedColumn>)
    ensures
        columns.deep_view() == spec_table_columns(table),
{
    let names = table.definition().columns().column_names();
    let mut columns: Vec<ResolvedColumn> = Vec::new();
    let mut i: usize = 0;
    while i < names.len()
        invariant
            i <= names.len(),
            columns.len() == i,
            names.deep_view() == table.spec_columns().spec_names(),
            forall|k: int|
                0 <= k < i ==> (#[trigger] columns[k])@ == (ResolvedColumnView {
                    table_name: table.spec_aliased_name(),
                    column_name: names[k]@,
                }),
        decreases names.len() - i,
    {
        columns.push(ResolvedColumn::new(table.aliased_table_name().to_owned(), names[i].clone()));
        i += 1;
    }
    assert forall|k: int| 0 <= k < columns.len() implies columns.deep_view()[k]
        == spec_table_columns(table)[k] by {
        assert(names.deep_view()[k] == names[k]@);
        assert(columns.deep_view()[k] == columns[k]@);
    }
    assert(columns.deep_view() =~= spec_table_columns(table));
    columns
}

impl<'a> Join<'a> {
    /// The columns that `*` stands for: those of the left side, then those
    /// of the right side that the join does not leave out.
    pub open spec fn spec_wildcard(&self) -> Seq<ResolvedColumnView>
        decreases self,
    {
        match self {
            Join::Table(t) => spec_table_columns(t),
            Join::Join { left, right, exclude_columns, .. } => left.spec_wildcard() + spec_without(
                right.spec_wildcard(),
                exclude_columns.deep_view(),
                right.spec_wildcard().len() as int,
            ),
        }
    }

    /// The columns that `table.*` stands for: those of the table that the
    /// query knows by that name, looked for in the left side first; a name
    /// by which the query knows no table fails with `NoTable`.
    pub open spec fn spec_column_names(&self, table_name: Seq<char>) -> Result<
        Seq<ResolvedColumnView>,
        ErrorView,
    >
        decreases self,
    {
        match self {
            Join::Table(t) => if t.spec_aliased_name() == table_name {
                Ok(spec_table_columns(t))
            } else {
                Err(ErrorView::Internal)
            },
            Join::Join { left, right, .. } => if left.spec_has_table(table_name) {
                left.spec_column_names(table_name)
            } else if right.spec_has_table(table_name) {
                right.spec_column_names(table_name)
            } else {
                Err(ErrorView::Execution(ExecutionErrorView::NoTable(table_name)))
            },
        }
    }

    /// The name by which the query knows the first table, left to right,
    /// that has a column of that name.
    pub open spec fn spec_table_for_column(&self, column_name: Seq<char>) -> Option<Seq<char>>
        decreases self,
    {
        match self {
            Join::Table(t) => if t.spec_columns().spec_names().contains(column_name) {
                Some(t.spec_aliased_name())
            } else {
                None
            },
            Join::Join { left, right, .. } => match left.spec_table_for_column(column_name) {
                Some(t) => Some(t),
                None => right.spec_table_for_column(column_name),
            },
        }
    }

    /// The column that a name stands for in the join.
    pub open spec fn spec_resolve(&self, name: ColumnNameView) -> Result<
        ResolvedColumnView,
        ErrorView,
    >
        decreases self,
    {
        match self {
            Join::Table(t) => t.spec_resolve_name(name),
            Join::Join { left, right, .. } => spec_resolve_pair(
                left.spec_resolve(name),
                right.spec_resolve(name),
            ),
        }
    }

    /// The columns that `*` stands for.
    pub fn wildcard_column_names(&self) -> (columns: Vec<ResolvedColumn>)
        ensures
            columns.deep_view() == self.spec_wildcard(),
        decreases self,
    {
        match self {
            Join::Table(t) => table_columns(t),
            Join::Join { left, right, exclude_columns, .. } => {
                let mut columns = left.wildcard_column_names();
                let others = right.wildcard_column_names();
                let ghost l = columns.deep_view();
                let ghost r = others.deep_view();
                let ghost excluded = exclude_columns.deep_view();
                let mut i: usize = 0;
                assert(columns.deep_view() =~= l + spec_without(r, excluded, 0));
                while i < others.len()
                    invariant
                        i <= others.len(),
                        r == others.deep_view(),
                        excluded == exclude_columns.deep_view(),
                        columns.deep_view() == l + spec_without(r, excluded, i as int),
                    decreases others.len() - i,
                {
                    assert(r[i as int] == others[i as int]@);
                    let ghost before = columns.deep_view();
                    if !contains_column(exclude_columns, &others[i]) {
                        columns.push(others[i].duplicate());
                        assert(columns.deep_view() =~= before.push(r[i as int]));
                    }
                    i += 1;
                    assert(columns.deep_view() =~= l + spec_without(r, excluded, i as int));
                }
                columns
            },
        }
    }

    /// The columns that `table.*` stands for.
    pub fn column_names(&self, table_name: &str) -> (result: Result<Vec<ResolvedColumn>, Error>)
        ensures
            spec_columns_result(result) == self.spec_column_names(table_name@),
        decreases self,
    {
        match self {
            Join::Table(t) => {
                if str_eq(t.aliased_table_name(), table_name) {
                    Ok(table_columns(t))
                } else {
                    Err(internal("table name mismatch"))
                }
            },
            Join::Join { left, right, .. } => {
                if left.has_table(table_name) {
                    left.column_names(table_name)
                } else if right.has_table(table_name) {
                    right.column_names(table_name)
                } else {
                    Err(Error::Execution(ExecutionError::NoTable(table_name.to_owned())))
                }
            },
        }
    }

    /// The name by which the query knows the first table, left to right,
    /// that has a column of that name.
    pub fn table_for_column(&self, column_name: &str) -> (table: Option<&str>)
        ensures
            match table {
                Some(t) => self.spec_table_for_column(column_name@) == Some(t@),
                None => self.spec_table_for_column(column_name@) is None,
            },
        decreases self,
    {
        match self {
            Join::Table(t) => {
                if t.definition().contains_column(column_name) {
                    Some(t.aliased_table_name())
                } else {
                    None
                }
            },
            Join::Join { left, right, .. } => match left.table_for_column(column_name) {
                Some(t) => Some(t),
                None => right.table_for_column(column_name),
            },
        }
    }

    /// Resolves a name against the tables of the join.
    pub fn resolve(&self, name: ColumnName) -> (result: Result<ResolvedColumn, Error>)
        ensures
            crate::spec_column_result(result) == self.spec_resolve(name@),
        decreases self,
    {
        match self {
            Join::Table(table) => table.resolve_name(name),
            Join::Join { left, right, .. } => {
                let left_resolved = left.resolve(name.duplicate());
                let right_resolved = right.resolve(name);
                resolve_pair(left_resolved, right_resolved)
            },
        }
    }
}

impl<'a> TableColumns for Join<'a> {
    open spec fn columns_wf(&self) -> bool {
        true
    }

    open spec fn spec_resolve_name(&self, name: ColumnNameView) -> Result<
        ResolvedColumnView,
        ErrorView,
    > {
        self.spec_resolve(name)
    }

    fn resolve_name(&self, name: ColumnName) -> (result: Result<ResolvedColumn, Error>) {
        self.resolve(name)
    }
}

impl<'a, 'b> TableColumns for (&'b Join<'a>, &'b Join<'a>) {
    open spec fn columns_wf(&self) -> bool {
        true
    }

    /// A name resolves over the two sides as over a join of them.
    open spec fn spec_resolve_name(&self, name: ColumnNameView) -> Result<
        ResolvedColumnView,
        ErrorView,
    > {
        spec_resolve_pair(self.0.spec_resolve(name), self.1.spec_resolve(name))
    }

    fn resolve_name(&self, name: ColumnName) -> (result: Result<ResolvedColumn, Error>) {
        let left_resolved = self.0.resolve(name.duplicate());
        let right_resolved = self.1.resolve(name);
        resolve_pair(left_resolved, right_resolved)
    }
}

// ---------------------------------------------------------------------------
// Constraints of NATURAL and USING
// ---------------------------------------------------------------------------

/// The expression that is always true, with which a chain of equalities
/// starts.
pub open spec fn spec_true_expression() -> ExpressionView {
    ExpressionView::Value(
        ValueView::TypedValue(crate::data_types::TypeContentsView::Integer(1)),
    )
}

/// `left = right`.
pub open spec fn spec_equality(left: ResolvedColumnView, right: ResolvedColumnView) -> ExpressionView {
    ExpressionView::BinaryOp(
        Box::new(ExpressionView::Identifier(left)),
        BinaryOp::Comparison(ComparisonOp::Eq),
        Box::new(ExpressionView::Identifier(right)),
    )
}

/// `chain AND left = right`.
pub open spec fn spec_chain(
    chain: ExpressionView,
    left: ResolvedColumnView,
    right: ResolvedColumnView,
) -> ExpressionView {
    ExpressionView::BinaryOp(Box::new(chain), BinaryOp::And, Box::new(spec_equality(left, right)))
}

/// What a `NATURAL` or `USING` join comes to: the chain of equalities, and
/// for each equality its two columns, left and right.
pub struct Synthesis {
    pub constraint: ExpressionView,
    pub pairs: Seq<(ResolvedColumnView, ResolvedColumnView)>,
}

impl Synthesis {
    /// The right columns: what `*` leaves out.
    pub open spec fn excluded(self) -> Seq<ResolvedColumnView> {
        Seq::new(self.pairs.len(), |i: int| self.pairs[i].1)
    }

    /// Whether a right column of that name is among the pairs.
    pub open spec fn has_name(self, name: Seq<char>) -> bool {
        exists|i: int| 0 <= i < self.pairs.len() && (#[trigger] self.pairs[i]).1.column_name == name
    }
}

/// The last of the first `n` columns that has the name `name`.
pub open spec fn spec_last_named(columns: Seq<ResolvedColumnView>, name: Seq<char>, n: int) -> Option<
    ResolvedColumnView,
>
    decreases n,
{
    if n <= 0 {
        None
    } else if columns[n - 1].column_name == name {
        Some(columns[n - 1])
    } else {
        spec_last_named(columns, name, n - 1)
    }
}

/// What a `NATURAL` join comes to over the first `n` columns of the right
/// side: each right column whose name the left side has, and no earlier
/// right column has, is paired with the last left column of that name.
pub open spec fn spec_natural(
    left: Seq<ResolvedColumnView>,
    right: Seq<ResolvedColumnView>,
    n: int,
) -> Synthesis
    decreases n,
{
    if n <= 0 {
        Synthesis { constraint: spec_true_expression(), pairs: Seq::empty() }
    } else {
        let before = spec_natural(left, right, n - 1);
        let column = right[n - 1];
        if before.has_name(column.column_name) {
            before
        } else {
            match spec_last_named(left, column.column_name, left.len() as int) {
                None => before,
                Some(l) => Synthesis {
                    constraint: spec_chain(before.constraint, l, column),
                    pairs: before.pairs.push((l, column)),
                },
            }
        }
    }
}

/// What a `USING` join comes to over the first `n` of its columns: each
/// is paired between the first table of each side that has it; the first
/// that a side does not have fails with `NoColumn`.
pub open spec fn spec_using(left: &Join, right: &Join, columns: Seq<Seq<char>>, n: int) -> Result<
    Synthesis,
    ErrorView,
>
    decreases n,
{
    if n <= 0 {
        Ok(Synthesis { constraint: spec_true_expression(), pairs: Seq::empty() })
    } else {
        match spec_using(left, right, columns, n - 1) {
            Err(e) => Err(e),
            Ok(before) => match (
                left.spec_table_for_column(columns[n - 1]),
                right.spec_table_for_column(columns[n - 1]),
            ) {
                (Some(l), Some(r)) => {
                    let left_column = ResolvedColumnView {
                        table_name: l,
                        column_name: columns[n - 1],
                    };
                    let right_column = ResolvedColumnView {
                        table_name: r,
                        column_name: columns[n - 1],
                    };
                    Ok(
                        Synthesis {
                            constraint: spec_chain(before.constraint, left_column, right_column),
                            pairs: before.pairs.push((left_column, right_column)),
                        },
                    )
                },
                _ => Err(ErrorView::Execution(ExecutionErrorView::NoColumn(columns[n - 1]))),
            },
        }
    }
}

fn true_expression() -> (e: Expression)
    ensures
        e@ == spec_true_expression(),
{
    Expression::Value(Value::TypedValue(crate::data_types::TypeContents::Integer(1)))
}

fn chain(constraint: Expression, left: ResolvedColumn, right: ResolvedColumn) -> (e: Expression)
    ensures
        e@ == spec_chain(constraint@, left@, right@),
{
    let left_side = Expression::Identifier(left);
    let right_side = Expression::Identifier(right);
    assert(left_side@ == ExpressionView::Identifier(left@));
    assert(right_side@ == ExpressionView::Identifier(right@));
    let equals = Expression::BinaryOp(
        Box::new(left_side),
        BinaryOp::Comparison(ComparisonOp::Eq),
        Box::new(right_side),
    );
    assert(equals@ == spec_equality(left@, right@));
    Expression::BinaryOp(Box::new(constraint), BinaryOp::And, Box::new(equals))
}

fn last_named(columns: &Vec<ResolvedColumn>, name: &str) -> (found: Option<usize>)
    ensures
        match found {
            Some(i) => i < columns.len() && spec_last_named(
                columns.deep_view(),
                name@,
                columns.len() as int,
            ) == Some(columns[i as int]@),
            None => spec_last_named(columns.deep_view(), name@, columns.len() as int) is None,
        },
{
    let mut i: usize = columns.len();
    while i > 0
        invariant
            i <= columns.len(),
            spec_last_named(columns.deep_view(), name@, columns.len() as int) == spec_last_named(
                columns.deep_view(),
                name@,
                i as int,
            ),
        decreases i,
    {
        assert(columns.deep_view()[i - 1] == columns[i - 1]@);
        if str_eq(columns[i - 1].column_name(), name) {
            return Some(i - 1);
        }
        i -= 1;
    }
    None
}

fn has_name(excluded: &Vec<ResolvedColumn>, name: &str) -> (found: bool)
    ensures
        found == exists|i: int|
            0 <= i < excluded.len() && (#[trigger] excluded.deep_view()[i]).column_name == name@,
{
    let mut i: usize = 0;
    while i < excluded.len()
        invariant
            i <= excluded.len(),
            forall|k: int| 0 <= k < i ==> (#[trigger] excluded.deep_view()[k]).column_name != name@,
        decreases excluded.len() - i,
    {
        assert(excluded.deep_view()[i as int] == excluded[i as int]@);
        if str_eq(excluded[i].column_name(), name) {
            return true;
        }
        i += 1;
    }
    false
}

/// The constraint of a `NATURAL` join of two sides with these columns, and
/// the right columns that `*` leaves out.
pub fn natural_constraint(left: &Vec<ResolvedColumn>, right: &Vec<ResolvedColumn>) -> (result: (
    Expression,
    Vec<ResolvedColumn>,
))
    ensures
        result.0@ == spec_natural(
            left.deep_view(),
            right.deep_view(),
            right.len() as int,
        ).constraint,
        result.1.deep_view() == spec_natural(
            left.deep_view(),
            right.deep_view(),
            right.len() as int,
        ).excluded(),
{
    let mut constraint = true_expression();
    let mut excluded: Vec<ResolvedColumn> = Vec::new();
    let ghost l = left.deep_view();
    let ghost r = right.deep_view();
    let mut i: usize = 0;
    assert(excluded.deep_view() =~= spec_natural(l, r, 0).excluded());
    while i < right.len()
        invariant
            i <= right.len(),
            l == left.deep_view(),
            r == right.deep_view(),
            constraint@ == spec_natural(l, r, i as int).constraint,
            excluded.deep_view() == spec_natural(l, r, i as int).excluded(),
        decreases right.len() - i,
    {
        let column = &right[i];
        assert(r[i as int] == column@);
        let ghost before = spec_natural(l, r, i as int);
        proof {
            // A name is among the pairs exactly when it is among the
            // excluded columns.
            if before.has_name(column@.column_name) {
                let k = choose|k: int|
                    0 <= k < before.pairs.len() && (#[trigger] before.pairs[k]).1.column_name
                        == column@.column_name;
                assert(before.excluded()[k].column_name == column@.column_name);
            }
            assert(excluded.deep_view().len() == before.pairs.len());
            assert forall|k: int|
                0 <= k < excluded.len() && (#[trigger] excluded.deep_view()[k]).column_name
                    == column@.column_name implies before.has_name(column@.column_name) by {
                assert(before.excluded()[k] == before.pairs[k].1);
                assert(before.pairs[k].1.column_name == column@.column_name);
            }
        }
        if !has_name(&excluded, column.column_name()) {
            match last_named(left, column.column_name()) {
                Some(at) => {
                    let ghost old_excluded = excluded.deep_view();
                    constraint = chain(constraint, left[at].duplicate(), column.duplicate());
                    excluded.push(column.duplicate());
                    assert(excluded.deep_view() =~= old_excluded.push(column@));
                    assert(spec_natural(l, r, i + 1).excluded() =~= before.excluded().push(column@));
                },
                None => {},
            }
        }
        i += 1;
    }
    (constraint, excluded)
}

impl<'a> Join<'a> {
    /// The constraint of a `USING` join of two sides, and the right columns
    /// that `*` leaves out.
    pub fn using_constraint(left: &Join<'a>, right: &Join<'a>, columns: Vec<String>) -> (result:
        Result<(Expression, Vec<ResolvedColumn>), Error>)
        ensures
            match result {
                Ok((constraint, excluded)) => spec_using(
                    left,
                    right,
                    columns.deep_view(),
                    columns.len() as int,
                ) matches Ok(s) && constraint@ == s.constraint && excluded.deep_view()
                    == s.excluded(),
                Err(e) => spec_using(left, right, columns.deep_view(), columns.len() as int)
                    == Err::<Synthesis, ErrorView>(e@),
            },
    {
        let mut constraint = true_expression();
        let mut excluded: Vec<ResolvedColumn> = Vec::new();
        let ghost names = columns.deep_view();
        let mut i: usize = 0;
        assert(excluded.deep_view() =~= spec_using(left, right, names, 0)->Ok_0.excluded());
        while i < columns.len()
            invariant
                i <= columns.len(),
                names == columns.deep_view(),
                spec_using(left, right, names, i as int) matches Ok(s) && constraint@
                    == s.constraint && excluded.deep_view() == s.excluded(),
            decreases columns.len() - i,
        {
            let column_name = &columns[i];
            assert(names[i as int] == column_name@);
            let ghost before = spec_using(left, right, names, i as int)->Ok_0;
            match (
                left.table_for_column(column_name.as_str()),
                right.table_for_column(column_name.as_str()),
            ) {
                (Some(left_table), Some(right_table)) => {
                    let ghost old_excluded = excluded.deep_view();
                    let left_column = ResolvedColumn::new(
                        left_table.to_owned(),
                        column_name.clone(),
                    );
                    let right_column = ResolvedColumn::new(
                        right_table.to_owned(),
                        column_name.clone(),
                    );
                    excluded.push(right_column.duplicate());
                    constraint = chain(constraint, left_column, right_column);
                    assert(excluded.deep_view() =~= old_excluded.push(right_column@));
                    assert(spec_using(left, right, names, i + 1)->Ok_0.excluded()
                        =~= before.excluded().push(right_column@));
                },
                _ => {
                    proof {
                        lemma_using_error(left, right, names, i + 1, columns.len() as int);
                    }
                    return Err(Error::Execution(ExecutionError::NoColumn(column_name.clone())));
                },
            }
            i += 1;
        }
        Ok((constraint, excluded))
    }
}

/// Once a column of `USING` fails, more columns do not change the error.
pub proof fn lemma_using_error(left: &Join, right: &Join, columns: Seq<Seq<char>>, from: int, to: int)
    requires
        0 <= from <= to,
        spec_using(left, right, columns, from) is Err,
    ensures
        spec_using(left, right, columns, to) == spec_using(left, right, columns, from),
    decreases to - from,
{
    if from < to {
        lemma_using_error(left, right, columns, from, to - 1);
    }
}

} // verus!

verus! {

// ---------------------------------------------------------------------------
// Building joins
// ---------------------------------------------------------------------------

/// Whether a handler is that of the table that `table` names in a
/// database, under its alias.
pub open spec fn spec_opened(
    interpreter: &Interpreter,
    name: Seq<char>,
    alias: Option<Seq<char>>,
    handler: &TableHandler,
) -> bool {
    &&& crate::interpreter::spec_table_position(
        interpreter.spec_catalog().spec_names(),
        name,
        0,
    ) matches Some(i)
    &&& handler.spec_rows() == interpreter.spec_trees()[i]@
    &&& *handler.spec_definition() == interpreter.spec_catalog().spec_definitions()[i]
    &&& handler.spec_name() == name
    &&& handler.spec_alias() == alias
}

/// Whether the constraint and the left-out columns of a join of two sides
/// are what the clause of the statement comes to.
pub open spec fn spec_constrained(
    left: &Join,
    right: &Join,
    clause: JoinConstraint,
    constraint: Option<Expression>,
    excluded: Seq<ResolvedColumnView>,
) -> bool {
    match clause {
        JoinConstraint::On(e) => constraint matches Some(c) && crate::interpreter::spec_resolve_expression(
            e,
            crate::spec_resolver(&(left, right)),
        ) == Ok::<ExpressionView, ErrorView>(c@) && excluded == Seq::<ResolvedColumnView>::empty(),
        JoinConstraint::Natural => {
            let s = spec_natural(
                left.spec_wildcard(),
                right.spec_wildcard(),
                right.spec_wildcard().len() as int,
            );
            constraint matches Some(c) && c@ == s.constraint && excluded == s.excluded()
        },
        JoinConstraint::Using(columns) => spec_using(
            left,
            right,
            columns.deep_view(),
            columns.len() as int,
        ) matches Ok(s) && (constraint matches Some(c) && c@ == s.constraint) && excluded
            == s.excluded(),
        JoinConstraint::Unconstrained => constraint is None && excluded == Seq::<
            ResolvedColumnView,
        >::empty(),
    }
}

/// Whether the clause of a join of two sides fails with that error: a
/// column of `ON` that does not resolve, or a column of `USING` that a
/// side does not have.
pub open spec fn spec_constraint_fails(
    left: &Join,
    right: &Join,
    clause: JoinConstraint,
    error: ErrorView,
) -> bool {
    match clause {
        JoinConstraint::On(e) => crate::interpreter::spec_resolve_expression(
            e,
            crate::spec_resolver(&(left, right)),
        )
            == Err::<ExpressionView, ErrorView>(error),
        JoinConstraint::Using(columns) => spec_using(
            left,
            right,
            columns.deep_view(),
            columns.len() as int,
        ) == Err::<Synthesis, ErrorView>(error),
        _ => false,
    }
}

/// Whether a join is the one that the tables of a `FROM` clause come to
/// in a database.
pub open spec fn spec_built(interpreter: &Interpreter, joins: TableJoins, join: &Join) -> bool
    decreases joins,
{
    match joins {
        TableJoins::Table(table) => join matches Join::Table(handler) && spec_opened(
            interpreter,
            table.name@,
            match table.alias {
                Some(a) => Some(a@),
                None => None,
            },
            handler,
        ),
        TableJoins::Join { left, right, operator, constraint } => join matches Join::Join {
            left: l,
            right: r,
            constraint: c,
            join_operator,
            exclude_columns,
        } && spec_built(interpreter, *left, l) && spec_built(interpreter, *right, r)
            && *join_operator == operator && spec_constrained(
            l,
            r,
            constraint,
            *c,
            exclude_columns.deep_view(),
        ),
    }
}

/// Whether two sides that are built cannot be joined, with that error: an
/// internal error where they have more tables together than can be
/// counted, else the error of the clause.
pub open spec fn spec_sides_fail(left: &Join, right: &Join, clause: JoinConstraint, error: ErrorView) -> bool {
    if left.spec_num_tables() + right.spec_num_tables() > usize::MAX {
        error == ErrorView::Internal
    } else {
        spec_constraint_fails(left, right, clause, error)
    }
}

/// Whether the tables of a `FROM` clause fail with that error in a
/// database: the first table that the database does not have fails with
/// `NoTable`, and a clause fails once both of its sides are built; the left
/// side comes before the right side.
pub open spec fn spec_build_fails(interpreter: &Interpreter, joins: TableJoins, error: ErrorView) -> bool
    decreases joins,
{
    match joins {
        TableJoins::Table(table) => crate::interpreter::spec_table_position(
            interpreter.spec_catalog().spec_names(),
            table.name@,
            0,
        ) is None && error == ErrorView::Execution(ExecutionErrorView::NoTable(table.name@)),
        TableJoins::Join { left, right, constraint, .. } => spec_build_fails(
            interpreter,
            *left,
            error,
        ) || exists|l: Join|
            #[trigger] spec_built(interpreter, *left, &l) && (spec_build_fails(
                interpreter,
                *right,
                error,
            ) || exists|r: Join|
                #[trigger] spec_built(interpreter, *right, &r) && spec_sides_fail(
                    &l,
                    &r,
                    constraint,
                    error,
                )),
    }
}

impl<'a> Join<'a> {
    /// Opens the tables of a `FROM` clause and puts them together.
    pub fn new(interpreter: &'a Interpreter, joins: TableJoins) -> (result: Result<Join<'a>, Error>)
        requires
            interpreter.wf(),
        ensures
            match result {
                Ok(join) => join.wf() && spec_built(interpreter, joins, &join),
                Err(e) => spec_build_fails(interpreter, joins, e@),
            },
        decreases joins,
    {
        let ghost original = joins;
        match joins {
            TableJoins::Table(table_name) => {
                match interpreter.open_table(table_name.name, table_name.alias) {
                    Ok(handler) => Ok(Join::Table(handler)),
                    Err(e) => Err(e),
                }
            },
            TableJoins::Join { left, right, operator, constraint } => {
                let left = match Join::new(interpreter, *left) {
                    Ok(l) => l,
                    Err(e) => {
                        return Err(e);
                    },
                };
                let right = match Join::new(interpreter, *right) {
                    Ok(r) => r,
                    Err(e) => {
                        return Err(e);
                    },
                };
                if left.num_tables() > usize::MAX - right.num_tables() {
                    return Err(internal("Too many tables"));
                }
                let (constraint, exclude_columns) = match constraint {
                    JoinConstraint::On(e) => {
                        match resolve_expression(e, &(&left, &right)) {
                            Ok(c) => (Some(c), Vec::new()),
                            Err(e) => {
                                return Err(e);
                            },
                        }
                    },
                    JoinConstraint::Natural => {
                        let (c, excluded) = natural_constraint(
                            &left.wildcard_column_names(),
                            &right.wildcard_column_names(),
                        );
                        (Some(c), excluded)
                    },
                    JoinConstraint::Using(columns) => {
                        match Join::using_constraint(&left, &right, columns) {
                            Ok((c, excluded)) => (Some(c), excluded),
                            Err(e) => {
                                return Err(e);
                            },
                        }
                    },
                    JoinConstraint::Unconstrained => (None, Vec::new()),
                };
                proof {
                    if constraint is None || (original matches TableJoins::Join {
                        constraint: JoinConstraint::On(_),
                        ..
                    }) {
                        assert(exclude_columns.deep_view() =~= Seq::<ResolvedColumnView>::empty());
                    }
                }
                Ok(
                    Join::Join {
                        left: Box::new(left),
                        right: Box::new(right),
                        join_operator: operator,
                        constraint,
                        exclude_columns,
                    },
                )
            },
        }
    }
}

/// The tables of a query, or none for a query without `FROM`.
pub enum JoinHandler<'a> {
    Join(Join<'a>),
    Empty,
}

/// A joined row, or the one row of a query without tables.
pub enum RowValue<'b> {
    Data(&'b Vec<TableRow>),
    Empty,
}

impl<'a> JoinHandler<'a> {
    /// The invariant of the tables.
    pub open spec fn wf(&self) -> bool {
        match self {
            JoinHandler::Join(join) => join.wf(),
            JoinHandler::Empty => true,
        }
    }

    /// Opens the tables of a `FROM` clause, if there is one.
    pub fn new(interpreter: &'a Interpreter, joins: Option<TableJoins>) -> (result: Result<
        Self,
        Error,
    >)
        requires
            interpreter.wf(),
        ensures
            match result {
                Ok(handler) => handler.wf() && match joins {
                    Some(j) => handler matches JoinHandler::Join(join) && spec_built(
                        interpreter,
                        j,
                        &join,
                    ),
                    None => handler is Empty,
                },
                Err(e) => joins matches Some(j) && spec_build_fails(interpreter, j, e@),
            },
    {
        match joins {
            Some(joins) => match Join::new(interpreter, joins) {
                Ok(join) => Ok(JoinHandler::Join(join)),
                Err(e) => Err(e),
            },
            None => Ok(JoinHandler::Empty),
        }
    }

    /// The columns that `*` stands for; `NoTables` without tables.
    pub fn all_column_names(&self) -> (result: Result<Vec<ResolvedColumn>, Error>)
        ensures
            spec_columns_result(result) == match self {
                JoinHandler::Join(join) => Ok::<Seq<ResolvedColumnView>, ErrorView>(
                    join.spec_wildcard(),
                ),
                JoinHandler::Empty => Err(ErrorView::Execution(ExecutionErrorView::NoTables)),
            },
    {
        match self {
            JoinHandler::Join(join) => Ok(join.wildcard_column_names()),
            JoinHandler::Empty => Err(Error::Execution(ExecutionError::NoTables)),
        }
    }

    /// The columns that `table.*` stands for; `NoTables` without tables.
    pub fn column_names(&self, table_name: &str) -> (result: Result<Vec<ResolvedColumn>, Error>)
        ensures
            spec_columns_result(result) == match self {
                JoinHandler::Join(join) => join.spec_column_names(table_name@),
                JoinHandler::Empty => Err(ErrorView::Execution(ExecutionErrorView::NoTables)),
            },
    {
        match self {
            JoinHandler::Join(join) => join.column_names(table_name),
            JoinHandler::Empty => Err(Error::Execution(ExecutionError::NoTables)),
        }
    }

    /// The joined rows: those of the join, in the order of the nested
    /// loops, or one row that holds nothing for a query without tables. An
    /// outer join without a constraint fails with `NoConstraintOnJoin`
    /// before any row is looked at.
    pub open spec fn spec_rows(&self) -> Result<Seq<Seq<TableRowView>>, ErrorView> {
        match self {
            JoinHandler::Join(join) => match join.spec_validate() {
                Err(e) => Err(e),
                Ok(()) => join.spec_rows(),
            },
            JoinHandler::Empty => Ok(seq![Seq::empty()]),
        }
    }

    /// What a joined row holds for a column; nothing for a query without
    /// tables, which is an internal error.
    pub open spec fn spec_value(&self, buffer: Seq<TableRowView>, column: ResolvedColumnView) -> Result<
        ValueView,
        ErrorView,
    > {
        match self {
            JoinHandler::Join(join) => join.spec_value_at(buffer, 0, column),
            JoinHandler::Empty => Err(ErrorView::Internal),
        }
    }

    /// What a joined row holds for each column.
    pub open spec fn spec_row_env(&self, buffer: Seq<TableRowView>) -> RowEnv {
        |column: ResolvedColumnView| self.spec_value(buffer, column)
    }

    /// The joined rows.
    pub fn rows(&self) -> (result: Result<Vec<Vec<TableRow>>, Error>)
        requires
            self.wf(),
        ensures
            spec_buffers_result(result) == self.spec_rows(),
    {
        match self {
            JoinHandler::Join(join) => {
                match join.validate() {
                    Err(e) => {
                        return Err(e);
                    },
                    Ok(()) => {},
                }
                join.rows()
            },
            JoinHandler::Empty => {
                let mut rows: Vec<Vec<TableRow>> = Vec::new();
                rows.push(Vec::new());
                assert(spec_table_rows(rows[0]@) =~= Seq::<TableRowView>::empty());
                assert(spec_buffers(rows@) =~= seq![Seq::<TableRowView>::empty()]);
                Ok(rows)
            },
        }
    }

    /// An iterator over the joined rows of which `filter`, if there is
    /// one, is true. A query without tables has no filter.
    pub fn iter<'b>(&'b self, filter: Option<Expression>) -> (result: Result<
        JoinHandlerIter<'a, 'b>,
        Error,
    >)
        requires
            self.wf(),
        ensures
            match result {
                Ok(iter) => iter.wf() && iter.spec_handler() == self && self.spec_rows() == Ok::<
                    Seq<Seq<TableRowView>>,
                    ErrorView,
                >(iter.spec_rows()) && iter.spec_position() == 0 && iter.spec_filter() == match (
                    self,
                    filter,
                ) {
                    (JoinHandler::Join(_), Some(f)) => Some(f@),
                    _ => None,
                },
                Err(e) => self.spec_rows() == Err::<Seq<Seq<TableRowView>>, ErrorView>(e@),
            },
    {
        match self.rows() {
            Ok(rows) => {
                proof {
                    if self is Empty {
                        let expected = seq![Seq::<TableRowView>::empty()];
                        assert(spec_buffers(rows@) == expected);
                        assert(expected.len() == 1);
                        assert(expected[0].len() == 0);
                        assert forall|i: int| 0 <= i < rows.len() implies (
                        #[trigger] rows[i]).len() == 0 by {
                            assert(spec_buffers(rows@)[i] == spec_table_rows(rows[i]@));
                            assert(spec_table_rows(rows[i]@).len() == rows[i].len());
                        }
                    }
                }
                let filter = match self {
                    JoinHandler::Join(_) => filter,
                    JoinHandler::Empty => None,
                };
                Ok(JoinHandlerIter { handler: self, rows, position: 0, filter })
            },
            Err(e) => Err(e),
        }
    }
}

impl<'a> TableColumns for JoinHandler<'a> {
    open spec fn columns_wf(&self) -> bool {
        true
    }

    /// A name resolves against the tables of the join; without tables it
    /// fails with `NoColumn`.
    open spec fn spec_resolve_name(&self, name: ColumnNameView) -> Result<
        ResolvedColumnView,
        ErrorView,
    > {
        match self {
            JoinHandler::Join(join) => join.spec_resolve(name),
            JoinHandler::Empty => Err(
                ErrorView::Execution(ExecutionErrorView::NoColumn(name.column_name)),
            ),
        }
    }

    fn resolve_name(&self, name: ColumnName) -> (result: Result<ResolvedColumn, Error>) {
        match self {
            JoinHandler::Join(join) => join.resolve(name),
            JoinHandler::Empty => Err(Error::Execution(ExecutionError::NoColumn(name.to_string()))),
        }
    }
}

impl<'a, 'b, 'c> GetData for (&'c JoinHandler<'a>, &'c RowValue<'b>) {
    open spec fn row_wf(&self) -> bool {
        self.0.wf()
    }

    /// A joined row holds what the join finds in it; a row without tables,
    /// or tables without a row, hold nothing, which is an internal error.
    open spec fn spec_get_data(&self, column: ResolvedColumnView) -> Result<ValueView, ErrorView> {
        match (self.0, self.1) {
            (JoinHandler::Join(j), RowValue::Data(d)) => j.spec_value_at(
                spec_table_rows(d@),
                0,
                column,
            ),
            _ => Err(ErrorView::Internal),
        }
    }

    fn get_data(&self, column_name: &ResolvedColumn) -> (result: Result<Value, Error>) {
        match (self.0, self.1) {
            (JoinHandler::Join(j), RowValue::Data(d)) => j.value_at(d, 0, column_name),
            _ => Err(internal("Getdata on invalid")),
        }
    }
}

/// The first joined row, from position `from` on, of which the filter is
/// true; the error of the first row before it of which the filter cannot
/// be evaluated.
pub open spec fn spec_next_kept(
    handler: &JoinHandler,
    filter: Option<ExpressionView>,
    rows: Seq<Seq<TableRowView>>,
    from: int,
) -> Result<Option<int>, ErrorView>
    decreases rows.len() - from,
{
    if from < 0 || from >= rows.len() {
        Ok(None)
    } else {
        match filter {
            None => Ok(Some(from)),
            Some(f) => match spec_evaluate(f, handler.spec_row_env(rows[from])) {
                Err(e) => Err(e),
                Ok(v) => if spec_is_true(v) {
                    Ok(Some(from))
                } else {
                    spec_next_kept(handler, filter, rows, from + 1)
                },
            },
        }
    }
}

/// An iterator over the joined rows of a query of which its filter is
/// true.
pub struct JoinHandlerIter<'a, 'b> {
    handler: &'b JoinHandler<'a>,
    rows: Vec<Vec<TableRow>>,
    position: usize,
    filter: Option<Expression>,
}

impl<'a, 'b> JoinHandlerIter<'a, 'b> {
    /// The tables of the query.
    pub closed spec fn spec_handler(&self) -> &JoinHandler<'a> {
        self.handler
    }

    /// All joined rows, before the filter.
    pub closed spec fn spec_rows(&self) -> Seq<Seq<TableRowView>> {
        spec_buffers(self.rows@)
    }

    /// How many joined rows the iterator has passed.
    pub closed spec fn spec_position(&self) -> int {
        self.position as int
    }

    /// The filter.
    pub closed spec fn spec_filter(&self) -> Option<ExpressionView> {
        match self.filter {
            Some(f) => Some(f@),
            None => None,
        }
    }

    /// The invariant of the iterator.
    pub closed spec fn wf(&self) -> bool {
        self.handler.wf() && self.position <= self.rows.len() && (self.handler is Empty
            ==> forall|i: int| 0 <= i < self.rows.len() ==> (#[trigger] self.rows[i]).len() == 0)
    }

    /// The next joined row of which the filter is true, or nothing once
    /// there is none left. A row of which the filter cannot be evaluated
    /// gives its error and is passed.
    pub fn get_next(&mut self) -> (result: Result<Option<RowValue<'_>>, Error>)
        requires
            old(self).wf(),
        ensures
            final(self).wf(),
            final(self).spec_handler() == old(self).spec_handler(),
            final(self).spec_rows() == old(self).spec_rows(),
            final(self).spec_filter() == old(self).spec_filter(),
            match result {
                Ok(Some(row)) => spec_next_kept(
                    old(self).spec_handler(),
                    old(self).spec_filter(),
                    old(self).spec_rows(),
                    old(self).spec_position(),
                ) matches Ok(Some(k)) && final(self).spec_position() == k + 1 && (match row {
                    RowValue::Data(d) => !(old(self).spec_handler() is Empty) && spec_table_rows(d@)
                        == old(self).spec_rows()[k],
                    RowValue::Empty => old(self).spec_handler() is Empty,
                }),
                Ok(None) => spec_next_kept(
                    old(self).spec_handler(),
                    old(self).spec_filter(),
                    old(self).spec_rows(),
                    old(self).spec_position(),
                ) == Ok::<Option<int>, ErrorView>(None) && final(self).spec_position()
                    == old(self).spec_rows().len(),
                Err(e) => spec_next_kept(
                    old(self).spec_handler(),
                    old(self).spec_filter(),
                    old(self).spec_rows(),
                    old(self).spec_position(),
                ) == Err::<Option<int>, ErrorView>(e@),
            },
    {
        let ghost start = self.position as int;
        let ghost rows = self.spec_rows();
        let handler: &'b JoinHandler<'a> = self.handler;
        let mut found: Option<usize> = None;
        while self.position < self.rows.len()
            invariant_except_break
                found is None,
                spec_next_kept(handler, self.spec_filter(), rows, start) == spec_next_kept(
                    handler,
                    self.spec_filter(),
                    rows,
                    self.position as int,
                ),
            invariant
                self.wf(),
                handler == self.handler,
                self.handler == old(self).handler,
                self.rows == old(self).rows,
                self.filter == old(self).filter,
                rows == self.spec_rows(),
                start <= self.position,
                start == old(self).position,
            ensures
                match found {
                    Some(k) => k < self.rows.len() && spec_next_kept(
                        handler,
                        self.spec_filter(),
                        rows,
                        start,
                    ) == Ok::<Option<int>, ErrorView>(Some(k as int)) && self.position == k + 1,
                    None => spec_next_kept(handler, self.spec_filter(), rows, start) == Ok::<
                        Option<int>,
                        ErrorView,
                    >(None) && self.position == self.rows.len(),
                },
            decreases self.rows.len() - self.position,
        {
            let at = self.position;
            assert(rows[at as int] == spec_table_rows(self.rows[at as int]@));
            self.position = self.position + 1;
            let keep = match &self.filter {
                None => true,
                Some(f) => {
                    let value = match handler {
                        JoinHandler::Join(join) => {
                            assert(spec_env(&(join, &self.rows[at as int]))
                                =~= handler.spec_row_env(rows[at as int]));
                            evaluate_expression(f, &(join, &self.rows[at]))
                        },
                        JoinHandler::Empty => {
                            assert(spec_env(&crate::Unreadable) =~= handler.spec_row_env(
                                rows[at as int],
                            ));
                            evaluate_expression(f, &crate::Unreadable)
                        },
                    };
                    match value {
                        Ok(v) => v.is_true(),
                        Err(e) => {
                            assert(self.spec_filter() == Some(f@));
                            assert(spec_evaluate(f@, handler.spec_row_env(rows[at as int])) == Err::<
                                ValueView,
                                ErrorView,
                            >(e@));
                            assert(spec_next_kept(handler, self.spec_filter(), rows, at as int)
                                == Err::<Option<int>, ErrorView>(e@));
                            return Err(e);
                        },
                    }
                },
            };
            if keep {
                found = Some(at);
                break ;
            }
        }
        match found {
            Some(k) => match handler {
                JoinHandler::Join(_) => Ok(Some(RowValue::Data(&self.rows[k]))),
                JoinHandler::Empty => Ok(Some(RowValue::Empty)),
            },
            None => Ok(None),
        }
    }
}

} // verus!
