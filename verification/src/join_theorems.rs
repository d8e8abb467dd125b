//! What the rows of a join are, stated over the rows of its two sides.

use vstd::prelude::*;
use crate::ast::JoinOperator;
use crate::data_types::spec_is_true;
use crate::error::ErrorView;
use crate::interpreter::spec_evaluate;
use crate::join_handler::{spec_equality, spec_natural, spec_table_columns, spec_without, Join};
use crate::resolved_expression::ResolvedColumnView;
use crate::table_handler::TableRowView;
use crate::RowEnv;

verus! {

/// The pairs of one row with the first `n` rows of the other side, in
/// their order.
pub open spec fn spec_pairs(
    fixed: Seq<TableRowView>,
    others: Seq<Seq<TableRowView>>,
    n: int,
) -> Seq<Seq<TableRowView>>
    decreases n,
{
    if n <= 0 {
        Seq::empty()
    } else {
        spec_pairs(fixed, others, n - 1).push(fixed + others[n - 1])
    }
}

/// The pairs of the first `n` rows of the left side with all rows of the
/// right side: the product of the two sides, left row by left row.
pub open spec fn spec_product(
    l: Seq<Seq<TableRowView>>,
    r: Seq<Seq<TableRowView>>,
    n: int,
) -> Seq<Seq<TableRowView>>
    decreases n,
{
    if n <= 0 {
        Seq::empty()
    } else {
        spec_product(l, r, n - 1) + spec_pairs(l[n - 1], r, r.len() as int)
    }
}

/// Whether the join's constraint is true of a joined row, as a function.
pub open spec fn spec_kept(join: &Join) -> spec_fn(Seq<TableRowView>) -> bool {
    |buffer: Seq<TableRowView>| join.spec_keep(buffer) == Ok::<bool, ErrorView>(true)
}

/// Whether the join's constraint cannot be evaluated on the pair of the
/// `i`th left row and the `k`th right row.
pub open spec fn spec_pair_fails(
    join: &Join,
    l: Seq<Seq<TableRowView>>,
    r: Seq<Seq<TableRowView>>,
    i: int,
    k: int,
) -> bool {
    0 <= i < l.len() && 0 <= k < r.len() && join.spec_keep(l[i] + r[k]) is Err
}

/// Whether a join joins sides with those rows by that operator.
pub open spec fn spec_joins(
    join: &Join,
    operator: JoinOperator,
    l: Seq<Seq<TableRowView>>,
    r: Seq<Seq<TableRowView>>,
) -> bool {
    match join {
        Join::Table(_) => false,
        Join::Join { left, right, join_operator, .. } => {
            &&& *join_operator == operator
            &&& left.spec_rows() == Ok::<Seq<Seq<TableRowView>>, ErrorView>(l)
            &&& right.spec_rows() == Ok::<Seq<Seq<TableRowView>>, ErrorView>(r)
        },
    }
}

proof fn lemma_matches_filter(
    join: &Join,
    l: Seq<Seq<TableRowView>>,
    r: Seq<Seq<TableRowView>>,
    i: int,
    n: int,
)
    requires
        0 <= i < l.len(),
        0 <= n <= r.len(),
    ensures
        match join.spec_matches(l[i], r, true, n) {
            Ok(found) => found == spec_pairs(l[i], r, n).filter(spec_kept(join)) && forall|k: int|
                0 <= k < n ==> !spec_pair_fails(join, l, r, i, k),
            Err(_) => exists|k: int| 0 <= k < n && spec_pair_fails(join, l, r, i, k),
        },
    decreases n,
{
    reveal(Seq::filter);
    if n > 0 {
        lemma_matches_filter(join, l, r, i, n - 1);
        let pairs = spec_pairs(l[i], r, n);
        assert(pairs.drop_last() =~= spec_pairs(l[i], r, n - 1));
        assert(pairs.last() == l[i] + r[n - 1]);
        match join.spec_matches(l[i], r, true, n - 1) {
            Err(_) => {
                let k = choose|k: int| 0 <= k < n - 1 && spec_pair_fails(join, l, r, i, k);
                assert(0 <= k < n && spec_pair_fails(join, l, r, i, k));
            },
            Ok(_) => {
                if join.spec_keep(l[i] + r[n - 1]) is Err {
                    assert(spec_pair_fails(join, l, r, i, n - 1));
                }
            },
        }
    }
}

proof fn lemma_groups_filter(
    join: &Join,
    l: Seq<Seq<TableRowView>>,
    r: Seq<Seq<TableRowView>>,
    width: nat,
    n: int,
)
    requires
        0 <= n <= l.len(),
    ensures
        match join.spec_groups(l, r, true, false, width, n) {
            Ok(rows) => rows == spec_product(l, r, n).filter(spec_kept(join)) && forall|
                i: int,
                k: int,
            | 0 <= i < n ==> !spec_pair_fails(join, l, r, i, k),
            Err(_) => exists|i: int, k: int| 0 <= i < n && spec_pair_fails(join, l, r, i, k),
        },
    decreases n,
{
    reveal(Seq::filter);
    if n > 0 {
        lemma_groups_filter(join, l, r, width, n - 1);
        lemma_matches_filter(join, l, r, n - 1, r.len() as int);
        match join.spec_groups(l, r, true, false, width, n - 1) {
            Err(_) => {
                let (i, k) = choose|i: int, k: int|
                    0 <= i < n - 1 && spec_pair_fails(join, l, r, i, k);
                assert(0 <= i < n && spec_pair_fails(join, l, r, i, k));
            },
            Ok(before) => {
                match join.spec_matches(l[n - 1], r, true, r.len() as int) {
                    Err(_) => {
                        let last = n - 1;
                        let k = choose|k: int|
                            0 <= k < r.len() && spec_pair_fails(join, l, r, last, k);
                        assert(0 <= last < n && spec_pair_fails(join, l, r, last, k));
                    },
                    Ok(found) => {
                        Seq::filter_distributes_over_add(
                            spec_product(l, r, n - 1),
                            spec_pairs(l[n - 1], r, r.len() as int),
                            spec_kept(join),
                        );
                    },
                }
            },
        }
    }
}

/// An inner join gives exactly the pairs of a row of the left side with a
/// row of the right side of which its constraint is true, all pairs where
/// it has no constraint: the product of the two sides, left row by left
/// row, without the pairs of which the constraint is not true. It gives
/// rows if and only if the constraint can be evaluated on every pair.
pub proof fn lemma_inner_join(join: &Join, l: Seq<Seq<TableRowView>>, r: Seq<Seq<TableRowView>>)
    requires
        spec_joins(join, JoinOperator::Inner, l, r),
    ensures
        match join.spec_rows() {
            Ok(rows) => rows == spec_product(l, r, l.len() as int).filter(spec_kept(join))
                && forall|i: int, k: int| !spec_pair_fails(join, l, r, i, k),
            Err(_) => exists|i: int, k: int| spec_pair_fails(join, l, r, i, k),
        },
{
    match join {
        Join::Table(_) => {},
        Join::Join { left, right, .. } => {
            lemma_groups_filter(join, l, r, right.spec_num_tables(), l.len() as int);
        },
    }
}

/// Every row of an inner join is one of which its constraint is true.
pub proof fn lemma_inner_join_kept(
    join: &Join,
    l: Seq<Seq<TableRowView>>,
    r: Seq<Seq<TableRowView>>,
    m: int,
)
    requires
        spec_joins(join, JoinOperator::Inner, l, r),
        join.spec_rows() is Ok,
        0 <= m < join.spec_rows()->Ok_0.len(),
    ensures
        join.spec_keep(join.spec_rows()->Ok_0[m]) == Ok::<bool, ErrorView>(true),
{
    broadcast use vstd::seq_lib::group_filter_ensures;

    lemma_inner_join(join, l, r);
    let product = spec_product(l, r, l.len() as int);
    assert(spec_kept(join)(product.filter(spec_kept(join))[m]));
}

/// Whether a joined row begins with the rows of `prefix`.
pub open spec fn spec_starts_with(row: Seq<TableRowView>, prefix: Seq<TableRowView>) -> bool {
    row.len() >= prefix.len() && row.take(prefix.len() as int) == prefix
}

/// Whether the `m`th of the rows begins with the rows of `prefix`.
pub open spec fn spec_row_from(
    rows: Seq<Seq<TableRowView>>,
    m: int,
    prefix: Seq<TableRowView>,
) -> bool {
    0 <= m < rows.len() && spec_starts_with(rows[m], prefix)
}

proof fn lemma_matches_start(
    join: &Join,
    fixed: Seq<TableRowView>,
    others: Seq<Seq<TableRowView>>,
    n: int,
)
    requires
        0 <= n <= others.len(),
    ensures
        join.spec_matches(fixed, others, true, n) matches Ok(found) ==> forall|m: int|
            0 <= m < found.len() ==> spec_starts_with(#[trigger] found[m], fixed),
    decreases n,
{
    if n > 0 {
        lemma_matches_start(join, fixed, others, n - 1);
        assert((fixed + others[n - 1]).take(fixed.len() as int) =~= fixed);
    }
}

/// Whether one of the rows begins with the rows of `prefix`.
pub open spec fn spec_begins_some(rows: Seq<Seq<TableRowView>>, prefix: Seq<TableRowView>) -> bool {
    exists|m: int| spec_row_from(rows, m, prefix)
}

proof fn lemma_groups_left(
    join: &Join,
    l: Seq<Seq<TableRowView>>,
    r: Seq<Seq<TableRowView>>,
    width: nat,
    n: int,
)
    requires
        0 <= n <= l.len(),
    ensures
        join.spec_groups(l, r, true, true, width, n) is Ok ==> {
            let rows = join.spec_groups(l, r, true, true, width, n)->Ok_0;
            &&& rows.len() >= n
            &&& forall|i: int| 0 <= i < n ==> spec_begins_some(rows, #[trigger] l[i])
        },
    decreases n,
{
    if n > 0 {
        lemma_groups_left(join, l, r, width, n - 1);
        lemma_matches_start(join, l[n - 1], r, r.len() as int);
        let all = join.spec_groups(l, r, true, true, width, n);
        if all is Ok {
            let rows = all->Ok_0;
            let before = join.spec_groups(l, r, true, true, width, n - 1)->Ok_0;
            let group = join.spec_group(l[n - 1], r, true, true, width)->Ok_0;
            let found = join.spec_matches(l[n - 1], r, true, r.len() as int)->Ok_0;
            assert(rows == before + group);
            assert((l[n - 1] + crate::join_handler::spec_null_rows(width)).take(
                l[n - 1].len() as int,
            ) =~= l[n - 1]);
            if found.len() == 0 {
                assert(group[0] == l[n - 1] + crate::join_handler::spec_null_rows(width));
            } else {
                assert(group == found);
                assert(spec_starts_with(found[0], l[n - 1]));
            }
            assert(group.len() >= 1);
            assert(spec_starts_with(group[0], l[n - 1]));
            assert forall|i: int| 0 <= i < n implies spec_begins_some(rows, #[trigger] l[i]) by {
                if i < n - 1 {
                    assert(spec_begins_some(before, l[i]));
                    let m = choose|m: int| spec_row_from(before, m, l[i]);
                    assert(rows[m] == before[m]);
                    assert(spec_row_from(rows, m, l[i]));
                } else {
                    assert(rows[before.len() as int] == group[0]);
                    assert(spec_row_from(rows, before.len() as int, l[i]));
                }
            }
        }
    }
}

/// A left join gives at least as many rows as its left side has, and
/// every row of the left side begins at least one of them.
pub proof fn lemma_left_join(join: &Join, l: Seq<Seq<TableRowView>>, r: Seq<Seq<TableRowView>>)
    requires
        spec_joins(join, JoinOperator::Left, l, r),
    ensures
        join.spec_rows() is Ok ==> {
            let rows = join.spec_rows()->Ok_0;
            &&& rows.len() >= l.len()
            &&& forall|i: int| 0 <= i < l.len() ==> spec_begins_some(rows, #[trigger] l[i])
        },
{
    match join {
        Join::Table(_) => {},
        Join::Join { left, right, .. } => {
            lemma_groups_left(join, l, r, right.spec_num_tables(), l.len() as int);
        },
    }
}

/// Whether two columns hold equal values in a row: `left = right` is true
/// of it.
pub open spec fn spec_agree(row: RowEnv, left: ResolvedColumnView, right: ResolvedColumnView) -> bool {
    spec_evaluate(spec_equality(left, right), row) matches Ok(v) && spec_is_true(v)
}

/// Whether one of the columns has the name.
pub open spec fn spec_has_named(columns: Seq<ResolvedColumnView>, name: Seq<char>) -> bool {
    exists|i: int| 0 <= i < columns.len() && (#[trigger] columns[i]).column_name == name
}

/// Whether no two of the columns have one name.
pub open spec fn spec_distinct_names(columns: Seq<ResolvedColumnView>) -> bool {
    forall|i: int, j: int|
        0 <= i < j < columns.len() ==> (#[trigger] columns[i]).column_name != (
        #[trigger] columns[j]).column_name
}

/// What a `NATURAL` join pairs: each pair is a column of the left side and
/// a column of the right side of one name, no name is paired twice, and
/// every name that both sides have is paired.
pub proof fn lemma_natural_pairs(
    left: Seq<ResolvedColumnView>,
    right: Seq<ResolvedColumnView>,
    n: int,
)
    requires
        0 <= n <= right.len(),
    ensures
        forall|i: int|
            0 <= i < spec_natural(left, right, n).pairs.len() ==> {
                let pair = #[trigger] spec_natural(left, right, n).pairs[i];
                &&& left.contains(pair.0)
                &&& right.contains(pair.1)
                &&& pair.0.column_name == pair.1.column_name
            },
        forall|i: int, j: int|
            0 <= i < j < spec_natural(left, right, n).pairs.len() ==> (#[trigger] spec_natural(
                left,
                right,
                n,
            ).pairs[i]).1.column_name != (#[trigger] spec_natural(
                left,
                right,
                n,
            ).pairs[j]).1.column_name,
        forall|k: int|
            0 <= k < n && spec_has_named(left, (#[trigger] right[k]).column_name) ==> spec_natural(
                left,
                right,
                n,
            ).has_name(right[k].column_name),
    decreases n,
{
    if n > 0 {
        lemma_natural_pairs(left, right, n - 1);
        let before = spec_natural(left, right, n - 1);
        let after = spec_natural(left, right, n);
        let column = right[n - 1];
        lemma_last_named(left, column.column_name, left.len() as int);
        if before.has_name(column.column_name) {
        } else {
            match crate::join_handler::spec_last_named(left, column.column_name, left.len() as int) {
                None => {},
                Some(l) => {
                    assert(after.pairs == before.pairs.push((l, column)));
                    assert(after.pairs[before.pairs.len() as int] == (l, column));
                    assert(after.has_name(column.column_name));
                    assert forall|i: int, j: int| 0 <= i < j < after.pairs.len() implies (
                    #[trigger] after.pairs[i]).1.column_name != (
                    #[trigger] after.pairs[j]).1.column_name by {
                        if j == before.pairs.len() {
                            assert(after.pairs[i] == before.pairs[i]);
                        }
                    }
                },
            }
        }
        assert forall|k: int|
            0 <= k < n && spec_has_named(left, (#[trigger] right[k]).column_name) implies after.has_name(
            right[k].column_name,
        ) by {
            if k < n - 1 {
                let name = right[k].column_name;
                assert(before.has_name(name));
                let i = choose|i: int|
                    0 <= i < before.pairs.len() && (#[trigger] before.pairs[i]).1.column_name
                        == name;
                assert(after.pairs[i] == before.pairs[i]);
            }
        }
    }
}

proof fn lemma_last_named(columns: Seq<ResolvedColumnView>, name: Seq<char>, n: int)
    requires
        0 <= n <= columns.len(),
    ensures
        match crate::join_handler::spec_last_named(columns, name, n) {
            Some(c) => columns.contains(c) && c.column_name == name,
            None => forall|i: int| 0 <= i < n ==> (#[trigger] columns[i]).column_name != name,
        },
    decreases n,
{
    if n > 0 {
        lemma_last_named(columns, name, n - 1);
    }
}

/// Where the chain of equalities of a `NATURAL` join is true of a row,
/// the two columns of every pair hold equal values in it.
pub proof fn lemma_natural_agree(
    left: Seq<ResolvedColumnView>,
    right: Seq<ResolvedColumnView>,
    n: int,
    row: RowEnv,
)
    requires
        spec_evaluate(spec_natural(left, right, n).constraint, row) matches Ok(v) && spec_is_true(
            v,
        ),
    ensures
        forall|i: int|
            0 <= i < spec_natural(left, right, n).pairs.len() ==> {
                let pair = #[trigger] spec_natural(left, right, n).pairs[i];
                spec_agree(row, pair.0, pair.1)
            },
    decreases n,
{
    if n > 0 {
        let before = spec_natural(left, right, n - 1);
        let after = spec_natural(left, right, n);
        if after == before {
            lemma_natural_agree(left, right, n - 1, row);
        } else {
            let column = right[n - 1];
            let l = crate::join_handler::spec_last_named(
                left,
                column.column_name,
                left.len() as int,
            )->Some_0;
            assert(after.constraint == crate::join_handler::spec_chain(
                before.constraint,
                l,
                column,
            ));
            assert(after.pairs == before.pairs.push((l, column)));
            lemma_natural_agree(left, right, n - 1, row);
            assert(spec_agree(row, l, column));
            assert forall|i: int| 0 <= i < after.pairs.len() implies {
                let pair = #[trigger] after.pairs[i];
                spec_agree(row, pair.0, pair.1)
            } by {
                if i < before.pairs.len() {
                    assert(after.pairs[i] == before.pairs[i]);
                }
            }
        }
    }
}

/// Whether the column is one of the first `n` columns.
pub open spec fn spec_among(columns: Seq<ResolvedColumnView>, n: int, c: ResolvedColumnView) -> bool {
    exists|i: int| 0 <= i < n && i < columns.len() && (#[trigger] columns[i]) == c
}

/// Of the first `n` columns, those stay that are not left out.
pub proof fn lemma_without(
    columns: Seq<ResolvedColumnView>,
    excluded: Seq<ResolvedColumnView>,
    n: int,
    c: ResolvedColumnView,
)
    requires
        0 <= n <= columns.len(),
    ensures
        spec_without(columns, excluded, n).contains(c) <==> spec_among(columns, n, c)
            && !excluded.contains(c),
    decreases n,
{
    if n > 0 {
        lemma_without(columns, excluded, n - 1, c);
        let before = spec_without(columns, excluded, n - 1);
        let after = spec_without(columns, excluded, n);
        let last = columns[n - 1];
        if spec_among(columns, n - 1, c) {
            let i = choose|i: int| 0 <= i < n - 1 && i < columns.len() && (#[trigger] columns[i]) == c;
            assert(spec_among(columns, n, c));
        }
        if spec_among(columns, n, c) && !spec_among(columns, n - 1, c) {
            let i = choose|i: int| 0 <= i < n && i < columns.len() && (#[trigger] columns[i]) == c;
            if i < n - 1 {
                assert(spec_among(columns, n - 1, c));
            }
            assert(last == c);
        }
        if last == c {
            assert(spec_among(columns, n, c));
        }
        if excluded.contains(last) {
            assert(after == before);
        } else {
            assert(after == before.push(last));
            if before.contains(c) {
                let m = choose|m: int| 0 <= m < before.len() && before[m] == c;
                assert(after[m] == c);
            }
            if last == c {
                assert(after[before.len() as int] == c);
            }
            if after.contains(c) {
                let m = choose|m: int| 0 <= m < after.len() && after[m] == c;
                if m < before.len() {
                    assert(before[m] == c);
                }
            }
        }
    }
}

/// Whether the join is a `NATURAL` inner join of a left side with one
/// table: its constraint and the columns that `*` leaves out are what the
/// columns of the two sides come to.
pub open spec fn spec_is_natural(join: &Join) -> bool {
    match join {
        Join::Table(_) => false,
        Join::Join { left, right, constraint, join_operator, exclude_columns } => {
            let s = spec_natural(
                left.spec_wildcard(),
                right.spec_wildcard(),
                right.spec_wildcard().len() as int,
            );
            &&& join.wf()
            &&& **right is Table
            &&& *join_operator == JoinOperator::Inner
            &&& constraint matches Some(c) && c@ == s.constraint
            &&& exclude_columns.deep_view() == s.excluded()
        },
    }
}

/// Whether, in the `m`th row of the join, the `j`th column of the left
/// side has the name of the `k`th column of the right side and holds an
/// equal value.
pub open spec fn spec_agree_at(join: &Join, m: int, j: int, k: int) -> bool {
    let lc = join->left.spec_wildcard();
    let rc = join->right.spec_wildcard();
    &&& 0 <= j < lc.len()
    &&& lc[j].column_name == rc[k].column_name
    &&& spec_agree(join.spec_row_env(join.spec_rows()->Ok_0[m]), lc[j], rc[k])
}

proof fn lemma_paired(
    left: Seq<ResolvedColumnView>,
    right: Seq<ResolvedColumnView>,
    k: int,
) -> (p: int)
    requires
        0 <= k < right.len(),
        spec_distinct_names(right),
        spec_has_named(left, right[k].column_name),
    ensures
        0 <= p < spec_natural(left, right, right.len() as int).pairs.len(),
        spec_natural(left, right, right.len() as int).pairs[p].1 == right[k],
        left.contains(spec_natural(left, right, right.len() as int).pairs[p].0),
        spec_natural(left, right, right.len() as int).pairs[p].0.column_name
            == right[k].column_name,
{
    let n = right.len() as int;
    let s = spec_natural(left, right, n);
    lemma_natural_pairs(left, right, n);
    let name = right[k].column_name;
    assert(s.has_name(name));
    let p = choose|p: int| 0 <= p < s.pairs.len() && (#[trigger] s.pairs[p]).1.column_name == name;
    let pair = s.pairs[p];
    assert(right.contains(pair.1));
    let k2 = choose|k2: int| 0 <= k2 < right.len() && right[k2] == pair.1;
    if k2 < k {
        assert(right[k2].column_name != right[k].column_name);
    } else if k < k2 {
        assert(right[k].column_name != right[k2].column_name);
    }
    p
}

/// A `NATURAL` join of a left side with a table: where a column of the
/// left side and a column of the table have one name, then in every row
/// that the join gives a column of the left side of that name holds a
/// value equal to that of the table's column; it is that very column where
/// no two columns of the left side have one name.
pub proof fn lemma_natural_join_rows(join: &Join, m: int, i: int, k: int)
    requires
        spec_is_natural(join),
        join.spec_rows() is Ok,
        0 <= m < join.spec_rows()->Ok_0.len(),
        0 <= i < join->left.spec_wildcard().len(),
        0 <= k < join->right.spec_wildcard().len(),
        join->left.spec_wildcard()[i].column_name == join->right.spec_wildcard()[k].column_name,
    ensures
        exists|j: int| spec_agree_at(join, m, j, k),
        spec_distinct_names(join->left.spec_wildcard()) ==> spec_agree_at(join, m, i, k),
{
    match join {
        Join::Table(_) => {},
        Join::Join { left, right, constraint, join_operator, exclude_columns } => {
            let lc = left.spec_wildcard();
            let rc = right.spec_wildcard();
            let n = rc.len() as int;
            let s = spec_natural(lc, rc, n);
            let rows = join.spec_rows()->Ok_0;
            let row = join.spec_row_env(rows[m]);
            let l = left.spec_rows()->Ok_0;
            let r = right.spec_rows()->Ok_0;
            assert(spec_joins(join, JoinOperator::Inner, l, r));
            lemma_inner_join_kept(join, l, r, m);
            lemma_natural_agree(lc, rc, n, row);
            lemma_table_distinct(&**right);
            assert(spec_has_named(lc, rc[k].column_name));
            let p = lemma_paired(lc, rc, k);
            let pair = s.pairs[p];
            assert(spec_agree(row, pair.0, pair.1));
            let j = choose|j: int| 0 <= j < lc.len() && lc[j] == pair.0;
            assert(spec_agree_at(join, m, j, k));
            if spec_distinct_names(lc) {
                if j < i {
                    assert(lc[j].column_name != lc[i].column_name);
                } else if i < j {
                    assert(lc[i].column_name != lc[j].column_name);
                }
            }
        },
    }
}

/// A `NATURAL` join of a left side with a table: `*` shows the columns of
/// the left side and then those of the table that it does not leave out,
/// and none of these has a name that the left side has. A column that
/// both sides have is shown once, as the left side's.
pub proof fn lemma_natural_join_columns(join: &Join, c: ResolvedColumnView)
    requires
        spec_is_natural(join),
    ensures
        join.spec_wildcard() == join->left.spec_wildcard() + spec_without(
            join->right.spec_wildcard(),
            join->exclude_columns.deep_view(),
            join->right.spec_wildcard().len() as int,
        ),
        spec_without(
            join->right.spec_wildcard(),
            join->exclude_columns.deep_view(),
            join->right.spec_wildcard().len() as int,
        ).contains(c) <==> join->right.spec_wildcard().contains(c) && !spec_has_named(
            join->left.spec_wildcard(),
            c.column_name,
        ),
{
    match join {
        Join::Table(_) => {},
        Join::Join { left, right, constraint, join_operator, exclude_columns } => {
            let lc = left.spec_wildcard();
            let rc = right.spec_wildcard();
            let n = rc.len() as int;
            let s = spec_natural(lc, rc, n);
            lemma_without(rc, s.excluded(), n, c);
            lemma_table_distinct(&**right);
            lemma_natural_pairs(lc, rc, n);
            if rc.contains(c) {
                let k = choose|k: int| 0 <= k < rc.len() && rc[k] == c;
                assert(spec_among(rc, n, c));
                if spec_has_named(lc, c.column_name) {
                    let p = lemma_paired(lc, rc, k);
                    assert(s.excluded()[p] == c);
                    assert(s.excluded().contains(c));
                } else {
                    if s.excluded().contains(c) {
                        let p = choose|p: int| 0 <= p < s.excluded().len() && s.excluded()[p] == c;
                        let pair = s.pairs[p];
                        assert(lc.contains(pair.0));
                        let j = choose|j: int| 0 <= j < lc.len() && lc[j] == pair.0;
                        assert(lc[j].column_name == c.column_name);
                        assert(spec_has_named(lc, c.column_name));
                    }
                }
            }
            if spec_among(rc, n, c) {
                let k = choose|k: int| 0 <= k < n && k < rc.len() && (#[trigger] rc[k]) == c;
                assert(rc.contains(c));
            }
        },
    }
}

/// No two columns of a table have one name.
pub proof fn lemma_table_distinct(join: &Join)
    requires
        join.wf(),
        join is Table,
    ensures
        spec_distinct_names(join.spec_wildcard()),
{
    match join {
        Join::Table(t) => {
            let names = t.spec_columns().spec_names();
            assert(names.no_duplicates());
            assert forall|i: int, j: int| 0 <= i < j < spec_table_columns(t).len() implies (
            #[trigger] spec_table_columns(t)[i]).column_name != (#[trigger] spec_table_columns(
                t,
            )[j]).column_name by {
                assert(names[i] != names[j]);
            }
        },
        _ => {},
    }
}

} // verus!
