//! What the constraints of tables promise of the rows of a database.

use vstd::prelude::*;
use crate::ast::ForeignKeyAction;
use crate::data_types::{spec_compare, Comparison, ValueView};
use crate::error::ErrorView;
use crate::foreign_key::{
    spec_check_row, spec_dangling, spec_delete_row, spec_handle_children, spec_insert,
    spec_referred, spec_resolve_record, spec_update_row, spec_values_of, ActionView,
    ForeignKeyRecordView, ResolvedKeyView, Rows, Visit,
};
use crate::interpreter::{lemma_insert_rows_error, spec_insert_rows, Catalog};
use crate::table_handler::{spec_check_constraints, spec_find, TableRowView};

verus! {

/// A row that violates a `CHECK`, a `NOT NULL`, a `UNIQUE` or the
/// `PRIMARY KEY` of its table is not inserted: the insertion fails, with
/// the error of the constraint where the row has as many values as the
/// table has columns.
pub proof fn lemma_rejected_row(
    catalog: &Catalog,
    records: Seq<ForeignKeyRecordView>,
    rows: Rows,
    table: int,
    values: Seq<ValueView>,
)
    requires
        spec_check_constraints(&catalog.spec_definitions()[table], rows[table], values, None) is Err,
    ensures
        spec_insert(catalog, records, rows, table, values) is Err,
        values.len() == crate::foreign_key::spec_types_of(catalog, table).len() ==> spec_insert(
            catalog,
            records,
            rows,
            table,
            values,
        ) == Err::<Rows, ErrorView>(
            spec_check_constraints(
                &catalog.spec_definitions()[table],
                rows[table],
                values,
                None,
            )->Err_0,
        ),
{
    reveal(spec_insert);
    reveal(spec_check_row);
}

/// A statement that inserts rows inserts none where one of them, in its
/// turn, violates a constraint of the table: the rows after the statement
/// are not defined, and the database keeps those it had.
pub proof fn lemma_rejected_rows(
    catalog: &Catalog,
    records: Seq<ForeignKeyRecordView>,
    rows: Rows,
    table: int,
    source: Seq<Seq<ValueView>>,
    k: int,
)
    requires
        0 <= k < source.len(),
        spec_insert_rows(catalog, records, rows, table, None, source, k) matches Ok(before)
            && spec_check_constraints(
            &catalog.spec_definitions()[table],
            before[table],
            source[k],
            None,
        ) is Err,
    ensures
        spec_insert_rows(catalog, records, rows, table, None, source, source.len() as int) is Err,
{
    let before = spec_insert_rows(catalog, records, rows, table, None, source, k)->Ok_0;
    lemma_rejected_row(catalog, records, before, table, source[k]);
    assert(spec_insert_rows(catalog, records, rows, table, None, source, k + 1) is Err);
    lemma_insert_rows_error(catalog, records, rows, table, None, source, k + 1, source.len() as int);
}

proof fn lemma_not_referred(
    catalog: &Catalog,
    key: ResolvedKeyView,
    rows: Seq<TableRowView>,
    parent: Seq<ValueView>,
    from: int,
    j: int,
)
    requires
        0 <= from <= j < rows.len(),
        spec_referred(catalog, key, rows, parent, from) == Ok::<bool, ErrorView>(false),
    ensures
        spec_values_of(catalog, key.child, rows[j]) matches Ok(child) && !key.references(
            child,
            parent,
        ),
    decreases rows.len() - from,
{
    if from < j {
        lemma_not_referred(catalog, key, rows, parent, from + 1, j);
    }
}

proof fn lemma_not_dangling(
    catalog: &Catalog,
    records: Seq<ForeignKeyRecordView>,
    rows: Rows,
    table: int,
    parent: Seq<ValueView>,
    from: int,
    f: int,
)
    requires
        0 <= from <= f < records.len(),
        records[f].referred_table == catalog.spec_names()[table],
        spec_dangling(catalog, records, rows, table, parent, from) is Ok,
    ensures
        spec_resolve_record(catalog, records[f]) matches Ok(key) && spec_referred(
            catalog,
            key,
            rows[key.child],
            parent,
            0,
        ) == Ok::<bool, ErrorView>(false),
    decreases records.len() - from,
{
    if from < f {
        lemma_not_dangling(catalog, records, rows, table, parent, from + 1, f);
    }
}

/// After a row is deleted, whatever its foreign keys say is to happen to
/// the rows that refer to it, no row refers to it any more: for every
/// foreign key that refers to its table, no row of the referring table
/// holds, in the key's columns, values equal to those of the deleted row.
pub proof fn lemma_delete_leaves_no_reference(
    catalog: &Catalog,
    records: Seq<ForeignKeyRecordView>,
    rows: Rows,
    table: int,
    key: Seq<u8>,
    chain: Seq<Visit>,
    fuel: nat,
    f: int,
    j: int,
)
    requires
        spec_delete_row(catalog, records, rows, table, key, chain, fuel) is Ok,
        spec_find(rows[table], key, 0) is Some,
        0 <= f < records.len(),
        records[f].referred_table == catalog.spec_names()[table],
        spec_resolve_record(catalog, records[f]) matches Ok(k) && 0 <= j < spec_delete_row(
            catalog,
            records,
            rows,
            table,
            key,
            chain,
            fuel,
        )->Ok_0[k.child].len(),
    ensures
        ({
            let after = spec_delete_row(catalog, records, rows, table, key, chain, fuel)->Ok_0;
            let k = spec_resolve_record(catalog, records[f])->Ok_0;
            let deleted = spec_values_of(
                catalog,
                table,
                rows[table][spec_find(rows[table], key, 0)->Some_0 as int],
            );
            deleted matches Ok(parent) && spec_values_of(
                catalog,
                k.child,
                after[k.child][j],
            ) matches Ok(child) && !k.references(child, parent)
        }),
{
    let after = spec_delete_row(catalog, records, rows, table, key, chain, fuel)->Ok_0;
    let k = spec_resolve_record(catalog, records[f])->Ok_0;
    let i = spec_find(rows[table], key, 0)->Some_0;
    let parent = spec_values_of(catalog, table, rows[table][i as int])->Ok_0;
    lemma_not_dangling(catalog, records, after, table, parent, 0, f);
    lemma_not_referred(catalog, k, after[k.child], parent, 0, j);
}

/// A referring row whose key columns are set to null holds null in each
/// of them and what it held in every other column, and refers to no row.
pub proof fn lemma_with_nulls(key: ResolvedKeyView, child: Seq<ValueView>, parent: Seq<ValueView>)
    requires
        key.child_columns.len() > 0,
        forall|i: int|
            0 <= i < key.child_columns.len() ==> (#[trigger] key.child_columns[i]) < child.len(),
    ensures
        key.with_nulls(child).len() == child.len(),
        forall|c: int|
            0 <= c < child.len() ==> #[trigger] key.with_nulls(child)[c] == if key.child_columns.contains(
                c as usize,
            ) {
                ValueView::Null
            } else {
                child[c]
            },
        !key.references(key.with_nulls(child), parent),
{
    let column = key.child_columns[0];
    assert(key.child_columns.contains(column));
    assert(key.with_nulls(child)[column as int] is Null);
    assert(spec_compare(key.with_nulls(child)[column as int], parent[key.parent_columns[0] as int])
        == Comparison::Unknown);
}

/// Where a row that refers to a deleted row is to have its key columns
/// set to null, and the row with the nulls violates a constraint of its
/// table, the deletion fails as a whole.
pub proof fn lemma_set_null_rejected(
    catalog: &Catalog,
    records: Seq<ForeignKeyRecordView>,
    rows: Rows,
    key: ResolvedKeyView,
    parent: Seq<ValueView>,
    chain: Seq<Visit>,
    fuel: nat,
    snapshot: Seq<TableRowView>,
    from: int,
)
    requires
        0 <= from < snapshot.len(),
        key.on_delete == ForeignKeyAction::SetNull,
        spec_find(rows[key.child], snapshot[from].left, 0) matches Some(i) && spec_values_of(
            catalog,
            key.child,
            rows[key.child][i as int],
        ) matches Ok(child) && key.references(child, parent) && spec_check_row(
            catalog,
            records,
            rows,
            key.child,
            key.with_nulls(child),
            Some(snapshot[from].left),
        ) is Err,
    ensures
        spec_handle_children(
            catalog,
            records,
            rows,
            key,
            parent,
            ActionView::Delete,
            chain,
            fuel,
            snapshot,
            from,
        ) is Err,
{
    let row_key = snapshot[from].left;
    let i = spec_find(rows[key.child], row_key, 0)->Some_0;
    let child = spec_values_of(catalog, key.child, rows[key.child][i as int])->Ok_0;
    assert(spec_update_row(
        catalog,
        records,
        rows,
        key.child,
        row_key,
        key.with_nulls(child),
        chain,
        fuel,
    ) is Err);
}

} // verus!
