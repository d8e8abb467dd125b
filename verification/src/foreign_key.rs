//! Foreign keys: the table in which they are recorded, and what they ask
//! of the rows of the tables that they link.

use co_sort::Permutation;
use vstd::prelude::*;
use vstd::string::{StrSliceExecFns, StringExecFns};
use crate::ast::{str_eq, ForeignKey, ForeignKeyAction};
use crate::data_types::{
    spec_compare, Comparison, Type, TypeContents, TypeContentsView, Value, ValueView,
};
use crate::error::{internal, Error, ErrorView, ExecutionError, ExecutionErrorView};
use crate::storage::{spec_decode_column, spec_index_of, Columns};
use crate::interpreter::{spec_table_position, spec_trees_view, spec_trees_wf, Catalog};
use crate::table_definition::TableDefinition;
use crate::table_handler::{
    spec_check_constraints, spec_table_rows, spec_unit_result, TableHandler, TableRow,
    TableRowView, Tree,
};

verus! {

broadcast use vstd::string::group_string_axioms;

// ---------------------------------------------------------------------------
// Lists of names as one string
// ---------------------------------------------------------------------------

/// The names with `|` between them.
pub open spec fn spec_join_names(names: Seq<Seq<char>>) -> Seq<char>
    decreases names.len(),
{
    if names.len() == 0 {
        Seq::empty()
    } else if names.len() == 1 {
        names[0]
    } else {
        spec_join_names(names.drop_last()) + seq!['|'] + names.last()
    }
}

/// The pieces of a string between its `|`s: what comes after the last `|`
/// is the last piece, a string without `|` is one piece.
pub open spec fn spec_split_names(text: Seq<char>) -> Seq<Seq<char>>
    decreases text.len(),
{
    if text.len() == 0 {
        seq![Seq::empty()]
    } else {
        let before = spec_split_names(text.drop_last());
        if text.last() == '|' {
            before.push(Seq::empty())
        } else {
            before.drop_last().push(before.last().push(text.last()))
        }
    }
}

/// A string always splits into at least one piece.
pub proof fn lemma_split_names_len(text: Seq<char>)
    ensures
        spec_split_names(text).len() >= 1,
    decreases text.len(),
{
    if text.len() > 0 {
        lemma_split_names_len(text.drop_last());
    }
}

/// Names without `|`, at least one of them, come back when they are
/// joined and split again.
pub proof fn lemma_join_split(names: Seq<Seq<char>>)
    requires
        names.len() >= 1,
        forall|i: int, j: int| 0 <= i < names.len() && 0 <= j < names[i].len() ==> names[i][j] != '|',
    ensures
        spec_split_names(spec_join_names(names)) == names,
    decreases names.len(),
{
    if names.len() == 1 {
        lemma_split_plain(names[0]);
        assert(names =~= seq![names[0]]);
    } else {
        let rest = names.drop_last();
        assert forall|i: int, j: int| 0 <= i < rest.len() && 0 <= j < rest[i].len() implies rest[i][j]
            != '|' by {
            assert(rest[i] == names[i]);
        }
        lemma_join_split(rest);
        let prefix = spec_join_names(rest) + seq!['|'];
        assert(prefix.drop_last() =~= spec_join_names(rest));
        assert(spec_split_names(prefix) == rest.push(Seq::empty()));
        lemma_split_append(prefix, names.last());
        assert(rest.push(Seq::empty()).drop_last() =~= rest);
        assert(Seq::<char>::empty() + names.last() =~= names.last());
        assert(rest.push(names.last()) =~= names);
    }
}

proof fn lemma_split_plain(name: Seq<char>)
    requires
        forall|j: int| 0 <= j < name.len() ==> name[j] != '|',
    ensures
        spec_split_names(name) == seq![name],
    decreases name.len(),
{
    if name.len() > 0 {
        lemma_split_plain(name.drop_last());
        assert(name.drop_last().push(name.last()) =~= name);
        assert(seq![name.drop_last()].last() == name.drop_last());
        assert(seq![name.drop_last()].drop_last() =~= Seq::<Seq<char>>::empty());
        assert(seq![name.drop_last()].drop_last().push(name.drop_last().push(name.last()))
            =~= seq![name]);
    } else {
        assert(name =~= Seq::<char>::empty());
    }
}

proof fn lemma_split_append(text: Seq<char>, name: Seq<char>)
    requires
        forall|j: int| 0 <= j < name.len() ==> name[j] != '|',
    ensures
        spec_split_names(text + name) == spec_split_names(text).drop_last().push(
            spec_split_names(text).last() + name,
        ),
    decreases name.len(),
{
    lemma_split_names_len(text);
    if name.len() == 0 {
        assert(text + name =~= text);
        assert(spec_split_names(text).last() + name =~= spec_split_names(text).last());
        assert(spec_split_names(text).drop_last().push(spec_split_names(text).last())
            =~= spec_split_names(text));
    } else {
        lemma_split_append(text, name.drop_last());
        assert((text + name).drop_last() =~= text + name.drop_last());
        let before = spec_split_names(text + name.drop_last());
        assert(before.last() == spec_split_names(text).last() + name.drop_last());
        assert(before.drop_last() =~= spec_split_names(text).drop_last());
        assert((spec_split_names(text).last() + name.drop_last()).push(name.last())
            =~= spec_split_names(text).last() + name);
    }
}

/// The names with `|` between them.
pub fn join_names(names: &Vec<String>) -> (text: String)
    ensures
        text@ == spec_join_names(names.deep_view()),
{
    let mut text = String::new();
    let mut i: usize = 0;
    proof {
        reveal_strlit("|");
        assert(names.deep_view().take(0) =~= Seq::<Seq<char>>::empty());
    }
    while i < names.len()
        invariant
            i <= names.len(),
            text@ == spec_join_names(names.deep_view().take(i as int)),
            "|"@ == seq!['|'],
        decreases names.len() - i,
    {
        let ghost before = names.deep_view().take(i as int);
        let ghost after = names.deep_view().take(i + 1);
        proof {
            assert(after.drop_last() =~= before);
            assert(after.last() == names[i as int]@);
        }
        if i > 0 {
            text.append("|");
        }
        text.append(names[i].as_str());
        proof {
            if i == 0 {
                assert(Seq::<char>::empty() + names[i as int]@ =~= names[i as int]@);
            }
        }
        i += 1;
    }
    assert(names.deep_view().take(names.len() as int) =~= names.deep_view());
    text
}

/// The pieces of a string between its `|`s.
pub fn split_names(text: &str) -> (names: Vec<String>)
    ensures
        names.deep_view() == spec_split_names(text@),
{
    let mut names: Vec<String> = Vec::new();
    let length = text.unicode_len();
    let mut start: usize = 0;
    let mut i: usize = 0;
    proof {
        assert(text@.take(0) =~= Seq::<char>::empty());
    }
    while i < length
        invariant
            start <= i <= length,
            length == text@.len(),
            spec_split_names(text@.take(i as int)) == names.deep_view().push(
                text@.subrange(start as int, i as int),
            ),
        decreases length - i,
    {
        let c = text.get_char(i);
        proof {
            assert(text@.take(i + 1).drop_last() =~= text@.take(i as int));
            assert(text@.take(i + 1).last() == c);
        }
        let ghost before = names.deep_view();
        let ghost piece = text@.subrange(start as int, i as int);
        if c == '|' {
            names.push(text.substring_char(start, i).to_owned());
            start = i + 1;
            proof {
                assert(names.deep_view() =~= before.push(piece));
                assert(text@.subrange(start as int, i + 1) =~= Seq::<char>::empty());
            }
        } else {
            proof {
                assert(before.push(piece).drop_last() =~= before);
                assert(piece.push(c) =~= text@.subrange(start as int, i + 1));
            }
        }
        i += 1;
    }
    let ghost before = names.deep_view();
    names.push(text.substring_char(start, length).to_owned());
    proof {
        assert(text@.take(length as int) =~= text@);
        assert(names.deep_view() =~= before.push(text@.subrange(start as int, length as int)));
    }
    names
}

// ---------------------------------------------------------------------------
// Records
// ---------------------------------------------------------------------------

/// A foreign key as the database records it: its name, the table that
/// refers and its columns, the table referred to and its columns, and what
/// happens to a referring row when the row referred to is deleted or
/// updated.
#[derive(Debug)]
pub struct ForeignKeyRecord {
    pub name: String,
    pub table: String,
    pub columns: Vec<String>,
    pub referred_table: String,
    pub referred_columns: Vec<String>,
    pub on_delete: ForeignKeyAction,
    pub on_update: ForeignKeyAction,
}

/// What a `ForeignKeyRecord` holds.
pub struct ForeignKeyRecordView {
    pub name: Seq<char>,
    pub table: Seq<char>,
    pub columns: Seq<Seq<char>>,
    pub referred_table: Seq<char>,
    pub referred_columns: Seq<Seq<char>>,
    pub on_delete: ForeignKeyAction,
    pub on_update: ForeignKeyAction,
}

impl View for ForeignKeyRecord {
    type V = ForeignKeyRecordView;

    open spec fn view(&self) -> ForeignKeyRecordView {
        ForeignKeyRecordView {
            name: self.name@,
            table: self.table@,
            columns: self.columns.deep_view(),
            referred_table: self.referred_table@,
            referred_columns: self.referred_columns.deep_view(),
            on_delete: self.on_delete,
            on_update: self.on_update,
        }
    }
}

impl DeepView for ForeignKeyRecord {
    type V = ForeignKeyRecordView;

    open spec fn deep_view(&self) -> ForeignKeyRecordView {
        self@
    }
}

/// The types of the columns of the table of foreign keys: the name, the
/// table, its columns, the table referred to, its columns, then the two
/// actions as numbers.
pub open spec fn spec_foreign_key_types() -> Seq<Type> {
    seq![
        Type::String,
        Type::String,
        Type::String,
        Type::String,
        Type::String,
        Type::Integer,
        Type::Integer,
    ]
}

/// The action that a number stands for, none where it stands for none.
pub open spec fn spec_action(code: i64) -> Option<ForeignKeyAction> {
    if code == 0 {
        Some(ForeignKeyAction::NoAction)
    } else if code == 1 {
        Some(ForeignKeyAction::Cascade)
    } else if code == 2 {
        Some(ForeignKeyAction::SetNull)
    } else if code == 3 {
        Some(ForeignKeyAction::SetDefault)
    } else {
        None
    }
}

/// The values that record a foreign key of the table `table`.
pub open spec fn spec_record_values(key: ForeignKey, table: Seq<char>) -> Seq<ValueView> {
    seq![
        ValueView::TypedValue(TypeContentsView::String(key.name@)),
        ValueView::TypedValue(TypeContentsView::String(table)),
        ValueView::TypedValue(
            TypeContentsView::String(spec_join_names(key.columns.deep_view())),
        ),
        ValueView::TypedValue(TypeContentsView::String(key.foreign_table@)),
        ValueView::TypedValue(
            TypeContentsView::String(spec_join_names(key.referred_columns.deep_view())),
        ),
        ValueView::TypedValue(
            TypeContentsView::Integer(
                match key.on_delete {
                    Some(a) => a.spec_code(),
                    None => 0,
                },
            ),
        ),
        ValueView::TypedValue(
            TypeContentsView::Integer(
                match key.on_update {
                    Some(a) => a.spec_code(),
                    None => 0,
                },
            ),
        ),
    ]
}

/// The foreign key that seven values record; values of other types, or a
/// number that stands for no action, are an internal error.
pub open spec fn spec_record_of(values: Seq<ValueView>) -> Result<ForeignKeyRecordView, ErrorView> {
    if values.len() != 7 {
        Err(ErrorView::Internal)
    } else {
        match (values[0], values[1], values[2], values[3], values[4], values[5], values[6]) {
            (
                ValueView::TypedValue(TypeContentsView::String(name)),
                ValueView::TypedValue(TypeContentsView::String(table)),
                ValueView::TypedValue(TypeContentsView::String(columns)),
                ValueView::TypedValue(TypeContentsView::String(referred_table)),
                ValueView::TypedValue(TypeContentsView::String(referred_columns)),
                ValueView::TypedValue(TypeContentsView::Integer(on_delete)),
                ValueView::TypedValue(TypeContentsView::Integer(on_update)),
            ) => match (spec_action(on_delete), spec_action(on_update)) {
                (Some(d), Some(u)) => Ok(
                    ForeignKeyRecordView {
                        name,
                        table,
                        columns: spec_split_names(columns),
                        referred_table,
                        referred_columns: spec_split_names(referred_columns),
                        on_delete: d,
                        on_update: u,
                    },
                ),
                _ => Err(ErrorView::Internal),
            },
            _ => Err(ErrorView::Internal),
        }
    }
}

/// The values of the first `n` columns of a stored row, or the error of
/// the first column that cannot be read.
pub open spec fn spec_decode_row(types: Seq<Type>, row: Seq<u8>, n: int) -> Result<
    Seq<ValueView>,
    ErrorView,
>
    decreases n,
{
    if n <= 0 {
        Ok(Seq::empty())
    } else {
        match spec_decode_row(types, row, n - 1) {
            Err(e) => Err(e),
            Ok(values) => match spec_decode_column(types, row, n - 1) {
                Err(e) => Err(e),
                Ok(v) => Ok(values.push(v)),
            },
        }
    }
}

/// The decoded row has one value for each column.
pub proof fn lemma_decode_row_len(types: Seq<Type>, row: Seq<u8>, n: int)
    requires
        0 <= n,
    ensures
        spec_decode_row(types, row, n) matches Ok(values) ==> values.len() == n,
    decreases n,
{
    if n > 0 {
        lemma_decode_row_len(types, row, n - 1);
    }
}

/// What values and their error look like from outside.
pub open spec fn spec_values_result(result: Result<Vec<Value>, Error>) -> Result<
    Seq<ValueView>,
    ErrorView,
> {
    match result {
        Ok(values) => Ok(values.deep_view()),
        Err(e) => Err(e@),
    }
}

/// The values of all columns of a stored row of a table.
pub fn decode_row(handler: &TableHandler, row: &TableRow) -> (result: Result<Vec<Value>, Error>)
    requires
        handler.wf(),
    ensures
        spec_values_result(result) == spec_decode_row(
            handler.spec_columns().spec_types(),
            row@.right,
            handler.spec_columns().spec_types().len() as int,
        ),
{
    let n = handler.definition().num_columns();
    let ghost types = handler.spec_columns().spec_types();
    let mut values: Vec<Value> = Vec::new();
    let mut i: usize = 0;
    assert(values.deep_view() =~= Seq::<ValueView>::empty());
    while i < n
        invariant
            handler.wf(),
            i <= n,
            n == types.len(),
            types == handler.spec_columns().spec_types(),
            spec_decode_row(types, row@.right, i as int) == Ok::<Seq<ValueView>, ErrorView>(
                values.deep_view(),
            ),
        decreases n - i,
    {
        let ghost before = values.deep_view();
        match handler.get_value(i, row) {
            Ok(v) => {
                values.push(v);
                assert(values.deep_view() =~= before.push(v@));
            },
            Err(e) => {
                proof {
                    lemma_decode_row_error(types, row@.right, i + 1, n as int);
                }
                return Err(e);
            },
        }
        i += 1;
    }
    Ok(values)
}

/// Once a column cannot be read, more columns do not change the error.
pub proof fn lemma_decode_row_error(types: Seq<Type>, row: Seq<u8>, from: int, to: int)
    requires
        0 <= from <= to,
        spec_decode_row(types, row, from) is Err,
    ensures
        spec_decode_row(types, row, to) == spec_decode_row(types, row, from),
    decreases to - from,
{
    if from < to {
        lemma_decode_row_error(types, row, from, to - 1);
    }
}

/// The foreign key that a stored row of the table of foreign keys
/// records.
pub open spec fn spec_stored_record(row: Seq<u8>) -> Result<ForeignKeyRecordView, ErrorView> {
    match spec_decode_row(spec_foreign_key_types(), row, 7) {
        Err(e) => Err(e),
        Ok(values) => spec_record_of(values),
    }
}

/// The foreign keys that the first `n` stored rows record, or the error of
/// the first row that records none.
pub open spec fn spec_records(rows: Seq<TableRowView>, n: int) -> Result<
    Seq<ForeignKeyRecordView>,
    ErrorView,
>
    decreases n,
{
    if n <= 0 {
        Ok(Seq::empty())
    } else {
        match spec_records(rows, n - 1) {
            Err(e) => Err(e),
            Ok(records) => match spec_stored_record(rows[n - 1].right) {
                Err(e) => Err(e),
                Ok(r) => Ok(records.push(r)),
            },
        }
    }
}

/// Once a row records no foreign key, more rows do not change the error.
pub proof fn lemma_records_error(rows: Seq<TableRowView>, from: int, to: int)
    requires
        0 <= from <= to,
        spec_records(rows, from) is Err,
    ensures
        spec_records(rows, to) == spec_records(rows, from),
    decreases to - from,
{
    if from < to {
        lemma_records_error(rows, from, to - 1);
    }
}

/// The values that record a foreign key of the table `table_name`.
pub fn record_values(key: ForeignKey, table_name: &str) -> (values: Vec<Value>)
    ensures
        values.deep_view() == spec_record_values(key, table_name@),
{
    let columns = join_names(&key.columns);
    let referred_columns = join_names(&key.referred_columns);
    let on_delete = match key.on_delete {
        Some(a) => a.code(),
        None => 0,
    };
    let on_update = match key.on_update {
        Some(a) => a.code(),
        None => 0,
    };
    let mut values: Vec<Value> = Vec::new();
    values.push(Value::TypedValue(TypeContents::String(key.name)));
    values.push(Value::TypedValue(TypeContents::String(table_name.to_owned())));
    values.push(Value::TypedValue(TypeContents::String(columns)));
    values.push(Value::TypedValue(TypeContents::String(key.foreign_table)));
    values.push(Value::TypedValue(TypeContents::String(referred_columns)));
    values.push(Value::TypedValue(TypeContents::Integer(on_delete)));
    values.push(Value::TypedValue(TypeContents::Integer(on_update)));
    assert(values.deep_view() =~= spec_record_values(key, table_name@));
    values
}

fn take_value(values: &mut Vec<Value>, index: usize) -> (value: Value)
    requires
        index < old(values).len(),
    ensures
        value@ == old(values).deep_view()[index as int],
        final(values).len() == old(values).len(),
        forall|i: int|
            0 <= i < old(values).len() && i != index ==> final(values).deep_view()[i] == old(
                values,
            ).deep_view()[i],
{
    let mut value = Value::Null;
    assert(old(values).deep_view()[index as int] == old(values)[index as int]@);
    core::mem::swap(&mut value, &mut values[index]);
    assert forall|i: int| 0 <= i < old(values).len() && i != index implies values.deep_view()[i]
        == old(values).deep_view()[i] by {
        assert(values[i] == old(values)[i]);
    }
    value
}

/// The foreign key that seven values record.
pub fn record_of(values: Vec<Value>) -> (result: Result<ForeignKeyRecord, Error>)
    ensures
        match result {
            Ok(record) => spec_record_of(values.deep_view()) == Ok::<
                ForeignKeyRecordView,
                ErrorView,
            >(record@),
            Err(e) => spec_record_of(values.deep_view()) is Err && e@ == ErrorView::Internal,
        },
{
    let mut values = values;
    let ghost all = values.deep_view();
    if values.len() != 7 {
        return Err(internal("A foreign key is recorded in seven columns"));
    }
    let name = match take_value(&mut values, 0).assume_string() {
        Ok(s) => s,
        Err(e) => {
            return Err(e);
        },
    };
    let table = match take_value(&mut values, 1).assume_string() {
        Ok(s) => s,
        Err(e) => {
            return Err(e);
        },
    };
    let columns = match take_value(&mut values, 2).assume_string() {
        Ok(s) => s,
        Err(e) => {
            return Err(e);
        },
    };
    let referred_table = match take_value(&mut values, 3).assume_string() {
        Ok(s) => s,
        Err(e) => {
            return Err(e);
        },
    };
    let referred_columns = match take_value(&mut values, 4).assume_string() {
        Ok(s) => s,
        Err(e) => {
            return Err(e);
        },
    };
    let on_delete = match take_value(&mut values, 5).assume_integer() {
        Ok(i) => i,
        Err(e) => {
            return Err(e);
        },
    };
    let on_update = match take_value(&mut values, 6).assume_integer() {
        Ok(i) => i,
        Err(e) => {
            return Err(e);
        },
    };
    let on_delete = match ForeignKeyAction::from_code(on_delete) {
        Ok(a) => a,
        Err(e) => {
            return Err(e);
        },
    };
    let on_update = match ForeignKeyAction::from_code(on_update) {
        Ok(a) => a,
        Err(e) => {
            return Err(e);
        },
    };
    Ok(
        ForeignKeyRecord {
            name,
            table,
            columns: split_names(columns.as_str()),
            referred_table,
            referred_columns: split_names(referred_columns.as_str()),
            on_delete,
            on_update,
        },
    )
}

} // verus!

verus! {

// ---------------------------------------------------------------------------
// Resolved keys
// ---------------------------------------------------------------------------

/// A foreign key whose tables and columns have been found: the positions
/// of the referring table and its columns, and of the table referred to and
/// its columns; column `i` of the one refers to column `i` of the other.
pub struct ResolvedKeyView {
    pub name: Seq<char>,
    pub child: int,
    pub child_columns: Seq<usize>,
    pub parent: int,
    pub parent_columns: Seq<usize>,
    pub on_delete: ForeignKeyAction,
    pub on_update: ForeignKeyAction,
}

/// The positions of the first `n` of the columns among the names of a
/// table; the first that the table does not have fails with `NoColumn`.
pub open spec fn spec_resolve_columns(names: Seq<Seq<char>>, columns: Seq<Seq<char>>, n: int) -> Result<
    Seq<usize>,
    ErrorView,
>
    decreases n,
{
    if n <= 0 {
        Ok(Seq::empty())
    } else {
        match spec_resolve_columns(names, columns, n - 1) {
            Err(e) => Err(e),
            Ok(found) => match spec_index_of(names, columns[n - 1]) {
                Some(i) => Ok(found.push(i as usize)),
                None => Err(ErrorView::Execution(ExecutionErrorView::NoColumn(columns[n - 1]))),
            },
        }
    }
}

/// Once a column is not found, more columns do not change the error.
pub proof fn lemma_resolve_columns_error(
    names: Seq<Seq<char>>,
    columns: Seq<Seq<char>>,
    from: int,
    to: int,
)
    requires
        0 <= from <= to,
        spec_resolve_columns(names, columns, from) is Err,
    ensures
        spec_resolve_columns(names, columns, to) == spec_resolve_columns(names, columns, from),
    decreases to - from,
{
    if from < to {
        lemma_resolve_columns_error(names, columns, from, to - 1);
    }
}

/// The tables and columns of a recorded foreign key in a catalog. A table
/// that the catalog does not have fails with `NoTable`, a column that its
/// table does not have with `NoColumn`; the referring table and its columns
/// come first. Lists of columns of different lengths, and a referring
/// column named twice, are internal errors.
pub open spec fn spec_resolve_record(catalog: &Catalog, record: ForeignKeyRecordView) -> Result<
    ResolvedKeyView,
    ErrorView,
> {
    match spec_table_position(catalog.spec_names(), record.table, 0) {
        None => Err(ErrorView::Execution(ExecutionErrorView::NoTable(record.table))),
        Some(child) => match spec_resolve_columns(
            catalog.spec_definitions()[child].spec_columns().spec_names(),
            record.columns,
            record.columns.len() as int,
        ) {
            Err(e) => Err(e),
            Ok(child_columns) => match spec_table_position(
                catalog.spec_names(),
                record.referred_table,
                0,
            ) {
                None => Err(
                    ErrorView::Execution(ExecutionErrorView::NoTable(record.referred_table)),
                ),
                Some(parent) => match spec_resolve_columns(
                    catalog.spec_definitions()[parent].spec_columns().spec_names(),
                    record.referred_columns,
                    record.referred_columns.len() as int,
                ) {
                    Err(e) => Err(e),
                    Ok(parent_columns) => if child_columns.len() != parent_columns.len()
                        || !child_columns.no_duplicates() {
                        Err(ErrorView::Internal)
                    } else {
                        Ok(
                            ResolvedKeyView {
                                name: record.name,
                                child,
                                child_columns,
                                parent,
                                parent_columns,
                                on_delete: record.on_delete,
                                on_update: record.on_update,
                            },
                        )
                    },
                },
            },
        },
    }
}

/// Whether position `j` of two lists holds the pair `(key, other)`.
pub open spec fn spec_pair_at(keys: Seq<usize>, others: Seq<usize>, j: int, key: usize, other: usize) -> bool {
    0 <= j < keys.len() && j < others.len() && keys[j] == key && others[j] == other
}

/// Whether some position of two lists holds the pair `(key, other)`.
pub open spec fn spec_has_pair(keys: Seq<usize>, others: Seq<usize>, key: usize, other: usize) -> bool {
    exists|j: int| spec_pair_at(keys, others, j, key, other)
}

/// `Permutation::from` on the first list and `Permutation::co_sort` on
/// both: the first list is sorted, and the second list is moved about in
/// the same way, so that the pairs that stand at one position are the same
/// pairs as before.
#[verifier::external_body]
fn co_sort(keys: &mut Vec<usize>, others: &mut Vec<usize>)
    requires
        old(keys).len() == old(others).len(),
    ensures
        final(keys).len() == old(keys).len(),
        final(others).len() == old(keys).len(),
        forall|i: int|
            0 <= i < old(keys).len() ==> #[trigger] spec_has_pair(old(keys)@, old(others)@, final(keys)[i], final(others)[i]),
        forall|j: int|
            0 <= j < old(keys).len() ==> #[trigger] spec_has_pair(final(keys)@, final(others)@, old(keys)[j], old(others)[j]),
        forall|i: int, j: int|
            0 <= i <= j < old(keys).len() ==> #[trigger] final(keys)[i]
                <= #[trigger] final(keys)[j],
{
    Permutation::from(&keys[..]).co_sort((&mut keys[..], &mut others[..]));
}

/// A resolved foreign key, with its pairs of columns in the order of the
/// referring columns.
#[derive(Debug)]
pub struct KeyChecker {
    name: String,
    child: usize,
    child_columns: Vec<usize>,
    parent: usize,
    parent_columns: Vec<usize>,
    on_delete: ForeignKeyAction,
    on_update: ForeignKeyAction,
}

impl KeyChecker {
    /// Whether this is the key `view`: the same tables, actions and name,
    /// and the same pairs of columns.
    pub closed spec fn spec_is(&self, view: ResolvedKeyView) -> bool {
        &&& self.name@ == view.name
        &&& self.child == view.child
        &&& self.parent == view.parent
        &&& self.on_delete == view.on_delete
        &&& self.on_update == view.on_update
        &&& self.child_columns.len() == self.parent_columns.len()
        &&& view.child_columns.len() == view.parent_columns.len()
        &&& self.child_columns.len() == view.child_columns.len()
        &&& forall|i: int|
            0 <= i < self.child_columns.len() ==> #[trigger] spec_has_pair(view.child_columns, view.parent_columns, self.child_columns[i], self.parent_columns[i])
        &&& forall|j: int|
            0 <= j < view.child_columns.len() ==> #[trigger] spec_has_pair(self.child_columns@, self.parent_columns@, view.child_columns[j], view.parent_columns[j])
    }

    /// The position of the referring table.
    pub closed spec fn spec_child(&self) -> usize {
        self.child
    }

    /// The position of the table referred to.
    pub closed spec fn spec_parent(&self) -> usize {
        self.parent
    }

    /// Whether the tables and columns of the key are those of a catalog.
    pub closed spec fn spec_in_range(&self, catalog: &Catalog) -> bool {
        &&& self.child < catalog.spec_names().len()
        &&& self.parent < catalog.spec_names().len()
        &&& self.child_columns.len() == self.parent_columns.len()
        &&& forall|i: int|
            0 <= i < self.child_columns.len() ==> (#[trigger] self.child_columns[i])
                < catalog.spec_definitions()[self.child as int].spec_columns().spec_names().len()
        &&& forall|i: int|
            0 <= i < self.parent_columns.len() ==> (#[trigger] self.parent_columns[i])
                < catalog.spec_definitions()[self.parent as int].spec_columns().spec_names().len()
    }

    /// The name of the key.
    pub fn name(&self) -> (name: &str)
        ensures
            forall|view: ResolvedKeyView| self.spec_is(view) ==> name@ == view.name,
    {
        self.name.as_str()
    }

    /// The position of the referring table.
    pub fn child(&self) -> (child: usize)
        ensures
            child == self.spec_child(),
            forall|view: ResolvedKeyView| self.spec_is(view) ==> child == view.child,
    {
        self.child
    }

    /// The position of the table referred to.
    pub fn parent(&self) -> (parent: usize)
        ensures
            parent == self.spec_parent(),
            forall|view: ResolvedKeyView| self.spec_is(view) ==> parent == view.parent,
    {
        self.parent
    }

    /// What happens to a referring row when the row referred to is
    /// deleted.
    pub fn on_delete(&self) -> (action: ForeignKeyAction)
        ensures
            forall|view: ResolvedKeyView| self.spec_is(view) ==> action == view.on_delete,
    {
        self.on_delete
    }

    /// What happens to a referring row when the row referred to is
    /// updated.
    pub fn on_update(&self) -> (action: ForeignKeyAction)
        ensures
            forall|view: ResolvedKeyView| self.spec_is(view) ==> action == view.on_update,
    {
        self.on_update
    }
}

pub fn resolve_columns(definition: &TableDefinition, columns: &Vec<String>) -> (result: Result<
    Vec<usize>,
    Error,
>)
    requires
        definition.wf(),
    ensures
        match result {
            Ok(found) => spec_resolve_columns(
                definition.spec_columns().spec_names(),
                columns.deep_view(),
                columns.len() as int,
            ) == Ok::<Seq<usize>, ErrorView>(found@) && forall|i: int|
                0 <= i < found.len() ==> (#[trigger] found[i])
                    < definition.spec_columns().spec_names().len(),
            Err(e) => spec_resolve_columns(
                definition.spec_columns().spec_names(),
                columns.deep_view(),
                columns.len() as int,
            ) == Err::<Seq<usize>, ErrorView>(e@),
        },
{
    let mut found: Vec<usize> = Vec::new();
    let ghost names = definition.spec_columns().spec_names();
    let mut i: usize = 0;
    while i < columns.len()
        invariant
            definition.wf(),
            i <= columns.len(),
            names == definition.spec_columns().spec_names(),
            spec_resolve_columns(names, columns.deep_view(), i as int) == Ok::<
                Seq<usize>,
                ErrorView,
            >(found@),
            forall|k: int| 0 <= k < found.len() ==> (#[trigger] found[k]) < names.len(),
        decreases columns.len() - i,
    {
        assert(columns.deep_view()[i as int] == columns[i as int]@);
        match definition.column_index(columns[i].as_str()) {
            Ok(index) => {
                found.push(index);
            },
            Err(e) => {
                proof {
                    lemma_resolve_columns_error(
                        names,
                        columns.deep_view(),
                        i + 1,
                        columns.len() as int,
                    );
                }
                return Err(e);
            },
        }
        i += 1;
    }
    Ok(found)
}

impl KeyChecker {
    /// Finds the tables and columns of a recorded foreign key in a
    /// catalog.
    pub fn resolve(catalog: &Catalog, record: &ForeignKeyRecord) -> (result: Result<KeyChecker, Error>)
        requires
            catalog.wf(),
        ensures
            match result {
                Ok(checker) => spec_resolve_record(catalog, record@) matches Ok(view)
                    && checker.spec_is(view) && checker.spec_in_range(catalog),
                Err(e) => spec_resolve_record(catalog, record@) == Err::<
                    ResolvedKeyView,
                    ErrorView,
                >(e@),
            },
    {
        let child = match catalog.find(record.table.as_str()) {
            Some(i) => i,
            None => {
                return Err(Error::Execution(ExecutionError::NoTable(record.table.clone())));
            },
        };
        let mut child_columns = match resolve_columns(catalog.definition(child), &record.columns) {
            Ok(c) => c,
            Err(e) => {
                return Err(e);
            },
        };
        let parent = match catalog.find(record.referred_table.as_str()) {
            Some(i) => i,
            None => {
                return Err(
                    Error::Execution(ExecutionError::NoTable(record.referred_table.clone())),
                );
            },
        };
        let mut parent_columns = match resolve_columns(
            catalog.definition(parent),
            &record.referred_columns,
        ) {
            Ok(c) => c,
            Err(e) => {
                return Err(e);
            },
        };
        if child_columns.len() != parent_columns.len() {
            return Err(internal("A foreign key has as many columns on both sides"));
        }
        let ghost declared_child = child_columns@;
        let ghost declared_parent = parent_columns@;
        let ghost resolved = ResolvedKeyView {
            name: record@.name,
            child: child as int,
            child_columns: declared_child,
            parent: parent as int,
            parent_columns: declared_parent,
            on_delete: record@.on_delete,
            on_update: record@.on_update,
        };
        assert(spec_resolve_record(catalog, record@) == if !declared_child.no_duplicates() {
            Err::<ResolvedKeyView, ErrorView>(ErrorView::Internal)
        } else {
            Ok::<ResolvedKeyView, ErrorView>(resolved)
        });
        co_sort(&mut child_columns, &mut parent_columns);
        // A column named twice shows as two equal neighbours.
        let mut i: usize = 1;
        while i < child_columns.len()
            invariant
                1 <= i,
                spec_resolve_record(catalog, record@) == if !declared_child.no_duplicates() {
                    Err::<ResolvedKeyView, ErrorView>(ErrorView::Internal)
                } else {
                    Ok::<ResolvedKeyView, ErrorView>(resolved)
                },
                declared_child.len() == declared_parent.len(),
                child_columns.len() == declared_child.len(),
                parent_columns.len() == declared_child.len(),
                forall|k: int|
            0 <= k < declared_child.len() ==> #[trigger] spec_has_pair(declared_child, declared_parent, child_columns[k], parent_columns[k]),
                forall|j: int|
            0 <= j < declared_child.len() ==> #[trigger] spec_has_pair(child_columns@, parent_columns@, declared_child[j], declared_parent[j]),
                forall|a: int, b: int|
                    0 <= a <= b < child_columns.len() ==> #[trigger] child_columns[a]
                        <= #[trigger] child_columns[b],
                forall|a: int| 0 < a < i && a < child_columns.len() ==> child_columns[a - 1] < (
                #[trigger] child_columns[a]),
            decreases child_columns.len() - i,
        {
            if child_columns[i - 1] == child_columns[i] {
                proof {
                    lemma_twice(
                        declared_child,
                        declared_parent,
                        child_columns@,
                        parent_columns@,
                        i as int,
                    );
                }
                return Err(internal("A foreign key names a column twice"));
            }
            i += 1;
        }
        proof {
            lemma_distinct(declared_child, declared_parent, child_columns@, parent_columns@);
            let view = spec_resolve_record(catalog, record@)->Ok_0;
            assert(view.child_columns == declared_child);
            assert(view.parent_columns == declared_parent);
            assert forall|k: int| 0 <= k < child_columns.len() implies (#[trigger] child_columns[k])
                < catalog.spec_definitions()[child as int].spec_columns().spec_names().len() by {
                assert(spec_has_pair(
                    declared_child,
                    declared_parent,
                    child_columns[k],
                    parent_columns[k],
                ));
                let j = choose|j: int|
                    #[trigger] spec_pair_at(
                        declared_child,
                        declared_parent,
                        j,
                        child_columns[k],
                        parent_columns[k],
                    );
                assert(declared_child[j] == child_columns[k]);
            }
            assert forall|k: int| 0 <= k < parent_columns.len() implies (
            #[trigger] parent_columns[k])
                < catalog.spec_definitions()[parent as int].spec_columns().spec_names().len() by {
                assert(spec_has_pair(
                    declared_child,
                    declared_parent,
                    child_columns[k],
                    parent_columns[k],
                ));
                let j = choose|j: int|
                    #[trigger] spec_pair_at(
                        declared_child,
                        declared_parent,
                        j,
                        child_columns[k],
                        parent_columns[k],
                    );
                assert(declared_parent[j] == parent_columns[k]);
            }
        }
        Ok(
            KeyChecker {
                name: record.name.clone(),
                child,
                child_columns,
                parent,
                parent_columns,
                on_delete: record.on_delete,
                on_update: record.on_update,
            },
        )
    }
}

/// Two equal neighbours in the sorted list come from a list that has a
/// column twice.
proof fn lemma_twice(
    declared_child: Seq<usize>,
    declared_parent: Seq<usize>,
    child: Seq<usize>,
    parent: Seq<usize>,
    i: int,
)
    requires
        declared_child.len() == declared_parent.len(),
        child.len() == declared_child.len(),
        parent.len() == declared_child.len(),
        0 < i < child.len(),
        child[i - 1] == child[i],
        forall|j: int|
            0 <= j < declared_child.len() ==> #[trigger] spec_has_pair(child, parent, declared_child[j], declared_parent[j]),
    ensures
        !declared_child.no_duplicates(),
{
    // If the declared columns were all different, the sorted list would
    // hold as many different columns, but two of its places hold the same.
    if declared_child.no_duplicates() {
        let n = declared_child.len() as int;
        // Each declared position goes to a sorted position that holds its
        // column; different columns go to different positions, none to both
        // i - 1 and i, so the n positions reach at most n - 1 columns'
        // worth of places among the n, leaving one of i - 1, i unreached;
        // yet both hold the same column, reached or not.
        let f = |j: int|
            choose|k: int|
                #[trigger] spec_pair_at(child, parent, k, declared_child[j], declared_parent[j]);
        assert forall|a: int, b: int| 0 <= a < n && 0 <= b < n && a != b implies #[trigger] f(a)
            != #[trigger] f(b) by {
            assert(spec_has_pair(child, parent, declared_child[a], declared_parent[a]));
            assert(spec_has_pair(child, parent, declared_child[b], declared_parent[b]));
            assert(spec_pair_at(child, parent, f(a), declared_child[a], declared_parent[a]));
            assert(spec_pair_at(child, parent, f(b), declared_child[b], declared_parent[b]));
        }
        assert forall|a: int| 0 <= a < n implies 0 <= #[trigger] f(a) < n by {
            assert(spec_has_pair(child, parent, declared_child[a], declared_parent[a]));
            assert(spec_pair_at(child, parent, f(a), declared_child[a], declared_parent[a]));
        }
        lemma_injective_onto(f, n);
        assert(spec_reaches(f, n, i - 1));
        assert(spec_reaches(f, n, i));
        let a = choose|a: int| 0 <= a < n && #[trigger] f(a) == i - 1;
        let b = choose|b: int| 0 <= b < n && #[trigger] f(b) == i;
        assert(spec_has_pair(child, parent, declared_child[a], declared_parent[a]));
        assert(spec_has_pair(child, parent, declared_child[b], declared_parent[b]));
        assert(spec_pair_at(child, parent, f(a), declared_child[a], declared_parent[a]));
        assert(spec_pair_at(child, parent, f(b), declared_child[b], declared_parent[b]));
        assert(declared_child[a] == declared_child[b]);
        assert(a != b);
    }
}

/// Whether `f` sends one of the first `n` numbers to `y`.
pub open spec fn spec_reaches(f: spec_fn(int) -> int, n: int, y: int) -> bool {
    exists|a: int| 0 <= a < n && #[trigger] f(a) == y
}

/// A function from the first `n` numbers into themselves that sends no
/// two to one reaches every one of them.
pub proof fn lemma_injective_onto(f: spec_fn(int) -> int, n: int)
    requires
        0 <= n,
        forall|a: int| 0 <= a < n ==> 0 <= #[trigger] f(a) < n,
        forall|a: int, b: int| 0 <= a < n && 0 <= b < n && a != b ==> #[trigger] f(a) != #[trigger] f(b),
    ensures
        forall|y: int| 0 <= y < n ==> #[trigger] spec_reaches(f, n, y),
    decreases n,
{
    if n > 0 {
        assert forall|y: int| 0 <= y < n implies #[trigger] spec_reaches(f, n, y) by {
            // Take the last number out: send what went to n - 1 where the
            // last number went instead.
            let last = f(n - 1);
            let g = |a: int|
                if f(a) == n - 1 {
                    last
                } else {
                    f(a)
                };
            assert forall|a: int| 0 <= a < n - 1 implies 0 <= #[trigger] g(a) < n - 1 by {
                if f(a) == n - 1 {
                    assert(f(a) != f(n - 1));
                }
            }
            assert forall|a: int, b: int| 0 <= a < n - 1 && 0 <= b < n - 1 && a != b implies #[trigger] g(
                a,
            ) != #[trigger] g(b) by {
                assert(f(a) != f(b));
                assert(f(a) != f(n - 1));
                assert(f(b) != f(n - 1));
            }
            lemma_injective_onto(g, n - 1);
            if y == last {
                assert(f(n - 1) == y);
            } else if y == n - 1 {
                assert(spec_reaches(g, n - 1, last));
                let a = choose|a: int| 0 <= a < n - 1 && #[trigger] g(a) == last;
                assert(f(a) == n - 1);
            } else {
                assert(spec_reaches(g, n - 1, y));
                let a = choose|a: int| 0 <= a < n - 1 && #[trigger] g(a) == y;
                assert(f(a) == y);
            }
        }
    }
}

/// A sorted list without equal neighbours comes from a list without a
/// column twice.
proof fn lemma_distinct(
    declared_child: Seq<usize>,
    declared_parent: Seq<usize>,
    child: Seq<usize>,
    parent: Seq<usize>,
)
    requires
        declared_child.len() == declared_parent.len(),
        child.len() == declared_child.len(),
        parent.len() == declared_child.len(),
        forall|a: int| 0 < a < child.len() ==> child[a - 1] < (#[trigger] child[a]),
        forall|a: int, b: int| 0 <= a <= b < child.len() ==> #[trigger] child[a] <= #[trigger] child[b],
        forall|i: int|
            0 <= i < child.len() ==> #[trigger] spec_has_pair(declared_child, declared_parent, child[i], parent[i]),
    ensures
        declared_child.no_duplicates(),
{
    let n = child.len() as int;
    // The sorted columns are all different.
    assert forall|a: int, b: int| 0 <= a < b < n implies child[a] != child[b] by {
        assert(child[b - 1] < child[b]);
        assert(child[a] <= child[b - 1]);
    }
    let f = |i: int|
        choose|j: int| #[trigger] spec_pair_at(declared_child, declared_parent, j, child[i], parent[i]);
    assert forall|a: int| 0 <= a < n implies 0 <= #[trigger] f(a) < n by {
        assert(spec_has_pair(declared_child, declared_parent, child[a], parent[a]));
        assert(spec_pair_at(declared_child, declared_parent, f(a), child[a], parent[a]));
    }
    assert forall|a: int, b: int| 0 <= a < n && 0 <= b < n && a != b implies #[trigger] f(a)
        != #[trigger] f(b) by {
        assert(spec_has_pair(declared_child, declared_parent, child[a], parent[a]));
        assert(spec_has_pair(declared_child, declared_parent, child[b], parent[b]));
        assert(spec_pair_at(declared_child, declared_parent, f(a), child[a], parent[a]));
        assert(spec_pair_at(declared_child, declared_parent, f(b), child[b], parent[b]));
        if a < b {
            assert(child[a] != child[b]);
        } else {
            assert(child[b] != child[a]);
        }
    }
    lemma_injective_onto(f, n);
    assert forall|x: int, y: int|
        0 <= x < declared_child.len() && 0 <= y < declared_child.len() && x
            != y implies declared_child[x] != declared_child[y] by {
        assert(spec_reaches(f, n, x));
        assert(spec_reaches(f, n, y));
        let a = choose|a: int| 0 <= a < n && #[trigger] f(a) == x;
        let b = choose|b: int| 0 <= b < n && #[trigger] f(b) == y;
        assert(spec_has_pair(declared_child, declared_parent, child[a], parent[a]));
        assert(spec_has_pair(declared_child, declared_parent, child[b], parent[b]));
        assert(spec_pair_at(declared_child, declared_parent, f(a), child[a], parent[a]));
        assert(spec_pair_at(declared_child, declared_parent, f(b), child[b], parent[b]));
        if a < b {
            assert(child[a] != child[b]);
        } else if b < a {
            assert(child[b] != child[a]);
        }
    }
}

} // verus!

verus! {

// ---------------------------------------------------------------------------
// What a key asks of two rows
// ---------------------------------------------------------------------------

impl ResolvedKeyView {
    /// Whether a referring row refers to a row: in every pair of columns,
    /// the two values compare as equal.
    pub open spec fn references(self, child: Seq<ValueView>, parent: Seq<ValueView>) -> bool {
        forall|i: int|
            0 <= i < self.child_columns.len() ==> spec_compare(
                child[(#[trigger] self.child_columns[i]) as int],
                parent[self.parent_columns[i] as int],
            ) == Comparison::Equal
    }

    /// Whether a referring row holds null in one of the key's columns.
    pub open spec fn has_null(self, child: Seq<ValueView>) -> bool {
        exists|i: int|
            0 <= i < self.child_columns.len() && child[(#[trigger] self.child_columns[i]) as int]
                is Null
    }

    /// A referring row with null in the key's columns.
    pub open spec fn with_nulls(self, child: Seq<ValueView>) -> Seq<ValueView> {
        Seq::new(
            child.len(),
            |c: int|
                if self.child_columns.contains(c as usize) {
                    ValueView::Null
                } else {
                    child[c]
                },
        )
    }

    /// A referring row with each of the key's columns at its default.
    pub open spec fn with_defaults(self, child: Seq<ValueView>, definition: &TableDefinition) -> Seq<
        ValueView,
    > {
        Seq::new(
            child.len(),
            |c: int|
                if self.child_columns.contains(c as usize) {
                    definition.spec_default(c as usize)
                } else {
                    child[c]
                },
        )
    }

    /// A referring row with each of the key's columns at the value that
    /// `parent` holds in the column it refers to.
    pub open spec fn with_values(self, child: Seq<ValueView>, parent: Seq<ValueView>) -> Seq<
        ValueView,
    > {
        Seq::new(
            child.len(),
            |c: int|
                if self.child_columns.contains(c as usize) {
                    parent[self.parent_columns[self.child_columns.index_of(c as usize)] as int]
                } else {
                    child[c]
                },
        )
    }
}

impl KeyChecker {
    /// Whether a referring row refers to a row.
    fn references(&self, Ghost(view): Ghost<ResolvedKeyView>, child: &Vec<Value>, parent: &Vec<Value>) -> (
    found: bool)
        requires
            self.spec_is(view),
            forall|i: int|
                0 <= i < self.child_columns.len() ==> (#[trigger] self.child_columns[i])
                    < child.len(),
            forall|i: int|
                0 <= i < self.parent_columns.len() ==> (#[trigger] self.parent_columns[i])
                    < parent.len(),
        ensures
            found == view.references(child.deep_view(), parent.deep_view()),
    {
        let mut i: usize = 0;
        while i < self.child_columns.len()
            invariant
                i <= self.child_columns.len(),
                self.spec_is(view),
                forall|k: int|
                    0 <= k < self.child_columns.len() ==> (#[trigger] self.child_columns[k])
                        < child.len(),
                forall|k: int|
                    0 <= k < self.parent_columns.len() ==> (#[trigger] self.parent_columns[k])
                        < parent.len(),
                forall|k: int|
                    0 <= k < i ==> spec_compare(
                        child.deep_view()[(#[trigger] self.child_columns[k]) as int],
                        parent.deep_view()[self.parent_columns[k] as int],
                    ) == Comparison::Equal,
            decreases self.child_columns.len() - i,
        {
            let c = self.child_columns[i];
            let p = self.parent_columns[i];
            assert(child.deep_view()[c as int] == child[c as int]@);
            assert(parent.deep_view()[p as int] == parent[p as int]@);
            if !child[c].compare(&parent[p]).is_equal() {
                proof {
                    assert(spec_has_pair(view.child_columns, view.parent_columns, c, p));
                    let j = choose|j: int|
                        spec_pair_at(view.child_columns, view.parent_columns, j, c, p);
                    assert(view.child_columns[j] == c);
                }
                return false;
            }
            i += 1;
        }
        proof {
            assert forall|j: int| 0 <= j < view.child_columns.len() implies spec_compare(
                child.deep_view()[(#[trigger] view.child_columns[j]) as int],
                parent.deep_view()[view.parent_columns[j] as int],
            ) == Comparison::Equal by {
                assert(spec_has_pair(
                    self.child_columns@,
                    self.parent_columns@,
                    view.child_columns[j],
                    view.parent_columns[j],
                ));
                let k = choose|k: int|
                    spec_pair_at(
                        self.child_columns@,
                        self.parent_columns@,
                        k,
                        view.child_columns[j],
                        view.parent_columns[j],
                    );
                assert(self.child_columns[k] == view.child_columns[j]);
            }
        }
        true
    }

    /// Whether a referring row holds null in one of the key's columns.
    fn has_null(&self, Ghost(view): Ghost<ResolvedKeyView>, child: &Vec<Value>) -> (found: bool)
        requires
            self.spec_is(view),
            forall|i: int|
                0 <= i < self.child_columns.len() ==> (#[trigger] self.child_columns[i])
                    < child.len(),
        ensures
            found == view.has_null(child.deep_view()),
    {
        let mut i: usize = 0;
        while i < self.child_columns.len()
            invariant
                i <= self.child_columns.len(),
                self.spec_is(view),
                forall|k: int|
                    0 <= k < self.child_columns.len() ==> (#[trigger] self.child_columns[k])
                        < child.len(),
                forall|k: int|
                    0 <= k < i ==> !(child.deep_view()[(#[trigger] self.child_columns[k]) as int]
                        is Null),
            decreases self.child_columns.len() - i,
        {
            let c = self.child_columns[i];
            assert(child.deep_view()[c as int] == child[c as int]@);
            if child[c].is_null() {
                proof {
                    assert(spec_has_pair(
                        view.child_columns,
                        view.parent_columns,
                        c,
                        self.parent_columns[i as int],
                    ));
                    let j = choose|j: int|
                        spec_pair_at(
                            view.child_columns,
                            view.parent_columns,
                            j,
                            c,
                            self.parent_columns[i as int],
                        );
                    assert(view.child_columns[j] == c);
                }
                return true;
            }
            i += 1;
        }
        proof {
            assert forall|j: int| 0 <= j < view.child_columns.len() implies !(
            child.deep_view()[(#[trigger] view.child_columns[j]) as int] is Null) by {
                assert(spec_has_pair(
                    self.child_columns@,
                    self.parent_columns@,
                    view.child_columns[j],
                    view.parent_columns[j],
                ));
                let k = choose|k: int|
                    spec_pair_at(
                        self.child_columns@,
                        self.parent_columns@,
                        k,
                        view.child_columns[j],
                        view.parent_columns[j],
                    );
                assert(self.child_columns[k] == view.child_columns[j]);
            }
        }
        false
    }

    /// The position among the key's columns of the referring column `c`.
    fn position(&self, Ghost(view): Ghost<ResolvedKeyView>, c: usize) -> (found: Option<usize>)
        requires
            self.spec_is(view),
            view.child_columns.no_duplicates(),
        ensures
            match found {
                Some(i) => i < self.child_columns.len() && self.child_columns[i as int] == c
                    && view.child_columns.contains(c) && self.parent_columns[i as int]
                    == view.parent_columns[view.child_columns.index_of(c)],
                None => !view.child_columns.contains(c),
            },
    {
        let mut i: usize = 0;
        while i < self.child_columns.len()
            invariant
                i <= self.child_columns.len(),
                self.spec_is(view),
                view.child_columns.no_duplicates(),
                forall|k: int| 0 <= k < i ==> self.child_columns[k] != c,
            decreases self.child_columns.len() - i,
        {
            if self.child_columns[i] == c {
                proof {
                    let p = self.parent_columns[i as int];
                    assert(spec_has_pair(view.child_columns, view.parent_columns, c, p));
                    let j = choose|j: int|
                        spec_pair_at(view.child_columns, view.parent_columns, j, c, p);
                    assert(view.child_columns[j] == c);
                    let first = view.child_columns.index_of(c);
                    assert(view.child_columns[first] == c);
                }
                return Some(i);
            }
            i += 1;
        }
        proof {
            if view.child_columns.contains(c) {
                let j = view.child_columns.index_of(c);
                assert(spec_has_pair(
                    self.child_columns@,
                    self.parent_columns@,
                    view.child_columns[j],
                    view.parent_columns[j],
                ));
                let k = choose|k: int|
                    spec_pair_at(
                        self.child_columns@,
                        self.parent_columns@,
                        k,
                        view.child_columns[j],
                        view.parent_columns[j],
                    );
                assert(self.child_columns[k] == c);
            }
        }
        None
    }
}

/// What a writer of new values puts into a column of the key.
pub enum Fill<'a> {
    Nulls,
    Defaults(&'a TableDefinition),
    Values(&'a Vec<Value>),
}

impl KeyChecker {
    /// A referring row with the key's columns filled afresh.
    fn filled(&self, Ghost(view): Ghost<ResolvedKeyView>, child: &Vec<Value>, fill: &Fill) -> (row: Vec<
        Value,
    >)
        requires
            self.spec_is(view),
            view.child_columns.no_duplicates(),
            match fill {
                Fill::Values(parent) => forall|i: int|
                    0 <= i < self.parent_columns.len() ==> (#[trigger] self.parent_columns[i])
                        < parent.len(),
                _ => true,
            },
        ensures
            row.deep_view() == match fill {
                Fill::Nulls => view.with_nulls(child.deep_view()),
                Fill::Defaults(definition) => view.with_defaults(child.deep_view(), definition),
                Fill::Values(parent) => view.with_values(child.deep_view(), parent.deep_view()),
            },
    {
        let mut row: Vec<Value> = Vec::new();
        let ghost expected = match fill {
            Fill::Nulls => view.with_nulls(child.deep_view()),
            Fill::Defaults(definition) => view.with_defaults(child.deep_view(), definition),
            Fill::Values(parent) => view.with_values(child.deep_view(), parent.deep_view()),
        };
        let mut c: usize = 0;
        while c < child.len()
            invariant
                c <= child.len(),
                row.len() == c,
                self.spec_is(view),
                view.child_columns.no_duplicates(),
                expected.len() == child.len(),
                expected == match fill {
                    Fill::Nulls => view.with_nulls(child.deep_view()),
                    Fill::Defaults(definition) => view.with_defaults(child.deep_view(), definition),
                    Fill::Values(parent) => view.with_values(
                        child.deep_view(),
                        parent.deep_view(),
                    ),
                },
                match fill {
                    Fill::Values(parent) => forall|i: int|
                        0 <= i < self.parent_columns.len() ==> (#[trigger] self.parent_columns[i])
                            < parent.len(),
                    _ => true,
                },
                forall|k: int| 0 <= k < c ==> row[k]@ == expected[k],
            decreases child.len() - c,
        {
            assert(child.deep_view()[c as int] == child[c as int]@);
            let value = match self.position(Ghost(view), c) {
                Some(i) => match fill {
                    Fill::Nulls => Value::Null,
                    Fill::Defaults(definition) => definition.get_default(c),
                    Fill::Values(parent) => {
                        let p = self.parent_columns[i];
                        assert(parent.deep_view()[p as int] == parent[p as int]@);
                        parent[p].duplicate()
                    },
                },
                None => child[c].duplicate(),
            };
            row.push(value);
            c += 1;
        }
        assert(row.deep_view() =~= expected);
        row
    }
}

} // verus!

verus! {

// ---------------------------------------------------------------------------
// What statements do to the rows of a database
// ---------------------------------------------------------------------------

/// The rows of the tables of a database, each table's at the position of
/// its name in the catalog.
pub type Rows = Seq<Seq<TableRowView>>;

/// What is done to a row that others may refer to.
pub enum ActionView {
    Delete,
    Update(Seq<ValueView>),
}

/// A row on its way through a cascade: its table and its key.
pub struct Visit {
    pub table: int,
    pub key: Seq<u8>,
}

/// The types of the columns of a table of a catalog.
pub open spec fn spec_types_of(catalog: &Catalog, table: int) -> Seq<Type> {
    catalog.spec_definitions()[table].spec_columns().spec_types()
}

/// The values of a stored row of a table of a catalog.
pub open spec fn spec_values_of(catalog: &Catalog, table: int, row: TableRowView) -> Result<
    Seq<ValueView>,
    ErrorView,
> {
    spec_decode_row(
        spec_types_of(catalog, table),
        row.right,
        spec_types_of(catalog, table).len() as int,
    )
}

/// Whether one of the rows from `from` on is referred to by a referring
/// row with the values `child`; a row before it that cannot be read gives
/// its error.
pub open spec fn spec_parent_exists(
    catalog: &Catalog,
    key: ResolvedKeyView,
    child: Seq<ValueView>,
    rows: Seq<TableRowView>,
    from: int,
) -> Result<bool, ErrorView>
    decreases rows.len() - from,
{
    if from < 0 || from >= rows.len() {
        Ok(false)
    } else {
        match spec_values_of(catalog, key.parent, rows[from]) {
            Err(e) => Err(e),
            Ok(parent) => if key.references(child, parent) {
                Ok(true)
            } else {
                spec_parent_exists(catalog, key, child, rows, from + 1)
            },
        }
    }
}

/// What the foreign keys of a table, among the recorded keys from `from`
/// on, say of a row of values of that table: a key is satisfied where the
/// row holds null in one of its columns, or refers to a row of the table
/// referred to; else it fails with `ForeignKeyConstraintFailed` of its
/// name.
pub open spec fn spec_child_checks(
    catalog: &Catalog,
    records: Seq<ForeignKeyRecordView>,
    rows: Rows,
    table: int,
    values: Seq<ValueView>,
    from: int,
) -> Result<(), ErrorView>
    decreases records.len() - from,
{
    if from < 0 || from >= records.len() {
        Ok(())
    } else if records[from].table != catalog.spec_names()[table] {
        spec_child_checks(catalog, records, rows, table, values, from + 1)
    } else {
        match spec_resolve_record(catalog, records[from]) {
            Err(e) => Err(e),
            Ok(key) => if key.has_null(values) {
                spec_child_checks(catalog, records, rows, table, values, from + 1)
            } else {
                match spec_parent_exists(catalog, key, values, rows[key.parent], 0) {
                    Err(e) => Err(e),
                    Ok(true) => spec_child_checks(catalog, records, rows, table, values, from + 1),
                    Ok(false) => Err(
                        ErrorView::Execution(
                            ExecutionErrorView::ForeignKeyConstraintFailed(key.name),
                        ),
                    ),
                }
            },
        }
    }
}

/// The constraint phase for a row of values of a table: a row that has not
/// one value for each column fails with `WrongNumColumns`; then come the
/// constraints of the table itself, then its foreign keys.
#[verifier::opaque]
pub open spec fn spec_check_row(
    catalog: &Catalog,
    records: Seq<ForeignKeyRecordView>,
    rows: Rows,
    table: int,
    values: Seq<ValueView>,
    exclude: Option<Seq<u8>>,
) -> Result<(), ErrorView> {
    if values.len() != spec_types_of(catalog, table).len() {
        Err(
            ErrorView::Execution(
                ExecutionErrorView::WrongNumColumns {
                    expected: spec_types_of(catalog, table).len() as usize,
                    actual: values.len() as usize,
                },
            ),
        )
    } else {
        match spec_check_constraints(
            &catalog.spec_definitions()[table],
            rows[table],
            values,
            exclude,
        ) {
            Err(e) => Err(e),
            Ok(()) => spec_child_checks(catalog, records, rows, table, values, 0),
        }
    }
}

/// The row that stores the values under the schema of a table; too long a
/// row is an internal error.
pub open spec fn spec_encoded(catalog: &Catalog, table: int, values: Seq<ValueView>) -> Result<
    Seq<u8>,
    ErrorView,
> {
    let row = crate::storage::spec_encode_row(spec_types_of(catalog, table), values);
    if row.len() > crate::storage::MAX_ROW_LEN {
        Err(ErrorView::Internal)
    } else {
        Ok(row)
    }
}

/// The rows of a database after a row of values is inserted into a table:
/// the row must pass the constraint phase; it is stored under the next
/// key of the table.
#[verifier::opaque]
pub open spec fn spec_insert(
    catalog: &Catalog,
    records: Seq<ForeignKeyRecordView>,
    rows: Rows,
    table: int,
    values: Seq<ValueView>,
) -> Result<Rows, ErrorView> {
    match spec_check_row(catalog, records, rows, table, values, None) {
        Err(e) => Err(e),
        Ok(()) => match crate::table_handler::spec_next_key(rows[table]) {
            Err(e) => Err(e),
            Ok(key) => match spec_encoded(catalog, table, values) {
                Err(e) => Err(e),
                Ok(row) => Ok(
                    rows.update(
                        table,
                        crate::table_handler::spec_tree_insert(
                            rows[table],
                            crate::table_handler::spec_key_bytes(key),
                            row,
                        ),
                    ),
                ),
            },
        },
    }
}

/// Whether a row of a table, with the values `parent`, is still referred
/// to through one of the recorded keys from `from` on: the first referring
/// row found fails with `ForeignKeyConstraintFailed` of the key's name.
pub open spec fn spec_dangling(
    catalog: &Catalog,
    records: Seq<ForeignKeyRecordView>,
    rows: Rows,
    table: int,
    parent: Seq<ValueView>,
    from: int,
) -> Result<(), ErrorView>
    decreases records.len() - from,
{
    if from < 0 || from >= records.len() {
        Ok(())
    } else if records[from].referred_table != catalog.spec_names()[table] {
        spec_dangling(catalog, records, rows, table, parent, from + 1)
    } else {
        match spec_resolve_record(catalog, records[from]) {
            Err(e) => Err(e),
            Ok(key) => match spec_referred(catalog, key, rows[key.child], parent, 0) {
                Err(e) => Err(e),
                Ok(true) => Err(
                    ErrorView::Execution(ExecutionErrorView::ForeignKeyConstraintFailed(key.name)),
                ),
                Ok(false) => spec_dangling(catalog, records, rows, table, parent, from + 1),
            },
        }
    }
}

/// Whether one of the referring rows from `from` on refers to a row with
/// the values `parent`; a row before it that cannot be read gives its
/// error.
pub open spec fn spec_referred(
    catalog: &Catalog,
    key: ResolvedKeyView,
    rows: Seq<TableRowView>,
    parent: Seq<ValueView>,
    from: int,
) -> Result<bool, ErrorView>
    decreases rows.len() - from,
{
    if from < 0 || from >= rows.len() {
        Ok(false)
    } else {
        match spec_values_of(catalog, key.child, rows[from]) {
            Err(e) => Err(e),
            Ok(child) => if key.references(child, parent) {
                Ok(true)
            } else {
                spec_referred(catalog, key, rows, parent, from + 1)
            },
        }
    }
}

/// The rows of a database after the row of a table with the key `key` is
/// deleted. A row that is not there leaves everything as it is. First the
/// rows that refer to it are dealt with, key by recorded key; then the row
/// goes; and if a row still refers to it then, the deletion fails with
/// `ForeignKeyConstraintFailed`. A row that is already on its way through
/// the cascade, or a cascade longer than `fuel`, is an internal error.
pub open spec fn spec_delete_row(
    catalog: &Catalog,
    records: Seq<ForeignKeyRecordView>,
    rows: Rows,
    table: int,
    key: Seq<u8>,
    chain: Seq<Visit>,
    fuel: nat,
) -> Result<Rows, ErrorView>
    decreases fuel, 0nat, 0nat,
{
    if fuel == 0 || chain.contains(Visit { table, key }) {
        Err(ErrorView::Internal)
    } else {
        match crate::table_handler::spec_find(rows[table], key, 0) {
            None => Ok(rows),
            Some(i) => match spec_values_of(catalog, table, rows[table][i]) {
                Err(e) => Err(e),
                Ok(old_values) => match spec_handlers(
                    catalog,
                    records,
                    rows,
                    table,
                    old_values,
                    ActionView::Delete,
                    chain.push(Visit { table, key }),
                    (fuel - 1) as nat,
                    0,
                ) {
                    Err(e) => Err(e),
                    Ok(after) => {
                        let removed = after.update(
                            table,
                            crate::table_handler::spec_tree_remove(after[table], key),
                        );
                        match spec_dangling(catalog, records, removed, table, old_values, 0) {
                            Err(e) => Err(e),
                            Ok(()) => Ok(removed),
                        }
                    },
                },
            },
        }
    }
}

/// The rows of a database after the row of a table with the key `key`
/// gets new values. A row that is not there leaves everything as it is.
/// The new values must pass the constraint phase, in which the row itself
/// does not count for `UNIQUE`; then the rows that refer to the row are
/// dealt with; then the new values are stored under the same key.
pub open spec fn spec_update_row(
    catalog: &Catalog,
    records: Seq<ForeignKeyRecordView>,
    rows: Rows,
    table: int,
    key: Seq<u8>,
    values: Seq<ValueView>,
    chain: Seq<Visit>,
    fuel: nat,
) -> Result<Rows, ErrorView>
    decreases fuel, 0nat, 0nat,
{
    if fuel == 0 || chain.contains(Visit { table, key }) {
        Err(ErrorView::Internal)
    } else {
        match crate::table_handler::spec_find(rows[table], key, 0) {
            None => Ok(rows),
            Some(i) => match spec_check_row(catalog, records, rows, table, values, Some(key)) {
                Err(e) => Err(e),
                Ok(()) => match spec_values_of(catalog, table, rows[table][i]) {
                    Err(e) => Err(e),
                    Ok(old_values) => match spec_handlers(
                        catalog,
                        records,
                        rows,
                        table,
                        old_values,
                        ActionView::Update(values),
                        chain.push(Visit { table, key }),
                        (fuel - 1) as nat,
                        0,
                    ) {
                        Err(e) => Err(e),
                        Ok(after) => match spec_encoded(catalog, table, values) {
                            Err(e) => Err(e),
                            Ok(row) => Ok(
                                after.update(
                                    table,
                                    crate::table_handler::spec_tree_insert(after[table], key, row),
                                ),
                            ),
                        },
                    },
                },
            },
        }
    }
}

/// The rows of a database after the recorded keys from `from` on that
/// refer to a table have dealt with the rows that refer to one of its
/// rows, which has the values `parent` and is deleted or updated.
pub open spec fn spec_handlers(
    catalog: &Catalog,
    records: Seq<ForeignKeyRecordView>,
    rows: Rows,
    table: int,
    parent: Seq<ValueView>,
    action: ActionView,
    chain: Seq<Visit>,
    fuel: nat,
    from: int,
) -> Result<Rows, ErrorView>
    decreases fuel, 2nat, records.len() - from,
{
    if from < 0 || from >= records.len() {
        Ok(rows)
    } else if records[from].referred_table != catalog.spec_names()[table] {
        spec_handlers(catalog, records, rows, table, parent, action, chain, fuel, from + 1)
    } else {
        match spec_resolve_record(catalog, records[from]) {
            Err(e) => Err(e),
            Ok(key) => match spec_handle_children(
                catalog,
                records,
                rows,
                key,
                parent,
                action,
                chain,
                fuel,
                rows[key.child],
                0,
            ) {
                Err(e) => Err(e),
                Ok(after) => spec_handlers(
                    catalog,
                    records,
                    after,
                    table,
                    parent,
                    action,
                    chain,
                    fuel,
                    from + 1,
                ),
            },
        }
    }
}

/// The rows of a database after one key has dealt with the referring rows
/// from `from` on, of those that the referring table had when the key's
/// turn came. A row that has gone since is passed over. A row that refers
/// to the row with the values `parent` meets the key's action: no action
/// fails with `ForeignKeyConstraintFailed`; set null and set default give
/// the row new values in the key's columns; cascade deletes the row where
/// the row referred to is deleted, and gives it the new values of the
/// columns referred to where that row is updated.
pub open spec fn spec_handle_children(
    catalog: &Catalog,
    records: Seq<ForeignKeyRecordView>,
    rows: Rows,
    key: ResolvedKeyView,
    parent: Seq<ValueView>,
    action: ActionView,
    chain: Seq<Visit>,
    fuel: nat,
    snapshot: Seq<TableRowView>,
    from: int,
) -> Result<Rows, ErrorView>
    decreases fuel, 1nat, snapshot.len() - from,
{
    if from < 0 || from >= snapshot.len() {
        Ok(rows)
    } else {
        let row_key = snapshot[from].left;
        match crate::table_handler::spec_find(rows[key.child], row_key, 0) {
            None => spec_handle_children(
                catalog,
                records,
                rows,
                key,
                parent,
                action,
                chain,
                fuel,
                snapshot,
                from + 1,
            ),
            Some(i) => match spec_values_of(catalog, key.child, rows[key.child][i]) {
                Err(e) => Err(e),
                Ok(child) => if !key.references(child, parent) {
                    spec_handle_children(
                        catalog,
                        records,
                        rows,
                        key,
                        parent,
                        action,
                        chain,
                        fuel,
                        snapshot,
                        from + 1,
                    )
                } else {
                    let chosen = match action {
                        ActionView::Delete => key.on_delete,
                        ActionView::Update(_) => key.on_update,
                    };
                    let done = match chosen {
                        ForeignKeyAction::NoAction => Err(
                            ErrorView::Execution(
                                ExecutionErrorView::ForeignKeyConstraintFailed(key.name),
                            ),
                        ),
                        ForeignKeyAction::SetNull => spec_update_row(
                            catalog,
                            records,
                            rows,
                            key.child,
                            row_key,
                            key.with_nulls(child),
                            chain,
                            fuel,
                        ),
                        ForeignKeyAction::SetDefault => spec_update_row(
                            catalog,
                            records,
                            rows,
                            key.child,
                            row_key,
                            key.with_defaults(child, &catalog.spec_definitions()[key.child]),
                            chain,
                            fuel,
                        ),
                        ForeignKeyAction::Cascade => match action {
                            ActionView::Delete => spec_delete_row(
                                catalog,
                                records,
                                rows,
                                key.child,
                                row_key,
                                chain,
                                fuel,
                            ),
                            ActionView::Update(values) => spec_update_row(
                                catalog,
                                records,
                                rows,
                                key.child,
                                row_key,
                                key.with_values(child, values),
                                chain,
                                fuel,
                            ),
                        },
                    };
                    match done {
                        Err(e) => Err(e),
                        Ok(after) => spec_handle_children(
                            catalog,
                            records,
                            after,
                            key,
                            parent,
                            action,
                            chain,
                            fuel,
                            snapshot,
                            from + 1,
                        ),
                    }
                },
            },
        }
    }
}

} // verus!

verus! {

/// A table of a database, opened under its own name.
pub fn handler_of<'a>(catalog: &'a Catalog, trees: &'a Vec<Tree>, table: usize) -> (handler:
    TableHandler<'a>)
    requires
        catalog.wf(),
        spec_trees_wf(trees@, catalog),
        table < catalog.spec_names().len(),
    ensures
        handler.wf(),
        handler.spec_rows() == spec_trees_view(trees@)[table as int],
        *handler.spec_definition() == catalog.spec_definitions()[table as int],
        handler.spec_name() == catalog.spec_names()[table as int],
        handler.spec_alias() is None,
{
    assert(trees@[table as int].wf());
    assert(catalog.spec_definitions()[table as int].wf());
    TableHandler::new(&trees[table], catalog.definition(table), catalog.name(table).to_owned(), None)
}

fn parent_exists(
    catalog: &Catalog,
    trees: &Vec<Tree>,
    checker: &KeyChecker,
    Ghost(key): Ghost<ResolvedKeyView>,
    values: &Vec<Value>,
) -> (result: Result<bool, Error>)
    requires
        catalog.wf(),
        spec_trees_wf(trees@, catalog),
        checker.spec_is(key),
        checker.spec_in_range(catalog),
        values.len() == spec_types_of(catalog, key.child).len(),
    ensures
        match result {
            Ok(found) => spec_parent_exists(
                catalog,
                key,
                values.deep_view(),
                spec_trees_view(trees@)[key.parent],
                0,
            ) == Ok::<bool, ErrorView>(found),
            Err(e) => spec_parent_exists(
                catalog,
                key,
                values.deep_view(),
                spec_trees_view(trees@)[key.parent],
                0,
            ) == Err::<bool, ErrorView>(e@),
        },
{
    let parent = checker.parent();
    let handler = handler_of(catalog, trees, parent);
    let rows = handler.iter();
    let ghost stored = spec_trees_view(trees@)[key.parent];
    let mut i: usize = 0;
    while i < rows.len()
        invariant
            catalog.wf(),
            handler.wf(),
            i <= rows.len(),
            checker.spec_is(key),
            checker.spec_in_range(catalog),
            parent == key.parent,
            parent == checker.spec_parent(),
            values.len() == spec_types_of(catalog, key.child).len(),
            stored == spec_table_rows(rows@),
            stored == spec_trees_view(trees@)[key.parent],
            *handler.spec_definition() == catalog.spec_definitions()[parent as int],
            spec_parent_exists(catalog, key, values.deep_view(), stored, 0) == spec_parent_exists(
                catalog,
                key,
                values.deep_view(),
                stored,
                i as int,
            ),
        decreases rows.len() - i,
    {
        assert(stored[i as int] == rows[i as int]@);
        let parent_values = match decode_row(&handler, &rows[i]) {
            Ok(v) => v,
            Err(e) => {
                return Err(e);
            },
        };
        proof {
            lemma_decode_row_len(
                spec_types_of(catalog, key.parent),
                rows[i as int]@.right,
                spec_types_of(catalog, key.parent).len() as int,
            );
        }
        if checker.references(Ghost(key), values, &parent_values) {
            return Ok(true);
        }
        i += 1;
    }
    Ok(false)
}

/// Holds a row of values of a table against the foreign keys of that
/// table.
pub fn check_child_keys(
    catalog: &Catalog,
    records: &Vec<ForeignKeyRecord>,
    trees: &Vec<Tree>,
    table: usize,
    values: &Vec<Value>,
) -> (result: Result<(), Error>)
    requires
        catalog.wf(),
        spec_trees_wf(trees@, catalog),
        table < catalog.spec_names().len(),
        values.len() == spec_types_of(catalog, table as int).len(),
    ensures
        spec_unit_result(result) == spec_child_checks(
            catalog,
            records.deep_view(),
            spec_trees_view(trees@),
            table as int,
            values.deep_view(),
            0,
        ),
{
    let name = catalog.name(table);
    let ghost rows = spec_trees_view(trees@);
    let mut i: usize = 0;
    while i < records.len()
        invariant
            catalog.wf(),
            spec_trees_wf(trees@, catalog),
            i <= records.len(),
            table < catalog.spec_names().len(),
            values.len() == spec_types_of(catalog, table as int).len(),
            name@ == catalog.spec_names()[table as int],
            rows == spec_trees_view(trees@),
            spec_child_checks(catalog, records.deep_view(), rows, table as int, values.deep_view(), 0)
                == spec_child_checks(
                catalog,
                records.deep_view(),
                rows,
                table as int,
                values.deep_view(),
                i as int,
            ),
        decreases records.len() - i,
    {
        assert(records.deep_view()[i as int] == records[i as int]@);
        if str_eq(records[i].table.as_str(), name) {
            let checker = match KeyChecker::resolve(catalog, &records[i]) {
                Ok(c) => c,
                Err(e) => {
                    return Err(e);
                },
            };
            let ghost key = spec_resolve_record(catalog, records[i as int]@)->Ok_0;
            proof {
                crate::interpreter::lemma_table_position(catalog.spec_names(), name@, 0);
                assert(key.child == table);
            }
            if !checker.has_null(Ghost(key), values) {
                match parent_exists(catalog, trees, &checker, Ghost(key), values) {
                    Err(e) => {
                        return Err(e);
                    },
                    Ok(true) => {},
                    Ok(false) => {
                        return Err(
                            Error::Execution(
                                ExecutionError::ForeignKeyConstraintFailed(
                                    checker.name().to_owned(),
                                ),
                            ),
                        );
                    },
                }
            }
        }
        i += 1;
    }
    Ok(())
}

/// The constraint phase for a row of values of a table.
pub fn check_row(
    catalog: &Catalog,
    records: &Vec<ForeignKeyRecord>,
    trees: &Vec<Tree>,
    table: usize,
    values: &Vec<Value>,
    exclude: Option<&TableRow>,
) -> (result: Result<(), Error>)
    requires
        catalog.wf(),
        spec_trees_wf(trees@, catalog),
        table < catalog.spec_names().len(),
    ensures
        spec_unit_result(result) == spec_check_row(
            catalog,
            records.deep_view(),
            spec_trees_view(trees@),
            table as int,
            values.deep_view(),
            match exclude {
                Some(r) => Some(r@.left),
                None => None,
            },
        ),
{
    proof {
        reveal(spec_check_row);
    }
    let handler = handler_of(catalog, trees, table);
    let n = handler.definition().num_columns();
    if values.len() != n {
        return Err(
            Error::Execution(ExecutionError::WrongNumColumns { expected: n, actual: values.len() }),
        );
    }
    match handler.check_constraints(values, exclude) {
        Err(e) => {
            return Err(e);
        },
        Ok(()) => {},
    }
    check_child_keys(catalog, records, trees, table, values)
}

/// Inserts a row of values into a table: the row must pass the constraint
/// phase; it is stored under the next key of the table. A failure leaves
/// the rows as they were.
pub fn insert_values(
    catalog: &Catalog,
    records: &Vec<ForeignKeyRecord>,
    trees: &mut Vec<Tree>,
    table: usize,
    values: Vec<Value>,
) -> (result: Result<(), Error>)
    requires
        catalog.wf(),
        spec_trees_wf(old(trees)@, catalog),
        table < catalog.spec_names().len(),
    ensures
        spec_trees_wf(final(trees)@, catalog),
        match result {
            Ok(()) => spec_insert(
                catalog,
                records.deep_view(),
                spec_trees_view(old(trees)@),
                table as int,
                values.deep_view(),
            ) == Ok::<Rows, ErrorView>(spec_trees_view(final(trees)@)),
            Err(e) => spec_insert(
                catalog,
                records.deep_view(),
                spec_trees_view(old(trees)@),
                table as int,
                values.deep_view(),
            ) == Err::<Rows, ErrorView>(e@) && final(trees)@ == old(trees)@,
        },
{
    proof {
        reveal(spec_insert);
        reveal(spec_check_row);
    }
    match check_row(catalog, records, trees, table, &values, None) {
        Err(e) => {
            return Err(e);
        },
        Ok(()) => {},
    }
    assert(trees@[table as int].wf());
    assert(catalog.spec_definitions()[table as int].wf());
    let key = match crate::table_handler::next_key(&trees[table]) {
        Ok(k) => k,
        Err(e) => {
            return Err(e);
        },
    };
    let ghost view = values.deep_view();
    let row = match catalog.definition(table).columns().generate_row(values) {
        Ok(r) => r,
        Err(e) => {
            return Err(e);
        },
    };
    let ghost before = spec_trees_view(trees@);
    trees[table].insert(crate::table_handler::key_bytes(key), row);
    proof {
        assert(spec_trees_view(trees@) =~= before.update(
            table as int,
            crate::table_handler::spec_tree_insert(
                before[table as int],
                crate::table_handler::spec_key_bytes(key),
                row@,
            ),
        ));
    }
    Ok(())
}

} // verus!

verus! {

/// What is done to a row that others may refer to: it is deleted, or it
/// gets new values.
pub enum Action<'a> {
    Delete,
    Update(&'a Vec<Value>),
}

impl<'a> View for Action<'a> {
    type V = ActionView;

    open spec fn view(&self) -> ActionView {
        match self {
            Action::Delete => ActionView::Delete,
            Action::Update(values) => ActionView::Update(values.deep_view()),
        }
    }
}

/// A row on its way through a cascade.
#[derive(Debug)]
pub struct VisitedRow {
    pub table: usize,
    pub key: Vec<u8>,
}

impl DeepView for VisitedRow {
    type V = Visit;

    open spec fn deep_view(&self) -> Visit {
        Visit { table: self.table as int, key: self.key@ }
    }
}

fn copy_key(key: &Vec<u8>) -> (copy: Vec<u8>)
    ensures
        copy@ == key@,
{
    let mut copy: Vec<u8> = Vec::new();
    let mut i: usize = 0;
    while i < key.len()
        invariant
            i <= key.len(),
            copy@ == key@.take(i as int),
        decreases key.len() - i,
    {
        copy.push(key[i]);
        i += 1;
        assert(copy@ =~= key@.take(i as int));
    }
    assert(key@.take(key.len() as int) =~= key@);
    copy
}

fn key_eq(a: &Vec<u8>, b: &Vec<u8>) -> (equal: bool)
    ensures
        equal == (a@ == b@),
{
    if a.len() != b.len() {
        return false;
    }
    let mut i: usize = 0;
    while i < a.len()
        invariant
            i <= a.len(),
            a.len() == b.len(),
            forall|k: int| 0 <= k < i ==> a[k] == b[k],
        decreases a.len() - i,
    {
        if a[i] != b[i] {
            return false;
        }
        i += 1;
    }
    assert(a@ =~= b@);
    true
}

fn on_chain(chain: &Vec<VisitedRow>, table: usize, key: &Vec<u8>) -> (found: bool)
    ensures
        found == chain.deep_view().contains(Visit { table: table as int, key: key@ }),
{
    let mut i: usize = 0;
    while i < chain.len()
        invariant
            i <= chain.len(),
            forall|k: int|
                0 <= k < i ==> chain.deep_view()[k] != (Visit { table: table as int, key: key@ }),
        decreases chain.len() - i,
    {
        assert(chain.deep_view()[i as int] == chain[i as int].deep_view());
        if chain[i].table == table && key_eq(&chain[i].key, key) {
            return true;
        }
        i += 1;
    }
    false
}

fn longer_chain(chain: &Vec<VisitedRow>, table: usize, key: &Vec<u8>) -> (longer: Vec<VisitedRow>)
    ensures
        longer.deep_view() == chain.deep_view().push(Visit { table: table as int, key: key@ }),
{
    let mut longer: Vec<VisitedRow> = Vec::new();
    let mut i: usize = 0;
    while i < chain.len()
        invariant
            i <= chain.len(),
            longer.len() == i,
            forall|k: int| 0 <= k < i ==> longer[k].deep_view() == chain[k].deep_view(),
        decreases chain.len() - i,
    {
        longer.push(VisitedRow { table: chain[i].table, key: copy_key(&chain[i].key) });
        i += 1;
    }
    longer.push(VisitedRow { table, key: copy_key(key) });
    assert(longer.deep_view() =~= chain.deep_view().push(
        Visit { table: table as int, key: key@ },
    ));
    longer
}

fn stored_values(catalog: &Catalog, trees: &Vec<Tree>, table: usize, index: usize) -> (result:
    Result<Vec<Value>, Error>)
    requires
        catalog.wf(),
        spec_trees_wf(trees@, catalog),
        table < catalog.spec_names().len(),
        index < spec_trees_view(trees@)[table as int].len(),
    ensures
        spec_values_result(result) == spec_values_of(
            catalog,
            table as int,
            spec_trees_view(trees@)[table as int][index as int],
        ),
        result matches Ok(values) ==> values.len() == spec_types_of(catalog, table as int).len(),
{
    let handler = handler_of(catalog, trees, table);
    let rows = handler.iter();
    assert(spec_table_rows(rows@)[index as int] == rows[index as int]@);
    proof {
        lemma_decode_row_len(
            spec_types_of(catalog, table as int),
            rows[index as int]@.right,
            spec_types_of(catalog, table as int).len() as int,
        );
    }
    decode_row(&handler, &rows[index])
}

fn referred(
    catalog: &Catalog,
    trees: &Vec<Tree>,
    checker: &KeyChecker,
    Ghost(key): Ghost<ResolvedKeyView>,
    parent: &Vec<Value>,
) -> (result: Result<bool, Error>)
    requires
        catalog.wf(),
        spec_trees_wf(trees@, catalog),
        checker.spec_is(key),
        checker.spec_in_range(catalog),
        parent.len() == spec_types_of(catalog, key.parent).len(),
    ensures
        match result {
            Ok(found) => spec_referred(
                catalog,
                key,
                spec_trees_view(trees@)[key.child],
                parent.deep_view(),
                0,
            ) == Ok::<bool, ErrorView>(found),
            Err(e) => spec_referred(
                catalog,
                key,
                spec_trees_view(trees@)[key.child],
                parent.deep_view(),
                0,
            ) == Err::<bool, ErrorView>(e@),
        },
{
    let child = checker.child();
    let ghost stored = spec_trees_view(trees@)[key.child];
    let count = trees[child].len();
    let mut i: usize = 0;
    while i < count
        invariant
            catalog.wf(),
            spec_trees_wf(trees@, catalog),
            i <= count,
            count == stored.len(),
            checker.spec_is(key),
            checker.spec_in_range(catalog),
            child == key.child,
            child == checker.spec_child(),
            child < catalog.spec_names().len(),
            parent.len() == spec_types_of(catalog, key.parent).len(),
            stored == spec_trees_view(trees@)[key.child],
            spec_referred(catalog, key, stored, parent.deep_view(), 0) == spec_referred(
                catalog,
                key,
                stored,
                parent.deep_view(),
                i as int,
            ),
        decreases count - i,
    {
        let child_values = match stored_values(catalog, trees, child, i) {
            Ok(v) => v,
            Err(e) => {
                return Err(e);
            },
        };
        if checker.references(Ghost(key), &child_values, parent) {
            return Ok(true);
        }
        i += 1;
    }
    Ok(false)
}

fn dangling(
    catalog: &Catalog,
    records: &Vec<ForeignKeyRecord>,
    trees: &Vec<Tree>,
    table: usize,
    parent: &Vec<Value>,
) -> (result: Result<(), Error>)
    requires
        catalog.wf(),
        spec_trees_wf(trees@, catalog),
        table < catalog.spec_names().len(),
        parent.len() == spec_types_of(catalog, table as int).len(),
    ensures
        spec_unit_result(result) == spec_dangling(
            catalog,
            records.deep_view(),
            spec_trees_view(trees@),
            table as int,
            parent.deep_view(),
            0,
        ),
{
    let name = catalog.name(table);
    let ghost rows = spec_trees_view(trees@);
    let mut i: usize = 0;
    while i < records.len()
        invariant
            catalog.wf(),
            spec_trees_wf(trees@, catalog),
            i <= records.len(),
            table < catalog.spec_names().len(),
            parent.len() == spec_types_of(catalog, table as int).len(),
            name@ == catalog.spec_names()[table as int],
            rows == spec_trees_view(trees@),
            spec_dangling(catalog, records.deep_view(), rows, table as int, parent.deep_view(), 0)
                == spec_dangling(
                catalog,
                records.deep_view(),
                rows,
                table as int,
                parent.deep_view(),
                i as int,
            ),
        decreases records.len() - i,
    {
        assert(records.deep_view()[i as int] == records[i as int]@);
        if str_eq(records[i].referred_table.as_str(), name) {
            let checker = match KeyChecker::resolve(catalog, &records[i]) {
                Ok(c) => c,
                Err(e) => {
                    return Err(e);
                },
            };
            let ghost key = spec_resolve_record(catalog, records[i as int]@)->Ok_0;
            proof {
                crate::interpreter::lemma_table_position(catalog.spec_names(), name@, 0);
                assert(key.parent == table);
            }
            match referred(catalog, trees, &checker, Ghost(key), parent) {
                Err(e) => {
                    return Err(e);
                },
                Ok(true) => {
                    return Err(
                        Error::Execution(
                            ExecutionError::ForeignKeyConstraintFailed(checker.name().to_owned()),
                        ),
                    );
                },
                Ok(false) => {},
            }
        }
        i += 1;
    }
    Ok(())
}

/// What rows and their error look like from outside, given the rows that
/// a statement left.
pub open spec fn spec_rows_result(result: Result<(), Error>, trees: Seq<Tree>) -> Result<
    Rows,
    ErrorView,
> {
    match result {
        Ok(()) => Ok(spec_trees_view(trees)),
        Err(e) => Err(e@),
    }
}

/// Deletes the row of a table with the key `key`, after the rows that
/// refer to it have been dealt with. After a failure the rows are left as
/// the cascade had them, and are to be thrown away.
pub fn delete_row(
    catalog: &Catalog,
    records: &Vec<ForeignKeyRecord>,
    trees: &mut Vec<Tree>,
    table: usize,
    key: &Vec<u8>,
    chain: &Vec<VisitedRow>,
    fuel: usize,
) -> (result: Result<(), Error>)
    requires
        catalog.wf(),
        spec_trees_wf(old(trees)@, catalog),
        table < catalog.spec_names().len(),
    ensures
        result is Ok ==> spec_trees_wf(final(trees)@, catalog),
        spec_rows_result(result, final(trees)@) == spec_delete_row(
            catalog,
            records.deep_view(),
            spec_trees_view(old(trees)@),
            table as int,
            key@,
            chain.deep_view(),
            fuel as nat,
        ),
    decreases fuel, 0nat, 0nat,
{
    if fuel == 0 || on_chain(chain, table, key) {
        return Err(internal("A cascade came back to a row"));
    }
    assert(trees@[table as int].wf());
    let index = match trees[table].find(key) {
        Some(i) => i,
        None => {
            return Ok(());
        },
    };
    let old_values = match stored_values(catalog, trees, table, index) {
        Ok(v) => v,
        Err(e) => {
            return Err(e);
        },
    };
    let longer = longer_chain(chain, table, key);
    match handlers(
        catalog,
        records,
        trees,
        table,
        &old_values,
        &Action::Delete,
        &longer,
        fuel - 1,
    ) {
        Err(e) => {
            return Err(e);
        },
        Ok(()) => {},
    }
    let ghost after = spec_trees_view(trees@);
    assert(trees@[table as int].wf());
    let _ = trees[table].remove(key);
    proof {
        assert(spec_trees_view(trees@) =~= after.update(
            table as int,
            crate::table_handler::spec_tree_remove(after[table as int], key@),
        ));
    }
    dangling(catalog, records, trees, table, &old_values)
}

/// Gives the row of a table with the key `key` new values, after they
/// have passed the constraint phase and the rows that refer to the row
/// have been dealt with. After a failure the rows are left as the cascade
/// had them, and are to be thrown away.
pub fn update_row(
    catalog: &Catalog,
    records: &Vec<ForeignKeyRecord>,
    trees: &mut Vec<Tree>,
    table: usize,
    key: &Vec<u8>,
    values: Vec<Value>,
    chain: &Vec<VisitedRow>,
    fuel: usize,
) -> (result: Result<(), Error>)
    requires
        catalog.wf(),
        spec_trees_wf(old(trees)@, catalog),
        table < catalog.spec_names().len(),
    ensures
        result is Ok ==> spec_trees_wf(final(trees)@, catalog),
        spec_rows_result(result, final(trees)@) == spec_update_row(
            catalog,
            records.deep_view(),
            spec_trees_view(old(trees)@),
            table as int,
            key@,
            values.deep_view(),
            chain.deep_view(),
            fuel as nat,
        ),
    decreases fuel, 0nat, 0nat,
{
    if fuel == 0 || on_chain(chain, table, key) {
        return Err(internal("A cascade came back to a row"));
    }
    assert(trees@[table as int].wf());
    let index = match trees[table].find(key) {
        Some(i) => i,
        None => {
            return Ok(());
        },
    };
    proof {
        reveal(spec_check_row);
        crate::table_handler::lemma_find(spec_trees_view(trees@)[table as int], key@, 0);
    }
    match check_row(catalog, records, trees, table, &values, Some(trees[table].row(index))) {
        Err(e) => {
            return Err(e);
        },
        Ok(()) => {},
    }
    let old_values = match stored_values(catalog, trees, table, index) {
        Ok(v) => v,
        Err(e) => {
            return Err(e);
        },
    };
    let longer = longer_chain(chain, table, key);
    match handlers(
        catalog,
        records,
        trees,
        table,
        &old_values,
        &Action::Update(&values),
        &longer,
        fuel - 1,
    ) {
        Err(e) => {
            return Err(e);
        },
        Ok(()) => {},
    }
    assert(catalog.spec_definitions()[table as int].wf());
    let row = match catalog.definition(table).columns().generate_row(values) {
        Ok(r) => r,
        Err(e) => {
            return Err(e);
        },
    };
    let ghost after = spec_trees_view(trees@);
    assert(trees@[table as int].wf());
    trees[table].insert(copy_key(key), row);
    proof {
        assert(spec_trees_view(trees@) =~= after.update(
            table as int,
            crate::table_handler::spec_tree_insert(after[table as int], key@, row@),
        ));
    }
    Ok(())
}

fn handlers(
    catalog: &Catalog,
    records: &Vec<ForeignKeyRecord>,
    trees: &mut Vec<Tree>,
    table: usize,
    parent: &Vec<Value>,
    action: &Action,
    chain: &Vec<VisitedRow>,
    fuel: usize,
) -> (result: Result<(), Error>)
    requires
        catalog.wf(),
        spec_trees_wf(old(trees)@, catalog),
        table < catalog.spec_names().len(),
        parent.len() == spec_types_of(catalog, table as int).len(),
        match action {
            Action::Update(values) => values.len() == spec_types_of(catalog, table as int).len(),
            Action::Delete => true,
        },
    ensures
        result is Ok ==> spec_trees_wf(final(trees)@, catalog),
        spec_rows_result(result, final(trees)@) == spec_handlers(
            catalog,
            records.deep_view(),
            spec_trees_view(old(trees)@),
            table as int,
            parent.deep_view(),
            action@,
            chain.deep_view(),
            fuel as nat,
            0,
        ),
    decreases fuel, 2nat, 0nat,
{
    let name = catalog.name(table);
    let ghost start = spec_trees_view(trees@);
    let mut i: usize = 0;
    while i < records.len()
        invariant
            catalog.wf(),
            spec_trees_wf(trees@, catalog),
            i <= records.len(),
            table < catalog.spec_names().len(),
            parent.len() == spec_types_of(catalog, table as int).len(),
            match action {
                Action::Update(values) => values.len() == spec_types_of(
                    catalog,
                    table as int,
                ).len(),
                Action::Delete => true,
            },
            name@ == catalog.spec_names()[table as int],
            start == spec_trees_view(old(trees)@),
            spec_handlers(
                catalog,
                records.deep_view(),
                start,
                table as int,
                parent.deep_view(),
                action@,
                chain.deep_view(),
                fuel as nat,
                0,
            ) == spec_handlers(
                catalog,
                records.deep_view(),
                spec_trees_view(trees@),
                table as int,
                parent.deep_view(),
                action@,
                chain.deep_view(),
                fuel as nat,
                i as int,
            ),
        decreases records.len() - i,
    {
        assert(records.deep_view()[i as int] == records[i as int]@);
        if str_eq(records[i].referred_table.as_str(), name) {
            let checker = match KeyChecker::resolve(catalog, &records[i]) {
                Ok(c) => c,
                Err(e) => {
                    return Err(e);
                },
            };
            let ghost key = spec_resolve_record(catalog, records[i as int]@)->Ok_0;
            proof {
                crate::interpreter::lemma_table_position(catalog.spec_names(), name@, 0);
                assert(key.parent == table);
            }
            let child = checker.child();
            assert(trees@[child as int].wf());
            let snapshot = trees[child].duplicate();
            match handle_children(
                catalog,
                records,
                trees,
                &checker,
                Ghost(key),
                parent,
                action,
                chain,
                fuel,
                &snapshot,
            ) {
                Err(e) => {
                    return Err(e);
                },
                Ok(()) => {},
            }
        }
        i += 1;
    }
    Ok(())
}

fn handle_children(
    catalog: &Catalog,
    records: &Vec<ForeignKeyRecord>,
    trees: &mut Vec<Tree>,
    checker: &KeyChecker,
    Ghost(key): Ghost<ResolvedKeyView>,
    parent: &Vec<Value>,
    action: &Action,
    chain: &Vec<VisitedRow>,
    fuel: usize,
    snapshot: &Tree,
) -> (result: Result<(), Error>)
    requires
        catalog.wf(),
        spec_trees_wf(old(trees)@, catalog),
        checker.spec_is(key),
        checker.spec_in_range(catalog),
        key.child_columns.no_duplicates(),
        parent.len() == spec_types_of(catalog, key.parent).len(),
        match action {
            Action::Update(values) => values.len() == spec_types_of(catalog, key.parent).len(),
            Action::Delete => true,
        },
    ensures
        result is Ok ==> spec_trees_wf(final(trees)@, catalog),
        spec_rows_result(result, final(trees)@) == spec_handle_children(
            catalog,
            records.deep_view(),
            spec_trees_view(old(trees)@),
            key,
            parent.deep_view(),
            action@,
            chain.deep_view(),
            fuel as nat,
            snapshot@,
            0,
        ),
    decreases fuel, 1nat, 0nat,
{
    let child = checker.child();
    let ghost start = spec_trees_view(trees@);
    let count = snapshot.len();
    let mut j: usize = 0;
    while j < count
        invariant
            catalog.wf(),
            spec_trees_wf(trees@, catalog),
            j <= count,
            count == snapshot@.len(),
            checker.spec_is(key),
            checker.spec_in_range(catalog),
            key.child_columns.no_duplicates(),
            child == key.child,
            child == checker.spec_child(),
            child < catalog.spec_names().len(),
            parent.len() == spec_types_of(catalog, key.parent).len(),
            match action {
                Action::Update(values) => values.len() == spec_types_of(catalog, key.parent).len(),
                Action::Delete => true,
            },
            start == spec_trees_view(old(trees)@),
            spec_handle_children(
                catalog,
                records.deep_view(),
                start,
                key,
                parent.deep_view(),
                action@,
                chain.deep_view(),
                fuel as nat,
                snapshot@,
                0,
            ) == spec_handle_children(
                catalog,
                records.deep_view(),
                spec_trees_view(trees@),
                key,
                parent.deep_view(),
                action@,
                chain.deep_view(),
                fuel as nat,
                snapshot@,
                j as int,
            ),
        decreases count - j,
    {
        let row_key = snapshot.row(j).key();
        assert(trees@[child as int].wf());
        match trees[child].find(row_key) {
            None => {},
            Some(index) => {
                let child_values = match stored_values(catalog, trees, child, index) {
                    Ok(v) => v,
                    Err(e) => {
                        return Err(e);
                    },
                };
                if checker.references(Ghost(key), &child_values, parent) {
                    let chosen = match action {
                        Action::Delete => checker.on_delete(),
                        Action::Update(_) => checker.on_update(),
                    };
                    let done = match chosen {
                        ForeignKeyAction::NoAction => Err(
                            Error::Execution(
                                ExecutionError::ForeignKeyConstraintFailed(
                                    checker.name().to_owned(),
                                ),
                            ),
                        ),
                        ForeignKeyAction::SetNull => {
                            let values = checker.filled(Ghost(key), &child_values, &Fill::Nulls);
                            update_row(catalog, records, trees, child, row_key, values, chain, fuel)
                        },
                        ForeignKeyAction::SetDefault => {
                            let values = checker.filled(
                                Ghost(key),
                                &child_values,
                                &Fill::Defaults(catalog.definition(child)),
                            );
                            update_row(catalog, records, trees, child, row_key, values, chain, fuel)
                        },
                        ForeignKeyAction::Cascade => match action {
                            Action::Delete => delete_row(
                                catalog,
                                records,
                                trees,
                                child,
                                row_key,
                                chain,
                                fuel,
                            ),
                            Action::Update(new_values) => {
                                let values = checker.filled(
                                    Ghost(key),
                                    &child_values,
                                    &Fill::Values(new_values),
                                );
                                update_row(
                                    catalog,
                                    records,
                                    trees,
                                    child,
                                    row_key,
                                    values,
                                    chain,
                                    fuel,
                                )
                            },
                        },
                    };
                    match done {
                        Err(e) => {
                            return Err(e);
                        },
                        Ok(()) => {},
                    }
                }
            },
        }
        j += 1;
    }
    Ok(())
}

} // verus!

verus! {

fn add_key_column(columns: &mut Columns, name: &str, t: Type) -> (added: bool)
    requires
        old(columns).wf(),
    ensures
        final(columns).wf(),
        added ==> final(columns).spec_names() == old(columns).spec_names().push(name@)
            && final(columns).spec_types() == old(columns).spec_types().push(t),
        !added ==> old(columns).spec_names().contains(name@) || crate::storage::fixed_len(
            old(columns).spec_types().push(t),
        ) > crate::storage::MAX_ROW_LEN,
{
    columns.add_column(name.to_owned(), t).is_ok()
}

/// The names of the columns of the table of foreign keys.
pub open spec fn spec_foreign_key_names() -> Seq<Seq<char>> {
    seq![
        "name"@,
        "table"@,
        "columns"@,
        "referred_table"@,
        "referred_columns"@,
        "on_delete"@,
        "on_update"@,
    ]
}

/// No two columns of the table of foreign keys have one name.
pub proof fn lemma_foreign_key_names()
    ensures
        spec_foreign_key_names().no_duplicates(),
{
    reveal_strlit("name");
    reveal_strlit("table");
    reveal_strlit("columns");
    reveal_strlit("referred_table");
    reveal_strlit("referred_columns");
    reveal_strlit("on_delete");
    reveal_strlit("on_update");
    let names = spec_foreign_key_names();
    assert(names[0].len() == 4);
    assert(names[1].len() == 5);
    assert(names[2].len() == 7);
    assert(names[3].len() == 14);
    assert(names[4].len() == 16);
    assert(names[5].len() == 9);
    assert(names[6].len() == 9);
    assert(names[5][3] == 'd');
    assert(names[6][3] == 'u');
}

proof fn lemma_next_key_column(k: int)
    requires
        0 <= k < 7,
    ensures
        !spec_foreign_key_names().take(k).contains(spec_foreign_key_names()[k]),
        crate::storage::fixed_len(spec_foreign_key_types().take(k + 1))
            <= crate::storage::MAX_ROW_LEN,
        spec_foreign_key_names().take(k + 1) == spec_foreign_key_names().take(k).push(
            spec_foreign_key_names()[k],
        ),
        spec_foreign_key_types().take(k + 1) == spec_foreign_key_types().take(k).push(
            spec_foreign_key_types()[k],
        ),
{
    lemma_foreign_key_names();
    let names = spec_foreign_key_names();
    let types = spec_foreign_key_types().take(k + 1);
    if names.take(k).contains(names[k]) {
        let i = choose|i: int| 0 <= i < k && names.take(k)[i] == names[k];
        assert(names[i] == names[k]);
    }
    crate::storage::lemma_counts(types, types.len() as int);
    assert(names.take(k + 1) =~= names.take(k).push(names[k]));
    assert(spec_foreign_key_types().take(k + 1) =~= spec_foreign_key_types().take(k).push(
        spec_foreign_key_types()[k],
    ));
}

/// The schema of the table of foreign keys.
pub fn foreign_key_columns() -> (columns: Option<Columns>)
    ensures
        columns matches Some(c) && c.wf() && c.spec_types() == spec_foreign_key_types()
            && c.spec_names() == spec_foreign_key_names(),
{
    let mut columns = Columns::new();
    proof {
        assert(spec_foreign_key_names().take(0) =~= columns.spec_names());
        assert(spec_foreign_key_types().take(0) =~= columns.spec_types());
        lemma_next_key_column(0);
    }
    if !add_key_column(&mut columns, "name", Type::String) {
        return None;
    }
    proof {
        lemma_next_key_column(1);
    }
    if !add_key_column(&mut columns, "table", Type::String) {
        return None;
    }
    proof {
        lemma_next_key_column(2);
    }
    if !add_key_column(&mut columns, "columns", Type::String) {
        return None;
    }
    proof {
        lemma_next_key_column(3);
    }
    if !add_key_column(&mut columns, "referred_table", Type::String) {
        return None;
    }
    proof {
        lemma_next_key_column(4);
    }
    if !add_key_column(&mut columns, "referred_columns", Type::String) {
        return None;
    }
    proof {
        lemma_next_key_column(5);
    }
    if !add_key_column(&mut columns, "on_delete", Type::Integer) {
        return None;
    }
    proof {
        lemma_next_key_column(6);
    }
    if !add_key_column(&mut columns, "on_update", Type::Integer) {
        return None;
    }
    proof {
        assert(spec_foreign_key_names().take(7) =~= spec_foreign_key_names());
        assert(spec_foreign_key_types().take(7) =~= spec_foreign_key_types());
    }
    Some(columns)
}

/// The recorded foreign keys of a catalog.
pub fn load_records(catalog: &Catalog) -> (result: Result<Vec<ForeignKeyRecord>, Error>)
    requires
        catalog.wf(),
    ensures
        match result {
            Ok(records) => spec_records(
                catalog.spec_foreign_key_rows(),
                catalog.spec_foreign_key_rows().len() as int,
            ) == Ok::<Seq<ForeignKeyRecordView>, ErrorView>(records.deep_view()),
            Err(e) => spec_records(
                catalog.spec_foreign_key_rows(),
                catalog.spec_foreign_key_rows().len() as int,
            ) == Err::<Seq<ForeignKeyRecordView>, ErrorView>(e@),
        },
{
    let handler = TableHandler::new(
        catalog.foreign_key_tree(),
        catalog.foreign_key_definition(),
        "@foreign_keys".to_owned(),
        None,
    );
    let rows = handler.iter();
    let ghost stored = catalog.spec_foreign_key_rows();
    let mut records: Vec<ForeignKeyRecord> = Vec::new();
    let mut i: usize = 0;
    assert(records.deep_view() =~= Seq::<ForeignKeyRecordView>::empty());
    while i < rows.len()
        invariant
            catalog.wf(),
            handler.wf(),
            i <= rows.len(),
            stored == spec_table_rows(rows@),
            stored == catalog.spec_foreign_key_rows(),
            handler.spec_columns().spec_types() == spec_foreign_key_types(),
            spec_records(stored, i as int) == Ok::<Seq<ForeignKeyRecordView>, ErrorView>(
                records.deep_view(),
            ),
        decreases rows.len() - i,
    {
        assert(stored[i as int] == rows[i as int]@);
        let ghost before = records.deep_view();
        let values = match decode_row(&handler, &rows[i]) {
            Ok(v) => v,
            Err(e) => {
                proof {
                    lemma_records_error(stored, i + 1, rows.len() as int);
                }
                return Err(e);
            },
        };
        match record_of(values) {
            Ok(record) => {
                records.push(record);
                assert(records.deep_view() =~= before.push(record@));
            },
            Err(e) => {
                proof {
                    lemma_records_error(stored, i + 1, rows.len() as int);
                }
                return Err(e);
            },
        }
        i += 1;
    }
    Ok(records)
}

} // verus!
