//! The result of a statement: named columns and rows of values.

use vstd::prelude::*;
use vstd::string::StringExecFns;
use crate::ast::{str_eq, OrderBy, OrderByDirection};
use crate::data_types::{spec_compare, Comparison, Value, ValueView};
use crate::error::{Error, ErrorView, ExecutionError, ExecutionErrorView};

verus! {

/// Stores a list of rows returned by a query.
#[derive(Debug, Default)]
pub struct Relation {
    column_names: Vec<String>,
    rows: Vec<Vec<Value>>,
}

/// What a `Relation` holds.
pub struct RelationView {
    pub column_names: Seq<Seq<char>>,
    pub rows: Seq<Seq<ValueView>>,
}

/// One key of an ordering: the position of the column, whether the order
/// is descending, and whether null comes before everything else rather than
/// after it.
pub struct SortKey {
    pub index: usize,
    pub descending: bool,
    pub nulls_first: bool,
}

/// The opposite outcome.
pub open spec fn spec_reverse(c: Comparison) -> Comparison {
    match c {
        Comparison::LessThan => Comparison::GreaterThan,
        Comparison::GreaterThan => Comparison::LessThan,
        _ => c,
    }
}

/// How two values compare under one key. Null is greater than everything
/// else, or less with `nulls_first`; two nulls are equal; a descending key
/// turns the outcome round.
pub open spec fn spec_key_compare(key: SortKey, a: ValueView, b: ValueView) -> Comparison {
    let ascending = match (a, b) {
        (ValueView::Null, ValueView::Null) => Comparison::Equal,
        (ValueView::Null, _) => if key.nulls_first {
            Comparison::LessThan
        } else {
            Comparison::GreaterThan
        },
        (_, ValueView::Null) => if key.nulls_first {
            Comparison::GreaterThan
        } else {
            Comparison::LessThan
        },
        _ => spec_compare(a, b),
    };
    if key.descending {
        spec_reverse(ascending)
    } else {
        ascending
    }
}

/// How two rows compare under a list of keys: by the first key, from
/// position `from` on, under which they are not equal.
#[verifier::opaque]
pub open spec fn spec_row_compare(
    keys: Seq<SortKey>,
    a: Seq<ValueView>,
    b: Seq<ValueView>,
    from: int,
) -> Comparison
    decreases keys.len() - from,
{
    if from < 0 || from >= keys.len() {
        Comparison::Equal
    } else {
        let c = spec_key_compare(keys[from], a[keys[from].index as int], b[keys[from].index as int]);
        if c != Comparison::Equal {
            c
        } else {
            spec_row_compare(keys, a, b, from + 1)
        }
    }
}

/// Where a row goes in a sorted list: after the last row that is not
/// greater than it.
pub open spec fn spec_insert_position(
    keys: Seq<SortKey>,
    sorted: Seq<Seq<ValueView>>,
    row: Seq<ValueView>,
) -> int
    decreases sorted.len(),
{
    if sorted.len() > 0 && spec_row_compare(keys, sorted.last(), row, 0)
        == Comparison::GreaterThan {
        spec_insert_position(keys, sorted.drop_last(), row)
    } else {
        sorted.len() as int
    }
}

/// The rows sorted stably: each row in turn goes after the last row
/// before it that is not greater.
pub open spec fn spec_sort_rows(keys: Seq<SortKey>, rows: Seq<Seq<ValueView>>) -> Seq<
    Seq<ValueView>,
>
    decreases rows.len(),
{
    if rows.len() == 0 {
        Seq::empty()
    } else {
        let sorted = spec_sort_rows(keys, rows.drop_last());
        sorted.insert(spec_insert_position(keys, sorted, rows.last()), rows.last())
    }
}

/// Whether the row at position `i` is not greater than the row after it.
pub open spec fn spec_pair_ordered(keys: Seq<SortKey>, rows: Seq<Seq<ValueView>>, i: int) -> bool {
    spec_row_compare(keys, rows[i], rows[i + 1], 0) != Comparison::GreaterThan
}

/// Whether no row is greater than the row after it.
pub open spec fn spec_ordered(keys: Seq<SortKey>, rows: Seq<Seq<ValueView>>) -> bool {
    forall|i: int| 0 <= i < rows.len() - 1 ==> #[trigger] spec_pair_ordered(keys, rows, i)
}

/// Turning two values round turns the outcome round.
pub proof fn lemma_key_compare_antisymmetric(key: SortKey, a: ValueView, b: ValueView)
    ensures
        spec_key_compare(key, b, a) == spec_reverse(spec_key_compare(key, a, b)),
        spec_key_compare(key, a, b) != Comparison::Unknown,
{
    match (a, b) {
        (
            ValueView::TypedValue(crate::data_types::TypeContentsView::String(x)),
            ValueView::TypedValue(crate::data_types::TypeContentsView::String(y)),
        ) => {
            lemma_compare_bytes_antisymmetric(
                vstd::utf8::encode_utf8(x),
                vstd::utf8::encode_utf8(y),
            );
        },
        _ => {},
    }
}

proof fn lemma_compare_bytes_antisymmetric(a: Seq<u8>, b: Seq<u8>)
    ensures
        crate::data_types::compare_bytes(b, a) == spec_reverse(
            crate::data_types::compare_bytes(a, b),
        ),
        crate::data_types::compare_bytes(a, b) != Comparison::Unknown,
    decreases a.len(),
{
    if a.len() > 0 && b.len() > 0 && a[0] == b[0] {
        lemma_compare_bytes_antisymmetric(a.drop_first(), b.drop_first());
    }
}

/// Turning two rows round turns the outcome round.
pub proof fn lemma_row_compare_antisymmetric(
    keys: Seq<SortKey>,
    a: Seq<ValueView>,
    b: Seq<ValueView>,
    from: int,
)
    ensures
        spec_row_compare(keys, b, a, from) == spec_reverse(spec_row_compare(keys, a, b, from)),
        spec_row_compare(keys, a, b, from) != Comparison::Unknown,
    decreases keys.len() - from,
{
    reveal(spec_row_compare);
    if 0 <= from < keys.len() {
        lemma_key_compare_antisymmetric(
            keys[from],
            a[keys[from].index as int],
            b[keys[from].index as int],
        );
        lemma_row_compare_antisymmetric(keys, a, b, from + 1);
    }
}

/// Where a row goes: the row before is not greater, the rows after are.
pub proof fn lemma_insert_position(
    keys: Seq<SortKey>,
    sorted: Seq<Seq<ValueView>>,
    row: Seq<ValueView>,
)
    ensures
        0 <= spec_insert_position(keys, sorted, row) <= sorted.len(),
        spec_insert_position(keys, sorted, row) > 0 ==> spec_row_compare(
            keys,
            sorted[spec_insert_position(keys, sorted, row) - 1],
            row,
            0,
        ) != Comparison::GreaterThan,
        forall|j: int|
            spec_insert_position(keys, sorted, row) <= j < sorted.len() ==> spec_row_compare(
                keys,
                #[trigger] sorted[j],
                row,
                0,
            ) == Comparison::GreaterThan,
    decreases sorted.len(),
{
    if sorted.len() > 0 && spec_row_compare(keys, sorted.last(), row, 0)
        == Comparison::GreaterThan {
        let rest = sorted.drop_last();
        lemma_insert_position(keys, rest, row);
        let p = spec_insert_position(keys, rest, row);
        assert forall|j: int| p <= j < sorted.len() implies spec_row_compare(
            keys,
            #[trigger] sorted[j],
            row,
            0,
        ) == Comparison::GreaterThan by {
            if j < rest.len() {
                assert(rest[j] == sorted[j]);
            }
        }
        if p > 0 {
            assert(rest[p - 1] == sorted[p - 1]);
        }
    }
}

/// Putting a row where it goes leaves an ordered list ordered.
pub proof fn lemma_insert_ordered(
    keys: Seq<SortKey>,
    sorted: Seq<Seq<ValueView>>,
    row: Seq<ValueView>,
)
    requires
        spec_ordered(keys, sorted),
    ensures
        spec_ordered(
            keys,
            sorted.insert(spec_insert_position(keys, sorted, row), row),
        ),
{
    let p = spec_insert_position(keys, sorted, row);
    let result = sorted.insert(p, row);
    lemma_insert_position(keys, sorted, row);
    assert forall|i: int| 0 <= i < result.len() - 1 implies #[trigger] spec_pair_ordered(
        keys,
        result,
        i,
    ) by {
        if i + 1 < p {
            assert(result[i] == sorted[i] && result[i + 1] == sorted[i + 1]);
            assert(spec_pair_ordered(keys, sorted, i));
        } else if i + 1 == p {
            assert(result[i] == sorted[p - 1] && result[i + 1] == row);
        } else if i == p {
            assert(result[i] == row && result[i + 1] == sorted[p]);
            lemma_row_compare_antisymmetric(keys, sorted[p], row, 0);
        } else {
            assert(result[i] == sorted[i - 1] && result[i + 1] == sorted[i]);
            assert(spec_pair_ordered(keys, sorted, i - 1));
        }
    }
}

/// The sorted rows are the same rows, as many times each, and no row is
/// greater than the row after it.
pub proof fn lemma_sort_rows(keys: Seq<SortKey>, rows: Seq<Seq<ValueView>>)
    ensures
        spec_ordered(keys, spec_sort_rows(keys, rows)),
        spec_sort_rows(keys, rows).len() == rows.len(),
        spec_sort_rows(keys, rows).to_multiset() == rows.to_multiset(),
    decreases rows.len(),
{
    if rows.len() > 0 {
        let rest = rows.drop_last();
        let sorted = spec_sort_rows(keys, rest);
        lemma_sort_rows(keys, rest);
        lemma_insert_ordered(keys, sorted, rows.last());
        lemma_insert_position(keys, sorted, rows.last());
        vstd::seq_lib::to_multiset_insert(
            sorted,
            spec_insert_position(keys, sorted, rows.last()),
            rows.last(),
        );
        vstd::seq_lib::to_multiset_build(rest, rows.last());
        assert(rows =~= rest.push(rows.last()));
    } else {
        assert(rows =~= Seq::<Seq<ValueView>>::empty());
    }
}

/// The position of the first of the names, from `from` on, that is `name`.
pub open spec fn spec_position(names: Seq<Seq<char>>, name: Seq<char>, from: int) -> Option<int>
    decreases names.len() - from,
{
    if from < 0 || from >= names.len() {
        None
    } else if names[from] == name {
        Some(from)
    } else {
        spec_position(names, name, from + 1)
    }
}

/// The position that was found is one of the names' and holds the name.
pub proof fn lemma_position(names: Seq<Seq<char>>, name: Seq<char>, from: int)
    requires
        0 <= from,
    ensures
        match spec_position(names, name, from) {
            Some(i) => from <= i < names.len() && names[i] == name,
            None => forall|j: int| from <= j < names.len() ==> names[j] != name,
        },
    decreases names.len() - from,
{
    if from < names.len() && names[from] != name {
        lemma_position(names, name, from + 1);
    }
}

/// The key that one `ORDER BY` item stands for.
pub open spec fn spec_sort_key(item: OrderBy, index: int) -> SortKey {
    SortKey {
        index: index as usize,
        descending: item.direction == OrderByDirection::Descending,
        nulls_first: item.nulls_first,
    }
}

/// The keys that the first `n` items of an `ORDER BY` stand for, or the
/// error of the first item that names no column.
pub open spec fn spec_sort_keys(names: Seq<Seq<char>>, order_by: Seq<OrderBy>, n: int) -> Result<
    Seq<SortKey>,
    ErrorView,
>
    decreases n,
{
    if n <= 0 {
        Ok(Seq::empty())
    } else {
        match spec_sort_keys(names, order_by, n - 1) {
            Err(e) => Err(e),
            Ok(keys) => match spec_position(names, order_by[n - 1].expression.spec_text(), 0) {
                None => Err(
                    ErrorView::Execution(
                        ExecutionErrorView::NoColumn(order_by[n - 1].expression.spec_text()),
                    ),
                ),
                Some(i) => Ok(keys.push(spec_sort_key(order_by[n - 1], i))),
            },
        }
    }
}

fn position(names: &Vec<String>, name: &str) -> (index: Option<usize>)
    ensures
        match index {
            Some(i) => spec_position(names.deep_view(), name@, 0) == Some(i as int) && i
                < names.len(),
            None => spec_position(names.deep_view(), name@, 0) is None,
        },
{
    let mut i: usize = 0;
    while i < names.len()
        invariant
            i <= names.len(),
            spec_position(names.deep_view(), name@, 0) == spec_position(
                names.deep_view(),
                name@,
                i as int,
            ),
        decreases names.len() - i,
    {
        assert(names.deep_view()[i as int] == names[i as int]@);
        if str_eq(names[i].as_str(), name) {
            return Some(i);
        }
        i += 1;
    }
    None
}

fn compare_under_key(key: &SortKey, a: &Value, b: &Value) -> (c: Comparison)
    ensures
        c == spec_key_compare(*key, a@, b@),
{
    let ascending = match (a, b) {
        (Value::Null, Value::Null) => Comparison::Equal,
        (Value::Null, _) => if key.nulls_first {
            Comparison::LessThan
        } else {
            Comparison::GreaterThan
        },
        (_, Value::Null) => if key.nulls_first {
            Comparison::GreaterThan
        } else {
            Comparison::LessThan
        },
        _ => a.compare(b),
    };
    if key.descending {
        match ascending {
            Comparison::LessThan => Comparison::GreaterThan,
            Comparison::GreaterThan => Comparison::LessThan,
            other => other,
        }
    } else {
        ascending
    }
}

/// What the rows hold.
pub open spec fn spec_rows_view(rows: Seq<Vec<Value>>) -> Seq<Seq<ValueView>> {
    Seq::new(rows.len(), |i: int| rows[i].deep_view())
}

fn compare_rows(keys: &Vec<SortKey>, a: &Vec<Value>, b: &Vec<Value>) -> (c: Comparison)
    requires
        forall|k: int| 0 <= k < keys.len() ==> keys[k].index < a.len() && keys[k].index < b.len(),
    ensures
        c == spec_row_compare(keys@, a.deep_view(), b.deep_view(), 0),
{
    let mut k: usize = 0;
    proof {
        reveal(spec_row_compare);
    }
    while k < keys.len()
        invariant
            k <= keys.len(),
            forall|k: int|
                0 <= k < keys.len() ==> keys[k].index < a.len() && keys[k].index < b.len(),
            spec_row_compare(keys@, a.deep_view(), b.deep_view(), 0) == spec_row_compare(
                keys@,
                a.deep_view(),
                b.deep_view(),
                k as int,
            ),
        decreases keys.len() - k,
    {
        proof {
            reveal(spec_row_compare);
        }
        let c = compare_under_key(&keys[k], &a[keys[k].index], &b[keys[k].index]);
        if !matches!(c, Comparison::Equal) {
            return c;
        }
        k += 1;
    }
    Comparison::Equal
}

impl View for Relation {
    type V = RelationView;

    closed spec fn view(&self) -> RelationView {
        RelationView {
            column_names: self.column_names.deep_view(),
            rows: spec_rows_view(self.rows@),
        }
    }
}

impl Relation {
    /// The invariant of a relation: every row has one value for each
    /// column.
    pub open spec fn wf(&self) -> bool {
        forall|i: int|
            0 <= i < self@.rows.len() ==> (#[trigger] self@.rows[i]).len()
                == self@.column_names.len()
    }

    /// A relation of these columns without rows.
    pub fn new(column_names: Vec<String>) -> (relation: Self)
        ensures
            relation.wf(),
            relation@.column_names == column_names.deep_view(),
            relation@.rows == Seq::<Seq<ValueView>>::empty(),
    {
        let relation = Self { column_names, rows: Vec::new() };
        assert(relation@.rows =~= Seq::<Seq<ValueView>>::empty());
        relation
    }

    /// Adds a row at the end. A row that has not one value for each column
    /// fails with `WrongNumColumns` and leaves the relation as it was.
    pub fn add_row(&mut self, row: Vec<Value>) -> (result: Result<(), Error>)
        requires
            old(self).wf(),
        ensures
            final(self).wf(),
            final(self)@.column_names == old(self)@.column_names,
            match result {
                Ok(()) => row.len() == old(self)@.column_names.len() && final(self)@.rows == old(
                    self,
                )@.rows.push(row.deep_view()),
                Err(e) => row.len() != old(self)@.column_names.len() && final(self)@ == old(self)@
                    && e@ == ErrorView::Execution(
                    ExecutionErrorView::WrongNumColumns {
                        expected: old(self)@.column_names.len() as usize,
                        actual: row.len(),
                    },
                ),
            },
    {
        if self.column_names.len() == row.len() {
            self.rows.push(row);
            assert(self@.rows =~= old(self)@.rows.push(row.deep_view()));
            Ok(())
        } else {
            Err(
                Error::Execution(
                    ExecutionError::WrongNumColumns {
                        expected: self.column_names.len(),
                        actual: row.len(),
                    },
                ),
            )
        }
    }

    fn sort_keys(&self, order_by: &Vec<OrderBy>) -> (result: Result<Vec<SortKey>, Error>)
        ensures
            match result {
                Ok(keys) => spec_sort_keys(self@.column_names, order_by@, order_by.len() as int)
                    == Ok::<Seq<SortKey>, ErrorView>(keys@) && forall|k: int|
                    0 <= k < keys.len() ==> keys[k].index < self@.column_names.len(),
                Err(e) => spec_sort_keys(self@.column_names, order_by@, order_by.len() as int)
                    == Err::<Seq<SortKey>, ErrorView>(e@),
            },
    {
        let mut keys: Vec<SortKey> = Vec::new();
        let mut j: usize = 0;
        while j < order_by.len()
            invariant
                j <= order_by.len(),
                spec_sort_keys(self@.column_names, order_by@, j as int) == Ok::<
                    Seq<SortKey>,
                    ErrorView,
                >(keys@),
                forall|k: int|
                    0 <= k < keys.len() ==> keys[k].index < self@.column_names.len(),
            decreases order_by.len() - j,
        {
            let text = order_by[j].expression.to_string();
            match position(&self.column_names, text.as_str()) {
                Some(index) => {
                    keys.push(
                        SortKey {
                            index,
                            descending: matches!(order_by[j].direction, OrderByDirection::Descending),
                            nulls_first: order_by[j].nulls_first,
                        },
                    );
                },
                None => {
                    proof {
                        lemma_sort_keys_error(
                            self@.column_names,
                            order_by@,
                            j + 1,
                            order_by.len() as int,
                        );
                    }
                    return Err(Error::Execution(ExecutionError::NoColumn(text)));
                },
            }
            j += 1;
        }
        Ok(keys)
    }

    /// Sorts the rows stably by the keys of an `ORDER BY`. An item that
    /// names no column fails with `NoColumn` and leaves the relation as it
    /// was.
    pub fn sort(&mut self, order_by: Vec<OrderBy>) -> (result: Result<(), Error>)
        requires
            old(self).wf(),
        ensures
            final(self).wf(),
            final(self)@.column_names == old(self)@.column_names,
            match result {
                Ok(()) => spec_sort_keys(
                    old(self)@.column_names,
                    order_by@,
                    order_by.len() as int,
                ) matches Ok(keys) && final(self)@.rows == spec_sort_rows(keys, old(self)@.rows),
                Err(e) => spec_sort_keys(old(self)@.column_names, order_by@, order_by.len() as int)
                    == Err::<Seq<SortKey>, ErrorView>(e@) && final(self)@ == old(self)@,
            },
    {
        let keys = match self.sort_keys(&order_by) {
            Ok(keys) => keys,
            Err(e) => {
                return Err(e);
            },
        };
        let ghost all = self@.rows;
        let ghost names = self@.column_names;
        let n = self.rows.len();
        let mut i: usize = 0;
        proof {
            assert(all.take(0) =~= Seq::<Seq<ValueView>>::empty());
            assert(all.skip(0) =~= all);
        }
        while i < n
            invariant
                i <= n,
                n == all.len(),
                self.rows.len() == n,
                self@.column_names == names,
                forall|k: int| 0 <= k < keys.len() ==> keys[k].index < names.len(),
                forall|k: int| 0 <= k < n ==> (#[trigger] self@.rows[k]).len() == names.len(),
                self@.rows == spec_sort_rows(keys@, all.take(i as int)) + all.skip(i as int),
                spec_sort_rows(keys@, all.take(i as int)).len() == i,
            decreases n - i,
        {
            let ghost before = self@.rows;
            let ghost sorted = spec_sort_rows(keys@, all.take(i as int));
            let row = self.rows.remove(i);
            proof {
                assert(row.deep_view() == before[i as int]);
                assert(before[i as int] == all[i as int]);
                assert(self@.rows =~= before.remove(i as int));
                assert(before.remove(i as int) =~= sorted + all.skip(i + 1));
                assert(self@.rows.take(i as int) =~= sorted);
                assert(self@.rows.skip(i as int) =~= all.skip(i + 1));
                assert(all.take(i + 1).drop_last() =~= all.take(i as int));
                assert(all.take(i + 1).last() == all[i as int]);
                lemma_sort_rows(keys@, all.take(i + 1));
                assert forall|k: int| 0 <= k < self.rows.len() implies (
                #[trigger] self.rows[k]).len() == row.len() by {
                    assert(self@.rows[k] == self.rows[k].deep_view());
                    if k < i {
                        assert(self@.rows[k] == before[k]);
                    } else {
                        assert(self@.rows[k] == before[k + 1]);
                    }
                }
            }
            insert_sorted(&keys, &mut self.rows, i, row);
            i += 1;
            proof {
                assert forall|k: int| 0 <= k < n implies (#[trigger] self@.rows[k]).len()
                    == names.len() by {
                    assert(self@.rows[k] == self.rows[k].deep_view());
                }
            }
        }
        proof {
            assert(all.take(n as int) =~= all);
            assert(all.skip(n as int) =~= Seq::<Seq<ValueView>>::empty());
            assert(self@.rows =~= spec_sort_rows(keys@, all));
        }
        Ok(())
    }

    /// The names of the columns, in order.
    pub fn column_names(&self) -> (names: &Vec<String>)
        ensures
            names.deep_view() == self@.column_names,
    {
        &self.column_names
    }

    /// Checks if the column name is contained in the `Relation`.
    pub fn contains_column(&self, column: &str) -> (found: bool)
        ensures
            found == self@.column_names.contains(column@),
    {
        proof {
            lemma_position(self@.column_names, column@, 0);
        }
        position(&self.column_names, column).is_some()
    }

    /// The rows, in order.
    pub fn rows(&self) -> (rows: &Vec<Vec<Value>>)
        ensures
            spec_rows_view(rows@) == self@.rows,
    {
        &self.rows
    }

    /// Returns a `Vec` of rows.
    pub fn take_rows(self) -> (rows: Vec<Vec<Value>>)
        ensures
            spec_rows_view(rows@) == self@.rows,
    {
        self.rows
    }

    /// Returns the number of columns.
    pub fn num_columns(&self) -> (count: usize)
        ensures
            count == self@.column_names.len(),
    {
        self.column_names.len()
    }

    /// Returns the number of rows.
    pub fn num_rows(&self) -> (count: usize)
        ensures
            count == self@.rows.len(),
    {
        self.rows.len()
    }

    /// Checks if the `Relation` is an empty result: no columns and no rows.
    pub fn is_empty(&self) -> (empty: bool)
        ensures
            empty == (self@.rows.len() == 0 && self@.column_names.len() == 0),
    {
        self.rows.len() == 0 && self.column_names.len() == 0
    }

    /// Gets a value from the specified row and column indexes.
    pub fn get_value(&self, column: usize, row: usize) -> (value: Option<&Value>)
        ensures
            match value {
                Some(v) => row < self@.rows.len() && column < self@.rows[row as int].len() && v@
                    == self@.rows[row as int][column as int],
                None => !(row < self@.rows.len() && column < self@.rows[row as int].len()),
            },
    {
        if row < self.rows.len() {
            if column < self.rows[row].len() {
                return Some(&self.rows[row][column]);
            }
        }
        None
    }

    /// Gets a value by column name from the specified row: that of the
    /// first column of that name.
    pub fn get_value_named(&self, column: &str, row: usize) -> (value: Option<&Value>)
        ensures
            match value {
                Some(v) => spec_position(self@.column_names, column@, 0) matches Some(c) && row
                    < self@.rows.len() && c < self@.rows[row as int].len() && v@
                    == self@.rows[row as int][c],
                None => match spec_position(self@.column_names, column@, 0) {
                    Some(c) => !(row < self@.rows.len() && c < self@.rows[row as int].len()),
                    None => true,
                },
            },
    {
        match position(&self.column_names, column) {
            Some(column_index) => self.get_value(column_index, row),
            None => None,
        }
    }

    /// The rows, each with the names of the columns.
    pub fn iter(&self) -> (rows: Vec<Row<'_>>)
        ensures
            rows.len() == self@.rows.len(),
            forall|i: int|
                0 <= i < rows.len() ==> (#[trigger] rows[i]).spec_columns() == self@.column_names
                    && rows[i].spec_values() == self@.rows[i],
    {
        let mut rows: Vec<Row<'_>> = Vec::new();
        let mut i: usize = 0;
        while i < self.rows.len()
            invariant
                i <= self.rows.len(),
                rows.len() == i,
                forall|k: int|
                    0 <= k < i ==> (#[trigger] rows[k]).spec_columns() == self@.column_names
                        && rows[k].spec_values() == self@.rows[k],
            decreases self.rows.len() - i,
        {
            rows.push(Row::new(&self.column_names, &self.rows[i]));
            i += 1;
        }
        rows
    }
}

/// Once the keys fail, more items do not change the error.
proof fn lemma_sort_keys_error(names: Seq<Seq<char>>, order_by: Seq<OrderBy>, from: int, to: int)
    requires
        0 <= from <= to,
        spec_sort_keys(names, order_by, from) is Err,
    ensures
        spec_sort_keys(names, order_by, to) == spec_sort_keys(names, order_by, from),
    decreases to - from,
{
    if from < to {
        lemma_sort_keys_error(names, order_by, from, to - 1);
    }
}

/// Puts a row where it goes among the first `prefix` rows, which are
/// sorted.
fn insert_sorted(keys: &Vec<SortKey>, rows: &mut Vec<Vec<Value>>, prefix: usize, row: Vec<Value>)
    requires
        prefix <= old(rows).len(),
        forall|k: int| 0 <= k < keys.len() ==> keys[k].index < row.len(),
        forall|i: int| 0 <= i < old(rows).len() ==> (#[trigger] old(rows)[i]).len() == row.len(),
    ensures
        spec_rows_view(final(rows)@) == spec_rows_view(old(rows)@).take(prefix as int).insert(
            spec_insert_position(
                keys@,
                spec_rows_view(old(rows)@).take(prefix as int),
                row.deep_view(),
            ),
            row.deep_view(),
        ) + spec_rows_view(old(rows)@).skip(prefix as int),
        final(rows).len() == old(rows).len() + 1,
        forall|i: int| 0 <= i < final(rows).len() ==> (#[trigger] final(rows)[i]).len() == row.len(),
{
    let mut at: usize = prefix;
    let ghost before = spec_rows_view(rows@);
    let ghost sorted = before.take(prefix as int);
    proof {
        assert(sorted.take(at as int) =~= sorted);
    }
    while at > 0
        invariant_except_break
            spec_insert_position(keys@, sorted, row.deep_view()) == spec_insert_position(
                keys@,
                sorted.take(at as int),
                row.deep_view(),
            ),
        invariant
            at <= prefix <= rows.len(),
            rows@ == old(rows)@,
            before == spec_rows_view(rows@),
            sorted == before.take(prefix as int),
            forall|k: int| 0 <= k < keys.len() ==> keys[k].index < row.len(),
            forall|i: int| 0 <= i < rows.len() ==> (#[trigger] rows[i]).len() == row.len(),
        ensures
            spec_insert_position(keys@, sorted, row.deep_view()) == at,
        decreases at,
    {
        let c = compare_rows(keys, &rows[at - 1], &row);
        proof {
            assert(sorted.take(at as int).last() == rows[at - 1].deep_view());
            assert(sorted.take(at as int).drop_last() =~= sorted.take(at - 1));
        }
        if !matches!(c, Comparison::GreaterThan) {
            break ;
        }
        at -= 1;
    }
    proof {
        if at == 0 {
            assert(sorted.take(0).len() == 0);
        }
    }
    rows.insert(at, row);
    assert(spec_rows_view(rows@) =~= sorted.insert(at as int, row.deep_view()) + before.skip(
        prefix as int,
    ));
}

/// A row from a `Relation`
pub struct Row<'a> {
    columns: &'a Vec<String>,
    row: &'a Vec<Value>,
}

impl<'a> Row<'a> {
    /// The names of the columns.
    pub closed spec fn spec_columns(&self) -> Seq<Seq<char>> {
        self.columns.deep_view()
    }

    /// The values of the row.
    pub closed spec fn spec_values(&self) -> Seq<ValueView> {
        self.row.deep_view()
    }

    pub fn new(columns: &'a Vec<String>, row: &'a Vec<Value>) -> (made: Self)
        ensures
            made.spec_columns() == columns.deep_view(),
            made.spec_values() == row.deep_view(),
    {
        Self { columns, row }
    }

    /// Get a value by index.
    pub fn get_value_index(&self, index: usize) -> (value: Option<&Value>)
        ensures
            match value {
                Some(v) => index < self.spec_values().len() && v@ == self.spec_values()[index as int],
                None => index >= self.spec_values().len(),
            },
    {
        if index < self.row.len() {
            Some(&self.row[index])
        } else {
            None
        }
    }

    /// Get a value by name: that of the first column of that name.
    pub fn get_value_named(&self, column_name: &str) -> (value: Option<&Value>)
        ensures
            match value {
                Some(v) => spec_position(self.spec_columns(), column_name@, 0) matches Some(c) && c
                    < self.spec_values().len() && v@ == self.spec_values()[c],
                None => match spec_position(self.spec_columns(), column_name@, 0) {
                    Some(c) => c >= self.spec_values().len(),
                    None => true,
                },
            },
    {
        match position(self.columns, column_name) {
            Some(index) => self.get_value_index(index),
            None => None,
        }
    }
}

} // verus!

verus! {

/// How the values of a row are shown, in order.
pub open spec fn spec_row_texts(row: Seq<ValueView>) -> Seq<Seq<char>> {
    Seq::new(row.len(), |i: int| crate::ast::spec_value_text(row[i]))
}

/// A line: its parts with `|` between them, and the end of the line.
pub open spec fn spec_line(parts: Seq<Seq<char>>) -> Seq<char> {
    crate::foreign_key::spec_join_names(parts) + seq!['\n']
}

/// The lines of the first `n` rows, one after the other.
pub open spec fn spec_rows_text(rows: Seq<Seq<ValueView>>, n: int) -> Seq<char>
    decreases n,
{
    if n <= 0 {
        Seq::empty()
    } else {
        spec_rows_text(rows, n - 1) + spec_line(spec_row_texts(rows[n - 1]))
    }
}

/// How a relation is shown: nothing where it has no columns; else a line
/// of the names of its columns, and a line for each of its rows.
pub open spec fn spec_relation_text(relation: RelationView) -> Seq<char> {
    if relation.column_names.len() == 0 {
        Seq::empty()
    } else {
        spec_line(relation.column_names) + spec_rows_text(
            relation.rows,
            relation.rows.len() as int,
        )
    }
}

fn row_texts(row: &Vec<Value>) -> (texts: Vec<String>)
    ensures
        texts.deep_view() == spec_row_texts(row.deep_view()),
{
    let mut texts: Vec<String> = Vec::new();
    let mut i: usize = 0;
    while i < row.len()
        invariant
            i <= row.len(),
            texts.len() == i,
            forall|j: int|
                0 <= j < i ==> (#[trigger] texts[j])@ == crate::ast::spec_value_text(row[j]@),
        decreases row.len() - i,
    {
        texts.push(crate::ast::value_text(&row[i]));
        i += 1;
    }
    assert(texts.deep_view() =~= spec_row_texts(row.deep_view()));
    texts
}

impl Relation {
    /// How the relation is shown.
    pub fn to_string(&self) -> (text: String)
        ensures
            text@ == spec_relation_text(self@),
    {
        let mut text = String::new();
        if self.column_names.len() == 0 {
            return text;
        }
        proof {
            reveal_strlit("\n");
            assert("\n"@ =~= seq!['\n']);
        }
        let names = crate::foreign_key::join_names(&self.column_names);
        text.append(names.as_str());
        text.append("\n");
        let ghost rows = self@.rows;
        let mut i: usize = 0;
        assert(text@ =~= spec_line(self@.column_names) + spec_rows_text(rows, 0));
        while i < self.rows.len()
            invariant
                i <= self.rows.len(),
                rows == self@.rows,
                "\n"@ == seq!['\n'],
                text@ == spec_line(self@.column_names) + spec_rows_text(rows, i as int),
            decreases self.rows.len() - i,
        {
            let texts = row_texts(&self.rows[i]);
            let line = crate::foreign_key::join_names(&texts);
            let ghost before = text@;
            text.append(line.as_str());
            text.append("\n");
            proof {
                assert(rows[i as int] == self.rows[i as int].deep_view());
                assert(text@ =~= before + spec_line(spec_row_texts(rows[i as int])));
                assert(text@ =~= spec_line(self@.column_names) + spec_rows_text(rows, i + 1));
            }
            i += 1;
        }
        text
    }
}

} // verus!
