//! Tables: the ordered store that holds the rows of one table, and the
//! handler that reads them under the table's schema.

use itertools::{Itertools, Powerset};
use std::collections::HashSet;
use vstd::prelude::*;
use crate::ast::{str_eq, ColumnName, ColumnNameView};
use crate::data_types::{compare_bytes, Comparison, Value, ValueView};
use crate::error::{internal, Error, ErrorView, ExecutionError, ExecutionErrorView};
use crate::resolved_expression::{ResolvedColumn, ResolvedColumnView};
use crate::storage::{spec_decode_column, spec_index_of, ColumnKey, Columns};
use crate::interpreter::{evaluate_expression, spec_evaluate};
use crate::resolved_expression::Expression;
use crate::table_definition::{CheckView, ColumnSetView, TableDefinition};
use crate::{spec_env, spec_value_result, GetData, RowEnv, TableColumns};

verus! {

/// A stored row: its key and the bytes of its values. The row with no key
/// and no bytes stands for a row of nulls.
#[derive(Debug, Default, Clone, PartialEq, Eq)]
pub struct TableRow {
    left: Vec<u8>,
    right: Vec<u8>,
}

/// What a `TableRow` holds.
pub struct TableRowView {
    pub left: Seq<u8>,
    pub right: Seq<u8>,
}

impl View for TableRow {
    type V = TableRowView;

    closed spec fn view(&self) -> TableRowView {
        TableRowView { left: self.left@, right: self.right@ }
    }
}

impl DeepView for TableRow {
    type V = TableRowView;

    open spec fn deep_view(&self) -> TableRowView {
        self@
    }
}

impl TableRowView {
    /// Whether this is the row that stands for a row of nulls.
    pub open spec fn is_empty(self) -> bool {
        self.left.len() == 0 && self.right.len() == 0
    }
}

fn copy_bytes(bytes: &Vec<u8>) -> (copy: Vec<u8>)
    ensures
        copy@ == bytes@,
{
    let mut copy: Vec<u8> = Vec::new();
    let mut i: usize = 0;
    while i < bytes.len()
        invariant
            i <= bytes.len(),
            copy@ == bytes@.take(i as int),
        decreases bytes.len() - i,
    {
        copy.push(bytes[i]);
        i += 1;
        assert(copy@ =~= bytes@.take(i as int));
    }
    assert(bytes@.take(bytes.len() as int) =~= bytes@);
    copy
}

fn bytes_eq(a: &Vec<u8>, b: &Vec<u8>) -> (equal: bool)
    ensures
        equal == (a@ == b@),
{
    if a.len() != b.len() {
        return false;
    }
    let mut i: usize = 0;
    while i < a.len()
        invariant
            i <= a.len(),
            a.len() == b.len(),
            forall|k: int| 0 <= k < i ==> a[k] == b[k],
        decreases a.len() - i,
    {
        if a[i] != b[i] {
            return false;
        }
        i += 1;
    }
    assert(a@ =~= b@);
    true
}

impl TableRow {
    pub fn new(left: Vec<u8>, right: Vec<u8>) -> (row: Self)
        ensures
            row@ == (TableRowView { left: left@, right: right@ }),
    {
        Self { left, right }
    }

    /// Whether this is the row that stands for a row of nulls.
    pub fn is_empty(&self) -> (empty: bool)
        ensures
            empty == self@.is_empty(),
    {
        self.left.len() == 0 && self.right.len() == 0
    }

    /// The row's key.
    pub fn key(&self) -> (key: &Vec<u8>)
        ensures
            key@ == self@.left,
    {
        &self.left
    }

    /// The bytes of the row's values.
    pub fn data(&self) -> (data: &Vec<u8>)
        ensures
            data@ == self@.right,
    {
        &self.right
    }

    /// Whether the two rows have the same key.
    pub fn same_key(&self, other: &TableRow) -> (same: bool)
        ensures
            same == (self@.left == other@.left),
    {
        bytes_eq(&self.left, &other.left)
    }

    /// A copy of the row.
    pub fn duplicate(&self) -> (copy: Self)
        ensures
            copy@ == self@,
    {
        Self { left: copy_bytes(&self.left), right: copy_bytes(&self.right) }
    }
}

// ---------------------------------------------------------------------------
// The ordered store
// ---------------------------------------------------------------------------

/// Whether the keys of the rows go strictly up.
pub open spec fn spec_sorted(rows: Seq<TableRowView>) -> bool {
    forall|i: int, j: int|
        0 <= i < j < rows.len() ==> compare_bytes(#[trigger] rows[i].left, #[trigger] rows[j].left)
            == Comparison::LessThan
}

/// The position of the first row, from `from` on, whose key is `key`.
pub open spec fn spec_find(rows: Seq<TableRowView>, key: Seq<u8>, from: int) -> Option<int>
    decreases rows.len() - from,
{
    if from < 0 || from >= rows.len() {
        None
    } else if rows[from].left == key {
        Some(from)
    } else {
        spec_find(rows, key, from + 1)
    }
}

/// Where a new key goes: after the last row whose key is not greater.
pub open spec fn spec_key_position(rows: Seq<TableRowView>, key: Seq<u8>) -> int
    decreases rows.len(),
{
    if rows.len() > 0 && compare_bytes(rows.last().left, key) == Comparison::GreaterThan {
        spec_key_position(rows.drop_last(), key)
    } else {
        rows.len() as int
    }
}

/// The rows after `key` is set to `value`: the row of that key is
/// replaced, or a new row goes where the order of the keys puts it.
pub open spec fn spec_tree_insert(rows: Seq<TableRowView>, key: Seq<u8>, value: Seq<u8>) -> Seq<
    TableRowView,
> {
    match spec_find(rows, key, 0) {
        Some(i) => rows.update(i, TableRowView { left: key, right: value }),
        None => rows.insert(spec_key_position(rows, key), TableRowView { left: key, right: value }),
    }
}

/// The rows without the row of that key.
pub open spec fn spec_tree_remove(rows: Seq<TableRowView>, key: Seq<u8>) -> Seq<TableRowView> {
    match spec_find(rows, key, 0) {
        Some(i) => rows.remove(i),
        None => rows,
    }
}

/// What `spec_find` finds: the first row of that key.
pub proof fn lemma_find(rows: Seq<TableRowView>, key: Seq<u8>, from: int)
    requires
        0 <= from,
    ensures
        match spec_find(rows, key, from) {
            Some(i) => from <= i < rows.len() && rows[i].left == key && forall|j: int|
                from <= j < i ==> rows[j].left != key,
            None => forall|j: int| from <= j < rows.len() ==> rows[j].left != key,
        },
    decreases rows.len() - from,
{
    if from < rows.len() && rows[from].left != key {
        lemma_find(rows, key, from + 1);
    }
}

/// Byte strings compare the other way round when they change places, and
/// the order that `compare_bytes` gives is transitive.
pub proof fn lemma_compare_bytes_order(a: Seq<u8>, b: Seq<u8>, c: Seq<u8>)
    ensures
        compare_bytes(a, b) == Comparison::LessThan <==> compare_bytes(b, a)
            == Comparison::GreaterThan,
        compare_bytes(a, b) == Comparison::Equal <==> a == b,
        compare_bytes(a, b) != Comparison::Unknown,
        compare_bytes(a, b) == Comparison::LessThan && compare_bytes(b, c) == Comparison::LessThan
            ==> compare_bytes(a, c) == Comparison::LessThan,
    decreases a.len(),
{
    crate::data_types::lemma_compare_bytes_equal(a, b);
    if a.len() > 0 && b.len() > 0 {
        if c.len() > 0 {
            lemma_compare_bytes_order(a.drop_first(), b.drop_first(), c.drop_first());
        } else {
            lemma_compare_bytes_order(a.drop_first(), b.drop_first(), c);
        }
    }
}

/// Setting a key keeps the keys going up.
pub proof fn lemma_tree_insert_sorted(rows: Seq<TableRowView>, key: Seq<u8>, value: Seq<u8>)
    requires
        spec_sorted(rows),
    ensures
        spec_sorted(spec_tree_insert(rows, key, value)),
{
    let new_row = TableRowView { left: key, right: value };
    let result = spec_tree_insert(rows, key, value);
    lemma_find(rows, key, 0);
    match spec_find(rows, key, 0) {
        Some(i) => {
            assert forall|a: int, b: int| 0 <= a < b < result.len() implies compare_bytes(
                #[trigger] result[a].left,
                #[trigger] result[b].left,
            ) == Comparison::LessThan by {
                assert(result[a].left == rows[a].left);
                assert(result[b].left == rows[b].left);
            }
        },
        None => {
            let p = spec_key_position(rows, key);
            lemma_key_position(rows, key);
            assert forall|a: int, b: int| 0 <= a < b < result.len() implies compare_bytes(
                #[trigger] result[a].left,
                #[trigger] result[b].left,
            ) == Comparison::LessThan by {
                if b < p {
                    assert(result[a] == rows[a] && result[b] == rows[b]);
                } else if b == p {
                    assert(result[a] == rows[a]);
                    assert(rows[a].left != key);
                    lemma_compare_bytes_order(rows[a].left, key, key);
                    lemma_compare_bytes_order(key, rows[a].left, key);
                    if a < p - 1 {
                        lemma_compare_bytes_order(rows[a].left, rows[p - 1].left, key);
                        lemma_compare_bytes_order(rows[p - 1].left, key, key);
                        lemma_compare_bytes_order(key, rows[p - 1].left, key);
                        assert(rows[p - 1].left != key);
                    }
                } else if a == p {
                    assert(result[b] == rows[b - 1]);
                    lemma_compare_bytes_order(key, rows[b - 1].left, key);
                } else if a < p {
                    assert(result[a] == rows[a] && result[b] == rows[b - 1]);
                } else {
                    assert(result[a] == rows[a - 1] && result[b] == rows[b - 1]);
                }
            }
        },
    }
}

/// Where a new key goes: the row before has a key that is not greater, the
/// rows after have greater keys.
pub proof fn lemma_key_position(rows: Seq<TableRowView>, key: Seq<u8>)
    ensures
        0 <= spec_key_position(rows, key) <= rows.len(),
        spec_key_position(rows, key) > 0 ==> compare_bytes(
            rows[spec_key_position(rows, key) - 1].left,
            key,
        ) != Comparison::GreaterThan,
        forall|j: int|
            spec_key_position(rows, key) <= j < rows.len() ==> compare_bytes(
                (#[trigger] rows[j]).left,
                key,
            ) == Comparison::GreaterThan,
    decreases rows.len(),
{
    if rows.len() > 0 && compare_bytes(rows.last().left, key) == Comparison::GreaterThan {
        let rest = rows.drop_last();
        lemma_key_position(rest, key);
        let p = spec_key_position(rest, key);
        assert forall|j: int| p <= j < rows.len() implies compare_bytes(
            (#[trigger] rows[j]).left,
            key,
        ) == Comparison::GreaterThan by {
            if j < rest.len() {
                assert(rest[j] == rows[j]);
            }
        }
        if p > 0 {
            assert(rest[p - 1] == rows[p - 1]);
        }
    }
}

/// Taking a row out keeps the keys going up.
pub proof fn lemma_tree_remove_sorted(rows: Seq<TableRowView>, key: Seq<u8>)
    requires
        spec_sorted(rows),
    ensures
        spec_sorted(spec_tree_remove(rows, key)),
{
    lemma_find(rows, key, 0);
    let result = spec_tree_remove(rows, key);
    match spec_find(rows, key, 0) {
        Some(i) => {
            assert forall|a: int, b: int| 0 <= a < b < result.len() implies compare_bytes(
                #[trigger] result[a].left,
                #[trigger] result[b].left,
            ) == Comparison::LessThan by {
                let a2 = if a < i {
                    a
                } else {
                    a + 1
                };
                let b2 = if b < i {
                    b
                } else {
                    b + 1
                };
                assert(result[a] == rows[a2] && result[b] == rows[b2]);
            }
        },
        None => {},
    }
}

/// What the rows hold.
pub open spec fn spec_table_rows(rows: Seq<TableRow>) -> Seq<TableRowView> {
    Seq::new(rows.len(), |i: int| rows[i]@)
}

/// An ordered store from keys to values, both byte strings: the rows of
/// one table, by key.
#[derive(Debug, Default)]
pub struct Tree {
    rows: Vec<TableRow>,
}

impl View for Tree {
    type V = Seq<TableRowView>;

    closed spec fn view(&self) -> Seq<TableRowView> {
        spec_table_rows(self.rows@)
    }
}

impl Tree {
    /// The invariant of a store: the keys go strictly up.
    pub open spec fn wf(&self) -> bool {
        spec_sorted(self@)
    }

    /// A store without rows.
    pub fn new() -> (tree: Self)
        ensures
            tree.wf(),
            tree@ == Seq::<TableRowView>::empty(),
    {
        let tree = Self { rows: Vec::new() };
        assert(tree@ =~= Seq::<TableRowView>::empty());
        tree
    }

    /// How many rows the store holds.
    pub fn len(&self) -> (len: usize)
        ensures
            len == self@.len(),
    {
        self.rows.len()
    }

    /// The rows, by key.
    pub fn rows(&self) -> (rows: &Vec<TableRow>)
        ensures
            spec_table_rows(rows@) == self@,
    {
        &self.rows
    }

    /// The row at a position.
    pub fn row(&self, index: usize) -> (row: &TableRow)
        requires
            index < self@.len(),
        ensures
            row@ == self@[index as int],
    {
        &self.rows[index]
    }

    /// The row with the greatest key.
    pub fn last(&self) -> (row: Option<&TableRow>)
        ensures
            match row {
                Some(r) => self@.len() > 0 && r@ == self@.last(),
                None => self@.len() == 0,
            },
    {
        if self.rows.len() == 0 {
            None
        } else {
            Some(&self.rows[self.rows.len() - 1])
        }
    }

    /// The position of the row of that key.
    pub fn find(&self, key: &Vec<u8>) -> (index: Option<usize>)
        ensures
            match index {
                Some(i) => spec_find(self@, key@, 0) == Some(i as int) && i < self@.len(),
                None => spec_find(self@, key@, 0) is None,
            },
    {
        let mut i: usize = 0;
        while i < self.rows.len()
            invariant
                i <= self.rows.len(),
                spec_find(self@, key@, 0) == spec_find(self@, key@, i as int),
            decreases self.rows.len() - i,
        {
            assert(self@[i as int] == self.rows[i as int]@);
            if bytes_eq(&self.rows[i].left, key) {
                return Some(i);
            }
            i += 1;
        }
        None
    }

    /// Where a new key goes among the rows.
    fn key_position(&self, key: &Vec<u8>) -> (at: usize)
        ensures
            at == spec_key_position(self@, key@),
            at <= self@.len(),
    {
        let mut at: usize = self.rows.len();
        let ghost rows = self@;
        proof {
            assert(rows.take(at as int) =~= rows);
            lemma_key_position(rows, key@);
        }
        while at > 0
            invariant_except_break
                spec_key_position(rows, key@) == spec_key_position(rows.take(at as int), key@),
            invariant
                at <= self.rows.len(),
                rows == self@,
            ensures
                spec_key_position(rows, key@) == at,
            decreases at,
        {
            proof {
                assert(rows.take(at as int).last() == self.rows[at - 1]@);
                assert(rows.take(at as int).drop_last() =~= rows.take(at - 1));
            }
            let c = compare_keys(&self.rows[at - 1].left, key);
            if !matches!(c, Comparison::GreaterThan) {
                break ;
            }
            at -= 1;
        }
        proof {
            if at == 0 {
                assert(rows.take(0).len() == 0);
            }
        }
        at
    }

    /// Sets `key` to `value`: the row of that key is replaced, or a new row
    /// goes where the order of the keys puts it.
    pub fn insert(&mut self, key: Vec<u8>, value: Vec<u8>)
        requires
            old(self).wf(),
        ensures
            final(self).wf(),
            final(self)@ == spec_tree_insert(old(self)@, key@, value@),
    {
        proof {
            lemma_tree_insert_sorted(self@, key@, value@);
        }
        match self.find(&key) {
            Some(i) => {
                self.rows[i] = TableRow::new(key, value);
                assert(self@ =~= old(self)@.update(
                    i as int,
                    TableRowView { left: key@, right: value@ },
                ));
            },
            None => {
                let at = self.key_position(&key);
                self.rows.insert(at, TableRow::new(key, value));
                assert(self@ =~= old(self)@.insert(
                    at as int,
                    TableRowView { left: key@, right: value@ },
                ));
            },
        }
    }

    /// Takes out the row of that key, and says whether there was one.
    pub fn remove(&mut self, key: &Vec<u8>) -> (removed: bool)
        requires
            old(self).wf(),
        ensures
            final(self).wf(),
            final(self)@ == spec_tree_remove(old(self)@, key@),
            removed == (spec_find(old(self)@, key@, 0) is Some),
    {
        proof {
            lemma_tree_remove_sorted(self@, key@);
        }
        match self.find(key) {
            Some(i) => {
                let _ = self.rows.remove(i);
                assert(self@ =~= old(self)@.remove(i as int));
                true
            },
            None => false,
        }
    }

    /// A copy of the store.
    pub fn duplicate(&self) -> (copy: Self)
        ensures
            copy@ == self@,
    {
        let mut rows: Vec<TableRow> = Vec::new();
        let mut i: usize = 0;
        while i < self.rows.len()
            invariant
                i <= self.rows.len(),
                rows.len() == i,
                forall|k: int| 0 <= k < i ==> rows[k]@ == self.rows[k]@,
            decreases self.rows.len() - i,
        {
            rows.push(self.rows[i].duplicate());
            i += 1;
        }
        let copy = Self { rows };
        assert(copy@ =~= self@);
        copy
    }
}

fn compare_keys(a: &Vec<u8>, b: &Vec<u8>) -> (result: Comparison)
    ensures
        result == compare_bytes(a@, b@),
{
    let mut i: usize = 0;
    assert(a@.skip(0) =~= a@ && b@.skip(0) =~= b@);
    while i < a.len() && i < b.len()
        invariant
            i <= a@.len(),
            i <= b@.len(),
            compare_bytes(a@, b@) == compare_bytes(a@.skip(i as int), b@.skip(i as int)),
        decreases a@.len() - i,
    {
        proof {
            assert(a@.skip(i as int).drop_first() =~= a@.skip(i + 1));
            assert(b@.skip(i as int).drop_first() =~= b@.skip(i + 1));
        }
        if a[i] < b[i] {
            return Comparison::LessThan;
        }
        if a[i] > b[i] {
            return Comparison::GreaterThan;
        }
        i += 1;
    }
    if i < b.len() {
        Comparison::LessThan
    } else if i < a.len() {
        Comparison::GreaterThan
    } else {
        Comparison::Equal
    }
}

} // verus!

verus! {

// ---------------------------------------------------------------------------
// Keys
// ---------------------------------------------------------------------------

/// The eight bytes of a key, most significant first.
pub open spec fn spec_key_bytes(key: u64) -> Seq<u8> {
    seq![
        (key >> 56) as u8,
        (key >> 48) as u8,
        (key >> 40) as u8,
        (key >> 32) as u8,
        (key >> 24) as u8,
        (key >> 16) as u8,
        (key >> 8) as u8,
        key as u8,
    ]
}

/// The key whose first eight bytes, most significant first, are those of
/// `b`.
pub open spec fn spec_key_from_bytes(b: Seq<u8>) -> u64
    recommends
        b.len() >= 8,
{
    ((b[0] as u64) << 56) | ((b[1] as u64) << 48) | ((b[2] as u64) << 40) | ((b[3] as u64) << 32) | (
    (b[4] as u64) << 24) | ((b[5] as u64) << 16) | ((b[6] as u64) << 8) | (b[7] as u64)
}

/// Reading the bytes of a key gives the key back.
pub proof fn lemma_key_round_trip(key: u64)
    ensures
        spec_key_bytes(key).len() == 8,
        spec_key_from_bytes(spec_key_bytes(key)) == key,
{
    assert((((((key >> 56) as u8) as u64) << 56) | ((((key >> 48) as u8) as u64) << 48) | ((((key
        >> 40) as u8) as u64) << 40) | ((((key >> 32) as u8) as u64) << 32) | ((((key >> 24)
        as u8) as u64) << 24) | ((((key >> 16) as u8) as u64) << 16) | ((((key >> 8) as u8) as u64)
        << 8) | ((key as u8) as u64)) == key) by (bit_vector);
}

/// The eight bytes of a key, most significant first.
pub fn key_bytes(key: u64) -> (bytes: Vec<u8>)
    ensures
        bytes@ == spec_key_bytes(key),
{
    let mut bytes: Vec<u8> = Vec::with_capacity(8);
    bytes.push((key >> 56) as u8);
    bytes.push((key >> 48) as u8);
    bytes.push((key >> 40) as u8);
    bytes.push((key >> 32) as u8);
    bytes.push((key >> 24) as u8);
    bytes.push((key >> 16) as u8);
    bytes.push((key >> 8) as u8);
    bytes.push(key as u8);
    assert(bytes@ =~= spec_key_bytes(key));
    bytes
}

/// The key that comes after the keys of a store: 0 for an empty store,
/// else one more than the number that the first eight bytes of the greatest
/// key spell. A greatest key of fewer than eight bytes, or one that spells
/// the greatest number, is an internal error.
pub open spec fn spec_next_key(rows: Seq<TableRowView>) -> Result<u64, ErrorView> {
    if rows.len() == 0 {
        Ok(0u64)
    } else if rows.last().left.len() < 8 || spec_key_from_bytes(rows.last().left) == u64::MAX {
        Err(ErrorView::Internal)
    } else {
        Ok((spec_key_from_bytes(rows.last().left) + 1) as u64)
    }
}

// ---------------------------------------------------------------------------
// Handlers
// ---------------------------------------------------------------------------

/// An open table: its rows, its definition, its name, and the alias under
/// which a query knows it, if it has one.
#[derive(Debug)]
pub struct TableHandler<'a> {
    tree: &'a Tree,
    table_definition: &'a TableDefinition,
    table_name: String,
    alias: Option<String>,
}

impl<'a> TableHandler<'a> {
    /// The rows of the table, by key.
    pub closed spec fn spec_rows(&self) -> Seq<TableRowView> {
        self.tree@
    }

    /// The definition of the table.
    pub closed spec fn spec_definition(&self) -> &TableDefinition {
        self.table_definition
    }

    /// The columns of the table.
    pub open spec fn spec_columns(&self) -> &Columns {
        self.spec_definition().spec_columns()
    }

    /// The table's own name.
    pub closed spec fn spec_name(&self) -> Seq<char> {
        self.table_name@
    }

    /// The table's alias.
    pub closed spec fn spec_alias(&self) -> Option<Seq<char>> {
        match self.alias {
            Some(a) => Some(a@),
            None => None,
        }
    }

    /// The name by which a query knows the table: its alias if it has one,
    /// else its own name.
    pub open spec fn spec_aliased_name(&self) -> Seq<char> {
        match self.spec_alias() {
            Some(a) => a,
            None => self.spec_name(),
        }
    }

    /// The invariant of a handler: that of its rows and of its definition.
    pub open spec fn wf(&self) -> bool {
        spec_sorted(self.spec_rows()) && self.spec_definition().wf()
    }

    pub fn new(
        tree: &'a Tree,
        table_definition: &'a TableDefinition,
        table_name: String,
        alias: Option<String>,
    ) -> (handler: Self)
        ensures
            handler.spec_rows() == tree@,
            handler.spec_definition() == table_definition,
            handler.spec_name() == table_name@,
            handler.spec_alias() == match alias {
                Some(a) => Some(a@),
                None => None,
            },
    {
        Self { tree, table_definition, table_name, alias }
    }

    /// The definition of the table.
    pub fn definition(&self) -> (definition: &'a TableDefinition)
        ensures
            definition == self.spec_definition(),
    {
        self.table_definition
    }

    /// What a row of the table holds for the column that `column_name`
    /// names.
    pub fn get_value<K: ColumnKey>(&self, column_name: K, row: &TableRow) -> (result: Result<
        Value,
        Error,
    >)
        requires
            self.wf(),
        ensures
            spec_value_result(result) == match column_name.spec_get_entry(self.spec_columns()) {
                Ok(i) => spec_decode_column(self.spec_columns().spec_types(), row@.right, i),
                Err(e) => Err(e),
            },
    {
        self.table_definition.columns().get_data(column_name, row.data().as_slice())
    }

    /// The rows of the table, by key.
    pub fn iter(&self) -> (rows: &'a Vec<TableRow>)
        ensures
            spec_table_rows(rows@) == self.spec_rows(),
    {
        self.tree.rows()
    }

    /// The table's own name.
    pub fn unaliased_table_name(&self) -> (name: &str)
        ensures
            name@ == self.spec_name(),
    {
        self.table_name.as_str()
    }

    /// The name by which a query knows the table.
    pub fn aliased_table_name(&self) -> (name: &str)
        ensures
            name@ == self.spec_aliased_name(),
    {
        match &self.alias {
            Some(a) => a.as_str(),
            None => self.table_name.as_str(),
        }
    }

    /// The key for the next new row.
    pub fn generate_next_index(&self) -> (result: Result<u64, Error>)
        ensures
            match result {
                Ok(key) => spec_next_key(self.spec_rows()) == Ok::<u64, ErrorView>(key),
                Err(e) => spec_next_key(self.spec_rows()) == Err::<u64, ErrorView>(e@),
            },
    {
        next_key(self.tree)
    }
}

/// The key for the next new row of a store.
pub fn next_key(tree: &Tree) -> (result: Result<u64, Error>)
    ensures
        match result {
            Ok(key) => spec_next_key(tree@) == Ok::<u64, ErrorView>(key),
            Err(e) => spec_next_key(tree@) == Err::<u64, ErrorView>(e@),
        },
{
    match tree.last() {
        Some(row) => {
            let b = row.key();
            if b.len() < 8 {
                return Err(internal("Key is wrong number of bytes"));
            }
            let value: u64 = ((b[0] as u64) << 56) | ((b[1] as u64) << 48) | ((b[2] as u64) << 40) | (
            (b[3] as u64) << 32) | ((b[4] as u64) << 24) | ((b[5] as u64) << 16) | ((b[6] as u64)
                << 8) | (b[7] as u64);
            if value == u64::MAX {
                return Err(internal("The table has no key left"));
            }
            Ok(value + 1)
        },
        None => Ok(0),
    }
}

impl<'a> TableColumns for TableHandler<'a> {
    open spec fn columns_wf(&self) -> bool {
        true
    }

    /// A name resolves to a column of the table where the table has the
    /// column and the name gives no table, or gives the one by which the
    /// query knows this table; else it fails with `NoColumn` of the column's
    /// name.
    open spec fn spec_resolve_name(&self, name: ColumnNameView) -> Result<
        ResolvedColumnView,
        ErrorView,
    > {
        let table = match name.table_name {
            Some(t) => t,
            None => self.spec_aliased_name(),
        };
        if table == self.spec_aliased_name() && self.spec_columns().spec_names().contains(
            name.column_name,
        ) {
            Ok(
                ResolvedColumnView {
                    table_name: self.spec_aliased_name(),
                    column_name: name.column_name,
                },
            )
        } else {
            Err(ErrorView::Execution(ExecutionErrorView::NoColumn(name.column_name)))
        }
    }

    fn resolve_name(&self, name: ColumnName) -> (result: Result<ResolvedColumn, Error>) {
        let this_name = self.aliased_table_name();
        let (table_name, column_name) = name.destructure();
        let matches = match &table_name {
            Some(t) => str_eq(this_name, t.as_str()),
            None => true,
        };
        if matches && self.table_definition.contains_column(column_name.as_str()) {
            Ok(ResolvedColumn::new(this_name.to_owned(), column_name))
        } else {
            Err(Error::Execution(ExecutionError::NoColumn(column_name)))
        }
    }
}

/// What a stored row of a table holds for a column. The row that stands
/// for a row of nulls holds null for every column; a column of another
/// table is an internal error.
pub open spec fn spec_stored_value(
    columns: &Columns,
    table: Seq<char>,
    row: TableRowView,
    column: ResolvedColumnView,
) -> Result<ValueView, ErrorView> {
    if row.is_empty() {
        Ok(ValueView::Null)
    } else if column.table_name == table {
        match spec_index_of(columns.spec_names(), column.column_name) {
            Some(i) => spec_decode_column(columns.spec_types(), row.right, i),
            None => Err(ErrorView::Execution(ExecutionErrorView::NoColumn(column.column_name))),
        }
    } else {
        Err(ErrorView::Internal)
    }
}

impl<'a, 'b> GetData for (&'b TableHandler<'a>, &'b TableRow) {
    open spec fn row_wf(&self) -> bool {
        self.0.wf()
    }

    open spec fn spec_get_data(&self, column: ResolvedColumnView) -> Result<ValueView, ErrorView> {
        spec_stored_value(self.0.spec_columns(), self.0.spec_aliased_name(), self.1@, column)
    }

    fn get_data(&self, column_name: &ResolvedColumn) -> (result: Result<Value, Error>) {
        let (handler, row) = *self;
        if row.is_empty() {
            return Ok(Value::Null);
        }
        if str_eq(column_name.table_name(), handler.aliased_table_name()) {
            handler.get_value(column_name.column_name(), row)
        } else {
            Err(internal("Table name resolved incorrectly for a single table row"))
        }
    }
}

/// What a row of values of a table holds for a column: the value at the
/// column's position. A column that the table does not have, or for which
/// the row has no value, is an internal error.
pub open spec fn spec_row_value(columns: &Columns, row: Seq<ValueView>, column: ResolvedColumnView) -> Result<
    ValueView,
    ErrorView,
> {
    match spec_index_of(columns.spec_names(), column.column_name) {
        Some(i) => if i < row.len() {
            Ok(row[i])
        } else {
            Err(ErrorView::Internal)
        },
        None => Err(ErrorView::Internal),
    }
}

/// What a row of values of a table holds for each column.
pub open spec fn spec_values_env(columns: &Columns, row: Seq<ValueView>) -> RowEnv {
    |column: ResolvedColumnView| spec_row_value(columns, row, column)
}

/// What a stored row of a table holds for each column.
pub open spec fn spec_stored_env(columns: &Columns, table: Seq<char>, row: TableRowView) -> RowEnv {
    |column: ResolvedColumnView| spec_stored_value(columns, table, row, column)
}

impl<'a, 'b> GetData for (&'b TableHandler<'a>, &'b Vec<Value>) {
    open spec fn row_wf(&self) -> bool {
        self.0.wf()
    }

    open spec fn spec_get_data(&self, column: ResolvedColumnView) -> Result<ValueView, ErrorView> {
        spec_row_value(self.0.spec_columns(), self.1.deep_view(), column)
    }

    fn get_data(&self, column_name: &ResolvedColumn) -> (result: Result<Value, Error>) {
        let (handler, row) = *self;
        match handler.table_definition.columns().get_index(column_name.column_name()) {
            Some(index) => {
                if index < row.len() {
                    assert(row.deep_view()[index as int] == row[index as int]@);
                    Ok(row[index].duplicate())
                } else {
                    Err(internal("The row has no value for the column"))
                }
            },
            None => Err(internal("Incorrectly resolved column")),
        }
    }
}

} // verus!

verus! {

// ---------------------------------------------------------------------------
// Sets of columns
// ---------------------------------------------------------------------------

/// Whether `s` is what is left of `t` when some of its items go.
pub open spec fn spec_is_subsequence(s: Seq<usize>, t: Seq<usize>) -> bool
    decreases t.len(),
{
    if s.len() == 0 {
        true
    } else if t.len() == 0 {
        false
    } else {
        (s.last() == t.last() && spec_is_subsequence(s.drop_last(), t.drop_last()))
            || spec_is_subsequence(s, t.drop_last())
    }
}

/// The iterator of the crate `itertools` over the subsets of the items of
/// another iterator.
#[verifier::external_type_specification]
#[verifier::external_body]
#[verifier::reject_recursive_types(I)]
pub struct ExPowerset<I: Iterator>(Powerset<I>);

/// The subsets that an iterator over the subsets of a list of columns has
/// still to give, in the order in which it gives them.
pub uninterp spec fn powerset_remaining(sets: Powerset<std::vec::IntoIter<usize>>) -> Seq<
    Seq<usize>,
>;

/// `Itertools::powerset` on the items of a vector: an iterator that gives
/// every list that is left of the items when some of them go, and nothing
/// else.
#[verifier::external_body]
fn powerset(items: Vec<usize>) -> (sets: Powerset<std::vec::IntoIter<usize>>)
    ensures
        forall|s: Seq<usize>|
            #[trigger] powerset_remaining(sets).contains(s) <==> spec_is_subsequence(s, items@),
{
    items.into_iter().powerset()
}

/// `Powerset::next`: the first of the subsets still to come, which then
/// is no longer to come; nothing once none is left.
#[verifier::external_body]
fn powerset_next(sets: &mut Powerset<std::vec::IntoIter<usize>>) -> (set: Option<Vec<usize>>)
    ensures
        match set {
            Some(s) => powerset_remaining(*old(sets)).len() > 0 && s@ == powerset_remaining(
                *old(sets),
            )[0] && powerset_remaining(*final(sets)) == powerset_remaining(
                *old(sets),
            ).drop_first(),
            None => powerset_remaining(*old(sets)).len() == 0 && powerset_remaining(*final(sets))
                == powerset_remaining(*old(sets)),
        },
{
    sets.next()
}

fn columns_eq(a: &Vec<usize>, b: &Vec<usize>) -> (equal: bool)
    ensures
        equal == (a@ == b@),
{
    if a.len() != b.len() {
        return false;
    }
    let mut i: usize = 0;
    while i < a.len()
        invariant
            i <= a.len(),
            a.len() == b.len(),
            forall|k: int| 0 <= k < i ==> a[k] == b[k],
        decreases a.len() - i,
    {
        if a[i] != b[i] {
            return false;
        }
        i += 1;
    }
    assert(a@ =~= b@);
    true
}

/// The sets of columns that must be unique in a table: those of its
/// `UNIQUE` constraints, then its primary key.
pub open spec fn spec_all_uniques(definition: &TableDefinition) -> Seq<ColumnSetView> {
    match definition.spec_primary_key() {
        Some(key) => definition.spec_uniques().push(key),
        None => definition.spec_uniques(),
    }
}

/// A column that rejects null, with the name of the primary key where it
/// does so as part of it.
pub struct NotNullView {
    pub column: usize,
    pub name: Option<Seq<char>>,
}

/// The columns of a table that reject null: those declared so, then
/// those of its primary key.
pub open spec fn spec_all_not_nulls(definition: &TableDefinition) -> Seq<NotNullView> {
    let declared = Seq::new(
        definition.spec_not_nulls().len(),
        |i: int| NotNullView { column: definition.spec_not_nulls()[i], name: None },
    );
    match definition.spec_primary_key() {
        Some(key) => declared + Seq::new(
            key.columns.len(),
            |i: int| NotNullView { column: key.columns[i], name: Some(key.name) },
        ),
        None => declared,
    }
}

/// What a list of sets of columns with their names holds.
pub open spec fn spec_set_refs(sets: Seq<(&Vec<usize>, &str)>) -> Seq<ColumnSetView> {
    Seq::new(sets.len(), |i: int| ColumnSetView { columns: sets[i].0@, name: sets[i].1@ })
}

/// Whether an entry of a list of columns that reject null is the column
/// `column` under the name `name`.
pub open spec fn spec_named_entry(entry: (usize, Option<&str>), column: usize, name: Seq<char>) -> bool {
    entry.0 == column && match entry.1 {
        Some(n) => n@ == name,
        None => false,
    }
}

/// What a list of columns that reject null holds.
pub open spec fn spec_not_null_refs(list: Seq<(usize, Option<&str>)>) -> Seq<NotNullView> {
    Seq::new(
        list.len(),
        |i: int|
            NotNullView {
                column: list[i].0,
                name: match list[i].1 {
                    Some(n) => Some(n@),
                    None => None,
                },
            },
    )
}

impl<'a> TableHandler<'a> {
    /// The columns that reject null: those declared so, then those of the
    /// primary key with its name.
    pub fn not_nulls(&self) -> (list: Vec<(usize, Option<&'a str>)>)
        ensures
            spec_not_null_refs(list@) == spec_all_not_nulls(self.spec_definition()),
    {
        let mut list: Vec<(usize, Option<&'a str>)> = Vec::new();
        let declared = self.table_definition.not_nulls();
        let mut i: usize = 0;
        while i < declared.len()
            invariant
                i <= declared.len(),
                list.len() == i,
                forall|k: int| 0 <= k < i ==> list[k].0 == declared[k] && list[k].1 is None,
            decreases declared.len() - i,
        {
            list.push((declared[i], None));
            i += 1;
        }
        match self.table_definition.primary_key() {
            Some(key) => {
                let mut j: usize = 0;
                while j < key.0.len()
                    invariant
                        j <= key.0.len(),
                        list.len() == declared.len() + j,
                        forall|k: int|
                            0 <= k < declared.len() ==> list[k].0 == declared[k] && list[k].1
                                is None,
                        forall|k: int|
                            0 <= k < j ==> spec_named_entry(
                                #[trigger] list[declared.len() + k],
                                key.0[k],
                                key.1@,
                            ),
                    decreases key.0.len() - j,
                {
                    list.push((key.0[j], Some(key.1.as_str())));
                    j += 1;
                }
                assert forall|k: int| 0 <= k < key.0.len() implies spec_not_null_refs(
                    list@,
                )[declared.len() + k] == (NotNullView {
                    column: key.0[k],
                    name: Some(key.1@),
                }) by {
                    assert(spec_named_entry(list[declared.len() + k], key.0[k], key.1@));
                }
            },
            None => {},
        }
        assert(spec_not_null_refs(list@) =~= spec_all_not_nulls(self.spec_definition()));
        list
    }

    /// The sets of columns that must be unique: those of the `UNIQUE`
    /// constraints, then the primary key.
    pub fn uniques(&self) -> (sets: Vec<(&'a Vec<usize>, &'a str)>)
        ensures
            spec_set_refs(sets@) == spec_all_uniques(self.spec_definition()),
    {
        let mut sets: Vec<(&'a Vec<usize>, &'a str)> = Vec::new();
        let declared = self.table_definition.uniques();
        let ghost views = self.spec_definition().spec_uniques();
        let mut i: usize = 0;
        while i < declared.len()
            invariant
                i <= declared.len(),
                sets.len() == i,
                views == crate::table_definition::spec_column_sets(declared@),
                forall|k: int|
                    0 <= k < i ==> sets[k].0@ == views[k].columns && sets[k].1@ == views[k].name,
            decreases declared.len() - i,
        {
            assert(views[i as int].columns == declared[i as int].0@);
            sets.push((&declared[i].0, declared[i].1.as_str()));
            i += 1;
        }
        match self.table_definition.primary_key() {
            Some(key) => {
                sets.push((&key.0, key.1.as_str()));
            },
            None => {},
        }
        assert(spec_set_refs(sets@) =~= spec_all_uniques(self.spec_definition()));
        sets
    }

    /// Whether one of the sets of columns that must be unique is what is
    /// left of `column_set` when some of its columns go: then rows that
    /// agree on `column_set` agree on a unique set.
    pub fn contains_unique(&self, column_set: Vec<usize>) -> (found: bool)
        ensures
            found == exists|i: int|
                0 <= i < spec_all_uniques(self.spec_definition()).len() && spec_is_subsequence(
                    (#[trigger] spec_all_uniques(self.spec_definition())[i]).columns,
                    column_set@,
                ),
    {
        let uniques = self.uniques();
        let ghost all = spec_all_uniques(self.spec_definition());
        let mut sets = powerset(column_set);
        let ghost subsets = powerset_remaining(sets);
        let ghost mut done: int = 0;
        proof {
            assert(subsets.skip(0) =~= subsets);
        }
        loop
            invariant_except_break
                0 <= done <= subsets.len(),
                powerset_remaining(sets) == subsets.skip(done),
                forall|k: int, i: int|
                    0 <= k < done && 0 <= i < all.len() ==> (#[trigger] all[i]).columns
                        != #[trigger] subsets[k],
            invariant
                all == spec_all_uniques(self.spec_definition()),
                spec_set_refs(uniques@) == all,
                forall|s: Seq<usize>|
                    #[trigger] subsets.contains(s) <==> spec_is_subsequence(s, column_set@),
            ensures
                done == subsets.len(),
                forall|k: int, i: int|
                    0 <= k < done && 0 <= i < all.len() ==> (#[trigger] all[i]).columns
                        != #[trigger] subsets[k],
            decreases subsets.len() - done,
        {
            let set = match powerset_next(&mut sets) {
                Some(set) => set,
                None => {
                    break ;
                },
            };
            proof {
                assert(subsets.skip(done)[0] == subsets[done]);
                assert(subsets.skip(done).drop_first() =~= subsets.skip(done + 1));
            }
            let mut i: usize = 0;
            while i < uniques.len()
                invariant
                    i <= uniques.len(),
                    spec_set_refs(uniques@) == all,
                    all == spec_all_uniques(self.spec_definition()),
                    0 <= done < subsets.len(),
                    set@ == subsets[done],
                    forall|j: int| 0 <= j < i ==> (#[trigger] all[j]).columns != set@,
                    forall|s: Seq<usize>|
                        #[trigger] subsets.contains(s) <==> spec_is_subsequence(s, column_set@),
                decreases uniques.len() - i,
            {
                assert(all[i as int].columns == uniques[i as int].0@);
                if columns_eq(uniques[i].0, &set) {
                    proof {
                        assert(subsets.contains(set@));
                        assert(spec_is_subsequence(all[i as int].columns, column_set@));
                    }
                    return true;
                }
                i += 1;
            }
            proof {
                done = done + 1;
            }
        }
        proof {
            assert forall|i: int| 0 <= i < all.len() implies !spec_is_subsequence(
                (#[trigger] all[i]).columns,
                column_set@,
            ) by {
                if spec_is_subsequence(all[i].columns, column_set@) {
                    assert(subsets.contains(all[i].columns));
                    let k = choose|k: int| 0 <= k < subsets.len() && subsets[k] == all[i].columns;
                    assert(all[i].columns != subsets[k]);
                }
            }
        }
        false
    }
}

// ---------------------------------------------------------------------------
// Constraints
// ---------------------------------------------------------------------------

/// The `CHECK` phase from the constraint at `from` on: the first
/// expression that cannot be evaluated gives its error, the first that is
/// not true fails with `CheckConstraintFailed` of its name.
pub open spec fn spec_check_phase(checks: Seq<CheckView>, row: RowEnv, from: int) -> Result<
    (),
    ErrorView,
>
    decreases checks.len() - from,
{
    if from < 0 || from >= checks.len() {
        Ok(())
    } else {
        match spec_evaluate(checks[from].expression, row) {
            Err(e) => Err(e),
            Ok(v) => if crate::data_types::spec_is_true(v) {
                spec_check_phase(checks, row, from + 1)
            } else {
                Err(ErrorView::Execution(ExecutionErrorView::CheckConstraintFailed(checks[from].name)))
            },
        }
    }
}

/// The `NOT NULL` phase from the column at `from` on: the first column
/// that holds null fails with `NullConstraintFailed` of the primary key's
/// name, or of the column's own name where it is not part of it.
pub open spec fn spec_not_null_phase(
    list: Seq<NotNullView>,
    names: Seq<Seq<char>>,
    row: Seq<ValueView>,
    from: int,
) -> Result<(), ErrorView>
    decreases list.len() - from,
{
    if from < 0 || from >= list.len() {
        Ok(())
    } else if row[list[from].column as int] is Null {
        Err(
            ErrorView::Execution(
                ExecutionErrorView::NullConstraintFailed(
                    match list[from].name {
                        Some(n) => n,
                        None => names[list[from].column as int],
                    },
                ),
            ),
        )
    } else {
        spec_not_null_phase(list, names, row, from + 1)
    }
}

/// Whether a stored row equals `row` in every column of `set` from
/// position `from` on. The first column in which they are not known to be
/// equal settles it; a column of the stored row that cannot be read before
/// that gives its error.
pub open spec fn spec_set_matches(
    types: Seq<crate::data_types::Type>,
    row: Seq<ValueView>,
    stored: Seq<u8>,
    set: Seq<usize>,
    from: int,
) -> Result<bool, ErrorView>
    decreases set.len() - from,
{
    if from < 0 || from >= set.len() {
        Ok(true)
    } else {
        match spec_decode_column(types, stored, set[from] as int) {
            Err(e) => Err(e),
            Ok(v) => if crate::data_types::spec_compare(row[set[from] as int], v)
                == Comparison::Equal {
                spec_set_matches(types, row, stored, set, from + 1)
            } else {
                Ok(false)
            },
        }
    }
}

/// The `UNIQUE` sets from `from` on against one stored row: the first set
/// in whose columns the stored row equals `row` fails with
/// `UniqueConstraintFailed` of its name.
pub open spec fn spec_unique_row(
    types: Seq<crate::data_types::Type>,
    row: Seq<ValueView>,
    stored: Seq<u8>,
    sets: Seq<ColumnSetView>,
    from: int,
) -> Result<(), ErrorView>
    decreases sets.len() - from,
{
    if from < 0 || from >= sets.len() {
        Ok(())
    } else {
        match spec_set_matches(types, row, stored, sets[from].columns, 0) {
            Err(e) => Err(e),
            Ok(true) => Err(
                ErrorView::Execution(ExecutionErrorView::UniqueConstraintFailed(sets[from].name)),
            ),
            Ok(false) => spec_unique_row(types, row, stored, sets, from + 1),
        }
    }
}

/// The `UNIQUE` phase from the stored row at `from` on, by key; the row
/// whose key is `exclude` is passed over.
pub open spec fn spec_unique_phase(
    types: Seq<crate::data_types::Type>,
    row: Seq<ValueView>,
    stored: Seq<TableRowView>,
    exclude: Option<Seq<u8>>,
    sets: Seq<ColumnSetView>,
    from: int,
) -> Result<(), ErrorView>
    decreases stored.len() - from,
{
    if from < 0 || from >= stored.len() {
        Ok(())
    } else if exclude == Some(stored[from].left) {
        spec_unique_phase(types, row, stored, exclude, sets, from + 1)
    } else {
        match spec_unique_row(types, row, stored[from].right, sets, 0) {
            Err(e) => Err(e),
            Ok(()) => spec_unique_phase(types, row, stored, exclude, sets, from + 1),
        }
    }
}

/// What the constraints of a table itself say of a row of values, in
/// order: `CHECK`, `NOT NULL`, then `UNIQUE` against the stored rows
/// without the one whose key is `exclude`.
#[verifier::opaque]
pub open spec fn spec_check_constraints(
    definition: &TableDefinition,
    stored: Seq<TableRowView>,
    row: Seq<ValueView>,
    exclude: Option<Seq<u8>>,
) -> Result<(), ErrorView> {
    match spec_check_phase(
        definition.spec_checks(),
        spec_values_env(definition.spec_columns(), row),
        0,
    ) {
        Err(e) => Err(e),
        Ok(()) => match spec_not_null_phase(
            spec_all_not_nulls(definition),
            definition.spec_columns().spec_names(),
            row,
            0,
        ) {
            Err(e) => Err(e),
            Ok(()) => spec_unique_phase(
                definition.spec_columns().spec_types(),
                row,
                stored,
                exclude,
                spec_all_uniques(definition),
                0,
            ),
        },
    }
}

/// What a unit result and its error look like from outside.
pub open spec fn spec_unit_result(result: Result<(), Error>) -> Result<(), ErrorView> {
    match result {
        Ok(()) => Ok(()),
        Err(e) => Err(e@),
    }
}

impl<'a> TableHandler<'a> {
    fn check_phase(&self, row: &Vec<Value>) -> (result: Result<(), Error>)
        requires
            self.wf(),
        ensures
            spec_unit_result(result) == spec_check_phase(
                self.spec_definition().spec_checks(),
                spec_values_env(self.spec_columns(), row.deep_view()),
                0,
            ),
    {
        let checks = self.table_definition.checks();
        let ghost views = self.spec_definition().spec_checks();
        let ghost env = spec_values_env(self.spec_columns(), row.deep_view());
        assert(spec_env(&(self, row)) =~= env);
        let mut i: usize = 0;
        while i < checks.len()
            invariant
                self.wf(),
                i <= checks.len(),
                views == crate::table_definition::spec_check_views(checks@),
                views == self.spec_definition().spec_checks(),
                env == spec_values_env(self.spec_columns(), row.deep_view()),
                spec_env(&(self, row)) == env,
                spec_check_phase(views, env, 0) == spec_check_phase(views, env, i as int),
            decreases checks.len() - i,
        {
            assert(views[i as int].expression == checks[i as int].0@);
            assert(views[i as int].name == checks[i as int].1@);
            match evaluate_expression(&checks[i].0, &(self, row)) {
                Err(e) => {
                    return Err(e);
                },
                Ok(v) => {
                    if !v.is_true() {
                        return Err(
                            Error::Execution(
                                ExecutionError::CheckConstraintFailed(checks[i].1.clone()),
                            ),
                        );
                    }
                },
            }
            i += 1;
        }
        Ok(())
    }

    fn not_null_phase(&self, row: &Vec<Value>) -> (result: Result<(), Error>)
        requires
            self.wf(),
            row.len() == self.spec_columns().spec_names().len(),
        ensures
            spec_unit_result(result) == spec_not_null_phase(
                spec_all_not_nulls(self.spec_definition()),
                self.spec_columns().spec_names(),
                row.deep_view(),
                0,
            ),
    {
        let list = self.not_nulls();
        let ghost views = spec_all_not_nulls(self.spec_definition());
        let ghost names = self.spec_columns().spec_names();
        let mut i: usize = 0;
        while i < list.len()
            invariant
                self.wf(),
                i <= list.len(),
                row.len() == names.len(),
                names == self.spec_columns().spec_names(),
                views == spec_not_null_refs(list@),
                views == spec_all_not_nulls(self.spec_definition()),
                spec_not_null_phase(views, names, row.deep_view(), 0) == spec_not_null_phase(
                    views,
                    names,
                    row.deep_view(),
                    i as int,
                ),
            decreases list.len() - i,
        {
            let (column, name) = list[i];
            assert(views[i as int].column == column);
            proof {
                lemma_not_nulls_in_range(self.spec_definition(), i as int);
            }
            assert(row.deep_view()[column as int] == row[column as int]@);
            if row[column].is_null() {
                let failed: String = match name {
                    Some(n) => n.to_owned(),
                    None => match self.table_definition.columns().column_name(column) {
                        Ok(n) => n.to_owned(),
                        Err(e) => {
                            return Err(e);
                        },
                    },
                };
                return Err(Error::Execution(ExecutionError::NullConstraintFailed(failed)));
            }
            i += 1;
        }
        Ok(())
    }

    fn set_matches(&self, row: &Vec<Value>, stored: &TableRow, set: &Vec<usize>) -> (result: Result<
        bool,
        Error,
    >)
        requires
            self.wf(),
            row.len() == self.spec_columns().spec_names().len(),
            crate::table_definition::spec_in_range(set@, self.spec_columns().spec_names().len()),
        ensures
            match result {
                Ok(b) => spec_set_matches(
                    self.spec_columns().spec_types(),
                    row.deep_view(),
                    stored@.right,
                    set@,
                    0,
                ) == Ok::<bool, ErrorView>(b),
                Err(e) => spec_set_matches(
                    self.spec_columns().spec_types(),
                    row.deep_view(),
                    stored@.right,
                    set@,
                    0,
                ) == Err::<bool, ErrorView>(e@),
            },
    {
        let ghost types = self.spec_columns().spec_types();
        let mut i: usize = 0;
        while i < set.len()
            invariant
                self.wf(),
                i <= set.len(),
                types == self.spec_columns().spec_types(),
                row.len() == self.spec_columns().spec_names().len(),
                crate::table_definition::spec_in_range(
                    set@,
                    self.spec_columns().spec_names().len(),
                ),
                spec_set_matches(types, row.deep_view(), stored@.right, set@, 0)
                    == spec_set_matches(types, row.deep_view(), stored@.right, set@, i as int),
            decreases set.len() - i,
        {
            let index = set[i];
            assert(row.deep_view()[index as int] == row[index as int]@);
            let other = match self.get_value(index, stored) {
                Ok(v) => v,
                Err(e) => {
                    return Err(e);
                },
            };
            if !row[index].compare(&other).is_equal() {
                return Ok(false);
            }
            i += 1;
        }
        Ok(true)
    }

    fn unique_row(
        &self,
        row: &Vec<Value>,
        stored: &TableRow,
        sets: &Vec<(&'a Vec<usize>, &'a str)>,
    ) -> (result: Result<(), Error>)
        requires
            self.wf(),
            row.len() == self.spec_columns().spec_names().len(),
            spec_set_refs(sets@) == spec_all_uniques(self.spec_definition()),
        ensures
            spec_unit_result(result) == spec_unique_row(
                self.spec_columns().spec_types(),
                row.deep_view(),
                stored@.right,
                spec_all_uniques(self.spec_definition()),
                0,
            ),
    {
        let ghost types = self.spec_columns().spec_types();
        let ghost views = spec_all_uniques(self.spec_definition());
        let mut i: usize = 0;
        while i < sets.len()
            invariant
                self.wf(),
                i <= sets.len(),
                types == self.spec_columns().spec_types(),
                row.len() == self.spec_columns().spec_names().len(),
                views == spec_set_refs(sets@),
                views == spec_all_uniques(self.spec_definition()),
                spec_unique_row(types, row.deep_view(), stored@.right, views, 0) == spec_unique_row(
                    types,
                    row.deep_view(),
                    stored@.right,
                    views,
                    i as int,
                ),
            decreases sets.len() - i,
        {
            let (set, name) = sets[i];
            assert(views[i as int].columns == set@);
            proof {
                lemma_uniques_in_range(self.spec_definition(), i as int);
            }
            match self.set_matches(row, stored, set) {
                Err(e) => {
                    return Err(e);
                },
                Ok(true) => {
                    return Err(
                        Error::Execution(ExecutionError::UniqueConstraintFailed(name.to_owned())),
                    );
                },
                Ok(false) => {},
            }
            i += 1;
        }
        Ok(())
    }

    /// Holds a row of values, one for each column, against the constraints
    /// of the table itself, in order: every `CHECK` expression must be true
    /// of the row; no column that rejects null may hold it; and for no set
    /// of columns that must be unique may a stored row, other than
    /// `exclude`, equal the row in all of them.
    pub fn check_constraints(&self, row: &Vec<Value>, exclude: Option<&TableRow>) -> (result: Result<
        (),
        Error,
    >)
        requires
            self.wf(),
            row.len() == self.spec_columns().spec_names().len(),
        ensures
            spec_unit_result(result) == spec_check_constraints(
                self.spec_definition(),
                self.spec_rows(),
                row.deep_view(),
                match exclude {
                    Some(r) => Some(r@.left),
                    None => None,
                },
            ),
    {
        proof {
            reveal(spec_check_constraints);
        }
        match self.check_phase(row) {
            Err(e) => {
                return Err(e);
            },
            Ok(()) => {},
        }
        match self.not_null_phase(row) {
            Err(e) => {
                return Err(e);
            },
            Ok(()) => {},
        }
        let sets = self.uniques();
        let rows = self.iter();
        let ghost types = self.spec_columns().spec_types();
        let ghost stored = self.spec_rows();
        let ghost views = spec_all_uniques(self.spec_definition());
        let ghost excluded: Option<Seq<u8>> = match exclude {
            Some(r) => Some(r@.left),
            None => None,
        };
        let mut i: usize = 0;
        while i < rows.len()
            invariant
                self.wf(),
                i <= rows.len(),
                types == self.spec_columns().spec_types(),
                row.len() == self.spec_columns().spec_names().len(),
                stored == spec_table_rows(rows@),
                spec_check_constraints(
                    self.spec_definition(),
                    self.spec_rows(),
                    row.deep_view(),
                    excluded,
                ) == spec_unique_phase(types, row.deep_view(), stored, excluded, views, 0),
                views == spec_set_refs(sets@),
                views == spec_all_uniques(self.spec_definition()),
                excluded == match exclude {
                    Some(r) => Some(r@.left),
                    None => None,
                },
                stored == self.spec_rows(),
                spec_check_phase(
                    self.spec_definition().spec_checks(),
                    spec_values_env(self.spec_columns(), row.deep_view()),
                    0,
                ) == Ok::<(), ErrorView>(()),
                spec_not_null_phase(
                    spec_all_not_nulls(self.spec_definition()),
                    self.spec_columns().spec_names(),
                    row.deep_view(),
                    0,
                ) == Ok::<(), ErrorView>(()),
                spec_unique_phase(types, row.deep_view(), stored, excluded, views, 0)
                    == spec_unique_phase(types, row.deep_view(), stored, excluded, views, i as int),
            decreases rows.len() - i,
        {
            let tree_row = &rows[i];
            assert(stored[i as int] == tree_row@);
            let skip = match exclude {
                Some(r) => tree_row.same_key(r),
                None => false,
            };
            if !skip {
                match self.unique_row(row, tree_row, &sets) {
                    Err(e) => {
                        return Err(e);
                    },
                    Ok(()) => {},
                }
            }
            i += 1;
        }
        Ok(())
    }
}

/// Every column that rejects null is a column of the table.
pub proof fn lemma_not_nulls_in_range(definition: &TableDefinition, i: int)
    requires
        definition.wf(),
        0 <= i < spec_all_not_nulls(definition).len(),
    ensures
        spec_all_not_nulls(definition)[i].column < definition.spec_columns().spec_names().len(),
{
}

/// Every set of columns that must be unique is made of columns of the
/// table.
pub proof fn lemma_uniques_in_range(definition: &TableDefinition, i: int)
    requires
        definition.wf(),
        0 <= i < spec_all_uniques(definition).len(),
    ensures
        crate::table_definition::spec_in_range(
            spec_all_uniques(definition)[i].columns,
            definition.spec_columns().spec_names().len(),
        ),
{
    if i < definition.spec_uniques().len() {
        assert(spec_all_uniques(definition)[i] == definition.spec_uniques()[i]);
    }
}

} // verus!

verus! {

broadcast use vstd::std_specs::hash::group_hash_axioms;

// ---------------------------------------------------------------------------
// Rows in the making
// ---------------------------------------------------------------------------

/// A row for an `INSERT` that names its columns: the values come by
/// column name, and the columns that get none take their defaults.
pub struct RowBuilder<'a> {
    definition: &'a TableDefinition,
    new_row: Vec<Value>,
    inserted: HashSet<usize>,
}

/// The row that a builder comes to: the values that were put in, and the
/// defaults elsewhere.
pub open spec fn spec_finalised(
    definition: &TableDefinition,
    values: Seq<ValueView>,
    inserted: Set<usize>,
) -> Seq<ValueView> {
    Seq::new(
        values.len(),
        |i: int|
            if inserted.contains(i as usize) {
                values[i]
            } else {
                definition.spec_default(i as usize)
            },
    )
}

/// The row that the first `n` values make under the names of their
/// columns: a later value for a column replaces an earlier one, a column
/// without a value takes its default, and a name that is no column of the
/// table fails with `NoColumn`.
pub open spec fn spec_built_row(
    definition: &TableDefinition,
    columns: Seq<Seq<char>>,
    row: Seq<ValueView>,
    n: int,
) -> Result<Seq<ValueView>, ErrorView>
    decreases n,
{
    if n <= 0 {
        Ok(
            Seq::new(
                definition.spec_columns().spec_names().len(),
                |i: int| definition.spec_default(i as usize),
            ),
        )
    } else {
        match spec_built_row(definition, columns, row, n - 1) {
            Err(e) => Err(e),
            Ok(before) => match spec_index_of(
                definition.spec_columns().spec_names(),
                columns[n - 1],
            ) {
                None => Err(ErrorView::Execution(ExecutionErrorView::NoColumn(columns[n - 1]))),
                Some(i) => Ok(before.update(i, row[n - 1])),
            },
        }
    }
}

/// Once a name is no column, more values do not change the error.
pub proof fn lemma_built_row_error(
    definition: &TableDefinition,
    columns: Seq<Seq<char>>,
    row: Seq<ValueView>,
    from: int,
    to: int,
)
    requires
        0 <= from <= to,
        spec_built_row(definition, columns, row, from) is Err,
    ensures
        spec_built_row(definition, columns, row, to) == spec_built_row(
            definition,
            columns,
            row,
            from,
        ),
    decreases to - from,
{
    if from < to {
        lemma_built_row_error(definition, columns, row, from, to - 1);
    }
}

impl<'a> RowBuilder<'a> {
    /// The definition of the table.
    pub closed spec fn spec_definition(&self) -> &TableDefinition {
        self.definition
    }

    /// The row that the builder comes to as it stands.
    pub closed spec fn spec_row(&self) -> Seq<ValueView> {
        spec_finalised(self.definition, self.new_row.deep_view(), self.inserted@)
    }

    /// The invariant of a builder: one place for each column.
    pub closed spec fn wf(&self) -> bool {
        self.definition.wf() && self.new_row.len()
            == self.definition.spec_columns().spec_names().len()
    }

    /// A builder for a row of a table, with no value yet.
    pub fn new(definition: &'a TableDefinition) -> (builder: Self)
        requires
            definition.wf(),
        ensures
            builder.wf(),
            builder.spec_definition() == definition,
            builder.spec_row() == Seq::new(
                definition.spec_columns().spec_names().len(),
                |i: int| definition.spec_default(i as usize),
            ),
    {
        let n = definition.num_columns();
        let mut new_row: Vec<Value> = Vec::new();
        let mut i: usize = 0;
        while i < n
            invariant
                i <= n,
                new_row.len() == i,
            decreases n - i,
        {
            new_row.push(Value::Null);
            i += 1;
        }
        let builder = Self { definition, new_row, inserted: HashSet::new() };
        assert(builder.spec_row() =~= Seq::new(
            definition.spec_columns().spec_names().len(),
            |i: int| definition.spec_default(i as usize),
        ));
        builder
    }

    /// Puts a value into the column of that name; `NoColumn` where the
    /// table has none, and then the builder stays as it was.
    pub fn insert(&mut self, column: &str, value: Value) -> (result: Result<(), Error>)
        requires
            old(self).wf(),
        ensures
            final(self).wf(),
            final(self).spec_definition() == old(self).spec_definition(),
            match result {
                Ok(()) => spec_index_of(
                    old(self).spec_definition().spec_columns().spec_names(),
                    column@,
                ) matches Some(i) && final(self).spec_row() == old(self).spec_row().update(
                    i,
                    value@,
                ),
                Err(e) => spec_index_of(
                    old(self).spec_definition().spec_columns().spec_names(),
                    column@,
                ) is None && e@ == ErrorView::Execution(ExecutionErrorView::NoColumn(column@))
                    && final(self).spec_row() == old(self).spec_row(),
            },
    {
        let index = match self.definition.column_index(column) {
            Ok(i) => i,
            Err(e) => {
                return Err(e);
            },
        };
        let _ = self.inserted.insert(index);
        self.new_row[index] = value;
        proof {
            assert forall|i: int| 0 <= i < self.new_row.len() implies self.spec_row()[i] == old(
                self,
            ).spec_row().update(index as int, value@)[i] by {
                assert(self.new_row.deep_view()[i] == self.new_row[i]@);
                assert(old(self).new_row.deep_view()[i] == old(self).new_row[i]@);
            }
            assert(self.spec_row() =~= old(self).spec_row().update(index as int, value@));
        }
        Ok(())
    }

    /// The row: the values that were put in, and the defaults elsewhere.
    pub fn finalise(self) -> (row: Vec<Value>)
        requires
            self.wf(),
        ensures
            row.deep_view() == self.spec_row(),
    {
        let mut new_row = self.new_row;
        let ghost values = new_row.deep_view();
        let n = new_row.len();
        let mut i: usize = 0;
        while i < n
            invariant
                i <= n,
                n == new_row.len(),
                values.len() == n,
                forall|k: int|
                    0 <= k < i ==> new_row[k]@ == spec_finalised(
                        self.definition,
                        values,
                        self.inserted@,
                    )[k],
                forall|k: int| i <= k < n ==> new_row[k]@ == values[k],
            decreases n - i,
        {
            if !self.inserted.contains(&i) {
                new_row[i] = self.definition.get_default(i);
            }
            i += 1;
        }
        assert(new_row.deep_view() =~= spec_finalised(self.definition, values, self.inserted@));
        new_row
    }
}

/// A row for an `UPDATE`: the values of the stored row, some of them
/// replaced.
pub struct TableRowUpdater {
    new_row: Vec<Value>,
}

impl TableRowUpdater {
    /// The row as it stands.
    pub closed spec fn spec_row(&self) -> Seq<ValueView> {
        self.new_row.deep_view()
    }

    /// An updater with the values of a stored row of a table.
    pub fn new(row: &TableRow, handler: &TableHandler) -> (result: Result<Self, Error>)
        requires
            handler.wf(),
        ensures
            match result {
                Ok(updater) => crate::foreign_key::spec_decode_row(
                    handler.spec_columns().spec_types(),
                    row@.right,
                    handler.spec_columns().spec_types().len() as int,
                ) == Ok::<Seq<ValueView>, ErrorView>(updater.spec_row()),
                Err(e) => crate::foreign_key::spec_decode_row(
                    handler.spec_columns().spec_types(),
                    row@.right,
                    handler.spec_columns().spec_types().len() as int,
                ) == Err::<Seq<ValueView>, ErrorView>(e@),
            },
    {
        match crate::foreign_key::decode_row(handler, row) {
            Ok(new_row) => Ok(Self { new_row }),
            Err(e) => Err(e),
        }
    }

    /// Replaces the value at a position; an internal error past the last
    /// column, and then the row stays as it was.
    pub fn add_update(&mut self, index: usize, new_value: Value) -> (result: Result<(), Error>)
        ensures
            match result {
                Ok(()) => index < old(self).spec_row().len() && final(self).spec_row() == old(
                    self,
                ).spec_row().update(index as int, new_value@),
                Err(e) => index >= old(self).spec_row().len() && e@ == ErrorView::Internal
                    && final(self).spec_row() == old(self).spec_row(),
            },
    {
        if index < self.new_row.len() {
            self.new_row[index] = new_value;
            assert(self.spec_row() =~= old(self).spec_row().update(index as int, new_value@));
            Ok(())
        } else {
            Err(internal("No column with that index"))
        }
    }

    /// The row.
    pub fn finalise(self) -> (row: Vec<Value>)
        ensures
            row.deep_view() == self.spec_row(),
    {
        self.new_row
    }
}

} // verus!

verus! {

/// The column of a table that a name stands for: the table has the
/// column, and the name gives no table or the one by which the query knows
/// this table; else the name fails with `NoColumn` of the column's name.
pub open spec fn spec_resolve_in_table(names: Seq<Seq<char>>, table: Seq<char>, name: ColumnNameView) -> Result<
    ResolvedColumnView,
    ErrorView,
> {
    let qualifier = match name.table_name {
        Some(t) => t,
        None => table,
    };
    if qualifier == table && names.contains(name.column_name) {
        Ok(ResolvedColumnView { table_name: table, column_name: name.column_name })
    } else {
        Err(ErrorView::Execution(ExecutionErrorView::NoColumn(name.column_name)))
    }
}

/// What each name stands for among the columns of one table.
pub open spec fn spec_table_resolver(names: Seq<Seq<char>>, table: Seq<char>) -> crate::Resolver {
    |name: ColumnNameView| spec_resolve_in_table(names, table, name)
}

} // verus!
