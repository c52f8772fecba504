//! Tables: columns of one common length, in the order in which their reader
//! produced them.
//!
//! A table is never changed once built. Cutting it to its first or last
//! rows, or choosing columns from it, gives a new table.

use vstd::prelude::*;
use crate::column::{
    Cell, CellView, Column, ColumnView, lemma_cut_len, lemma_texts_push, texts,
};
use crate::error::TableError;
use crate::text::{all_digits, chars_of, decimal_value, parse_decimal};

verus! {

/// Columns that share one row count.
///
/// A table that [`Table::new`] or a reader built uses every name once.
/// A table that [`Table::select`] derived holds a column as often as it
/// was asked for, so there a name may come more than once.
#[derive(Debug, PartialEq, Eq)]
pub struct Table {
    columns: Vec<Column>,
}

/// The models of a sequence of columns.
pub open spec fn views(cols: Seq<Column>) -> Seq<ColumnView> {
    cols.map_values(|c: Column| c@)
}

/// The names of the columns, in column order.
pub open spec fn names_of(cols: Seq<ColumnView>) -> Seq<Seq<char>> {
    cols.map_values(|c: ColumnView| c.name)
}

/// All columns have the same number of values.
pub open spec fn rectangular(cols: Seq<ColumnView>) -> bool {
    forall|i: int, j: int|
        0 <= i < cols.len() && 0 <= j < cols.len() ==> (#[trigger] cols[i]).values.len() == (
        #[trigger] cols[j]).values.len()
}

/// No two columns have the same name.
pub open spec fn unique_names(cols: Seq<ColumnView>) -> bool {
    forall|i: int, j: int|
        0 <= i < j < cols.len() ==> (#[trigger] cols[i]).name != (#[trigger] cols[j]).name
}

/// The number of rows of rectangular columns; 0 where there is no column.
pub open spec fn height(cols: Seq<ColumnView>) -> nat {
    if cols.len() == 0 {
        0
    } else {
        cols[0].values.len()
    }
}

/// Every column cut to its first `n` values.
pub open spec fn head_of(cols: Seq<ColumnView>, n: nat) -> Seq<ColumnView> {
    cols.map_values(|c: ColumnView| ColumnView { name: c.name, values: c.values.head(n) })
}

/// Every column cut to its last `n` values.
pub open spec fn tail_of(cols: Seq<ColumnView>, n: nat) -> Seq<ColumnView> {
    cols.map_values(|c: ColumnView| ColumnView { name: c.name, values: c.values.tail(n) })
}

/// Row `r` of the columns: the value of each column at position `r`.
pub open spec fn row_of(cols: Seq<ColumnView>, r: int) -> Seq<CellView> {
    cols.map_values(|c: ColumnView| c.values.cell(r))
}

/// The models of a sequence of cells.
pub open spec fn cell_views(cells: Seq<Cell>) -> Seq<CellView> {
    cells.map_values(|c: Cell| c@)
}

/// The column that an identifier stands for.
///
/// An identifier that is the name of a column stands for the first column of
/// that name. Any other identifier stands for a column only if it is a
/// decimal number below the number of columns: then it is that column's
/// position, counted from 0.
pub open spec fn resolve(cols: Seq<ColumnView>, id: Seq<char>) -> Option<int> {
    match names_of(cols).index_of_first(id) {
        Some(i) => Some(i),
        None => if id.len() > 0 && all_digits(id) && decimal_value(id) < cols.len() {
            Some(decimal_value(id) as int)
        } else {
            None
        },
    }
}

/// The positions that a list of identifiers selects, in the order of the
/// identifiers. Identifiers that stand for no column leave no trace.
pub open spec fn selection(cols: Seq<ColumnView>, ids: Seq<Seq<char>>) -> Seq<int>
    decreases ids.len(),
{
    if ids.len() == 0 {
        Seq::empty()
    } else {
        let rest = selection(cols, ids.drop_last());
        match resolve(cols, ids.last()) {
            Some(i) => rest.push(i),
            None => rest,
        }
    }
}

/// The columns at the given positions, in that order.
pub open spec fn pick(cols: Seq<ColumnView>, positions: Seq<int>) -> Seq<ColumnView> {
    positions.map_values(|i: int| cols[i])
}

/// The models of columns with one more column are the models with one more
/// model.
pub proof fn lemma_views_push(cols: Seq<Column>, c: Column)
    ensures
        views(cols.push(c)) == views(cols).push(c@),
{
    assert(views(cols.push(c)) =~= views(cols).push(c@));
}

/// The models of cells with one more cell are the models with one more
/// model.
pub proof fn lemma_cell_views_push(cells: Seq<Cell>, c: Cell)
    ensures
        cell_views(cells.push(c)) == cell_views(cells).push(c@),
{
    assert(cell_views(cells.push(c)) =~= cell_views(cells).push(c@));
}

/// Cutting a table to its first `n` rows keeps the columns, their names
/// and their order, leaves `n` rows or all there are, and leaves a table of
/// no more than `n` rows as it is.
pub proof fn lemma_head_of(cols: Seq<ColumnView>, n: nat)
    requires
        rectangular(cols),
    ensures
        rectangular(head_of(cols, n)),
        names_of(head_of(cols, n)) == names_of(cols),
        height(head_of(cols, n)) == if n <= height(cols) {
            n
        } else {
            height(cols)
        },
        unique_names(cols) ==> unique_names(head_of(cols, n)),
        n >= height(cols) ==> head_of(cols, n) == cols,
{
    let cut = head_of(cols, n);
    assert forall|i: int| 0 <= i < cols.len() implies (#[trigger] cut[i]).values.len() == if n
        <= height(cols) {
        n
    } else {
        height(cols)
    } by {
        assert(cols[i].values.len() == cols[0].values.len());
        lemma_cut_len(cols[i].values, n);
    }
    assert(names_of(cut) =~= names_of(cols));
    if n >= height(cols) {
        assert forall|i: int| 0 <= i < cols.len() implies cut[i] == cols[i] by {
            assert(cols[i].values.len() == cols[0].values.len());
        }
        assert(cut =~= cols);
    }
}

/// Cutting a table to its last `n` rows keeps the columns, their names and
/// their order, leaves `n` rows or all there are, and leaves a table of no
/// more than `n` rows as it is.
pub proof fn lemma_tail_of(cols: Seq<ColumnView>, n: nat)
    requires
        rectangular(cols),
    ensures
        rectangular(tail_of(cols, n)),
        names_of(tail_of(cols, n)) == names_of(cols),
        height(tail_of(cols, n)) == if n <= height(cols) {
            n
        } else {
            height(cols)
        },
        unique_names(cols) ==> unique_names(tail_of(cols, n)),
        n >= height(cols) ==> tail_of(cols, n) == cols,
{
    let cut = tail_of(cols, n);
    assert forall|i: int| 0 <= i < cols.len() implies (#[trigger] cut[i]).values.len() == if n
        <= height(cols) {
        n
    } else {
        height(cols)
    } by {
        assert(cols[i].values.len() == cols[0].values.len());
        lemma_cut_len(cols[i].values, n);
    }
    assert(names_of(cut) =~= names_of(cols));
    if n >= height(cols) {
        assert forall|i: int| 0 <= i < cols.len() implies cut[i] == cols[i] by {
            assert(cols[i].values.len() == cols[0].values.len());
        }
        assert(cut =~= cols);
    }
}

/// An identifier resolves to a position inside the table, if to any.
pub proof fn lemma_resolve_in_range(cols: Seq<ColumnView>, id: Seq<char>)
    ensures
        resolve(cols, id) matches Some(i) ==> 0 <= i < cols.len(),
{
    names_of(cols).index_of_first_ensures(id);
}

/// Every selected position lies inside the table, and no more positions are
/// selected than identifiers were given.
pub proof fn lemma_selection_in_range(cols: Seq<ColumnView>, ids: Seq<Seq<char>>)
    ensures
        selection(cols, ids).len() <= ids.len(),
        forall|k: int|
            0 <= k < selection(cols, ids).len() ==> 0 <= #[trigger] selection(cols, ids)[k]
                < cols.len(),
    decreases ids.len(),
{
    if ids.len() > 0 {
        lemma_selection_in_range(cols, ids.drop_last());
        lemma_resolve_in_range(cols, ids.last());
    }
}

/// Columns picked from rectangular columns are rectangular.
pub proof fn lemma_pick_rectangular(cols: Seq<ColumnView>, positions: Seq<int>)
    requires
        rectangular(cols),
        forall|k: int| 0 <= k < positions.len() ==> 0 <= #[trigger] positions[k] < cols.len(),
    ensures
        rectangular(pick(cols, positions)),
        positions.len() > 0 ==> height(pick(cols, positions)) == height(cols),
{
    let picked = pick(cols, positions);
    assert forall|i: int, j: int| 0 <= i < picked.len() && 0 <= j < picked.len() implies (
    #[trigger] picked[i]).values.len() == (#[trigger] picked[j]).values.len() by {
        assert(picked[i] == cols[positions[i]]);
        assert(picked[j] == cols[positions[j]]);
    }
    if positions.len() > 0 {
        assert(picked[0] == cols[positions[0]]);
        assert(cols[positions[0]].values.len() == cols[0].values.len());
    }
}

impl Clone for Table {
    fn clone(&self) -> (out: Table)
        ensures
            out@ == self@,
    {
        self.duplicate()
    }
}

impl View for Table {
    type V = Seq<ColumnView>;

    closed spec fn view(&self) -> Seq<ColumnView> {
        views(self.columns@)
    }
}

/// Whether two columns of `columns` differ in length.
fn is_ragged(columns: &Vec<Column>) -> (out: bool)
    ensures
        out == !rectangular(views(columns@)),
{
    let ghost cols = views(columns@);
    if columns.len() == 0 {
        return false;
    }
    let rows: usize = columns[0].len();
    let mut i: usize = 1;
    while i < columns.len()
        invariant
            1 <= i <= columns.len(),
            cols == views(columns@),
            rows == cols[0].values.len(),
            forall|k: int| 0 <= k < i ==> (#[trigger] cols[k]).values.len() == rows,
        decreases columns.len() - i,
    {
        if columns[i].len() != rows {
            assert(cols[i as int].values.len() != cols[0].values.len());
            return true;
        }
        i = i + 1;
    }
    false
}

/// Whether two columns of `columns` have the same name.
fn has_name_twice(columns: &Vec<Column>) -> (out: bool)
    ensures
        out == !unique_names(views(columns@)),
{
    let ghost cols = views(columns@);
    let mut j: usize = 0;
    while j < columns.len()
        invariant
            j <= columns.len(),
            cols == views(columns@),
            forall|a: int, b: int|
                0 <= a < b < j ==> (#[trigger] cols[a]).name != (#[trigger] cols[b]).name,
        decreases columns.len() - j,
    {
        let mut i: usize = 0;
        while i < j
            invariant
                i <= j < columns.len(),
                cols == views(columns@),
                forall|a: int| 0 <= a < i ==> (#[trigger] cols[a]).name != cols[j as int].name,
            decreases j - i,
        {
            if columns[i].name == columns[j].name {
                assert(cols[i as int].name == cols[j as int].name);
                return true;
            }
            i = i + 1;
        }
        j = j + 1;
    }
    false
}

impl Table {
    #[verifier::type_invariant]
    spec fn well_formed(&self) -> bool {
        rectangular(views(self.columns@))
    }

    /// Builds a table from columns, in the order given.
    ///
    /// Fails with [`TableError::SchemaError`] when two columns differ in
    /// length or share a name, and only then. No column is renamed.
    pub fn new(columns: Vec<Column>) -> (out: Result<Table, TableError>)
        ensures
            match out {
                Ok(t) => t@ == views(columns@) && rectangular(t@) && unique_names(t@),
                Err(e) => e == TableError::SchemaError && !(rectangular(views(columns@))
                    && unique_names(views(columns@))),
            },
    {
        if is_ragged(&columns) || has_name_twice(&columns) {
            Err(TableError::SchemaError)
        } else {
            Ok(Table { columns })
        }
    }

    /// A copy of the table.
    pub fn duplicate(&self) -> (out: Table)
        ensures
            out@ == self@,
            rectangular(out@),
    {
        proof {
            use_type_invariant(self);
        }
        let mut columns: Vec<Column> = Vec::new();
        let mut i: usize = 0;
        while i < self.columns.len()
            invariant
                i <= self.columns.len(),
                views(columns@) == views(self.columns@).take(i as int),
            decreases self.columns.len() - i,
        {
            let next = self.columns[i].duplicate();
            proof {
                lemma_views_push(columns@, next);
            }
            columns.push(next);
            i = i + 1;
            assert(views(columns@) =~= views(self.columns@).take(i as int));
        }
        assert(views(self.columns@).take(i as int) =~= views(self.columns@));
        Table { columns }
    }

    /// The number of columns.
    pub fn column_count(&self) -> (out: usize)
        ensures
            out == self@.len(),
    {
        self.columns.len()
    }

    /// The number of rows: the length of every column, and 0 for a table
    /// without columns.
    pub fn row_count(&self) -> (out: usize)
        ensures
            out == height(self@),
            forall|i: int| 0 <= i < self@.len() ==> (#[trigger] self@[i]).values.len() == out,
    {
        proof {
            use_type_invariant(self);
        }
        if self.columns.len() == 0 {
            0
        } else {
            self.columns[0].len()
        }
    }

    /// The columns, in order.
    pub fn columns(&self) -> (out: &Vec<Column>)
        ensures
            views(out@) == self@,
            rectangular(self@),
    {
        proof {
            use_type_invariant(self);
        }
        &self.columns
    }

    /// The table taken apart into its columns.
    pub fn into_columns(self) -> (out: Vec<Column>)
        ensures
            views(out@) == self@,
            rectangular(self@),
    {
        proof {
            use_type_invariant(&self);
        }
        self.columns
    }

    /// The names of the columns, in column order.
    pub fn column_names(&self) -> (out: Vec<String>)
        ensures
            texts(out@) == names_of(self@),
    {
        let mut out: Vec<String> = Vec::new();
        let mut i: usize = 0;
        while i < self.columns.len()
            invariant
                i <= self.columns.len(),
                texts(out@) == names_of(views(self.columns@)).take(i as int),
            decreases self.columns.len() - i,
        {
            let name = self.columns[i].name.clone();
            proof {
                lemma_texts_push(out@, name);
            }
            out.push(name);
            i = i + 1;
            assert(texts(out@) =~= names_of(views(self.columns@)).take(i as int));
        }
        assert(names_of(views(self.columns@)).take(i as int) =~= names_of(views(self.columns@)));
        out
    }

    /// The first `n` rows, in order; the whole table where it has no more
    /// than `n` rows.
    pub fn head(&self, n: usize) -> (out: Table)
        ensures
            out@ == head_of(self@, n as nat),
            rectangular(out@),
            unique_names(self@) ==> unique_names(out@),
    {
        proof {
            use_type_invariant(self);
        }
        let mut columns: Vec<Column> = Vec::new();
        let mut i: usize = 0;
        while i < self.columns.len()
            invariant
                i <= self.columns.len(),
                views(columns@) == head_of(views(self.columns@), n as nat).take(i as int),
            decreases self.columns.len() - i,
        {
            let next = self.columns[i].head(n);
            proof {
                lemma_views_push(columns@, next);
            }
            columns.push(next);
            i = i + 1;
            assert(views(columns@) =~= head_of(views(self.columns@), n as nat).take(i as int));
        }
        proof {
            assert(head_of(self@, n as nat).take(i as int) =~= head_of(self@, n as nat));
            lemma_head_of(self@, n as nat);
        }
        Table { columns }
    }

    /// The last `n` rows, in order; the whole table where it has no more
    /// than `n` rows.
    pub fn tail(&self, n: usize) -> (out: Table)
        ensures
            out@ == tail_of(self@, n as nat),
            rectangular(out@),
            unique_names(self@) ==> unique_names(out@),
    {
        proof {
            use_type_invariant(self);
        }
        let mut columns: Vec<Column> = Vec::new();
        let mut i: usize = 0;
        while i < self.columns.len()
            invariant
                i <= self.columns.len(),
                views(columns@) == tail_of(views(self.columns@), n as nat).take(i as int),
            decreases self.columns.len() - i,
        {
            let next = self.columns[i].tail(n);
            proof {
                lemma_views_push(columns@, next);
            }
            columns.push(next);
            i = i + 1;
            assert(views(columns@) =~= tail_of(views(self.columns@), n as nat).take(i as int));
        }
        proof {
            assert(tail_of(self@, n as nat).take(i as int) =~= tail_of(self@, n as nat));
            lemma_tail_of(self@, n as nat);
        }
        Table { columns }
    }

    /// Row `r`: the value of every column at position `r`, in column order.
    /// There is none from the row count on.
    pub fn row(&self, r: usize) -> (out: Option<Vec<Cell>>)
        ensures
            r < height(self@) ==> out is Some && cell_views(out->0@) == row_of(self@, r as int),
            r >= height(self@) ==> out is None,
    {
        if r >= self.row_count() {
            return None;
        }
        let mut cells: Vec<Cell> = Vec::new();
        let mut i: usize = 0;
        while i < self.columns.len()
            invariant
                i <= self.columns.len(),
                forall|k: int|
                    0 <= k < self@.len() ==> (#[trigger] self@[k]).values.len() == height(self@),
                r < height(self@),
                self@ == views(self.columns@),
                cell_views(cells@) == row_of(self@, r as int).take(i as int),
            decreases self.columns.len() - i,
        {
            assert(self@[i as int].values.len() == height(self@));
            let cell = match self.columns[i].data.cell(r) {
                Some(c) => c,
                None => {
                    return None;
                },
            };
            proof {
                lemma_cell_views_push(cells@, cell);
            }
            cells.push(cell);
            i = i + 1;
            assert(cell_views(cells@) =~= row_of(self@, r as int).take(i as int));
        }
        assert(row_of(self@, r as int).take(i as int) =~= row_of(self@, r as int));
        Some(cells)
    }

    /// The position of the column that `id` stands for, if it stands for one.
    pub fn position_of(&self, id: &str) -> (out: Option<usize>)
        ensures
            out is Some <==> resolve(self@, id@) is Some,
            out matches Some(i) ==> resolve(self@, id@) == Some(i as int) && i < self@.len(),
    {
        let ghost names = names_of(self@);
        let wanted = chars_of(id);
        let mut i: usize = 0;
        while i < self.columns.len()
            invariant
                i <= self.columns.len(),
                wanted@ == id@,
                names == names_of(self@),
                self@ == views(self.columns@),
                forall|k: int| 0 <= k < i ==> #[trigger] names[k] != id@,
            decreases self.columns.len() - i,
        {
            let name = chars_of(self.columns[i].name.as_str());
            assert(name@ == names[i as int]);
            if same_chars(&name, &wanted) {
                proof {
                    assert(names[i as int] == id@);
                    names.index_of_first_ensures(id@);
                }
                return Some(i);
            }
            i = i + 1;
        }
        proof {
            names.index_of_first_ensures(id@);
        }
        assert(wanted@.take(wanted.len() as int) =~= wanted@);
        if wanted.len() == 0 {
            return None;
        }
        match parse_decimal(&wanted, wanted.len()) {
            Some(v) => if v < self.columns.len() {
                Some(v)
            } else {
                None
            },
            None => None,
        }
    }

    /// The columns that the identifiers stand for, in the order of the
    /// identifiers.
    ///
    /// Each identifier is the name of a column or its position counted from
    /// 0; one that is neither is passed over. A column that is named more than
    /// once comes out more than once. Fails with
    /// [`TableError::SelectionError`] when no identifier stands for a column,
    /// and only then.
    pub fn select(&self, identifiers: &Vec<String>) -> (out: Result<Table, TableError>)
        ensures
            match out {
                Ok(t) => selection(self@, texts(identifiers@)).len() > 0 && t@ == pick(
                    self@,
                    selection(self@, texts(identifiers@)),
                ) && rectangular(t@),
                Err(e) => e == TableError::SelectionError && selection(
                    self@,
                    texts(identifiers@),
                ).len() == 0,
            },
    {
        proof {
            use_type_invariant(self);
        }
        let ghost ids = texts(identifiers@);
        let mut columns: Vec<Column> = Vec::new();
        let mut k: usize = 0;
        while k < identifiers.len()
            invariant
                k <= identifiers.len(),
                ids == texts(identifiers@),
                self@ == views(self.columns@),
                views(columns@) == pick(self@, selection(self@, ids.take(k as int))),
            decreases identifiers.len() - k,
        {
            let ghost done = selection(self@, ids.take(k as int));
            proof {
                assert(ids.take(k + 1).drop_last() =~= ids.take(k as int));
                assert(ids.take(k + 1).last() == identifiers@[k as int]@);
            }
            match self.position_of(identifiers[k].as_str()) {
                Some(i) => {
                    let next = self.columns[i].duplicate();
                    proof {
                        lemma_views_push(columns@, next);
                    }
                    columns.push(next);
                    assert(views(columns@) =~= pick(self@, done.push(i as int)));
                },
                None => {},
            }
            k = k + 1;
        }
        assert(ids.take(k as int) =~= ids);
        proof {
            lemma_selection_in_range(self@, ids);
            lemma_pick_rectangular(self@, selection(self@, ids));
        }
        if columns.len() == 0 {
            Err(TableError::SelectionError)
        } else {
            Ok(Table { columns })
        }
    }
}

/// Whether two character vectors hold the same text.
fn same_chars(a: &Vec<char>, b: &Vec<char>) -> (out: bool)
    ensures
        out == (a@ == b@),
{
    if a.len() != b.len() {
        return false;
    }
    let mut i: usize = 0;
    while i < a.len()
        invariant
            i <= a.len() == b.len(),
            forall|k: int| 0 <= k < i ==> a@[k] == b@[k],
        decreases a.len() - i,
    {
        if a[i] != b[i] {
            return false;
        }
        i = i + 1;
    }
    assert(a@ =~= b@);
    true
}

} // verus!
