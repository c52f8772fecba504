//! Columns: a name and a sequence of values of one logical type.
//!
//! Floating-point values are carried as their IEEE 754 bit patterns, a `u32`
//! for single and a `u64` for double precision. The library moves values and
//! never computes with them, so two columns are equal exactly when they hold
//! the same bits.

use vstd::prelude::*;

verus! {

/// The logical type of a column's values.
#[derive(Clone, Copy, Debug, PartialEq, Eq, Structural)]
pub enum TypeCode {
    /// 32-bit floating point.
    Float32,
    /// 64-bit floating point.
    Float64,
    /// 32-bit signed integer.
    Int32,
    /// 64-bit signed integer.
    Int64,
    /// UTF-8 text.
    Text,
}

/// The values of a column.
#[derive(Clone, Debug, PartialEq, Eq)]
pub enum ColumnData {
    /// Single-precision floats, each as its bit pattern.
    Float32(Vec<u32>),
    /// Double-precision floats, each as its bit pattern.
    Float64(Vec<u64>),
    Int32(Vec<i32>),
    Int64(Vec<i64>),
    Text(Vec<String>),
}

/// One value of a column.
#[derive(Clone, Debug, PartialEq, Eq)]
pub enum Cell {
    /// A single-precision float, as its bit pattern.
    Float32(u32),
    /// A double-precision float, as its bit pattern.
    Float64(u64),
    Int32(i32),
    Int64(i64),
    Text(String),
}

/// A named sequence of values of one type.
#[derive(Clone, Debug, PartialEq, Eq)]
pub struct Column {
    pub name: String,
    pub data: ColumnData,
}

/// The mathematical model of [`ColumnData`].
pub enum Values {
    Float32(Seq<u32>),
    Float64(Seq<u64>),
    Int32(Seq<i32>),
    Int64(Seq<i64>),
    Text(Seq<Seq<char>>),
}

/// The mathematical model of [`Cell`].
pub enum CellView {
    Float32(u32),
    Float64(u64),
    Int32(i32),
    Int64(i64),
    Text(Seq<char>),
}

/// The mathematical model of [`Column`].
pub struct ColumnView {
    pub name: Seq<char>,
    pub values: Values,
}

/// The texts that a sequence of strings holds.
pub open spec fn texts(v: Seq<String>) -> Seq<Seq<char>> {
    v.map_values(|s: String| s@)
}

/// Every `step`-th element of `s` from `offset` on, `rows` of them: the
/// column `offset` of a row-major grid that is `step` wide.
pub open spec fn strided<T>(s: Seq<T>, step: int, offset: int, rows: int) -> Seq<T> {
    Seq::new(rows as nat, |r: int| s[r * step + offset])
}

impl Values {
    /// The number of values.
    pub open spec fn len(self) -> nat {
        match self {
            Values::Float32(s) => s.len(),
            Values::Float64(s) => s.len(),
            Values::Int32(s) => s.len(),
            Values::Int64(s) => s.len(),
            Values::Text(s) => s.len(),
        }
    }

    /// The logical type of the values.
    pub open spec fn type_code(self) -> TypeCode {
        match self {
            Values::Float32(_) => TypeCode::Float32,
            Values::Float64(_) => TypeCode::Float64,
            Values::Int32(_) => TypeCode::Int32,
            Values::Int64(_) => TypeCode::Int64,
            Values::Text(_) => TypeCode::Text,
        }
    }

    /// The value at position `r`.
    pub open spec fn cell(self, r: int) -> CellView {
        match self {
            Values::Float32(s) => CellView::Float32(s[r]),
            Values::Float64(s) => CellView::Float64(s[r]),
            Values::Int32(s) => CellView::Int32(s[r]),
            Values::Int64(s) => CellView::Int64(s[r]),
            Values::Text(s) => CellView::Text(s[r]),
        }
    }

    /// The values at positions `from` up to, not including, `to`.
    pub open spec fn subrange(self, from: int, to: int) -> Values {
        match self {
            Values::Float32(s) => Values::Float32(s.subrange(from, to)),
            Values::Float64(s) => Values::Float64(s.subrange(from, to)),
            Values::Int32(s) => Values::Int32(s.subrange(from, to)),
            Values::Int64(s) => Values::Int64(s.subrange(from, to)),
            Values::Text(s) => Values::Text(s.subrange(from, to)),
        }
    }

    /// The first `n` values, or all of them where there are fewer.
    pub open spec fn head(self, n: nat) -> Values {
        if n >= self.len() {
            self
        } else {
            self.subrange(0, n as int)
        }
    }

    /// The last `n` values, or all of them where there are fewer.
    pub open spec fn tail(self, n: nat) -> Values {
        if n >= self.len() {
            self
        } else {
            self.subrange(self.len() - n, self.len() as int)
        }
    }

    /// Column `offset` of these values read as a row-major grid of `rows`
    /// rows, each `step` wide.
    pub open spec fn strided(self, step: int, offset: int, rows: int) -> Values {
        match self {
            Values::Float32(s) => Values::Float32(strided(s, step, offset, rows)),
            Values::Float64(s) => Values::Float64(strided(s, step, offset, rows)),
            Values::Int32(s) => Values::Int32(strided(s, step, offset, rows)),
            Values::Int64(s) => Values::Int64(strided(s, step, offset, rows)),
            Values::Text(s) => Values::Text(strided(s, step, offset, rows)),
        }
    }
}

impl View for ColumnData {
    type V = Values;

    open spec fn view(&self) -> Values {
        match self {
            ColumnData::Float32(v) => Values::Float32(v@),
            ColumnData::Float64(v) => Values::Float64(v@),
            ColumnData::Int32(v) => Values::Int32(v@),
            ColumnData::Int64(v) => Values::Int64(v@),
            ColumnData::Text(v) => Values::Text(texts(v@)),
        }
    }
}

impl View for Cell {
    type V = CellView;

    open spec fn view(&self) -> CellView {
        match self {
            Cell::Float32(x) => CellView::Float32(*x),
            Cell::Float64(x) => CellView::Float64(*x),
            Cell::Int32(x) => CellView::Int32(*x),
            Cell::Int64(x) => CellView::Int64(*x),
            Cell::Text(x) => CellView::Text(x@),
        }
    }
}

impl View for Column {
    type V = ColumnView;

    open spec fn view(&self) -> ColumnView {
        ColumnView { name: self.name@, values: self.data@ }
    }
}

/// The texts of strings with one more string are the texts with one more
/// text.
pub proof fn lemma_texts_push(v: Seq<String>, s: String)
    ensures
        texts(v.push(s)) == texts(v).push(s@),
{
}

/// A copy of `v[from..to]`.
fn copy_range<T: Copy>(v: &Vec<T>, from: usize, to: usize) -> (out: Vec<T>)
    requires
        from <= to <= v.len(),
    ensures
        out@ == v@.subrange(from as int, to as int),
{
    let mut out: Vec<T> = Vec::new();
    let mut i: usize = from;
    while i < to
        invariant
            from <= i <= to <= v.len(),
            out@ == v@.subrange(from as int, i as int),
        decreases to - i,
    {
        out.push(v[i]);
        i = i + 1;
    }
    out
}

/// A copy of the strings `v[from..to]`.
fn copy_texts(v: &Vec<String>, from: usize, to: usize) -> (out: Vec<String>)
    requires
        from <= to <= v.len(),
    ensures
        texts(out@) == texts(v@).subrange(from as int, to as int),
{
    let mut out: Vec<String> = Vec::new();
    let mut i: usize = from;
    while i < to
        invariant
            from <= i <= to <= v.len(),
            texts(out@) == texts(v@).subrange(from as int, i as int),
        decreases to - i,
    {
        let item = v[i].clone();
        proof {
            lemma_texts_push(out@, item);
        }
        out.push(item);
        i = i + 1;
    }
    out
}

/// Column `offset` of `flat` read as a row-major grid `step` wide.
fn copy_strided<T: Copy>(flat: &Vec<T>, step: usize, offset: usize, rows: usize) -> (out: Vec<T>)
    requires
        offset < step,
        rows * step <= flat.len(),
    ensures
        out@ == strided(flat@, step as int, offset as int, rows as int),
{
    let mut out: Vec<T> = Vec::new();
    let mut r: usize = 0;
    while r < rows
        invariant
            r <= rows,
            offset < step,
            rows * step <= flat.len(),
            out@ == strided(flat@, step as int, offset as int, r as int),
        decreases rows - r,
    {
        assert(r * step + offset < rows * step) by (nonlinear_arith)
            requires
                r < rows,
                offset < step,
        ;
        out.push(flat[r * step + offset]);
        r = r + 1;
    }
    out
}

impl ColumnData {
    /// The number of values.
    pub fn len(&self) -> (out: usize)
        ensures
            out == self@.len(),
    {
        match self {
            ColumnData::Float32(v) => v.len(),
            ColumnData::Float64(v) => v.len(),
            ColumnData::Int32(v) => v.len(),
            ColumnData::Int64(v) => v.len(),
            ColumnData::Text(v) => v.len(),
        }
    }

    /// The logical type of the values.
    pub fn type_code(&self) -> (out: TypeCode)
        ensures
            out == self@.type_code(),
    {
        match self {
            ColumnData::Float32(_) => TypeCode::Float32,
            ColumnData::Float64(_) => TypeCode::Float64,
            ColumnData::Int32(_) => TypeCode::Int32,
            ColumnData::Int64(_) => TypeCode::Int64,
            ColumnData::Text(_) => TypeCode::Text,
        }
    }

    /// The value at position `r`, if there is one.
    pub fn cell(&self, r: usize) -> (out: Option<Cell>)
        ensures
            r < self@.len() ==> out is Some && out->0@ == self@.cell(r as int),
            r >= self@.len() ==> out is None,
    {
        if r >= self.len() {
            return None;
        }
        Some(
            match self {
                ColumnData::Float32(v) => Cell::Float32(v[r]),
                ColumnData::Float64(v) => Cell::Float64(v[r]),
                ColumnData::Int32(v) => Cell::Int32(v[r]),
                ColumnData::Int64(v) => Cell::Int64(v[r]),
                ColumnData::Text(v) => Cell::Text(v[r].clone()),
            },
        )
    }

    /// A copy of the values at positions `from` up to, not including, `to`.
    pub(crate) fn slice(&self, from: usize, to: usize) -> (out: ColumnData)
        requires
            from <= to <= self@.len(),
        ensures
            out@ == self@.subrange(from as int, to as int),
    {
        match self {
            ColumnData::Float32(v) => ColumnData::Float32(copy_range(v, from, to)),
            ColumnData::Float64(v) => ColumnData::Float64(copy_range(v, from, to)),
            ColumnData::Int32(v) => ColumnData::Int32(copy_range(v, from, to)),
            ColumnData::Int64(v) => ColumnData::Int64(copy_range(v, from, to)),
            ColumnData::Text(v) => ColumnData::Text(copy_texts(v, from, to)),
        }
    }

    /// A copy of all the values.
    pub fn duplicate(&self) -> (out: ColumnData)
        ensures
            out@ == self@,
    {
        let out = self.slice(0, self.len());
        proof {
            lemma_full_subrange(self@);
        }
        out
    }

    /// The first `n` values, or all of them where there are fewer.
    pub fn head(&self, n: usize) -> (out: ColumnData)
        ensures
            out@ == self@.head(n as nat),
    {
        let len: usize = self.len();
        if n >= len {
            self.duplicate()
        } else {
            self.slice(0, n)
        }
    }

    /// The last `n` values, or all of them where there are fewer.
    pub fn tail(&self, n: usize) -> (out: ColumnData)
        ensures
            out@ == self@.tail(n as nat),
    {
        let len: usize = self.len();
        if n >= len {
            self.duplicate()
        } else {
            self.slice(len - n, len)
        }
    }

    /// Column `offset` of numeric values read as a row-major grid of `rows`
    /// rows, each `step` wide.
    pub(crate) fn stride(&self, step: usize, offset: usize, rows: usize) -> (out: ColumnData)
        requires
            offset < step,
            rows * step <= self@.len(),
            self@.type_code() != TypeCode::Text,
        ensures
            out@ == self@.strided(step as int, offset as int, rows as int),
    {
        match self {
            ColumnData::Float32(v) => ColumnData::Float32(copy_strided(v, step, offset, rows)),
            ColumnData::Float64(v) => ColumnData::Float64(copy_strided(v, step, offset, rows)),
            ColumnData::Int32(v) => ColumnData::Int32(copy_strided(v, step, offset, rows)),
            ColumnData::Int64(v) => ColumnData::Int64(copy_strided(v, step, offset, rows)),
            ColumnData::Text(_) => ColumnData::Text(Vec::new()),
        }
    }
}

/// The first `n` and the last `n` values are `n` values, or all there are.
pub proof fn lemma_cut_len(values: Values, n: nat)
    ensures
        values.head(n).len() == if n <= values.len() {
            n
        } else {
            values.len()
        },
        values.tail(n).len() == values.head(n).len(),
        values.head(n).type_code() == values.type_code(),
        values.tail(n).type_code() == values.type_code(),
{
}

/// Cutting values from their first to their last position changes nothing.
pub proof fn lemma_full_subrange(values: Values)
    ensures
        values.subrange(0, values.len() as int) == values,
{
    match values {
        Values::Float32(s) => assert(s.subrange(0, s.len() as int) =~= s),
        Values::Float64(s) => assert(s.subrange(0, s.len() as int) =~= s),
        Values::Int32(s) => assert(s.subrange(0, s.len() as int) =~= s),
        Values::Int64(s) => assert(s.subrange(0, s.len() as int) =~= s),
        Values::Text(s) => assert(s.subrange(0, s.len() as int) =~= s),
    }
}

impl Column {
    /// A column of the given name and values.
    pub fn new(name: String, data: ColumnData) -> (out: Column)
        ensures
            out@ == (ColumnView { name: name@, values: data@ }),
    {
        Column { name, data }
    }

    /// The number of values.
    pub fn len(&self) -> (out: usize)
        ensures
            out == self@.values.len(),
    {
        self.data.len()
    }

    /// A copy of the column.
    pub fn duplicate(&self) -> (out: Column)
        ensures
            out@ == self@,
    {
        Column { name: self.name.clone(), data: self.data.duplicate() }
    }

    /// The column cut to its first `n` values.
    pub fn head(&self, n: usize) -> (out: Column)
        ensures
            out@ == (ColumnView { name: self@.name, values: self@.values.head(n as nat) }),
    {
        Column { name: self.name.clone(), data: self.data.head(n) }
    }

    /// The column cut to its last `n` values.
    pub fn tail(&self, n: usize) -> (out: Column)
        ensures
            out@ == (ColumnView { name: self@.name, values: self@.values.tail(n as nat) }),
    {
        Column { name: self.name.clone(), data: self.data.tail(n) }
    }
}

} // verus!
