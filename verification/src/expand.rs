//! From the values read for a column to the columns of the table.
//!
//! A scalar column goes into the table as it was read. A vector column
//! arrives as one flat sequence, row after row, and is taken apart into one
//! scalar column for each position in the row.

use vstd::prelude::*;
use vstd::string::StringExecFns;
use crate::column::{Column, ColumnData, ColumnView, TypeCode, Values};
use crate::error::TableError;
use crate::header::{ColumnHeaderEntry, HeaderEntryView, planned_type};
use crate::table::{lemma_views_push, rectangular, views};
use crate::text::{decimal, decimal_string, lemma_decimal_injective};

verus! {

/// The name of the scalar column that holds position `i` of the vector
/// column `base`: the base name, an underscore and `i` in decimal.
pub open spec fn expanded_name(base: Seq<char>, i: nat) -> Seq<char> {
    base + seq!['_'] + decimal(i)
}

/// The scalar columns of a vector column whose rows are `repeat` wide:
/// column `i` holds the flat values at `i`, `repeat + i`, `2 * repeat + i`
/// and so on.
pub open spec fn expansion(base: Seq<char>, flat: Values, repeat: nat) -> Seq<ColumnView> {
    Seq::new(
        repeat,
        |i: int|
            ColumnView {
                name: expanded_name(base, i as nat),
                values: flat.strided(repeat as int, i, (flat.len() / repeat) as int),
            },
    )
}

/// What taking a flat sequence apart gives. Text is not taken apart, and
/// the flat values must fill whole rows.
pub open spec fn expansion_outcome(base: Seq<char>, flat: Values, repeat: nat) -> Result<
    Seq<ColumnView>,
    TableError,
> {
    if flat.type_code() == TypeCode::Text {
        Err(TableError::UnsupportedType)
    } else if repeat == 0 || flat.len() % repeat != 0 {
        Err(TableError::SchemaError)
    } else {
        Ok(expansion(base, flat, repeat))
    }
}

/// The columns that the values read for a header entry become.
///
/// An entry with a repeat count of 0 is malformed and yields a
/// [`TableError::FormatError`], whatever the values. Else the values must
/// be of the type that the entry asks for. An entry with a count of 1
/// yields one column of the entry's name; a vector entry yields its
/// expansion.
pub open spec fn decoded(entry: HeaderEntryView, raw: Values) -> Result<
    Seq<ColumnView>,
    TableError,
> {
    match planned_type(entry.type_code, entry.repeat_count) {
        Err(e) => Err(e),
        Ok(t) => if raw.type_code() != t {
            Err(TableError::SchemaError)
        } else if entry.repeat_count > 1 {
            expansion_outcome(entry.name, raw, entry.repeat_count)
        } else {
            Ok(seq![ColumnView { name: entry.name, values: raw }])
        },
    }
}

/// The model of the outcome of producing columns.
pub open spec fn outcome_view(r: Result<Vec<Column>, TableError>) -> Result<
    Seq<ColumnView>,
    TableError,
> {
    match r {
        Ok(cols) => Ok(views(cols@)),
        Err(e) => Err(e),
    }
}

/// The expansion of `rows` rows of `repeat` values each: `repeat` columns
/// of `rows` values, where value `row` of column `i` is the flat value at
/// `row * repeat + i`.
pub proof fn lemma_expansion_cells(base: Seq<char>, flat: Values, repeat: nat, rows: nat)
    requires
        flat.type_code() != TypeCode::Text,
        repeat > 0,
        flat.len() == rows * repeat,
    ensures
        expansion_outcome(base, flat, repeat) == Ok::<Seq<ColumnView>, TableError>(
            expansion(base, flat, repeat),
        ),
        expansion(base, flat, repeat).len() == repeat,
        forall|i: int|
            0 <= i < repeat ==> {
                &&& (#[trigger] expansion(base, flat, repeat)[i]).name == expanded_name(
                    base,
                    i as nat,
                )
                &&& expansion(base, flat, repeat)[i].values.len() == rows
                &&& expansion(base, flat, repeat)[i].values.type_code() == flat.type_code()
            },
        forall|i: int, row: int|
            0 <= i < repeat && 0 <= row < rows ==> #[trigger] expansion(
                base,
                flat,
                repeat,
            )[i].values.cell(row) == flat.cell(row * repeat + i),
{
    assert(flat.len() % repeat == 0 && flat.len() / repeat == rows) by (nonlinear_arith)
        requires
            repeat > 0,
            flat.len() == rows * repeat,
    ;
}

/// The columns of an expansion have one common length.
pub proof fn lemma_expansion_rectangular(base: Seq<char>, flat: Values, repeat: nat)
    ensures
        rectangular(expansion(base, flat, repeat)),
{
}

/// The columns of an expansion have different names.
pub proof fn lemma_expansion_names_differ(base: Seq<char>, flat: Values, repeat: nat, i: int, j: int)
    requires
        0 <= i < repeat,
        0 <= j < repeat,
        i != j,
    ensures
        expansion(base, flat, repeat)[i].name != expansion(base, flat, repeat)[j].name,
{
    let a = expanded_name(base, i as nat);
    let b = expanded_name(base, j as nat);
    if a == b {
        let lead = base + seq!['_'];
        assert(a.skip(lead.len() as int) =~= decimal(i as nat));
        assert(b.skip(lead.len() as int) =~= decimal(j as nat));
        lemma_decimal_injective(i as nat, j as nat);
    }
}

/// The name of the scalar column at position `i` of the vector column
/// `base_name`.
fn expanded_name_string(base_name: &str, i: usize) -> (out: String)
    ensures
        out@ == expanded_name(base_name@, i as nat),
{
    proof {
        reveal_strlit("_");
    }
    let mut out = String::from_str(base_name);
    out.append("_");
    let digits = decimal_string(i as u64);
    out.append(digits.as_str());
    assert(out@ =~= expanded_name(base_name@, i as nat));
    out
}

/// Takes a vector column apart: from the flat values of rows that are
/// `n_elements` wide to `n_elements` scalar columns, named after the base
/// name and their position in the row.
///
/// Fails with [`TableError::UnsupportedType`] on text, and with
/// [`TableError::SchemaError`] when `n_elements` is 0 or the values do not
/// fill whole rows: no value is dropped in silence.
pub fn expand_vector_column_from_flat(base_name: &str, flat: &ColumnData, n_elements: usize) -> (out:
    Result<Vec<Column>, TableError>)
    ensures
        outcome_view(out) == expansion_outcome(base_name@, flat@, n_elements as nat),
{
    match flat.type_code() {
        TypeCode::Text => {
            return Err(TableError::UnsupportedType);
        },
        _ => {},
    }
    let len: usize = flat.len();
    if n_elements == 0 || len % n_elements != 0 {
        return Err(TableError::SchemaError);
    }
    let rows: usize = len / n_elements;
    assert(rows * n_elements <= len) by (nonlinear_arith)
        requires
            n_elements > 0,
            rows == len / n_elements,
    ;
    let ghost wanted = expansion(base_name@, flat@, n_elements as nat);
    let mut columns: Vec<Column> = Vec::new();
    let mut i: usize = 0;
    while i < n_elements
        invariant
            i <= n_elements,
            rows == flat@.len() / (n_elements as nat),
            rows * n_elements <= flat@.len(),
            flat@.type_code() != TypeCode::Text,
            wanted == expansion(base_name@, flat@, n_elements as nat),
            views(columns@) == wanted.take(i as int),
        decreases n_elements - i,
    {
        let name = expanded_name_string(base_name, i);
        let data = flat.stride(n_elements, i, rows);
        let next = Column { name, data };
        proof {
            lemma_views_push(columns@, next);
        }
        columns.push(next);
        i = i + 1;
    }
    assert(wanted.take(i as int) =~= wanted);
    Ok(columns)
}

/// Turns the values read for a header entry into columns of the table.
///
/// The result is that of [`decoded`]: the entry's repeat count and planned
/// type decide, then the type of the values handed in, and for a vector
/// entry the expansion. An entry with a repeat count of 0 is refused with
/// [`TableError::FormatError`].
pub fn decode_column(entry: &ColumnHeaderEntry, raw: ColumnData) -> (out: Result<
    Vec<Column>,
    TableError,
>)
    ensures
        outcome_view(out) == decoded(entry@, raw@),
        entry@.repeat_count == 0 ==> out == Err::<Vec<Column>, TableError>(
            TableError::FormatError,
        ),
{
    let wanted = match entry.value_type() {
        Ok(t) => t,
        Err(e) => {
            return Err(e);
        },
    };
    if raw.type_code() != wanted {
        return Err(TableError::SchemaError);
    }
    if entry.repeat_count > 1 {
        expand_vector_column_from_flat(entry.name.as_str(), &raw, entry.repeat_count)
    } else {
        let mut columns: Vec<Column> = Vec::new();
        let ghost only = ColumnView { name: entry@.name, values: raw@ };
        columns.push(Column { name: entry.name.clone(), data: raw });
        assert(views(columns@) =~= seq![only]);
        Ok(columns)
    }
}

} // verus!
