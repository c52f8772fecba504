//! The column header of a scientific binary table: which keys hold it, and
//! what its type descriptors say.

use vstd::prelude::*;
use vstd::string::StringExecFns;
use crate::column::TypeCode;
use crate::error::TableError;
use crate::text::{chars_of, decimal, decimal_string, parse_decimal, parsed_decimal};

verus! {

/// Whether `char::is_numeric` holds of `c`: whether Unicode puts `c` in one
/// of its general categories for numbers.
pub uninterp spec fn numeric_char(c: char) -> bool;

/// `char::is_numeric` of the standard library. The answer depends on the
/// character alone; which characters Unicode counts as numbers is not
/// spelled out here.
pub assume_specification[ char::is_numeric ](c: char) -> (out: bool)
    ensures
        out == numeric_char(c),
;

/// What a column header says of one column.
#[derive(Clone, Debug, PartialEq, Eq)]
pub struct ColumnHeaderEntry {
    /// The position of the column in the header, counted from 1.
    pub ordinal: usize,
    pub name: String,
    /// The last character of the type descriptor.
    pub type_code: char,
    /// How many values each row holds: 1 or more. More than one makes a
    /// vector column. A descriptor never yields 0, and an entry that holds 0
    /// all the same is refused wherever it is used.
    pub repeat_count: usize,
}

/// The mathematical model of [`ColumnHeaderEntry`].
pub struct HeaderEntryView {
    pub ordinal: nat,
    pub name: Seq<char>,
    pub type_code: char,
    pub repeat_count: nat,
}

impl View for ColumnHeaderEntry {
    type V = HeaderEntryView;

    open spec fn view(&self) -> HeaderEntryView {
        HeaderEntryView {
            ordinal: self.ordinal as nat,
            name: self.name@,
            type_code: self.type_code,
            repeat_count: self.repeat_count as nat,
        }
    }
}

/// The number of characters at the start of `s` that are numeric.
pub open spec fn numeric_prefix_len(s: Seq<char>) -> nat
    decreases s.len(),
{
    if s.len() > 0 && numeric_char(s[0]) {
        1 + numeric_prefix_len(s.skip(1))
    } else {
        0
    }
}

/// What a type descriptor says, given the length of its numeric prefix.
///
/// The last character is the type code. An empty prefix stands for a repeat
/// count of 1; any other prefix is the repeat count in decimal, which is a
/// positive number. There is no reading for an empty descriptor, for a
/// prefix longer than the descriptor, for a prefix that is not an unsigned
/// decimal within `usize`, and for a prefix that denotes 0.
pub open spec fn descriptor_reading(s: Seq<char>, prefix: nat) -> Option<(usize, char)> {
    if s.len() == 0 || prefix > s.len() {
        None
    } else if prefix == 0 {
        Some((1usize, s.last()))
    } else {
        match parsed_decimal(s.take(prefix as int)) {
            Some(repeat) => if repeat >= 1 {
                Some((repeat, s.last()))
            } else {
                None
            },
            None => None,
        }
    }
}

/// What a type descriptor says: its repeat count and its type code.
pub open spec fn tform_reading(s: Seq<char>) -> Option<(usize, char)> {
    descriptor_reading(s, numeric_prefix_len(s))
}

/// The logical type that a type code letter stands for.
pub open spec fn type_of_code(c: char) -> Option<TypeCode> {
    if c == 'E' {
        Some(TypeCode::Float32)
    } else if c == 'D' {
        Some(TypeCode::Float64)
    } else if c == 'J' {
        Some(TypeCode::Int32)
    } else if c == 'K' {
        Some(TypeCode::Int64)
    } else if c == 'A' {
        Some(TypeCode::Text)
    } else {
        None
    }
}

/// The type of the values that have to be read for a column: the type of
/// its code, unless the code is unknown or the column is a vector of text.
/// A repeat count of 0 is no count at all, whatever the code.
pub open spec fn planned_type(type_code: char, repeat_count: nat) -> Result<TypeCode, TableError> {
    if repeat_count == 0 {
        Err(TableError::FormatError)
    } else {
        match type_of_code(type_code) {
            None => Err(TableError::UnsupportedType),
            Some(TypeCode::Text) => if repeat_count > 1 {
                Err(TableError::UnsupportedType)
            } else {
                Ok(TypeCode::Text)
            },
            Some(t) => Ok(t),
        }
    }
}

/// The number of columns that a field count announces.
pub open spec fn announced_fields(tfields: i64) -> Result<usize, TableError> {
    if tfields <= 0 {
        Ok(0usize)
    } else if tfields <= usize::MAX {
        Ok(tfields as usize)
    } else {
        Err(TableError::FormatError)
    }
}

/// The key that holds the number of columns.
pub open spec fn field_count_key_text() -> Seq<char> {
    seq!['T', 'F', 'I', 'E', 'L', 'D', 'S']
}

/// The key that holds the name of column `ordinal`.
pub open spec fn name_key_text(ordinal: nat) -> Seq<char> {
    seq!['T', 'T', 'Y', 'P', 'E'] + decimal(ordinal)
}

/// The key that holds the type descriptor of column `ordinal`.
pub open spec fn form_key_text(ordinal: nat) -> Seq<char> {
    seq!['T', 'F', 'O', 'R', 'M'] + decimal(ordinal)
}

/// Every repeat count that a descriptor yields is positive.
pub proof fn lemma_reading_is_positive(s: Seq<char>, prefix: nat)
    ensures
        descriptor_reading(s, prefix) matches Some((repeat, _)) ==> repeat >= 1,
        tform_reading(s) matches Some((repeat, _)) ==> repeat >= 1,
{
}

/// A prefix length `p` of `s` with numeric characters before it and none at
/// it is the length of the numeric prefix.
pub proof fn lemma_numeric_prefix_len(s: Seq<char>, p: int)
    requires
        0 <= p <= s.len(),
        forall|i: int| 0 <= i < p ==> numeric_char(#[trigger] s[i]),
        p < s.len() ==> !numeric_char(s[p]),
    ensures
        numeric_prefix_len(s) == p,
    decreases s.len(),
{
    if p > 0 {
        let rest = s.skip(1);
        assert forall|i: int| 0 <= i < p - 1 implies numeric_char(#[trigger] rest[i]) by {
            assert(rest[i] == s[i + 1]);
        }
        lemma_numeric_prefix_len(rest, p - 1);
    }
}

/// The key of the field count, `TFIELDS`.
pub fn field_count_key() -> (out: String)
    ensures
        out@ == field_count_key_text(),
{
    proof {
        reveal_strlit("TFIELDS");
    }
    let out = String::from_str("TFIELDS");
    assert(out@ =~= field_count_key_text());
    out
}

/// The key of the name of the column at `ordinal`: `TTYPE` and the ordinal
/// in decimal.
pub fn name_key(ordinal: usize) -> (out: String)
    ensures
        out@ == name_key_text(ordinal as nat),
{
    proof {
        reveal_strlit("TTYPE");
    }
    let mut out = String::from_str("TTYPE");
    assert(out@ =~= seq!['T', 'T', 'Y', 'P', 'E']);
    let digits = decimal_string(ordinal as u64);
    out.append(digits.as_str());
    out
}

/// The key of the type descriptor of the column at `ordinal`: `TFORM` and
/// the ordinal in decimal.
pub fn form_key(ordinal: usize) -> (out: String)
    ensures
        out@ == form_key_text(ordinal as nat),
{
    proof {
        reveal_strlit("TFORM");
    }
    let mut out = String::from_str("TFORM");
    assert(out@ =~= seq!['T', 'F', 'O', 'R', 'M']);
    let digits = decimal_string(ordinal as u64);
    out.append(digits.as_str());
    out
}

/// The number of columns to read for a field count: none for a count that
/// is not positive. A count that no `usize` holds is a
/// [`TableError::FormatError`].
pub fn field_count(tfields: i64) -> (out: Result<usize, TableError>)
    ensures
        out == announced_fields(tfields),
{
    if tfields <= 0 {
        Ok(0)
    } else if tfields as u64 <= usize::MAX as u64 {
        Ok(tfields as usize)
    } else {
        Err(TableError::FormatError)
    }
}

/// Reads a type descriptor whose numeric prefix is `prefix` characters long.
///
/// Gives the repeat count and the type code of [`descriptor_reading`], and
/// [`TableError::FormatError`] where there is no reading. The repeat count
/// is never 0.
pub fn split_tform(chars: &Vec<char>, prefix: usize) -> (out: Result<(usize, char), TableError>)
    ensures
        out == match descriptor_reading(chars@, prefix as nat) {
            Some(reading) => Ok::<(usize, char), TableError>(reading),
            None => Err(TableError::FormatError),
        },
        out matches Ok((repeat, _)) ==> repeat >= 1,
{
    let n: usize = chars.len();
    if n == 0 || prefix > n {
        return Err(TableError::FormatError);
    }
    let code = chars[n - 1];
    if prefix == 0 {
        return Ok((1, code));
    }
    match parse_decimal(chars, prefix) {
        Some(repeat) => if repeat >= 1 {
            Ok((repeat, code))
        } else {
            Err(TableError::FormatError)
        },
        None => Err(TableError::FormatError),
    }
}

/// Reads a type descriptor such as `101E`: the leading numeric characters
/// are the repeat count, 1 where there are none, and the last character is
/// the type code.
///
/// Fails with [`TableError::FormatError`] on an empty descriptor and on a
/// numeric prefix that is not an unsigned decimal within `usize` or that
/// denotes 0: a repeat count is a positive number.
pub fn parse_tform(tform: &str) -> (out: Result<(usize, char), TableError>)
    ensures
        out == match tform_reading(tform@) {
            Some(reading) => Ok::<(usize, char), TableError>(reading),
            None => Err(TableError::FormatError),
        },
        out matches Ok((repeat, _)) ==> repeat >= 1,
{
    let chars = chars_of(tform);
    let mut prefix: usize = 0;
    while prefix < chars.len() && chars[prefix].is_numeric()
        invariant
            prefix <= chars.len(),
            forall|i: int| 0 <= i < prefix ==> numeric_char(#[trigger] chars@[i]),
        decreases chars.len() - prefix,
    {
        prefix = prefix + 1;
    }
    proof {
        lemma_numeric_prefix_len(chars@, prefix as int);
    }
    split_tform(&chars, prefix)
}

/// The logical type that a type code letter stands for: `E` and `D` are
/// floats of 32 and 64 bits, `J` and `K` integers of 32 and 64 bits, `A` is
/// text. Other letters stand for none.
pub fn type_code_of(c: char) -> (out: Option<TypeCode>)
    ensures
        out == type_of_code(c),
{
    if c == 'E' {
        Some(TypeCode::Float32)
    } else if c == 'D' {
        Some(TypeCode::Float64)
    } else if c == 'J' {
        Some(TypeCode::Int32)
    } else if c == 'K' {
        Some(TypeCode::Int64)
    } else if c == 'A' {
        Some(TypeCode::Text)
    } else {
        None
    }
}

impl ColumnHeaderEntry {
    /// The entry of the column at `ordinal` with the given name and type
    /// descriptor.
    ///
    /// Fails with [`TableError::FormatError`] exactly when the descriptor
    /// has no reading; see [`parse_tform`].
    pub fn parse(ordinal: usize, name: String, tform: &str) -> (out: Result<
        ColumnHeaderEntry,
        TableError,
    >)
        ensures
            match tform_reading(tform@) {
                Some((repeat, code)) => out is Ok && out->Ok_0@ == (HeaderEntryView {
                    ordinal: ordinal as nat,
                    name: name@,
                    type_code: code,
                    repeat_count: repeat as nat,
                }),
                None => out == Err::<ColumnHeaderEntry, TableError>(TableError::FormatError),
            },
            out matches Ok(entry) ==> entry@.repeat_count >= 1,
    {
        match parse_tform(tform) {
            Ok((repeat_count, type_code)) => Ok(
                ColumnHeaderEntry { ordinal, name, type_code, repeat_count },
            ),
            Err(e) => Err(e),
        }
    }

    /// Whether each row of the column holds more than one value.
    pub fn is_vector(&self) -> (out: bool)
        ensures
            out == (self@.repeat_count > 1),
    {
        self.repeat_count > 1
    }

    /// The type of the values that have to be read for this column.
    ///
    /// Fails with [`TableError::FormatError`] on an entry whose repeat
    /// count is 0, else with [`TableError::UnsupportedType`] on an unknown
    /// type code and on a vector column of text, and only then.
    pub fn value_type(&self) -> (out: Result<TypeCode, TableError>)
        ensures
            out == planned_type(self@.type_code, self@.repeat_count),
    {
        if self.repeat_count == 0 {
            return Err(TableError::FormatError);
        }
        match type_code_of(self.type_code) {
            None => Err(TableError::UnsupportedType),
            Some(TypeCode::Text) => if self.repeat_count > 1 {
                Err(TableError::UnsupportedType)
            } else {
                Ok(TypeCode::Text)
            },
            Some(t) => Ok(t),
        }
    }
}

} // verus!
