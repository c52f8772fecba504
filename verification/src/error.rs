//! The ways in which loading or deriving a table fails.

use vstd::prelude::*;
use vstd::string::StringExecFns;

verus! {

/// Why an operation on a table file did not yield a table.
#[derive(Clone, Copy, Debug, PartialEq, Eq, Structural)]
pub enum TableError {
    /// The file is missing, or cannot be read or created.
    IoError,
    /// A required header key is missing or malformed: an empty type
    /// descriptor, or a repeat count that is 0 or no number within reach.
    FormatError,
    /// A type code outside the supported set, or a vector column of text.
    UnsupportedType,
    /// Columns of different lengths, a column name used twice, values that
    /// are not of the declared type or do not fill whole rows, or results
    /// that do not cover the ordinals of the header once each.
    SchemaError,
    /// None of the requested column identifiers matched a column.
    SelectionError,
}

impl TableError {
    /// The text of `describe` for each kind.
    pub open spec fn description(self) -> Seq<char> {
        match self {
            TableError::IoError => "file cannot be read or written"@,
            TableError::FormatError => "missing or malformed header key"@,
            TableError::UnsupportedType => "unsupported column type"@,
            TableError::SchemaError => "columns do not form a table"@,
            TableError::SelectionError => "no requested column matched"@,
        }
    }

    /// A short sentence for the user, one per kind.
    pub fn describe(&self) -> (out: String)
        ensures
            out@ == self.description(),
    {
        match self {
            TableError::IoError => String::from_str("file cannot be read or written"),
            TableError::FormatError => String::from_str("missing or malformed header key"),
            TableError::UnsupportedType => String::from_str("unsupported column type"),
            TableError::SchemaError => String::from_str("columns do not form a table"),
            TableError::SelectionError => String::from_str("no requested column matched"),
        }
    }
}

} // verus!
