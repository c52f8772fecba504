//! Choosing a reader from a file name.

use vstd::prelude::*;
use crate::text::chars_of;

verus! {

/// The kinds of tabular file that can be loaded.
#[derive(Clone, Copy, Debug, PartialEq, Eq, Structural)]
pub enum FileType {
    /// A scientific binary table.
    Fits,
    /// Delimited text.
    Csv,
    /// A columnar binary file; also the choice for every unrecognised name.
    Parquet,
}

/// No character of `s` is a dot.
pub open spec fn dot_free(s: Seq<char>) -> bool {
    forall|i: int| 0 <= i < s.len() ==> #[trigger] s[i] != '.'
}

/// `ext` is what follows the last dot of `name`. A name without a dot has no
/// extension; a name that ends in a dot has the empty one.
pub open spec fn is_extension_of(ext: Seq<char>, name: Seq<char>) -> bool {
    exists|k: int|
        0 <= k < name.len() && name[k] == '.' && #[trigger] name.skip(k + 1) == ext && dot_free(ext)
}

/// The extension of delimited text files.
pub open spec fn csv_extension() -> Seq<char> {
    seq!['c', 's', 'v']
}

/// The extension of scientific binary tables.
pub open spec fn fits_extension() -> Seq<char> {
    seq!['f', 'i', 't', 's']
}

/// The kind of file that a name stands for, by its extension alone and with
/// upper and lower case kept apart.
pub open spec fn file_type_of(name: Seq<char>) -> FileType {
    if is_extension_of(csv_extension(), name) {
        FileType::Csv
    } else if is_extension_of(fits_extension(), name) {
        FileType::Fits
    } else {
        FileType::Parquet
    }
}

/// A name has at most one extension.
pub proof fn lemma_extension_unique(a: Seq<char>, b: Seq<char>, name: Seq<char>)
    requires
        is_extension_of(a, name),
        is_extension_of(b, name),
    ensures
        a == b,
{
    let i = choose|k: int|
        0 <= k < name.len() && name[k] == '.' && #[trigger] name.skip(k + 1) == a && dot_free(a);
    let j = choose|k: int|
        0 <= k < name.len() && name[k] == '.' && #[trigger] name.skip(k + 1) == b && dot_free(b);
    if i < j {
        assert(name.skip(i + 1)[j - i - 1] == '.');
    } else if j < i {
        assert(name.skip(j + 1)[i - j - 1] == '.');
    }
}

/// `name` ends in `suffix`.
pub open spec fn ends_with(name: Seq<char>, suffix: Seq<char>) -> bool {
    name.len() >= suffix.len() && name.skip(name.len() - suffix.len()) == suffix
}

/// A name has the extension `ext` exactly when it ends in a dot and `ext`,
/// for an `ext` without a dot.
pub proof fn lemma_extension_is_suffix(ext: Seq<char>, name: Seq<char>)
    requires
        dot_free(ext),
    ensures
        is_extension_of(ext, name) <==> ends_with(name, seq!['.'] + ext),
{
    let suffix = seq!['.'] + ext;
    if is_extension_of(ext, name) {
        let k = choose|k: int|
            0 <= k < name.len() && name[k] == '.' && #[trigger] name.skip(k + 1) == ext
                && dot_free(ext);
        assert(name.skip(k) =~= suffix);
    }
    if ends_with(name, suffix) {
        let k = name.len() - suffix.len();
        assert(name[k] == name.skip(k)[0]);
        assert forall|i: int| 0 <= i < ext.len() implies name.skip(k + 1)[i] == ext[i] by {
            assert(name.skip(k + 1)[i] == name.skip(k)[i + 1]);
        }
        assert(name.skip(k + 1) =~= ext);
    }
}

/// Names that end in `.csv` are delimited text, names that end in `.fits`
/// are scientific binary tables, and all other names are columnar binary
/// files.
pub proof fn lemma_file_type_by_suffix(name: Seq<char>)
    ensures
        file_type_of(name) == FileType::Csv <==> ends_with(name, seq!['.', 'c', 's', 'v']),
        file_type_of(name) == FileType::Fits <==> ends_with(name, seq!['.', 'f', 'i', 't', 's']),
        file_type_of(name) == FileType::Parquet <==> !ends_with(name, seq!['.', 'c', 's', 'v'])
            && !ends_with(name, seq!['.', 'f', 'i', 't', 's']),
{
    lemma_extension_is_suffix(csv_extension(), name);
    lemma_extension_is_suffix(fits_extension(), name);
    assert(seq!['.'] + csv_extension() =~= seq!['.', 'c', 's', 'v']);
    assert(seq!['.'] + fits_extension() =~= seq!['.', 'f', 'i', 't', 's']);
    if is_extension_of(csv_extension(), name) && is_extension_of(fits_extension(), name) {
        lemma_extension_unique(csv_extension(), fits_extension(), name);
        assert(csv_extension().len() != fits_extension().len());
    }
}

/// A name without any dot is read as a columnar binary file.
pub proof fn lemma_no_dot_is_parquet(name: Seq<char>)
    requires
        dot_free(name),
    ensures
        file_type_of(name) == FileType::Parquet,
{
}

/// Classifies a file by the text after the last dot of its name: `csv` is
/// delimited text, `fits` a scientific binary table, and anything else,
/// a name without a dot included, a columnar binary file.
pub fn which_file(file_name: &str) -> (out: FileType)
    ensures
        out == file_type_of(file_name@),
{
    let chars = chars_of(file_name);
    let n: usize = chars.len();
    let mut k: usize = n;
    while k > 0 && chars[k - 1] != '.'
        invariant
            k <= n == chars.len(),
            dot_free(chars@.skip(k as int)),
        decreases k,
    {
        k = k - 1;
        assert forall|i: int| 0 <= i < chars@.skip(k as int).len() implies #[trigger] chars@.skip(
            k as int,
        )[i] != '.' by {
            if i > 0 {
                assert(chars@.skip(k as int)[i] == chars@.skip(k + 1)[i - 1]);
            }
        }
    }
    let ghost name = chars@;
    if k == 0 {
        proof {
            assert(name.skip(0) =~= name);
            lemma_no_dot_is_parquet(name);
        }
        return FileType::Parquet;
    }
    let ghost ext = name.skip(k as int);
    proof {
        assert(name[k - 1] == '.');
        assert(name.skip((k - 1) + 1) == ext);
        assert(is_extension_of(ext, name));
        if is_extension_of(csv_extension(), name) {
            lemma_extension_unique(ext, csv_extension(), name);
        }
        if is_extension_of(fits_extension(), name) {
            lemma_extension_unique(ext, fits_extension(), name);
        }
    }
    if n - k == 3 && chars[k] == 'c' && chars[k + 1] == 's' && chars[k + 2] == 'v' {
        assert(ext =~= csv_extension());
        FileType::Csv
    } else if n - k == 4 && chars[k] == 'f' && chars[k + 1] == 'i' && chars[k + 2] == 't'
        && chars[k + 3] == 's' {
        assert(ext =~= fits_extension());
        assert(ext != csv_extension()) by {
            assert(ext.len() != csv_extension().len());
        }
        FileType::Fits
    } else {
        assert(ext != csv_extension()) by {
            if ext.len() == 3 {
                assert(ext[0] == chars[k as int] && ext[1] == chars[k + 1] && ext[2] == chars[k + 2]);
            }
        }
        assert(ext != fits_extension()) by {
            if ext.len() == 4 {
                assert(ext[0] == chars[k as int] && ext[1] == chars[k + 1] && ext[2] == chars[k + 2]
                    && ext[3] == chars[k + 3]);
            }
        }
        FileType::Parquet
    }
}

} // verus!
