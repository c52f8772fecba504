use dog::column::TypeCode;
use dog::error::TableError;
use dog::header::{
    field_count, field_count_key, form_key, name_key, parse_tform, split_tform, type_code_of,
    ColumnHeaderEntry,
};
use dog::text::chars_of;

#[test]
fn tform_with_count_one() {
    assert_eq!(parse_tform("1E"), Ok((1, 'E')));
}

#[test]
fn tform_with_a_longer_count() {
    assert_eq!(parse_tform("101E"), Ok((101, 'E')));
}

#[test]
fn tform_without_count_repeats_once() {
    assert_eq!(parse_tform("E"), Ok((1, 'E')));
}

#[test]
fn empty_tform_is_a_format_error() {
    assert_eq!(parse_tform(""), Err(TableError::FormatError));
}

#[test]
fn tform_of_every_supported_code() {
    assert_eq!(parse_tform("D"), Ok((1, 'D')));
    assert_eq!(parse_tform("3J"), Ok((3, 'J')));
    assert_eq!(parse_tform("1K"), Ok((1, 'K')));
    assert_eq!(parse_tform("20A"), Ok((20, 'A')));
}

#[test]
fn tform_of_digits_only_takes_the_last_digit_as_code() {
    assert_eq!(parse_tform("12"), Ok((12, '2')));
    assert_eq!(parse_tform("7"), Ok((7, '7')));
}

#[test]
fn tform_with_count_zero_is_a_format_error() {
    assert_eq!(parse_tform("0E"), Err(TableError::FormatError));
    assert_eq!(parse_tform("00J"), Err(TableError::FormatError));
    assert_eq!(parse_tform("0"), Err(TableError::FormatError));
    assert_eq!(parse_tform("000"), Err(TableError::FormatError));
}

#[test]
fn tform_with_leading_zeros_before_a_positive_count() {
    assert_eq!(parse_tform("01E"), Ok((1, 'E')));
    assert_eq!(parse_tform("0020D"), Ok((20, 'D')));
}

#[test]
fn every_count_that_is_read_is_positive() {
    let all = [
        "E", "1E", "0E", "2J", "10K", "00", "007A", "0A", "", "٣E", "5", "9999999999999999999999E",
    ];
    for tform in all {
        if let Ok((repeat, _)) = parse_tform(tform) {
            assert!(repeat >= 1, "{}", tform);
        }
        if let Ok(entry) = ColumnHeaderEntry::parse(1, String::from("c"), tform) {
            assert!(entry.repeat_count >= 1, "{}", tform);
        }
    }
}

#[test]
fn header_entry_with_count_zero_is_a_format_error() {
    assert_eq!(
        ColumnHeaderEntry::parse(1, String::from("ra"), "0E"),
        Err(TableError::FormatError)
    );
}

#[test]
fn an_entry_built_with_count_zero_has_no_value_type() {
    for code in ['E', 'D', 'J', 'K', 'A', 'X'] {
        let entry = ColumnHeaderEntry {
            ordinal: 1,
            name: String::from("c"),
            type_code: code,
            repeat_count: 0,
        };
        assert_eq!(entry.value_type(), Err(TableError::FormatError));
        assert!(!entry.is_vector());
    }
}

#[test]
fn tform_takes_the_last_character_as_code() {
    assert_eq!(parse_tform("1PE(20)"), Ok((1, ')')));
    assert_eq!(parse_tform("E5"), Ok((1, '5')));
    assert_eq!(parse_tform("2EJ"), Ok((2, 'J')));
}

#[test]
fn tform_with_numeric_characters_that_are_no_digits_is_a_format_error() {
    assert_eq!(parse_tform("٣E"), Err(TableError::FormatError));
    assert_eq!(parse_tform("2²E"), Err(TableError::FormatError));
}

#[test]
fn tform_with_a_count_beyond_usize_is_a_format_error() {
    assert_eq!(
        parse_tform("99999999999999999999999999E"),
        Err(TableError::FormatError)
    );
}

#[test]
fn split_tform_follows_the_given_prefix_length() {
    let chars = chars_of("101E");
    assert_eq!(split_tform(&chars, 3), Ok((101, 'E')));
    assert_eq!(split_tform(&chars, 2), Ok((10, 'E')));
    assert_eq!(split_tform(&chars, 0), Ok((1, 'E')));
    assert_eq!(split_tform(&chars, 4), Err(TableError::FormatError));
    assert_eq!(split_tform(&chars, 5), Err(TableError::FormatError));
    assert_eq!(split_tform(&Vec::new(), 0), Err(TableError::FormatError));
    let zero = chars_of("0E");
    assert_eq!(split_tform(&zero, 1), Err(TableError::FormatError));
    assert_eq!(split_tform(&zero, 0), Ok((1, 'E')));
}

#[test]
fn header_keys_are_numbered_from_one() {
    assert_eq!(field_count_key(), "TFIELDS");
    assert_eq!(name_key(1), "TTYPE1");
    assert_eq!(form_key(1), "TFORM1");
    assert_eq!(name_key(12), "TTYPE12");
    assert_eq!(form_key(999), "TFORM999");
}

#[test]
fn field_count_of_a_header() {
    assert_eq!(field_count(5), Ok(5));
    assert_eq!(field_count(0), Ok(0));
    assert_eq!(field_count(-3), Ok(0));
}

#[test]
fn type_codes_and_their_types() {
    assert_eq!(type_code_of('E'), Some(TypeCode::Float32));
    assert_eq!(type_code_of('D'), Some(TypeCode::Float64));
    assert_eq!(type_code_of('J'), Some(TypeCode::Int32));
    assert_eq!(type_code_of('K'), Some(TypeCode::Int64));
    assert_eq!(type_code_of('A'), Some(TypeCode::Text));
    assert_eq!(type_code_of('e'), None);
    assert_eq!(type_code_of('L'), None);
    assert_eq!(type_code_of('2'), None);
}

#[test]
fn header_entry_from_a_descriptor() {
    let entry = ColumnHeaderEntry::parse(2, String::from("flux"), "101E").unwrap();
    assert_eq!(entry.ordinal, 2);
    assert_eq!(entry.name, "flux");
    assert_eq!(entry.type_code, 'E');
    assert_eq!(entry.repeat_count, 101);
    assert!(entry.is_vector());
    assert_eq!(entry.value_type(), Ok(TypeCode::Float32));
}

#[test]
fn header_entry_of_a_scalar_column() {
    let entry = ColumnHeaderEntry::parse(1, String::from("ra"), "D").unwrap();
    assert_eq!(entry.repeat_count, 1);
    assert!(!entry.is_vector());
    assert_eq!(entry.value_type(), Ok(TypeCode::Float64));
}

#[test]
fn header_entry_of_an_empty_descriptor_is_a_format_error() {
    assert_eq!(
        ColumnHeaderEntry::parse(1, String::from("ra"), ""),
        Err(TableError::FormatError)
    );
}

#[test]
fn unknown_type_code_is_unsupported() {
    let entry = ColumnHeaderEntry::parse(1, String::from("flag"), "1L").unwrap();
    assert_eq!(entry.value_type(), Err(TableError::UnsupportedType));
    let digits = ColumnHeaderEntry::parse(1, String::from("odd"), "12").unwrap();
    assert_eq!(digits.value_type(), Err(TableError::UnsupportedType));
}

#[test]
fn text_is_supported_only_as_a_scalar() {
    let scalar = ColumnHeaderEntry::parse(1, String::from("id"), "1A").unwrap();
    assert_eq!(scalar.value_type(), Ok(TypeCode::Text));
    let bare = ColumnHeaderEntry::parse(1, String::from("id"), "A").unwrap();
    assert_eq!(bare.value_type(), Ok(TypeCode::Text));
    let vector = ColumnHeaderEntry::parse(1, String::from("id"), "20A").unwrap();
    assert_eq!(vector.value_type(), Err(TableError::UnsupportedType));
}
