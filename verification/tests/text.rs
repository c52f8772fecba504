use dog::text::{chars_of, decimal_string, parse_decimal};

#[test]
fn chars_of_keeps_every_character_in_order() {
    assert_eq!(chars_of("a.b"), vec!['a', '.', 'b']);
    assert_eq!(chars_of(""), Vec::<char>::new());
    assert_eq!(chars_of("é٣"), vec!['é', '٣']);
}

#[test]
fn decimal_string_of_single_digits() {
    assert_eq!(decimal_string(0), "0");
    assert_eq!(decimal_string(7), "7");
    assert_eq!(decimal_string(9), "9");
}

#[test]
fn decimal_string_of_longer_numbers() {
    assert_eq!(decimal_string(10), "10");
    assert_eq!(decimal_string(101), "101");
    assert_eq!(decimal_string(1234567890), "1234567890");
    assert_eq!(decimal_string(u64::MAX), "18446744073709551615");
}

#[test]
fn parse_decimal_reads_digits() {
    let chars = chars_of("101E");
    assert_eq!(parse_decimal(&chars, 3), Some(101));
    assert_eq!(parse_decimal(&chars, 1), Some(1));
    assert_eq!(parse_decimal(&chars, 0), Some(0));
}

#[test]
fn parse_decimal_beyond_the_characters_gives_nothing() {
    let chars = chars_of("12");
    assert_eq!(parse_decimal(&chars, 2), Some(12));
    assert_eq!(parse_decimal(&chars, 3), None);
    assert_eq!(parse_decimal(&Vec::new(), 1), None);
}

#[test]
fn parse_decimal_keeps_leading_zeros_out_of_the_value() {
    let chars = chars_of("007");
    assert_eq!(parse_decimal(&chars, 3), Some(7));
}

#[test]
fn parse_decimal_rejects_other_characters() {
    let chars = chars_of("101E");
    assert_eq!(parse_decimal(&chars, 4), None);
    let signed = chars_of("+5");
    assert_eq!(parse_decimal(&signed, 2), None);
    let arabic = chars_of("٣");
    assert_eq!(parse_decimal(&arabic, 1), None);
}

#[test]
fn parse_decimal_rejects_numbers_beyond_usize() {
    let max = chars_of(&usize::MAX.to_string());
    assert_eq!(parse_decimal(&max, max.len()), Some(usize::MAX));
    let mut beyond = max.clone();
    beyond.push('0');
    assert_eq!(parse_decimal(&beyond, beyond.len()), None);
    let many = chars_of("99999999999999999999999999999999");
    assert_eq!(parse_decimal(&many, many.len()), None);
}

#[test]
fn decimal_round_trip_on_chosen_numbers() {
    for n in [0u64, 1, 9, 10, 99, 100, 65535, 4294967296] {
        let chars = chars_of(&decimal_string(n));
        assert_eq!(parse_decimal(&chars, chars.len()), Some(n as usize));
    }
}
