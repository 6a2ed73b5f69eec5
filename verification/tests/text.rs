use orisa::text::{chars_of, decimal_digits, parse_digits, str_eq, string_of, string_of_range};

#[test]
fn strings_and_their_characters() {
    assert_eq!(chars_of("a\u{e9}z"), vec!['a', '\u{e9}', 'z']);
    assert_eq!(chars_of(""), Vec::<char>::new());
    assert_eq!(string_of(&vec!['h', 'i', '\u{1F600}']), "hi\u{1F600}");
    assert_eq!(string_of(&vec![]), "");
    let v = chars_of("hello world");
    assert_eq!(string_of_range(&v, 0, 5), "hello");
    assert_eq!(string_of_range(&v, 6, 11), "world");
    assert_eq!(string_of_range(&v, 3, 3), "");
    assert_eq!(string_of(&chars_of("round trip")), "round trip");
}

#[test]
fn strings_compare_by_their_characters() {
    assert!(str_eq("", ""));
    assert!(str_eq("abc", "abc"));
    assert!(!str_eq("abc", "abd"));
    assert!(!str_eq("abc", "ab"));
    assert!(!str_eq("abc", "ABC"));
}

#[test]
fn numbers_are_written_in_decimal() {
    assert_eq!(string_of(&decimal_digits(0)), "0");
    assert_eq!(string_of(&decimal_digits(7)), "7");
    assert_eq!(string_of(&decimal_digits(10)), "10");
    assert_eq!(string_of(&decimal_digits(1905)), "1905");
    assert_eq!(string_of(&decimal_digits(usize::MAX)), format!("{}", usize::MAX));
}

#[test]
fn digits_are_read_from_a_position_on() {
    assert_eq!(parse_digits(&chars_of("123"), 0), Some(123));
    assert_eq!(parse_digits(&chars_of("#123"), 1), Some(123));
    assert_eq!(parse_digits(&chars_of("#123"), 0), None);
    assert_eq!(parse_digits(&chars_of("123"), 3), None);
    assert_eq!(parse_digits(&chars_of("12a"), 0), None);
    assert_eq!(parse_digits(&chars_of("000"), 0), Some(0));
    assert_eq!(parse_digits(&chars_of("\u{663}"), 0), None);
    assert_eq!(parse_digits(&chars_of(&format!("{}", usize::MAX)), 0), Some(usize::MAX));
    assert_eq!(parse_digits(&chars_of(&format!("{}0", usize::MAX)), 0), None);
    for n in [0usize, 1, 9, 10, 99, 100, 65535, 4294967295] {
        assert_eq!(parse_digits(&decimal_digits(n), 0), Some(n));
    }
}
