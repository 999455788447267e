use ika::table::StrMap;
use ika::text::{chars_of, decimal_string, signed_string, turn_string_to_int};

#[test]
fn decimal_numerals() {
    assert_eq!(decimal_string(0), "0");
    assert_eq!(decimal_string(7), "7");
    assert_eq!(decimal_string(10), "10");
    assert_eq!(decimal_string(1234567890), "1234567890");
    assert_eq!(decimal_string(u128::MAX), "340282366920938463463374607431768211455");
}

#[test]
fn signed_numerals() {
    assert_eq!(signed_string(0), "0");
    assert_eq!(signed_string(42), "42");
    assert_eq!(signed_string(-1), "-1");
    assert_eq!(signed_string(i64::MAX), "9223372036854775807");
    assert_eq!(signed_string(i64::MIN), "-9223372036854775808");
}

#[test]
fn numerals_are_read_back() {
    for value in [0, 1, -1, 9, 10, -10, 65535, i32::MAX, i32::MIN] {
        assert_eq!(turn_string_to_int(&signed_string(value as i64)), Some(value));
    }
}

#[test]
fn reading_numerals() {
    assert_eq!(turn_string_to_int("0"), Some(0));
    assert_eq!(turn_string_to_int("007"), Some(7));
    assert_eq!(turn_string_to_int("+5"), Some(5));
    assert_eq!(turn_string_to_int("-0"), Some(0));
    assert_eq!(turn_string_to_int("-12"), Some(-12));
    assert_eq!(turn_string_to_int("2147483647"), Some(2147483647));
    assert_eq!(turn_string_to_int("-2147483648"), Some(-2147483648));
    assert_eq!(turn_string_to_int("00000000000000000000000000000000012"), Some(12));
}

#[test]
fn texts_that_are_no_numerals() {
    assert_eq!(turn_string_to_int(""), None);
    assert_eq!(turn_string_to_int("+"), None);
    assert_eq!(turn_string_to_int("-"), None);
    assert_eq!(turn_string_to_int("--1"), None);
    assert_eq!(turn_string_to_int("1-"), None);
    assert_eq!(turn_string_to_int("12a"), None);
    assert_eq!(turn_string_to_int(" 1"), None);
    assert_eq!(turn_string_to_int("1 "), None);
    assert_eq!(turn_string_to_int("%3"), None);
    assert_eq!(turn_string_to_int("١٢"), None);
}

#[test]
fn numerals_out_of_range() {
    assert_eq!(turn_string_to_int("2147483648"), None);
    assert_eq!(turn_string_to_int("-2147483649"), None);
    assert_eq!(turn_string_to_int("99999999999999999999999999"), None);
    assert_eq!(turn_string_to_int("-99999999999999999999999999"), None);
}

#[test]
fn agrees_with_the_standard_library() {
    for text in ["", "+", "-", "0", "+0", "-0", "12", "-12", "+12", "1e3", "0x10", "2147483647",
        "2147483648", "-2147483648", "-2147483649", "١", "1_000", "٣3", "3٣"]
    {
        assert_eq!(turn_string_to_int(text), text.parse::<i32>().ok(), "{:?}", text);
    }
}

#[test]
fn characters_of_a_text() {
    assert_eq!(chars_of(""), Vec::<char>::new());
    assert_eq!(chars_of("aß語"), vec!['a', 'ß', '語']);
}

#[test]
fn map_binds_and_finds() {
    let mut map: StrMap<String> = StrMap::new();
    assert!(!map.contains_key("a"));
    assert_eq!(map.get("a"), None);
    map.insert(String::from("a"), String::from("1"));
    map.insert(String::from("b"), String::from("2"));
    assert!(map.contains_key("a"));
    assert!(map.contains_key("b"));
    assert!(!map.contains_key("c"));
    assert_eq!(map.get("a"), Some(&String::from("1")));
    assert_eq!(map.get("b"), Some(&String::from("2")));
}

#[test]
fn map_keeps_the_last_binding() {
    let mut map: StrMap<String> = StrMap::new();
    map.insert(String::from("a"), String::from("1"));
    map.insert(String::from("b"), String::from("2"));
    map.insert(String::from("a"), String::from("3"));
    assert_eq!(map.get("a"), Some(&String::from("3")));
    assert_eq!(map.get("b"), Some(&String::from("2")));
    assert_eq!(map.get(""), None);
}
