use botc_bot::text::{contains_ci, pad_right, parse_i32, parse_u16, split_spaces, u32_to_string};

#[test]
fn contains_ci_cases() {
    assert!(contains_ci("Night Rooms", "night"));
    assert!(contains_ci("THE TOWN SQUARE", "town"));
    assert!(contains_ci("Storytellers", "storytell"));
    assert!(!contains_ci("Day Rooms", "night"));
    assert!(contains_ci("anything", ""));
}

#[test]
fn parse_i32_cases() {
    assert_eq!(parse_i32("0"), Some(0));
    assert_eq!(parse_i32("123"), Some(123));
    assert_eq!(parse_i32("-45"), Some(-45));
    assert_eq!(parse_i32("+7"), Some(7));
    assert_eq!(parse_i32("007"), Some(7));
    assert_eq!(parse_i32(""), None);
    assert_eq!(parse_i32("-"), None);
    assert_eq!(parse_i32("+"), None);
    assert_eq!(parse_i32("12a"), None);
    assert_eq!(parse_i32(" 1"), None);
    assert_eq!(parse_i32("2147483647"), Some(2147483647));
    assert_eq!(parse_i32("2147483648"), None);
    assert_eq!(parse_i32("-2147483648"), Some(-2147483648));
    assert_eq!(parse_i32("-2147483649"), None);
    assert_eq!(parse_i32("99999999999999999999"), None);
}

#[test]
fn parse_u16_cases() {
    assert_eq!(parse_u16("0"), Some(0));
    assert_eq!(parse_u16("2"), Some(2));
    assert_eq!(parse_u16("+2"), Some(2));
    assert_eq!(parse_u16("-2"), None);
    assert_eq!(parse_u16("65535"), Some(65535));
    assert_eq!(parse_u16("65536"), None);
    assert_eq!(parse_u16(""), None);
    assert_eq!(parse_u16("x"), None);
}

#[test]
fn split_spaces_cases() {
    assert_eq!(split_spaces("edit 2"), vec!["edit", "2"]);
    assert_eq!(split_spaces(""), vec![""]);
    assert_eq!(split_spaces("a"), vec!["a"]);
    assert_eq!(split_spaces("a  b"), vec!["a", "", "b"]);
    assert_eq!(split_spaces("a b "), vec!["a", "b", ""]);
}

#[test]
fn u32_to_string_cases() {
    assert_eq!(u32_to_string(0), "0");
    assert_eq!(u32_to_string(7), "7");
    assert_eq!(u32_to_string(10), "10");
    assert_eq!(u32_to_string(1234), "1234");
    assert_eq!(u32_to_string(4294967295), "4294967295");
}

#[test]
fn pad_right_cases() {
    assert_eq!(pad_right("abc", 5), "abc  ");
    assert_eq!(pad_right("abc", 3), "abc");
    assert_eq!(pad_right("abcdef", 3), "abcdef");
    assert_eq!(pad_right("", 2), "  ");
}
