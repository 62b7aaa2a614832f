use library_generator::ranking::sort_ranked;
use library_generator::text::{parse_or, parse_u32, str_eq, str_le};
use library_generator::pages::ByText;

#[test]
fn numbers_are_read_as_decimal_digits_with_an_optional_plus() {
    assert_eq!(parse_u32("0"), Some(0));
    assert_eq!(parse_u32("12"), Some(12));
    assert_eq!(parse_u32("+12"), Some(12));
    assert_eq!(parse_u32("007"), Some(7));
    assert_eq!(parse_u32("4294967295"), Some(u32::MAX));
    assert_eq!(parse_u32("0000000000004294967295"), Some(u32::MAX));
}

#[test]
fn text_that_is_no_number_is_not_read() {
    for text in ["", "+", "-", "-1", "++1", "1+", " 1", "1 ", "1_000", "12a", "a12", "1.5", "0x10", "１２", "4294967296", "99999999999999999999"] {
        assert_eq!(parse_u32(text), None, "{:?}", text);
    }
}

#[test]
fn reading_agrees_with_the_standard_library() {
    for text in ["", "+", "+0", "-0", "42", "+42", "042", "4294967295", "4294967296", "4294967305", "x", "1x", "٣"] {
        assert_eq!(parse_u32(text), text.parse::<u32>().ok(), "{:?}", text);
    }
}

#[test]
fn the_fallback_is_used_where_there_is_no_number() {
    assert_eq!(parse_or("3", 1), 3);
    assert_eq!(parse_or("", 1), 1);
    assert_eq!(parse_or("three", 0), 0);
    assert_eq!(parse_or("0", 1), 0);
}

#[test]
fn texts_are_ordered_lexicographically_by_code_point() {
    assert!(str_le("", ""));
    assert!(str_le("", "a"));
    assert!(!str_le("a", ""));
    assert!(str_le("a", "a"));
    assert!(str_le("a", "ab"));
    assert!(!str_le("ab", "a"));
    assert!(str_le("Z", "a"));
    assert!(!str_le("a", "Z"));
    assert!(str_le("10", "9"));
    assert!(str_le("z", "é"));
    assert!(str_le("é", "日本"));
    assert!(str_le("\u{ffff}", "\u{10000}"));
}

#[test]
fn the_order_agrees_with_the_standard_library() {
    let samples = ["", "a", "A", "ab", "b", "é", "e", "日本", "\u{ffff}", "\u{10000}", "1999", "2001", " "];
    for a in samples {
        for b in samples {
            assert_eq!(str_le(a, b), a <= b, "{:?} {:?}", a, b);
            assert_eq!(str_eq(a, b), a == b, "{:?} {:?}", a, b);
        }
    }
}

#[test]
fn sorting_keeps_equal_items_in_place_and_orders_the_rest() {
    let mut names: Vec<String> = ["pear", "apple", "fig", "apple", "Fig", ""].iter().map(|s| s.to_string()).collect();
    sort_ranked::<String, ByText>(&mut names);
    assert_eq!(names, vec!["", "Fig", "apple", "apple", "fig", "pear"]);
    let mut empty: Vec<String> = Vec::new();
    sort_ranked::<String, ByText>(&mut empty);
    assert!(empty.is_empty());
}
