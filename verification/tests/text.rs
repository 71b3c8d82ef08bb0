use pagerduty_cli::text::{decimal_string, join, push_decimal, str_lt};

#[test]
fn decimal_numerals() {
    assert_eq!(decimal_string(0), "0");
    assert_eq!(decimal_string(7), "7");
    assert_eq!(decimal_string(10), "10");
    assert_eq!(decimal_string(100), "100");
    assert_eq!(decimal_string(255), "255");
    assert_eq!(decimal_string(1234567890), "1234567890");
    assert_eq!(decimal_string(u32::MAX), "4294967295");
}

#[test]
fn numeral_is_appended_to_what_is_there() {
    let mut text = "Level ".to_string();
    push_decimal(&mut text, 42);
    assert_eq!(text, "Level 42");
}

#[test]
fn join_puts_the_separator_between_neighbours_only() {
    assert_eq!(join(&vec![], ", "), "");
    assert_eq!(join(&vec!["a".to_string()], ", "), "a");
    assert_eq!(join(&vec!["a".to_string(), "b".to_string(), "c".to_string()], ", "), "a, b, c");
    assert_eq!(join(&vec!["".to_string(), "".to_string()], ","), ",");
}

#[test]
fn texts_are_ordered_as_std_orders_strings() {
    let samples = ["", "a", "A", "ab", "abc", "b", "Z", "\u{e9}", "z\u{e9}", "\u{1f600}", "\u{7f}", "\u{80}", "\u{7ff}", "\u{800}", "\u{ffff}", "\u{10000}"];
    for left in samples.iter() {
        for right in samples.iter() {
            assert_eq!(str_lt(left, right), left < right, "{:?} before {:?}", left, right);
        }
    }
}
