use interp::text::{comes_before, decimal, parse_decimal, same_text};

#[test]
fn same_text_compares_characters() {
    assert!(same_text("", ""));
    assert!(same_text("abc", "abc"));
    assert!(!same_text("abc", "abd"));
    assert!(!same_text("abc", "ab"));
    assert!(same_text("\u{e9}t\u{e9}", "\u{e9}t\u{e9}"));
}

#[test]
fn comes_before_is_the_order_of_strings() {
    let words = ["", "a", "ab", "b", "B", "\u{e9}", "z", "10", "9"];
    for x in words.iter() {
        for y in words.iter() {
            assert_eq!(comes_before(x, y), x < y);
        }
    }
}

#[test]
fn decimal_renders_every_sign_and_size() {
    assert_eq!(decimal(0), "0");
    assert_eq!(decimal(7), "7");
    assert_eq!(decimal(10), "10");
    assert_eq!(decimal(-1), "-1");
    assert_eq!(decimal(993322), "993322");
    assert_eq!(decimal(i32::MAX), "2147483647");
    assert_eq!(decimal(i32::MIN), "-2147483648");
}

#[test]
fn parse_decimal_reads_runs_of_digits() {
    assert_eq!(parse_decimal("0"), Some(0));
    assert_eq!(parse_decimal("007"), Some(7));
    assert_eq!(parse_decimal("2147483647"), Some(2147483647));
    assert_eq!(parse_decimal("2147483648"), None);
    assert_eq!(parse_decimal("99999999999999999999"), None);
    assert_eq!(parse_decimal(""), None);
    assert_eq!(parse_decimal("12a"), None);
    assert_eq!(parse_decimal("-5"), None);
    assert_eq!(parse_decimal("+5"), None);
    assert_eq!(parse_decimal("\u{661}"), None);
}

#[test]
fn decimal_and_parse_decimal_agree() {
    let values = [0, 1, 9, 10, 99, 100, 12345, i32::MAX];
    for v in values.iter() {
        assert_eq!(parse_decimal(decimal(*v).as_str()), Some(*v));
    }
}
