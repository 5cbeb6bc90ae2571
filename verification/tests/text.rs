use anno_lua::text::{
    comes_before, decimal_text, is_blank, is_whitespace, parse_decimal, parse_integer, same_text,
    trim, trim_start,
};

#[test]
fn whitespace_is_the_unicode_property() {
    for code in 0u32..=0x10FFFF {
        if let Some(c) = char::from_u32(code) {
            assert_eq!(is_whitespace(c), c.is_whitespace(), "U+{:04X}", code);
        }
    }
}

#[test]
fn trim_start_drops_leading_white_space_only() {
    assert_eq!(trim_start("  Foo  "), "Foo  ");
    assert_eq!(trim_start("Foo"), "Foo");
    assert_eq!(trim_start(""), "");
    assert_eq!(trim_start(" \t\n"), "");
    assert_eq!(trim_start("\u{3000}\u{a0}é x"), "é x");
    assert_eq!(trim_start("a b"), "a b");
}

#[test]
fn trim_start_agrees_with_std() {
    let samples = ["", " ", "  a", "a  ", " a b ", "\t\tx\n", "\u{2003}wide\u{2003}", "日本 語", " \u{85}y"];
    for s in samples {
        assert_eq!(trim_start(s), s.trim_start());
        assert_eq!(trim(s), s.trim());
        assert_eq!(is_blank(s), s.trim().is_empty());
    }
}

#[test]
fn trim_drops_both_ends() {
    assert_eq!(trim("  The foo count \n"), "The foo count");
    assert_eq!(trim("x"), "x");
    assert_eq!(trim("   "), "");
    assert_eq!(trim(" a  b "), "a  b");
}

#[test]
fn blank_means_nothing_but_white_space() {
    assert!(is_blank(""));
    assert!(is_blank(" \t\r\n"));
    assert!(!is_blank(" a "));
    assert!(!is_blank("_"));
}

#[test]
fn decimal_text_writes_numbers() {
    assert_eq!(decimal_text(0), "0");
    assert_eq!(decimal_text(7), "7");
    assert_eq!(decimal_text(10), "10");
    assert_eq!(decimal_text(-1), "-1");
    assert_eq!(decimal_text(1234567890), "1234567890");
    assert_eq!(decimal_text(-9007), "-9007");
    assert_eq!(decimal_text(isize::MAX), isize::MAX.to_string());
    assert_eq!(decimal_text(isize::MIN), isize::MIN.to_string());
}

#[test]
fn parse_decimal_reads_digit_strings() {
    assert_eq!(parse_decimal("0"), Some(0));
    assert_eq!(parse_decimal("10"), Some(10));
    assert_eq!(parse_decimal("007"), Some(7));
    assert_eq!(parse_decimal(&isize::MAX.to_string()), Some(isize::MAX));
}

#[test]
fn parse_decimal_refuses_what_is_no_number() {
    assert_eq!(parse_decimal(""), None);
    assert_eq!(parse_decimal("-1"), None);
    assert_eq!(parse_decimal("+1"), None);
    assert_eq!(parse_decimal("1a"), None);
    assert_eq!(parse_decimal("１"), None);
    assert_eq!(parse_decimal("9223372036854775808"), None);
    assert_eq!(parse_decimal("99999999999999999999999999999999999999999"), None);
}

#[test]
fn parse_decimal_inverts_decimal_text() {
    for n in [0isize, 1, 9, 10, 99, 100, 65535, isize::MAX] {
        assert_eq!(parse_decimal(&decimal_text(n)), Some(n));
    }
}

#[test]
fn same_text_compares_characters() {
    assert!(same_text("anno", "anno"));
    assert!(!same_text("anno", "Anno"));
    assert!(!same_text("anno", "anno "));
    assert!(same_text("", ""));
}

#[test]
fn parse_integer_reads_signed_numbers() {
    assert_eq!(parse_integer("0"), Some(0));
    assert_eq!(parse_integer("-0"), Some(0));
    assert_eq!(parse_integer("42"), Some(42));
    assert_eq!(parse_integer("-42"), Some(-42));
    assert_eq!(parse_integer(&isize::MAX.to_string()), Some(isize::MAX));
    assert_eq!(parse_integer(&isize::MIN.to_string()), Some(isize::MIN));
}

#[test]
fn parse_integer_refuses_what_is_no_integer() {
    assert_eq!(parse_integer(""), None);
    assert_eq!(parse_integer("-"), None);
    assert_eq!(parse_integer("--1"), None);
    assert_eq!(parse_integer("+1"), None);
    assert_eq!(parse_integer("1-"), None);
    assert_eq!(parse_integer("- 1"), None);
    assert_eq!(parse_integer("9223372036854775808"), None);
    assert_eq!(parse_integer("-9223372036854775809"), None);
    assert_eq!(parse_integer("-99999999999999999999999999"), None);
}

#[test]
fn parse_integer_inverts_decimal_text() {
    for n in [0isize, 1, -1, 10, -10, 12345, -12345, isize::MAX, isize::MIN] {
        assert_eq!(parse_integer(&decimal_text(n)), Some(n));
        assert_eq!(parse_integer(&n.to_string()), Some(n));
    }
}

#[test]
fn comes_before_is_the_order_of_texts() {
    assert!(comes_before("", "a"));
    assert!(!comes_before("a", ""));
    assert!(!comes_before("", ""));
    assert!(comes_before("a", "b"));
    assert!(!comes_before("b", "a"));
    assert!(!comes_before("a", "a"));
    assert!(comes_before("a", "ab"));
    assert!(!comes_before("ab", "a"));
    assert!(comes_before("Z", "a"));
    assert!(comes_before("ignore", "lua_type"));
    assert!(comes_before("lua_type", "name"));
}

#[test]
fn comes_before_agrees_with_std() {
    let samples = ["", "a", "A", "ab", "abc", "b", "é", "e", "日本", "\u{ffff}", "\u{10000}", "~", " "];
    for a in samples {
        for b in samples {
            assert_eq!(comes_before(a, b), a < b, "{:?} {:?}", a, b);
        }
    }
}
