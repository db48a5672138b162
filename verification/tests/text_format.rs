use step_loupe::text::{
    compact_fixed_string, compact_triple_string, decimal_string, join_strings, kind_name_string,
    push_decimal, push_hex2, push_signed_padded, strip_trailing_char, trim, white_space,
};

#[test]
fn decimal_of_zero_and_large() {
    assert_eq!(decimal_string(0), "0");
    assert_eq!(decimal_string(7), "7");
    assert_eq!(decimal_string(4294967295), "4294967295");
    assert_eq!(decimal_string(u64::MAX), "18446744073709551615");
}

#[test]
fn push_decimal_appends() {
    let mut s = String::from("Feature #");
    push_decimal(&mut s, 42);
    assert_eq!(s, "Feature #42");
}

#[test]
fn signed_padding_matches_format_width() {
    let cases: [(i64, usize); 7] = [(7, 4), (2024, 4), (12345, 4), (-7, 4), (-123, 2), (0, 2), (5, 0)];
    for (v, w) in cases {
        let mut s = String::new();
        push_signed_padded(&mut s, v, w);
        assert_eq!(s, format!("{:0w$}", v, w = w), "value {v} width {w}");
    }
    let mut s = String::new();
    push_signed_padded(&mut s, i64::MIN, 4);
    assert_eq!(s, format!("{:04}", i64::MIN));
}

#[test]
fn hex_pairs_are_lower_case() {
    let mut s = String::new();
    push_hex2(&mut s, 0);
    push_hex2(&mut s, 10);
    push_hex2(&mut s, 255);
    push_hex2(&mut s, 171);
    assert_eq!(s, "000affab");
}

#[test]
fn trim_removes_unicode_white_space() {
    assert_eq!(trim("  Ada Lovelace \t"), "Ada Lovelace");
    assert_eq!(trim(" "), "");
    assert_eq!(trim(""), "");
    assert_eq!(trim("\u{3000}x\u{a0}"), "x");
    assert_eq!(trim("a b"), "a b");
    for c in [' ', '\t', '\n', '\u{85}', '\u{2028}', '\u{3000}', '\u{1680}'] {
        assert_eq!(white_space(c), c.is_whitespace(), "{c:?}");
    }
    for c in ['a', '0', '\u{200b}', '-'] {
        assert!(!white_space(c));
    }
}

#[test]
fn kind_name_cuts_at_first_separator() {
    assert_eq!(kind_name_string("Plane(PlaneId(3))"), "Plane");
    assert_eq!(kind_name_string("BSplineCurveWithKnots { degree: 3 }"), "BSplineCurveWithKnots");
    assert_eq!(kind_name_string("Line"), "Line");
    assert_eq!(kind_name_string("Circle{r}"), "Circle");
    assert_eq!(kind_name_string("(x)"), "");
    assert_eq!(kind_name_string(""), "");
}

#[test]
fn strip_trailing_removes_every_copy() {
    assert_eq!(strip_trailing_char("1.5000", '0'), "1.5");
    assert_eq!(strip_trailing_char("000", '0'), "");
    assert_eq!(strip_trailing_char("abc", '0'), "abc");
}

#[test]
fn compact_fixed_trims_zeros_and_point() {
    assert_eq!(compact_fixed_string("1.5000"), "1.5");
    assert_eq!(compact_fixed_string("10.0000"), "10");
    assert_eq!(compact_fixed_string("0.0000"), "0");
    assert_eq!(compact_fixed_string("-0.0000"), "-0");
    assert_eq!(compact_fixed_string("-2.2500"), "-2.25");
    assert_eq!(compact_fixed_string("100"), "1");
}

#[test]
fn compact_triple_joins_with_commas() {
    assert_eq!(compact_triple_string("1.0000", "0.0000", "-0.5000"), "1, 0, -0.5");
    assert_eq!(compact_triple_string("-0.0000", "12.3400", "3.0000"), "-0, 12.34, 3");
}

#[test]
fn join_with_separator() {
    let parts = vec!["A".to_string(), "B".to_string(), "C".to_string()];
    assert_eq!(join_strings(&parts, ", "), "A, B, C");
    assert_eq!(join_strings(&vec![], ", "), "");
    assert_eq!(join_strings(&vec!["only".to_string()], ","), "only");
}
