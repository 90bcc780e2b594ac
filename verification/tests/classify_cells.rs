use csvinfo::classify::{classify, CellClass};
use csvinfo::text::trim_str;

#[test]
fn trim_removes_surrounding_whitespace() {
    assert_eq!(trim_str("  a\t"), "a");
    assert_eq!(trim_str("abc"), "abc");
    assert_eq!(trim_str("   "), "");
    assert_eq!(trim_str(""), "");
    assert_eq!(trim_str(" a b "), "a b");
    // Non-breaking space counts as whitespace.
    assert_eq!(trim_str("\u{00A0}42\u{00A0}"), "42");
}

#[test]
fn integers_classify_as_integer() {
    assert_eq!(classify("1"), CellClass::Integer);
    assert_eq!(classify(" 42 "), CellClass::Integer);
    assert_eq!(classify("-7"), CellClass::Integer);
    assert_eq!(classify("+17"), CellClass::Integer);
    assert_eq!(classify("007"), CellClass::Integer);
    assert_eq!(classify("2147483647"), CellClass::Integer);
    assert_eq!(classify("-2147483648"), CellClass::Integer);
}

#[test]
fn out_of_range_integers_classify_as_float() {
    // Too wide for a lossless 32-bit read, but still a decimal numeral.
    assert_eq!(classify("2147483648"), CellClass::Float);
    assert_eq!(classify("-2147483649"), CellClass::Float);
    assert_eq!(classify("99999999999999999999"), CellClass::Float);
}

#[test]
fn decimals_classify_as_float() {
    assert_eq!(classify("2.5"), CellClass::Float);
    assert_eq!(classify("-0.5"), CellClass::Float);
    assert_eq!(classify(".5"), CellClass::Float);
    assert_eq!(classify("5."), CellClass::Float);
    assert_eq!(classify("1e5"), CellClass::Float);
    assert_eq!(classify("1.5E-3"), CellClass::Float);
    assert_eq!(classify(" +2.5 "), CellClass::Float);
}

#[test]
fn non_numerals_classify_as_text() {
    assert_eq!(classify("abc"), CellClass::Text);
    assert_eq!(classify("x"), CellClass::Text);
    assert_eq!(classify(""), CellClass::Text);
    assert_eq!(classify("   "), CellClass::Text);
    assert_eq!(classify("."), CellClass::Text);
    assert_eq!(classify("1.2.3"), CellClass::Text);
    assert_eq!(classify("1e"), CellClass::Text);
    assert_eq!(classify("e5"), CellClass::Text);
    assert_eq!(classify("+-3"), CellClass::Text);
    assert_eq!(classify("1 2"), CellClass::Text);
    // Non-finite words are not numerals here.
    assert_eq!(classify("inf"), CellClass::Text);
    assert_eq!(classify("NaN"), CellClass::Text);
}
