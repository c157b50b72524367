use weather_text::{pad_string_to_width, style_number, trunc_address};

#[test]
fn trunc_address_within_width_is_unchanged() {
    let s = String::from("Berlin, Germany");
    assert_eq!(trunc_address(s.clone(), 15), s);
    assert_eq!(trunc_address(s.clone(), 40), s);
    assert_eq!(trunc_address(String::new(), 0), "");
}

#[test]
fn trunc_address_without_comma_is_unchanged() {
    assert_eq!(trunc_address(String::from("Llanfairpwllgwyngyll"), 5), "Llanfairpwllgwyngyll");
}

#[test]
fn trunc_address_drops_middle_clause() {
    assert_eq!(trunc_address(String::from("Berlin, Mitte, Germany"), 10), "Berlin");
    assert_eq!(trunc_address(String::from("Berlin, Mitte, Germany"), 15), "Berlin, Germany");
}

#[test]
fn trunc_address_stops_once_it_fits() {
    assert_eq!(trunc_address(String::from("A, B, C, D, E"), 10), "A, C, D, E");
    assert_eq!(trunc_address(String::from("A, B, C, D, E"), 9), "A, D, E");
    assert_eq!(trunc_address(String::from("A, B, C, D, E"), 4), "A, E");
}

#[test]
fn trunc_address_single_comma_keeps_first_clause() {
    assert_eq!(trunc_address(String::from("A, B"), 3), "A");
    assert_eq!(trunc_address(String::from("A, B"), 2), "A");
    assert_eq!(trunc_address(String::from("A, B"), 0), "A");
    assert_eq!(trunc_address(String::from("A, B"), 4), "A, B");
}

#[test]
fn trunc_address_cuts_to_first_clause_when_still_too_long() {
    assert_eq!(trunc_address(String::from("A, B, C, D, E"), 3), "A");
    assert_eq!(trunc_address(String::from("Köln, Süd"), 5), "Köln");
}

#[test]
fn trunc_address_counts_characters_not_bytes() {
    // 12 characters, 15 bytes.
    assert_eq!(trunc_address(String::from("Köln, Ü, Süd"), 12), "Köln, Ü, Süd");
    assert_eq!(trunc_address(String::from("Köln, Ü, Süd"), 11), "Köln, Süd");
}

#[test]
fn pad_no_op_at_or_above_target() {
    assert_eq!(pad_string_to_width("hello", 5), "hello");
    assert_eq!(pad_string_to_width("hello", 3), "hello");
    assert_eq!(pad_string_to_width("", 0), "");
}

#[test]
fn pad_reaches_exact_width() {
    assert_eq!(pad_string_to_width("abc", 6), "abc   ");
    assert_eq!(pad_string_to_width("", 2), "  ");
}

#[test]
fn pad_counts_wide_glyphs_as_two_columns() {
    assert_eq!(pad_string_to_width("日本", 6), "日本  ");
    assert_eq!(pad_string_to_width("日本", 4), "日本");
    assert_eq!(pad_string_to_width("日本", 3), "日本");
}

#[test]
fn pad_counts_combining_marks_as_zero_columns() {
    assert_eq!(pad_string_to_width("e\u{301}", 3), "e\u{301}  ");
}

#[test]
fn style_number_zero() {
    assert_eq!(style_number(0, false), "⁰");
    assert_eq!(style_number(0, true), "₀");
}

#[test]
fn style_number_sign_and_magnitude() {
    assert_eq!(style_number(-5, false), "⁻⁵");
    assert_eq!(style_number(42, true), "₄₂");
    assert_eq!(style_number(-42, true), "₋₄₂");
}

#[test]
fn style_number_no_leading_zero_glyphs() {
    assert_eq!(style_number(105, false), "¹⁰⁵");
    assert_eq!(style_number(100, true), "₁₀₀");
}

#[test]
fn style_number_extremes() {
    assert_eq!(style_number(i32::MAX, false), "²¹⁴⁷⁴⁸³⁶⁴⁷");
    assert_eq!(style_number(-i32::MAX, true), "₋₂₁₄₇₄₈₃₆₄₇");
    assert_eq!(style_number(1_000_000_000, false), "¹⁰⁰⁰⁰⁰⁰⁰⁰⁰");
    assert_eq!(style_number(9, true), "₉");
}
