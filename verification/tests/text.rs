use llama_test_matrix::text::{chars_of, parse_i32_text, rfind_chars, second_piece_chars};

#[test]
fn rfind_finds_the_last_occurrence() {
    let s = chars_of("ab-ab-ab");
    assert_eq!(rfind_chars(&s, &chars_of("ab")), Some(6));
    assert_eq!(rfind_chars(&s, &chars_of("x")), None);
    assert_eq!(rfind_chars(&s, &chars_of("")), Some(8));
}

#[test]
fn second_piece_is_what_lies_between_the_first_two_separators() {
    let sep = chars_of("::");
    assert_eq!(second_piece_chars(&chars_of("a::b::c"), &sep), Some(chars_of("b")));
    assert_eq!(second_piece_chars(&chars_of("a:: b"), &sep), Some(chars_of(" b")));
    assert_eq!(second_piece_chars(&chars_of("a b"), &sep), None);
}

#[test]
fn parse_i32_reads_signed_numbers_in_range() {
    assert_eq!(parse_i32_text("42"), Some(42));
    assert_eq!(parse_i32_text("+7"), Some(7));
    assert_eq!(parse_i32_text("-2147483648"), Some(i32::MIN));
    assert_eq!(parse_i32_text("2147483647"), Some(i32::MAX));
    assert_eq!(parse_i32_text("2147483648"), None);
    assert_eq!(parse_i32_text("1.5"), None);
    assert_eq!(parse_i32_text("-"), None);
    assert_eq!(parse_i32_text(""), None);
}
