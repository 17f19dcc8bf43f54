use xtal::text::{decimal_text, join_texts, parse_decimal};

#[test]
fn decimal_of_single_digits() {
    for n in 0..10u64 {
        assert_eq!(decimal_text(n), n.to_string());
    }
}

#[test]
fn decimal_of_larger_numbers() {
    assert_eq!(decimal_text(10), "10");
    assert_eq!(decimal_text(305), "305");
    assert_eq!(decimal_text(1_000_000), "1000000");
    assert_eq!(decimal_text(u64::MAX), "18446744073709551615");
}

#[test]
fn join_of_nothing_is_empty() {
    assert_eq!(join_texts(&Vec::new(), ", "), "");
}

#[test]
fn join_of_one_piece_has_no_separator() {
    assert_eq!(join_texts(&vec!["a".to_string()], ", "), "a");
}

#[test]
fn join_puts_separator_between_neighbours() {
    let parts = vec!["a".to_string(), "".to_string(), "c".to_string()];
    assert_eq!(join_texts(&parts, "\n"), "a\n\nc");
}

#[test]
fn numerals_are_read() {
    assert_eq!(parse_decimal("0"), Some(0));
    assert_eq!(parse_decimal("7"), Some(7));
    assert_eq!(parse_decimal("12"), Some(12));
    assert_eq!(parse_decimal("18446744073709551615"), Some(u64::MAX));
}

#[test]
fn numerals_that_do_not_fit_are_refused() {
    assert_eq!(parse_decimal("18446744073709551616"), None);
    assert_eq!(parse_decimal("99999999999999999999"), None);
    assert_eq!(parse_decimal("184467440737095516150"), None);
}

#[test]
fn other_texts_are_no_numerals() {
    let texts = ["", " ", "-1", "+1", "1.0", "1e3", "01", "00", "1 ", " 1", "1a", "x", "١", "1é"];
    for text in texts {
        assert_eq!(parse_decimal(text), None, "{:?}", text);
    }
}

#[test]
fn reading_undoes_writing() {
    for n in [0u64, 1, 9, 10, 11, 99, 100, 101, 4096, 1_000_000_007, u64::MAX - 1, u64::MAX] {
        assert_eq!(parse_decimal(&decimal_text(n)), Some(n));
        assert_eq!(parse_decimal(&n.to_string()), Some(n));
    }
}
