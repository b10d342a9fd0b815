use cdc_pipeline::text::{escape_column_name, i64_to_decimal, quote_literal, u64_to_decimal};

#[test]
fn plain_name_passes_through() {
    assert_eq!(escape_column_name("field_1"), "field_1");
    assert_eq!(escape_column_name("Timestamp"), "Timestamp");
    assert_eq!(escape_column_name("_id"), "_id");
}

#[test]
fn name_with_space_is_quoted() {
    assert_eq!(escape_column_name("my field"), "`my field`");
}

#[test]
fn name_with_hyphen_is_quoted() {
    assert_eq!(escape_column_name("first-name"), "`first-name`");
}

#[test]
fn name_with_dot_is_quoted() {
    assert_eq!(escape_column_name("user.name"), "`user.name`");
}

#[test]
fn name_with_special_char_is_quoted() {
    assert_eq!(escape_column_name("a$b"), "`a$b`");
    assert_eq!(escape_column_name("café"), "`café`");
}

#[test]
fn embedded_backtick_is_escaped() {
    assert_eq!(escape_column_name("a`b"), "`a\\`b`");
}

#[test]
fn empty_name_passes_through() {
    assert_eq!(escape_column_name(""), "");
}

#[test]
fn literal_with_quote_does_not_terminate_early() {
    let lit = quote_literal("O'Brien");
    assert_eq!(lit, "'O\\'Brien'");
    // every quote between the delimiters is preceded by a backslash
    let chars: Vec<char> = lit.chars().collect();
    for i in 1..chars.len() - 1 {
        if chars[i] == '\'' {
            assert_eq!(chars[i - 1], '\\');
        }
    }
}

#[test]
fn literal_without_quote_is_wrapped() {
    assert_eq!(quote_literal("plain"), "'plain'");
    assert_eq!(quote_literal(""), "''");
}

#[test]
fn unsigned_decimal_rendering() {
    assert_eq!(u64_to_decimal(0), "0");
    assert_eq!(u64_to_decimal(7), "7");
    assert_eq!(u64_to_decimal(1234567890), "1234567890");
    assert_eq!(u64_to_decimal(u64::MAX), "18446744073709551615");
}

#[test]
fn signed_decimal_rendering() {
    assert_eq!(i64_to_decimal(0), "0");
    assert_eq!(i64_to_decimal(42), "42");
    assert_eq!(i64_to_decimal(-42), "-42");
    assert_eq!(i64_to_decimal(i64::MAX), "9223372036854775807");
    assert_eq!(i64_to_decimal(i64::MIN), "-9223372036854775808");
}
