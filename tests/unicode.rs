use convertix::{OperatorConverter, Operators, PlatformConfig, SyntaxValidator};

fn platform(equal: &str, and: &str, or: &str, not_equal: &str) -> PlatformConfig {
    PlatformConfig {
        operators: Operators {
            equal: equal.to_string(),
            and: and.to_string(),
            or: or.to_string(),
            not_equal: not_equal.to_string(),
            left_paren: "(".to_string(),
            right_paren: ")".to_string(),
        },
        fields: vec![("title".to_string(), "title".to_string())],
    }
}

#[test]
fn non_ascii_letters_are_word_characters() {
    assert_eq!(SyntaxValidator::normalize_query("éand x"), "éand x");
    assert_eq!(SyntaxValidator::normalize_query("andé or"), "andé OR");
}

#[test]
fn non_ascii_punctuation_is_no_word_character() {
    assert_eq!(SyntaxValidator::normalize_query("—and—"), "—AND—");
}

#[test]
fn non_ascii_whitespace_separates_not() {
    let quake = platform(":", "AND", "OR", "NOT");
    let fofa = platform("=", "&&", "||", "!=");
    let q = "NOT\u{3000}title:\"a\"";
    assert_eq!(OperatorConverter::convert_not_equal_operator(q, &quake, &fofa), "title!=\"a\"");
    let q = "NOT\u{00A0}title:\"a\"";
    assert_eq!(OperatorConverter::convert_not_equal_operator(q, &quake, &fofa), "title!=\"a\"");
}

#[test]
fn trailing_space_in_not_spelling() {
    let quake = platform(":", "AND", "OR", "NOT ");
    let fofa = platform("=", "&&", "||", "!=");
    let out = OperatorConverter::convert_not_equal_operator("a!=\"b\"", &fofa, &quake);
    assert_eq!(out, "NOT a:\"b\"");
    let back = OperatorConverter::convert_not_equal_operator("NOT a=\"b\"", &quake, &fofa);
    assert_eq!(back, "a!=\"b\"");
    let back = OperatorConverter::convert_not_equal_operator("NOT a:\"b\"", &quake, &fofa);
    assert_eq!(back, "a!=\"b\"");
}
