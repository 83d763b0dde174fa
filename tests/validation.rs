use convertix::{ConversionError, Operators, PlatformConfig, SyntaxValidator};

fn platform(equal: &str, and: &str, or: &str, not_equal: &str, names: &[&str]) -> PlatformConfig {
    PlatformConfig {
        operators: Operators {
            equal: equal.to_string(),
            and: and.to_string(),
            or: or.to_string(),
            not_equal: not_equal.to_string(),
            left_paren: "(".to_string(),
            right_paren: ")".to_string(),
        },
        fields: names.iter().map(|n| (n.to_string(), n.to_string())).collect(),
    }
}

fn fofa() -> PlatformConfig {
    platform("=", "&&", "||", "!=", &["title", "body", "domain"])
}

fn quake() -> PlatformConfig {
    platform(":", "AND", "OR", "NOT", &["title", "body"])
}

#[test]
fn mixed_operators_fail() {
    let r = SyntaxValidator::validate_query_syntax(r#"title="a" && body:"b""#, &fofa(), "fofa");
    match r {
        Err(ConversionError::SyntaxValidationFailed(m)) => assert_eq!(
            m,
            "Inconsistent field operators in query. Found: '=, :'. FOFA platform expects consistent use of '='"
        ),
        _ => panic!("expected a validation failure"),
    }
}

#[test]
fn wrong_field_operator_fails() {
    let r = SyntaxValidator::validate_query_syntax(r#"title:"a""#, &fofa(), "fofa");
    match r {
        Err(ConversionError::UnsupportedOperator { platform, operator, suggestion }) => {
            assert_eq!(platform, "fofa");
            assert_eq!(operator, "field:");
            assert_eq!(suggestion, "field=");
        }
        _ => panic!("expected an unsupported operator"),
    }
}

#[test]
fn wrong_logical_operator_fails() {
    let r = SyntaxValidator::validate_query_syntax(r#"title="a" and body="b""#, &fofa(), "fofa");
    match r {
        Err(ConversionError::UnsupportedOperator { operator, suggestion, .. }) => {
            assert_eq!(operator, "AND");
            assert_eq!(suggestion, "&&");
        }
        _ => panic!("expected an unsupported operator"),
    }
    let r = SyntaxValidator::validate_query_syntax(r#"title:"a" && body:"b""#, &quake(), "quake");
    match r {
        Err(ConversionError::UnsupportedOperator { operator, suggestion, .. }) => {
            assert_eq!(operator, "&&");
            assert_eq!(suggestion, "AND");
        }
        _ => panic!("expected an unsupported operator"),
    }
}

#[test]
fn not_keyword_needs_not_platform() {
    let r = SyntaxValidator::validate_query_syntax(r#"NOT title="a""#, &fofa(), "fofa");
    match r {
        Err(ConversionError::UnsupportedOperator { operator, suggestion, .. }) => {
            assert_eq!(operator, "NOT");
            assert_eq!(suggestion, "!=");
        }
        _ => panic!("expected an unsupported operator"),
    }
    assert!(SyntaxValidator::validate_query_syntax(r#"NOT title:"a""#, &quake(), "quake").is_ok());
    let r = SyntaxValidator::validate_query_syntax(r#"title!="a""#, &quake(), "quake");
    assert!(matches!(r, Err(ConversionError::UnsupportedOperator { .. })));
}

#[test]
fn unknown_field_fails() {
    let r = SyntaxValidator::validate_query_syntax(r#"title="a" && server="80""#, &fofa(), "fofa");
    match r {
        Err(ConversionError::UnsupportedField { platform, field }) => {
            assert_eq!(platform, "fofa");
            assert_eq!(field, "server");
        }
        _ => panic!("expected an unsupported field"),
    }
    let r = SyntaxValidator::validate_query_syntax(r#"a.server="80""#, &fofa(), "fofa");
    match r {
        Err(ConversionError::UnsupportedField { field, .. }) => assert_eq!(field, "server"),
        _ => panic!("expected an unsupported field"),
    }
}

#[test]
fn dotted_field_falls_back_to_last_segment() {
    assert!(SyntaxValidator::validate_query_syntax(r#"response.title="x""#, &fofa(), "fofa").is_ok());
}

#[test]
fn empty_query_is_valid() {
    assert!(SyntaxValidator::validate_query_syntax("", &fofa(), "fofa").is_ok());
    assert!(SyntaxValidator::validate_query_syntax("just words", &quake(), "quake").is_ok());
}

#[test]
fn valid_queries_pass() {
    let q = r#"(title="a" || body="b") && domain!="c""#;
    assert!(SyntaxValidator::validate_query_syntax(q, &fofa(), "fofa").is_ok());
    let q = r#"title:"a" and not body:"b""#;
    assert!(SyntaxValidator::validate_query_syntax(q, &quake(), "quake").is_ok());
}
