use convertix::{
    ConfigManager, ConversionError, FieldConverter, OperatorConverter, Operators, OutputFormat,
    OutputFormatter, PlatformConfig, QueryConverter, SyntaxValidator,
};

fn ops(equal: &str, and: &str, or: &str, not_equal: &str) -> Operators {
    Operators {
        equal: equal.to_string(),
        and: and.to_string(),
        or: or.to_string(),
        not_equal: not_equal.to_string(),
        left_paren: "(".to_string(),
        right_paren: ")".to_string(),
    }
}

fn fields(pairs: &[(&str, &str)]) -> Vec<(String, String)> {
    pairs.iter().map(|(a, b)| (a.to_string(), b.to_string())).collect()
}

fn fofa() -> PlatformConfig {
    PlatformConfig {
        operators: ops("=", "&&", "||", "!="),
        fields: fields(&[("title", "title"), ("body", "body")]),
    }
}

fn quake() -> PlatformConfig {
    PlatformConfig {
        operators: ops(":", "AND", "OR", "NOT"),
        fields: fields(&[("title", "title"), ("body", "body")]),
    }
}

fn hunter() -> PlatformConfig {
    PlatformConfig {
        operators: ops("=", "AND", "OR", "NOT"),
        fields: fields(&[("title", "web.title"), ("body", "web.body")]),
    }
}

fn converter() -> QueryConverter {
    let m = ConfigManager::from_entries(vec![
        ("fofa".to_string(), fofa()),
        ("quake".to_string(), quake()),
        ("hunter".to_string(), hunter()),
    ])
    .unwrap();
    QueryConverter::new(m)
}

#[test]
fn end_to_end_fofa_to_quake() {
    let c = converter();
    let q = r#"title="nginx" && body!="error""#;
    assert_eq!(c.validate_query_syntax(q, "fofa").is_ok(), true);
    assert_eq!(c.convert(q, "fofa", "quake").unwrap(), r#"title:"nginx" AND NOT body:"error""#);
}

#[test]
fn not_style_to_bang_style() {
    let c = converter();
    assert_eq!(c.convert(r#"NOT title="nginx""#, "hunter", "fofa").unwrap(), r#"title!="nginx""#);
}

#[test]
fn quake_not_to_fofa() {
    let c = converter();
    let out = c.convert(r#"title:"a" AND NOT body:"b""#, "quake", "fofa").unwrap();
    assert_eq!(out, r#"title="a" && body!="b""#);
}

#[test]
fn identity_on_same_platform() {
    let c = converter();
    let q = "anything and NOT x=\"y\" || (z:1)";
    assert_eq!(c.convert(q, "quake", "quake").unwrap(), q);
    assert_eq!(c.convert("", "fofa", "fofa").unwrap(), "");
}

#[test]
fn equal_spelling_round_trip() {
    let c = converter();
    let q = r#"title="a" && body="b""#;
    let there = c.convert(q, "fofa", "quake").unwrap();
    assert_eq!(there, r#"title:"a" AND body:"b""#);
    assert_eq!(c.convert(&there, "quake", "fofa").unwrap(), q);
}

#[test]
fn field_prefixes_are_rewritten() {
    let c = converter();
    assert_eq!(c.convert(r#"title="a""#, "fofa", "hunter").unwrap(), r#"web.title="a""#);
    assert_eq!(c.convert(r#"web.title="a" AND web.body="b""#, "hunter", "fofa").unwrap(), r#"title="a" && body="b""#);
}

#[test]
fn longer_field_names_go_first() {
    let from = PlatformConfig {
        operators: ops("=", "&&", "||", "!="),
        fields: fields(&[("ip", "ip"), ("ip_range", "iprange")]),
    };
    let to = PlatformConfig {
        operators: ops("=", "&&", "||", "!="),
        fields: fields(&[("ip", "addr"), ("ip_range", "net")]),
    };
    let out = FieldConverter::convert_fields(r#"iprange="x" && ip="y""#, &from, &to);
    assert_eq!(out, r#"net="x" && addr="y""#);
}

#[test]
fn unknown_platform_is_reported() {
    let c = converter();
    match c.convert("a=1", "nope", "fofa") {
        Err(ConversionError::UnsupportedPlatform(p)) => assert_eq!(p, "nope"),
        _ => panic!("expected an unsupported platform"),
    }
    match c.convert("a=1", "fofa", "other") {
        Err(ConversionError::UnsupportedPlatform(p)) => assert_eq!(p, "other"),
        _ => panic!("expected an unsupported platform"),
    }
    match c.validate_query_syntax("a=1", "nope") {
        Err(ConversionError::UnsupportedPlatform(p)) => assert_eq!(p, "nope"),
        _ => panic!("expected an unsupported platform"),
    }
}

#[test]
fn platforms_are_listed_in_order() {
    let c = converter();
    assert_eq!(c.get_supported_platforms(), vec!["fofa", "quake", "hunter"]);
    assert!(c.is_platform_supported("quake"));
    assert!(!c.is_platform_supported("shodan"));
}

#[test]
fn duplicate_platforms_are_refused() {
    let r = ConfigManager::from_entries(vec![("a".to_string(), fofa()), ("a".to_string(), quake())]);
    assert!(matches!(r, Err(ConversionError::ConfigurationError(_))));
    let mut dup = fofa();
    dup.fields.push(("title".to_string(), "other".to_string()));
    let r = ConfigManager::from_entries(vec![("a".to_string(), dup)]);
    assert!(matches!(r, Err(ConversionError::ConfigurationError(_))));
    let mut bad = fofa();
    bad.operators.or = String::new();
    let r = ConfigManager::from_entries(vec![("a".to_string(), bad)]);
    assert!(matches!(r, Err(ConversionError::ConfigurationError(_))));
}

#[test]
fn other_operators_are_literal_replacements() {
    let out = OperatorConverter::convert_other_operators("(a=1 && b=2) || c=3", &fofa(), &quake());
    assert_eq!(out, "(a:1 AND b:2) OR c:3");
}

#[test]
fn not_equal_same_spelling_is_unchanged() {
    let q = r#"a!="b""#;
    assert_eq!(OperatorConverter::convert_not_equal_operator(q, &fofa(), &fofa()), q);
}

#[test]
fn raw_output_layout() {
    let conv = vec![("quake".to_string(), "a:1".to_string()), ("hunter".to_string(), "b=2".to_string())];
    let out = OutputFormatter::generate_raw_output("fofa", "a=1", &conv);
    assert_eq!(out, "Source platform: fofa\nOriginal query: a=1\n\n[-] QUAKE:\na:1\n\n[-] HUNTER:\nb=2\n\n");
    assert_eq!(OutputFormatter::format_output(&OutputFormat::Raw, "fofa", "a=1", &conv), out);
}

#[test]
fn json_output_members() {
    let conv = vec![("quake".to_string(), "a:\"1\"".to_string())];
    let out = OutputFormatter::format_output(&OutputFormat::Json, "fofa", "a=\"1\"", &conv);
    let v: serde_json::Value = serde_json::from_str(&out).unwrap();
    assert_eq!(v["source_platform"], "fofa");
    assert_eq!(v["original_query"], "a=\"1\"");
    assert_eq!(v["converted_queries"]["quake"], "a:\"1\"");
}

#[test]
fn error_messages() {
    let e = ConversionError::UnsupportedOperator {
        platform: "fofa".to_string(),
        operator: "AND".to_string(),
        suggestion: "&&".to_string(),
    };
    assert_eq!(e.message(), "FOFA platform does not support 'AND' operator, please use '&&' instead");
    let e = ConversionError::UnsupportedField { platform: "quake".to_string(), field: "x".to_string() };
    assert_eq!(e.message(), "QUAKE platform does not support field 'x'");
    assert_eq!(ConversionError::UnsupportedPlatform("z".to_string()).message(), "Unsupported platform: z");
    assert_eq!(ConversionError::ConfigurationError("m".to_string()).message(), "Configuration error: m");
    assert_eq!(ConversionError::InternalError("m".to_string()).message(), "Internal error: m");
    assert_eq!(ConversionError::SyntaxValidationFailed("m".to_string()).message(), "m");
}

#[test]
fn normalize_uppercases_keywords() {
    assert_eq!(SyntaxValidator::normalize_query("a=1 and b=2 or not c=3"), "a=1 AND b=2 OR NOT c=3");
    assert_eq!(SyntaxValidator::normalize_query("brand=\"android\" oracle=not_x"), "brand=\"android\" oracle=not_x");
    let once = SyntaxValidator::normalize_query("x and y or z not w andor");
    assert_eq!(SyntaxValidator::normalize_query(&once), once);
    assert_eq!(SyntaxValidator::normalize_query(""), "");
}

#[test]
fn round_trip_gives_normalized_query() {
    let a = PlatformConfig { operators: ops("=", "AND", "OR", "NOT"), fields: fields(&[("title", "title"), ("body", "body")]) };
    let b = PlatformConfig { operators: ops(":", "AND", "OR", "NOT"), fields: fields(&[("title", "title"), ("body", "body")]) };
    let c = QueryConverter::new(
        ConfigManager::from_entries(vec![("a".to_string(), a), ("b".to_string(), b)]).unwrap(),
    );
    let q = r#"title="a" and NOT body="b""#;
    let there = c.convert(q, "a", "b").unwrap();
    assert_eq!(there, r#"title:"a" AND NOT body:"b""#);
    assert_eq!(c.convert(&there, "b", "a").unwrap(), SyntaxValidator::normalize_query(q));
    assert_eq!(c.convert(&there, "b", "a").unwrap(), r#"title="a" AND NOT body="b""#);
}

#[test]
fn round_trip_restores_equal_terms() {
    let c = converter();
    let q = r#"(title="a" || body!="b") && title="c""#;
    assert!(c.validate_query_syntax(q, "fofa").is_ok());
    let there = c.convert(q, "fofa", "quake").unwrap();
    assert_eq!(there, r#"(title:"a" OR NOT body:"b") AND title:"c""#);
    let back = c.convert(&there, "quake", "fofa").unwrap();
    assert_eq!(back, q);
    assert!(!back.contains(':'));
}
