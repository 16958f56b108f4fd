use livesort::parser::KeySpan;
use livesort::parser::key_span;
use livesort::parser::parse_human_numeric;
use livesort::parser::parse_numeric;
use livesort::parser::unit;

/// The numeric literal of `s` with the remaining text, as a value.
fn literal(s: &str) -> Option<(String, f64)> {
    match parse_numeric(s.as_bytes()) {
        Some((start, end)) => {
            let value: f64 = s[start..end].parse().unwrap();
            Some((s[end..].to_string(), value))
        }
        None => None,
    }
}

/// The unit-scaled numeric literal of `s` with the remaining text.
fn human_literal(s: &str) -> Option<(String, f64)> {
    match parse_human_numeric(s.as_bytes()) {
        Some((start, end, exp)) => {
            let mut value: f64 = s[start..end].parse().unwrap();
            let mut rest = end;
            if exp > 0 {
                value *= 1000f64.powi(exp as i32);
                rest += 1;
            }
            Some((s[rest..].to_string(), value))
        }
        None => None,
    }
}

/// The plain numeric sort key of a line: its literal's value, or 0.0.
fn numeric(s: &str) -> f64 {
    match literal(s) {
        Some((_, v)) => v,
        None => 0.0,
    }
}

/// The human-numeric sort key of a line: its scaled value, or 0.0.
fn human_numeric(s: &str) -> f64 {
    match human_literal(s) {
        Some((_, v)) => v,
        None => 0.0,
    }
}

#[test]
fn parse_numeric_test() {
    assert_eq!(literal("42"), Some(("".to_string(), 42.0)));
    assert_eq!(literal("42.0"), Some(("".to_string(), 42.0)));
    assert_eq!(literal("  42"), Some(("".to_string(), 42.0)));
    assert!(literal("x").is_none());
}

#[test]
fn parse_human_numeric_test() {
    assert_eq!(human_literal("42"), Some(("".to_string(), 42.0)));
    assert_eq!(human_literal("42K"), Some(("".to_string(), 42000.0)));
    assert_eq!(human_literal("42M"), Some(("".to_string(), 42000000.0)));
    assert_eq!(human_literal("42XXX"), Some(("XXX".to_string(), 42.0)));
    assert_eq!(human_literal("42kXXX"), Some(("XXX".to_string(), 42000.0)));
}

#[test]
fn key_extraction() {
    assert_eq!(numeric("42"), 42.0);
    assert_eq!(numeric("  42"), 42.0);
    assert_eq!(numeric("x"), 0.0);
    assert_eq!(human_numeric("42K"), 42000.0);
    assert_eq!(human_numeric("42M"), 42000000.0);
    assert_eq!(human_numeric("42XXX"), 42.0);
    assert_eq!(human_numeric("42kXXX"), 42000.0);
}

#[test]
fn numeric_grammar_edges() {
    assert_eq!(literal("-3.5e2 rest"), Some((" rest".to_string(), -350.0)));
    assert_eq!(literal("+.5"), Some(("".to_string(), 0.5)));
    assert_eq!(literal("12."), Some(("".to_string(), 12.0)));
    assert_eq!(literal("\t 7x"), Some(("x".to_string(), 7.0)));
    assert!(literal("1e").is_none());
    assert!(literal("1e+").is_none());
    assert!(literal(".").is_none());
    assert!(literal("-").is_none());
    assert!(literal("").is_none());
}

#[test]
fn unit_suffix_bytes() {
    assert_eq!(unit(b"K", 0), 1);
    assert_eq!(unit(b"g", 0), 3);
    assert_eq!(unit(b"T", 0), 4);
    assert_eq!(unit(b"x", 0), 0);
    assert_eq!(unit(b"K", 1), 0);
}

#[test]
fn key_span_prefers_numeric() {
    let line = b"42K";
    assert_eq!(key_span(true, true, line), KeySpan::Plain { start: 0, end: 2 });
    assert_eq!(
        key_span(false, true, line),
        KeySpan::Scaled { start: 0, end: 2, exp: 1 }
    );
    assert_eq!(key_span(false, false, line), KeySpan::Zero);
    assert_eq!(key_span(true, false, b"x"), KeySpan::Zero);
}
