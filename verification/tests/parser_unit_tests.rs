use ooxml_numfmt::ast::{Color, Condition, ElapsedPart, NamedColor};
use ooxml_numfmt::parser::bracket::{
    try_parse_color, try_parse_condition, try_parse_elapsed, try_parse_locale,
};
use ooxml_numfmt::{parse, ParseError};

/// The numeric value of a condition's threshold.
fn threshold(condition: &Condition) -> f64 {
    condition.threshold().text().parse::<f64>().unwrap()
}

#[test]
fn test_parse_empty() {
    let result = parse("");
    assert!(matches!(result, Err(ParseError::EmptyFormat)));
}

#[test]
fn test_parse_single_zero() {
    let fmt = parse("0").unwrap();
    assert_eq!(fmt.sections().len(), 1);
    assert_eq!(fmt.sections()[0].parts().len(), 1);
}

#[test]
fn test_try_parse_color_named() {
    assert!(matches!(
        try_parse_color("Red"),
        Some(Color::Named(NamedColor::Red))
    ));
    assert!(matches!(
        try_parse_color("blue"),
        Some(Color::Named(NamedColor::Blue))
    ));
}

#[test]
fn test_try_parse_color_indexed() {
    assert!(matches!(try_parse_color("Color1"), Some(Color::Indexed(1))));
    assert!(matches!(
        try_parse_color("Color56"),
        Some(Color::Indexed(56))
    ));
    assert!(try_parse_color("Color0").is_none());
    assert!(try_parse_color("Color57").is_none());
}

#[test]
fn test_try_parse_condition() {
    assert!(matches!(
        try_parse_condition(">100"),
        Some(ref c @ Condition::GreaterThan(_)) if (threshold(c) - 100.0).abs() < f64::EPSILON
    ));
    assert!(matches!(
        try_parse_condition("<0"),
        Some(ref c @ Condition::LessThan(_)) if threshold(c).abs() < f64::EPSILON
    ));
    assert!(matches!(
        try_parse_condition(">=50"),
        Some(ref c @ Condition::GreaterOrEqual(_)) if (threshold(c) - 50.0).abs() < f64::EPSILON
    ));
    assert!(matches!(
        try_parse_condition("<=10"),
        Some(ref c @ Condition::LessOrEqual(_)) if (threshold(c) - 10.0).abs() < f64::EPSILON
    ));
    assert!(matches!(
        try_parse_condition("=5"),
        Some(ref c @ Condition::Equal(_)) if (threshold(c) - 5.0).abs() < f64::EPSILON
    ));
    assert!(matches!(
        try_parse_condition("<>0"),
        Some(ref c @ Condition::NotEqual(_)) if threshold(c).abs() < f64::EPSILON
    ));
}

#[test]
fn test_try_parse_elapsed() {
    assert!(matches!(try_parse_elapsed("h"), Some(ElapsedPart::Hours)));
    assert!(matches!(try_parse_elapsed("hh"), Some(ElapsedPart::Hours2)));
    assert!(matches!(try_parse_elapsed("m"), Some(ElapsedPart::Minutes)));
    assert!(matches!(
        try_parse_elapsed("mm"),
        Some(ElapsedPart::Minutes2)
    ));
    assert!(matches!(try_parse_elapsed("s"), Some(ElapsedPart::Seconds)));
    assert!(matches!(
        try_parse_elapsed("ss"),
        Some(ElapsedPart::Seconds2)
    ));
}

#[test]
fn test_try_parse_locale() {
    let locale = try_parse_locale("$-409").unwrap();
    assert!(locale.currency.is_none());
    assert_eq!(locale.lcid, Some(0x409));

    let locale = try_parse_locale("$€-407").unwrap();
    assert_eq!(locale.currency, Some("€".to_string()));
    assert_eq!(locale.lcid, Some(0x407));

    let locale = try_parse_locale("$$").unwrap();
    assert_eq!(locale.currency, Some("$".to_string()));
    assert!(locale.lcid.is_none());
}
