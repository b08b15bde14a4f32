use ooxml_numfmt::ast::{DigitPlaceholder, FormatPart, FractionPart, LocaleCode, Section};
use ooxml_numfmt::formatter::number::{
    format_decimal_digits, format_integer, number_route, NumberRoute,
};
use ooxml_numfmt::{analyze_format, FormatOptions};

fn make_section(parts: Vec<FormatPart>) -> Section {
    Section::new(None, None, parts)
}

#[test]
fn test_analyze_simple_integer() {
    let section = make_section(vec![FormatPart::Digit(DigitPlaceholder::Zero)]);
    let analysis = analyze_format(&section);

    assert_eq!(analysis.integer_placeholders.len(), 1);
    assert_eq!(analysis.decimal_placeholders.len(), 0);
    assert!(!analysis.has_thousands_separator);
    assert_eq!(analysis.percent_count, 0);
}

#[test]
fn test_analyze_decimal_format() {
    let section = make_section(vec![
        FormatPart::Digit(DigitPlaceholder::Zero),
        FormatPart::DecimalPoint,
        FormatPart::Digit(DigitPlaceholder::Zero),
        FormatPart::Digit(DigitPlaceholder::Zero),
    ]);
    let analysis = analyze_format(&section);

    assert_eq!(analysis.integer_placeholders.len(), 1);
    assert_eq!(analysis.decimal_placeholders.len(), 2);
}

#[test]
fn test_analyze_preserves_inline_parts() {
    let locale = LocaleCode {
        currency: Some("$".to_string()),
        lcid: None,
    };
    let section = make_section(vec![
        FormatPart::Digit(DigitPlaceholder::Hash),
        FormatPart::Literal("-".to_string()),
        FormatPart::Digit(DigitPlaceholder::Zero),
        FormatPart::Locale(locale.clone()),
        FormatPart::Digit(DigitPlaceholder::Zero),
        FormatPart::DecimalPoint,
        FormatPart::Digit(DigitPlaceholder::Zero),
        FormatPart::EscapedLiteral("!".to_string()),
        FormatPart::Digit(DigitPlaceholder::Zero),
    ]);

    let analysis = analyze_format(&section);

    assert_eq!(
        analysis.inline_parts,
        vec![
            (2, FormatPart::Literal("-".to_string())),
            (1, FormatPart::Locale(locale)),
        ]
    );
    assert_eq!(
        analysis.decimal_inline_parts,
        vec![(1, FormatPart::EscapedLiteral("!".to_string()))]
    );
    // 123.45: the integer digits 123 and the two rounded decimal digits 45.
    let opts = FormatOptions::default();
    let integer = format_integer(
        123,
        &analysis.integer_placeholders,
        analysis.has_thousands_separator,
        &analysis.inline_parts,
        &analysis.inline_after_separator,
        &opts,
        0,
    );
    let decimals = format_decimal_digits(
        45,
        &analysis.decimal_placeholders,
        &analysis.decimal_inline_parts,
        0,
    );
    assert_eq!(format!("{}.{}", integer, decimals), "1-2$3.4!5");
}

#[test]
fn test_analyze_thousands() {
    let section = make_section(vec![
        FormatPart::Digit(DigitPlaceholder::Hash),
        FormatPart::ThousandsSeparator,
        FormatPart::Digit(DigitPlaceholder::Hash),
        FormatPart::Digit(DigitPlaceholder::Hash),
        FormatPart::Digit(DigitPlaceholder::Zero),
    ]);
    let analysis = analyze_format(&section);

    assert!(analysis.has_thousands_separator);
    assert_eq!(analysis.integer_placeholders.len(), 4);
}

#[test]
fn test_analyze_percent() {
    let section = make_section(vec![
        FormatPart::Digit(DigitPlaceholder::Zero),
        FormatPart::Percent,
    ]);
    let analysis = analyze_format(&section);

    assert_eq!(analysis.percent_count, 1);
    assert_eq!(analysis.suffix_parts.len(), 1);
}

#[test]
fn counts_required_integer_digits() {
    let section = make_section(vec![
        FormatPart::Digit(DigitPlaceholder::Hash),
        FormatPart::ThousandsSeparator,
        FormatPart::Digit(DigitPlaceholder::Question),
        FormatPart::Digit(DigitPlaceholder::Zero),
        FormatPart::Digit(DigitPlaceholder::Zero),
        FormatPart::DecimalPoint,
        FormatPart::Digit(DigitPlaceholder::Zero),
    ]);
    let analysis = analyze_format(&section);

    assert_eq!(analysis.min_integer_digits(), 2);
    assert_eq!(analysis.decimal_places(), 1);
}

#[test]
fn routes_values_through_sections() {
    let scientific = vec![
        FormatPart::Digit(DigitPlaceholder::Zero),
        FormatPart::Scientific { upper: false, show_plus: true },
        FormatPart::Digit(DigitPlaceholder::Zero),
        FormatPart::Scientific { upper: true, show_plus: false },
    ];
    assert_eq!(
        number_route(&scientific),
        NumberRoute::Scientific { upper: false, show_plus: true }
    );

    let fraction = vec![
        FormatPart::Fraction(FractionPart::NumeratorDigit(DigitPlaceholder::Hash)),
        FormatPart::Fraction(FractionPart::Slash),
        FormatPart::Fraction(FractionPart::DenominatorDigit(DigitPlaceholder::Hash)),
    ];
    assert_eq!(number_route(&fraction), NumberRoute::Fraction);

    assert_eq!(number_route(&vec![FormatPart::TextPlaceholder]), NumberRoute::Text);
    assert_eq!(
        number_route(&vec![FormatPart::GeneralNumber, FormatPart::Literal(" kg".to_string())]),
        NumberRoute::General
    );
    assert_eq!(
        number_route(&vec![FormatPart::Literal("n/a".to_string())]),
        NumberRoute::Literal
    );
    assert_eq!(
        number_route(&vec![FormatPart::GeneralNumber, FormatPart::DecimalPoint]),
        NumberRoute::Numeric
    );
    assert_eq!(
        number_route(&vec![FormatPart::ThousandsSeparator]),
        NumberRoute::Numeric
    );
}

fn integer_through(code: &str, value: u64, fill_count: usize) -> String {
    let format = ooxml_numfmt::NumberFormat::parse(code).unwrap();
    let analysis = analyze_format(&format.sections()[0]);
    format_integer(
        value,
        &analysis.integer_placeholders,
        analysis.has_thousands_separator,
        &analysis.inline_parts,
        &analysis.inline_after_separator,
        &FormatOptions::default(),
        fill_count,
    )
}

#[test]
fn inline_parts_keep_their_side_of_the_grouping_comma() {
    assert_eq!(integer_through("#\"a\",##0", 1234, 0), "1a,234");
    assert_eq!(integer_through("#,\"a\"##0", 1234, 0), "1,a234");
    assert_eq!(integer_through("#*x,##0", 1234, 3), "1xxx,234");
    assert_eq!(integer_through("#,*x##0", 1234, 3), "1,xxx234");
    assert_eq!(integer_through("#\"a\",*x##0", 1234, 3), "1a,xxx234");
    assert_eq!(integer_through("#*x,##0", 1_234_567, 3), "1,234xxx,567");
    assert_eq!(integer_through("#,*x##0", 1_234_567, 3), "1,234,xxx567");
}
