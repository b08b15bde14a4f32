use ooxml_numfmt::ast::{Color, DigitPlaceholder, FormatPart, FractionPart, NamedColor, Section};
use ooxml_numfmt::compile::{
    FixedDenominatorDigit, FractionDenominatorSpec, Operation, SectionKind, SectionPlan,
};
use ooxml_numfmt::NumberFormat;

/// Return the sole compiled plan for a parsed format.
fn plan(code: &str) -> SectionPlan {
    NumberFormat::parse(code).unwrap().compiled().sections[0].clone()
}

#[test]
fn classifies_primary_section_kinds() {
    assert_eq!(plan("General").kind, SectionKind::General);
    assert_eq!(plan("yyyy").kind, SectionKind::DateTime);
    assert_eq!(plan("0.00").kind, SectionKind::Number);
    assert_eq!(plan("0E+00").kind, SectionKind::Scientific);
    assert_eq!(plan("# ?/?").kind, SectionKind::Fraction);
    assert_eq!(plan("@").kind, SectionKind::Text);
    assert_eq!(plan("\"literal\"").kind, SectionKind::Literal);
}

#[test]
fn preserves_the_retained_fill_anchor() {
    assert_eq!(
        plan("*A0*B").operations,
        vec![
            Operation::Semantic(FormatPart::Digit(DigitPlaceholder::Zero)),
            Operation::Fill('B'),
        ]
    );
}

#[test]
fn parsed_and_programmatic_sections_compile_equivalently() {
    let parsed = NumberFormat::parse("[Red]0").unwrap();
    let programmatic = NumberFormat::from_sections(vec![Section::new(
        None,
        Some(Color::Named(NamedColor::Red)),
        vec![FormatPart::Digit(DigitPlaceholder::Zero)],
    )])
    .unwrap();

    assert_eq!(parsed.compiled().sections, programmatic.compiled().sections);
}

#[test]
fn compiles_standard_number_semantics_once() {
    let compiled = plan("#,##0.00%,,");
    let number = compiled.number.unwrap();

    assert_eq!(number.integer_placeholders.len(), 4);
    assert_eq!(number.decimal_places(), 2);
    assert!(number.uses_thousands());
    assert_eq!(number.grouping_comma_indices, vec![1]);
    assert_eq!(number.thousands_scale, 2);
    assert_eq!(number.percent_count, 1);
}

#[test]
fn compiles_scientific_and_fraction_specs() {
    let scientific = plan("0.00E+00").scientific.unwrap();
    assert_eq!(scientific.mantissa_integer.len(), 1);
    assert_eq!(scientific.mantissa_decimal.len(), 2);
    assert_eq!(scientific.exponent_digits.len(), 2);
    assert!(scientific.upper);
    assert!(scientific.show_plus);

    let fraction = plan("# ?/?").fraction.unwrap();
    assert_eq!(fraction.integer_placeholders.len(), 1);
    assert_eq!(fraction.numerator_placeholders.len(), 1);
    assert_eq!(fraction.slash_index, 3);
    assert!(matches!(
        fraction.denominator,
        FractionDenominatorSpec::Variable { ref placeholders }
            if placeholders.len() == 1 && placeholders[0].operation_index == 4
    ));
}

#[test]
fn test_compiles_fraction_fields_around_layout_anchors() {
    let compiled = plan("#*x# ?/?");
    let fraction = compiled.fraction.clone().unwrap();

    assert_eq!(
        compiled.operations,
        vec![
            Operation::Semantic(FormatPart::Fraction(FractionPart::IntegerDigit(
                DigitPlaceholder::Hash,
            ))),
            Operation::Fill('x'),
            Operation::Semantic(FormatPart::Fraction(FractionPart::IntegerDigit(
                DigitPlaceholder::Hash,
            ))),
            Operation::Text(" ".to_string()),
            Operation::Semantic(FormatPart::Fraction(FractionPart::NumeratorDigit(
                DigitPlaceholder::Question,
            ))),
            Operation::Semantic(FormatPart::Fraction(FractionPart::Slash)),
            Operation::Semantic(FormatPart::Fraction(FractionPart::DenominatorDigit(
                DigitPlaceholder::Question,
            ))),
        ]
    );
    assert_eq!(
        fraction
            .integer_placeholders
            .iter()
            .map(|field| field.operation_index)
            .collect::<Vec<_>>(),
        vec![0, 2]
    );
    assert_eq!(fraction.numerator_placeholders[0].operation_index, 4);
    assert_eq!(fraction.slash_index, 5);
}

#[test]
fn test_compiles_fixed_denominator_value_and_digit_positions() {
    let fraction = plan("# ?/1*x6").fraction.unwrap();

    assert!(matches!(
        fraction.denominator,
        FractionDenominatorSpec::Fixed { value: 16, ref digits }
            if digits.as_slice()
                == [
                    FixedDenominatorDigit { operation_index: 4, digit: 1 },
                    FixedDenominatorDigit { operation_index: 6, digit: 6 },
                ]
    ));
}
