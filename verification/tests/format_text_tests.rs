use ooxml_numfmt::ast::{DigitPlaceholder, FormatPart, Section};
use ooxml_numfmt::{FormatOptions, NumberFormat};

fn make_format(sections: Vec<Section>) -> NumberFormat {
    NumberFormat::from_sections(sections).unwrap()
}

fn make_section(parts: Vec<FormatPart>) -> Section {
    Section::new(None, None, parts)
}

#[test]
fn test_format_text() {
    let fmt = make_format(vec![
        make_section(vec![FormatPart::Digit(DigitPlaceholder::Zero)]),
        make_section(vec![FormatPart::Digit(DigitPlaceholder::Zero)]),
        make_section(vec![FormatPart::Digit(DigitPlaceholder::Zero)]),
        make_section(vec![
            FormatPart::Literal("<<".to_string()),
            FormatPart::TextPlaceholder,
            FormatPart::Literal(">>".to_string()),
        ]),
    ]);

    let opts = FormatOptions::default();
    assert_eq!(fmt.format_text("hello", &opts), "<<hello>>");
}

#[test]
fn test_format_text_with_placeholder_in_single_section() {
    let fmt = NumberFormat::parse("\"pre\"@\"post\"").unwrap();
    let opts = FormatOptions::default();

    assert_eq!(fmt.format_text("hello", &opts), "prehellopost");
}

#[test]
fn test_format_text_with_placeholder_in_second_section() {
    let fmt = NumberFormat::parse("0;\"pre\"@").unwrap();
    let opts = FormatOptions::default();

    assert_eq!(fmt.format_text("hello", &opts), "prehello");
}

#[test]
fn test_format_text_with_placeholder_in_third_section() {
    let fmt = NumberFormat::parse("0;0;\"pre\"@").unwrap();
    let opts = FormatOptions::default();

    assert_eq!(fmt.format_text("hello", &opts), "prehello");
}

#[test]
fn test_format_text_with_literal_only_fourth_section() {
    let fmt = NumberFormat::parse("0;0;0;\"literal\"").unwrap();
    let opts = FormatOptions::default();

    assert_eq!(fmt.format_text("hello", &opts), "literal");
}

#[test]
fn test_format_text_with_explicitly_empty_fourth_section() {
    let fmt = NumberFormat::parse("0;0;0;").unwrap();
    let opts = FormatOptions::default();

    assert_eq!(fmt.format_text("hello", &opts), "");
}
