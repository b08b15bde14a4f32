//! Exact values of the formatting formulas and every error variant.

use ooxml_numfmt::ast::{DigitPlaceholder, FormatPart, LocaleCode, Section};
use ooxml_numfmt::formatter::bigint::evaluate_bigint;
use ooxml_numfmt::formatter::fraction::{carry_fraction, evaluate_prepared_fraction, fraction_padding_width, PreparedFraction};
use ooxml_numfmt::formatter::number::{
    assemble_scientific, build_result, check_fill_size, format_decimal_digits, format_integer,
    format_number_as_integer, format_simple_with_placeholders, render_general_section,
};
use ooxml_numfmt::output::{output_for_part, text_if_nonempty, FormatOutputOf};
use ooxml_numfmt::parser::general_slice_would_panic;
use ooxml_numfmt::{
    analyze_format, plain_text, FormatError, FormatOptions, FormatOutput, LargeInt,
    NumberFormat, ParseError,
};

const ZERO: DigitPlaceholder = DigitPlaceholder::Zero;
const HASH: DigitPlaceholder = DigitPlaceholder::Hash;
const QUESTION: DigitPlaceholder = DigitPlaceholder::Question;

#[test]
fn simple_placeholders_pad_and_overflow() {
    assert_eq!(format_simple_with_placeholders(5, &[ZERO, ZERO, ZERO]), "005");
    assert_eq!(format_simple_with_placeholders(5, &[HASH, QUESTION, ZERO]), " 5");
    assert_eq!(format_simple_with_placeholders(1234, &[HASH, HASH]), "1234");
    assert_eq!(format_simple_with_placeholders(42, &[]), "42");
}

#[test]
fn integer_digits_group_pad_and_place_parts() {
    let opts = FormatOptions::default();
    assert_eq!(format_integer(1234567, &[HASH, HASH, ZERO], true, &[], &[], &opts, 0), "1,234,567");
    assert_eq!(format_integer(7, &[ZERO, ZERO, ZERO], false, &[], &[], &opts, 0), "007");
    assert_eq!(format_integer(7, &[QUESTION, QUESTION, ZERO], false, &[], &[], &opts, 0), "  7");
    assert_eq!(format_integer(0, &[HASH, HASH], false, &[], &[], &opts, 0), "");
    let dash = vec![(1, FormatPart::Literal("-".to_string()))];
    assert_eq!(format_integer(0, &[HASH, HASH], false, &dash, &[], &opts, 0), "-");
    assert_eq!(format_integer(123, &[ZERO, ZERO], false, &dash, &[], &opts, 0), "12-3");
    let far = vec![(5, FormatPart::Literal("<".to_string()))];
    assert_eq!(format_integer(12, &[ZERO], false, &far, &[], &opts, 0), "<12");
    let fill = vec![(1, FormatPart::Fill('*'))];
    assert_eq!(format_integer(45, &[ZERO, ZERO], false, &fill, &[], &opts, 3), "4***5");
}

#[test]
fn decimal_digits_drop_trailing_optional_zeros() {
    assert_eq!(format_decimal_digits(50, &[ZERO, HASH], &[], 0), "5");
    assert_eq!(format_decimal_digits(50, &[ZERO, QUESTION], &[], 0), "5 ");
    assert_eq!(format_decimal_digits(0, &[HASH, HASH], &[], 0), "");
    assert_eq!(format_decimal_digits(0, &[ZERO, ZERO], &[], 0), "00");
    assert_eq!(format_decimal_digits(5, &[ZERO, ZERO], &[], 0), "05");
    assert_eq!(format_decimal_digits(7, &[], &[], 0), "");
    let twelve = [ZERO; 12];
    assert_eq!(format_decimal_digits(1, &twelve, &[], 0), "000000000100");
    let late = vec![(2, FormatPart::Literal("!".to_string()))];
    assert_eq!(format_decimal_digits(12, &[ZERO, ZERO], &late, 0), "12!");
}

#[test]
fn integer_values_scale_by_percent_and_commas() {
    let opts = FormatOptions::default();
    let percent = NumberFormat::parse("0%").unwrap();
    let analysis = analyze_format(&percent.sections()[0]);
    assert_eq!(format_number_as_integer(-42, &analysis, &opts, 0).unwrap(), "4200%");

    let triple = NumberFormat::parse("0%%%").unwrap();
    let analysis = analyze_format(&triple.sections()[0]);
    assert_eq!(
        format_number_as_integer(9007199254740991, &analysis, &opts, 0).unwrap(),
        "9223372036854775807%%%"
    );

    let millions = NumberFormat::parse("#,##0,,\"M\"").unwrap();
    let analysis = analyze_format(&millions.sections()[0]);
    assert_eq!(analysis.thousands_scale, 2);
    assert!(analysis.has_thousands_separator);
    assert_eq!(
        format_number_as_integer(1234567890, &analysis, &opts, 0).unwrap(),
        "1,234M"
    );
}

#[test]
fn prefix_and_suffix_surround_the_number() {
    let section = Section::new(
        None,
        None,
        vec![
            FormatPart::Locale(LocaleCode {
                currency: Some("€".to_string()),
                lcid: Some(0x407),
            }),
            FormatPart::Digit(ZERO),
            FormatPart::Skip(')'),
            FormatPart::Percent,
        ],
    );
    let analysis = analyze_format(&section);
    assert_eq!(build_result(&analysis, "12", 0), "€12 %");
}

#[test]
fn general_sections_show_the_general_text_in_place() {
    let format = NumberFormat::parse("\"pre\"*xGeneral\"post\"").unwrap();
    assert_eq!(
        render_general_section(format.sections()[0].parts(), "42", 3),
        "prexxx42post"
    );
}

#[test]
fn scientific_notation_assembles_its_groups() {
    assert_eq!(assemble_scientific(false, "1", Some("23"), '.', true, false, true, "03"), "1.23E+03");
    assert_eq!(assemble_scientific(true, "5", None, ',', false, true, true, "2"), "-5e-2");
    assert_eq!(assemble_scientific(false, "5", None, '.', true, false, false, "2"), "5E2");
}

#[test]
fn fraction_padding_and_carry() {
    let format = NumberFormat::parse("# ???/??").unwrap();
    let spec = format.compiled().sections[0].fraction.clone().unwrap();
    assert_eq!(fraction_padding_width(&spec), 3);
    assert_eq!(
        carry_fraction(&spec, 3, 7, 2),
        PreparedFraction {
            integer: 6,
            numerator: 1,
            denominator: 2,
            padding_width: 3,
        }
    );
    assert_eq!(
        carry_fraction(&spec, u64::MAX, 4, 2),
        PreparedFraction {
            integer: u64::MAX,
            numerator: 0,
            denominator: 2,
            padding_width: 3,
        }
    );
    let simple = NumberFormat::parse("?/?").unwrap();
    let simple_spec = simple.compiled().sections[0].fraction.clone().unwrap();
    assert_eq!(
        carry_fraction(&simple_spec, 0, 7, 2),
        PreparedFraction {
            integer: 0,
            numerator: 7,
            denominator: 2,
            padding_width: 1,
        }
    );
}

#[test]
fn a_whole_mixed_fraction_blanks_its_fraction() {
    let format = NumberFormat::parse("# ?/?").unwrap();
    let plan = &format.compiled().sections[0];
    let prepared = carry_fraction(plan.fraction.as_ref().unwrap(), 3, 0, 1);
    assert_eq!(
        evaluate_prepared_fraction(plan, prepared).unwrap(),
        vec![ooxml_numfmt::formatter::render::RenderPart::Text("3    ".to_string())]
    );
}

#[test]
fn type_mismatch_errors() {
    let number = NumberFormat::parse("0").unwrap();
    let prepared = PreparedFraction {
        integer: 0,
        numerator: 0,
        denominator: 1,
        padding_width: 0,
    };
    assert_eq!(
        evaluate_prepared_fraction(&number.compiled().sections[0], prepared),
        Err(FormatError::TypeMismatch {
            expected: "compiled fraction format",
            got: "non-fraction section",
        })
    );

    let big = LargeInt::parse("123456789012345678").unwrap();
    let date = NumberFormat::parse("yyyy").unwrap();
    assert_eq!(
        date.try_format_large_integer(&big, &FormatOptions::default()),
        Err(FormatError::TypeMismatch {
            expected: "numeric format",
            got: "date format with BigInt value",
        })
    );
    let scientific = NumberFormat::parse("0.0E+0").unwrap();
    assert_eq!(
        evaluate_bigint(&big, &scientific.sections()[0], &FormatOptions::default()),
        Err(FormatError::TypeMismatch {
            expected: "standard numeric format",
            got: "precision-dependent BigInt format",
        })
    );
}

#[test]
fn large_integers_through_every_section_kind() {
    let opts = FormatOptions::default();
    let big = LargeInt::parse("-123456789012345678").unwrap();
    let single = NumberFormat::parse("#,##0").unwrap();
    assert_eq!(
        single.try_format_large_integer(&big, &opts).unwrap(),
        "-123,456,789,012,345,678"
    );
    let two = NumberFormat::parse("0;(0)").unwrap();
    assert_eq!(
        two.try_format_large_integer(&big, &opts).unwrap(),
        "(123456789012345678)"
    );
    let general = NumberFormat::parse("General").unwrap();
    assert_eq!(
        general.try_format_large_integer(&big, &opts).unwrap(),
        "-123456789012345678"
    );
    let labelled = NumberFormat::parse("\"n=\"General").unwrap();
    assert_eq!(
        labelled.try_format_large_integer(&big, &opts).unwrap(),
        "n=-123456789012345678"
    );
    let literal = NumberFormat::parse("\"many\"").unwrap();
    assert_eq!(
        literal.try_format_large_integer(&big, &opts).unwrap(),
        "many"
    );
}

#[test]
fn every_parse_error_variant_describes_itself() {
    assert_eq!(NumberFormat::parse("").unwrap_err(), ParseError::EmptyFormat);
    assert!(matches!(
        NumberFormat::parse("[Red"),
        Err(ParseError::UnterminatedBracket { .. })
    ));
    assert_eq!(
        NumberFormat::parse("0\"open").unwrap_err(),
        ParseError::UnexpectedToken {
            position: 1,
            found: '"',
        }
    );

    assert_eq!(ParseError::EmptyFormat.message(), "empty format code");
    assert_eq!(
        ParseError::UnterminatedBracket { position: 3 }.message(),
        "unterminated bracket at position 3"
    );
    assert_eq!(
        ParseError::InvalidCondition {
            position: 12,
            reason: "bad".to_string(),
        }
        .message(),
        "invalid condition at position 12: bad"
    );
    assert_eq!(
        ParseError::InvalidLocaleCode { position: 0 }.message(),
        "invalid locale code at position 0"
    );
    assert_eq!(
        ParseError::TooManySections.message(),
        "too many sections (maximum 4 allowed)"
    );
    assert_eq!(
        ParseError::InvalidFormatId(164).message(),
        "invalid format ID: 164 is not a recognized built-in format"
    );
    assert_eq!(
        FormatError::TypeMismatch {
            expected: "a",
            got: "b",
        }
        .message(),
        "type mismatch: expected a, got b"
    );
    assert_eq!(
        FormatError::OutputTooLarge { fill_count: 10 }.message(),
        "formatted output is too large for fill count 10"
    );
}

#[test]
fn general_shortcut_slicing_is_detected() {
    assert!(general_slice_would_panic("]General"));
    assert!(general_slice_would_panic("é]General"));
    assert!(!general_slice_would_panic("[Red]General"));
    assert!(!general_slice_would_panic("General"));
    assert!(!general_slice_would_panic("0.00"));
    let colored = NumberFormat::parse("[Blue] general ").unwrap();
    assert_eq!(colored.sections().len(), 1);
    assert!(colored.sections()[0].parts().is_empty());
    assert!(colored.has_color());
}

#[test]
fn structured_output_flattens_to_plain_text() {
    let output: Vec<FormatOutput> = vec![
        FormatOutputOf::Color(ooxml_numfmt::ast::Color::Indexed(3)),
        FormatOutputOf::Text("1,234".to_string()),
        FormatOutputOf::Fill('-'),
        FormatOutputOf::Skip(')'),
    ];
    assert_eq!(plain_text(&output), "1,234 ");
    assert!(text_if_nonempty(String::new()).is_empty());
    assert_eq!(
        text_if_nonempty("x".to_string()),
        vec![FormatOutputOf::Text("x".to_string())]
    );
    assert_eq!(
        output_for_part(&FormatPart::Percent),
        Some(FormatOutputOf::Text("%".to_string()))
    );
    assert_eq!(
        output_for_part(&FormatPart::Locale(LocaleCode {
            currency: None,
            lcid: Some(0x409),
        })),
        None
    );
    assert_eq!(output_for_part(&FormatPart::Skip('_')), Some(FormatOutputOf::Skip('_')));
    assert_eq!(output_for_part(&FormatPart::Digit(ZERO)), None);
}

#[test]
fn number_paths_refuse_oversized_fills() {
    let huge = FormatOptions {
        fill_count: usize::MAX,
        ..FormatOptions::default()
    };
    let numeric = NumberFormat::parse("*é0").unwrap();
    let section = &numeric.sections()[0];
    let analysis = analyze_format(section);
    assert_eq!(
        format_number_as_integer(42, &analysis, &huge, usize::MAX),
        Err(FormatError::OutputTooLarge { fill_count: usize::MAX })
    );
    assert_eq!(
        check_fill_size(section.parts(), usize::MAX),
        Err(FormatError::OutputTooLarge { fill_count: usize::MAX })
    );
    assert_eq!(check_fill_size(section.parts(), 3), Ok(()));
    let big = LargeInt::parse("123456789012345678901").unwrap();
    assert_eq!(
        numeric.try_format_large_integer(&big, &huge),
        Err(FormatError::OutputTooLarge { fill_count: usize::MAX })
    );
    let three = FormatOptions {
        fill_count: 3,
        ..FormatOptions::default()
    };
    assert_eq!(
        format_number_as_integer(42, &analysis, &three, 3).unwrap(),
        "ééé42"
    );
}

#[test]
fn zero_shows_its_parts_from_the_highest_position() {
    let opts = FormatOptions::default();
    let parts = vec![
        (0, FormatPart::Literal("a".to_string())),
        (2, FormatPart::Literal("b".to_string())),
        (2, FormatPart::Literal("c".to_string())),
    ];
    let hash = DigitPlaceholder::Hash;
    assert_eq!(format_integer(0, &[hash, hash], false, &parts, &[], &opts, 0), "bca");
    assert_eq!(format_integer(5, &[hash, hash], false, &parts, &[], &opts, 0), "cb5a");
}
