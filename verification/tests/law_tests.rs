//! Concrete instances of the library's laws and edge cases.

use ooxml_numfmt::ast::{DigitPlaceholder, FormatPart, FractionPart, Section};
use ooxml_numfmt::compile::{FractionDenominatorSpec, SectionPlan};
use ooxml_numfmt::formatter::render::{fill_position, push_text, resolve_layout, RenderPart};
use ooxml_numfmt::formatter::{evaluate_operations, ValueSign};
use ooxml_numfmt::{fallback_format_bigint, FormatOptions, LargeInt, NumberFormat};

fn plan(code: &str) -> SectionPlan {
    NumberFormat::parse(code).unwrap().compiled().sections[0].clone()
}

#[test]
fn pushed_text_appears_once_in_the_layout() {
    let mut parts = vec![RenderPart::Fill('-')];
    push_text(&mut parts, "ab".to_string());
    push_text(&mut parts, String::new());
    push_text(&mut parts, "c".to_string());
    assert_eq!(
        parts,
        vec![RenderPart::Fill('-'), RenderPart::Text("abc".to_string())]
    );
    assert_eq!(resolve_layout(&parts, 2).unwrap(), "--abc");
}

#[test]
fn every_fill_repeats_exactly_fill_count_times() {
    let parts = vec![
        RenderPart::Text("x".to_string()),
        RenderPart::Fill('界'),
        RenderPart::Skip('('),
        RenderPart::Fill('.'),
    ];
    let plain = resolve_layout(&parts, 0).unwrap();
    let filled = resolve_layout(&parts, 5).unwrap();
    assert_eq!(plain, "x ");
    assert_eq!(filled, "x界界界界界 .....");
    assert_eq!(
        filled.chars().count(),
        plain.chars().count() + 5 * 2
    );
}

#[test]
fn fill_free_layout_ignores_the_fill_count() {
    let parts = vec![RenderPart::Text("a".to_string()), RenderPart::Skip('_')];
    assert_eq!(
        resolve_layout(&parts, 0).unwrap(),
        resolve_layout(&parts, 9).unwrap()
    );
    assert_eq!(fill_position(&parts), None);
}

#[test]
fn section_keeps_only_its_last_fill_in_place() {
    let section = Section::new(
        None,
        None,
        vec![
            FormatPart::Fill('a'),
            FormatPart::Literal("x".to_string()),
            FormatPart::Fill('b'),
            FormatPart::Digit(DigitPlaceholder::Zero),
            FormatPart::Fill('c'),
            FormatPart::Percent,
        ],
    );
    assert_eq!(
        section.parts(),
        &[
            FormatPart::Literal("x".to_string()),
            FormatPart::Digit(DigitPlaceholder::Zero),
            FormatPart::Fill('c'),
            FormatPart::Percent,
        ]
    );
}

#[test]
fn normalizing_a_section_twice_changes_nothing() {
    let once = Section::new(
        None,
        None,
        vec![
            FormatPart::Fill('a'),
            FormatPart::Digit(DigitPlaceholder::Zero),
            FormatPart::Fill('b'),
        ],
    );
    let twice = Section::new(None, None, once.parts().clone());
    assert_eq!(once.parts(), twice.parts());
}

#[test]
fn a_format_keeps_its_first_four_sections_in_order() {
    let sections: Vec<Section> = (0..6)
        .map(|i| {
            Section::new(
                None,
                None,
                vec![FormatPart::Literal(format!("s{i}"))],
            )
        })
        .collect();
    let format = NumberFormat::from_sections(sections).unwrap();
    let texts: Vec<FormatPart> = format
        .sections()
        .iter()
        .map(|s| s.parts()[0].clone())
        .collect();
    assert_eq!(
        texts,
        vec![
            FormatPart::Literal("s0".to_string()),
            FormatPart::Literal("s1".to_string()),
            FormatPart::Literal("s2".to_string()),
            FormatPart::Literal("s3".to_string()),
        ]
    );
    assert_eq!(format.compiled().sections.len(), 4);
}

#[test]
fn an_empty_section_list_is_refused() {
    assert_eq!(
        NumberFormat::from_sections(Vec::new()),
        Err(ooxml_numfmt::ParseError::EmptyFormat)
    );
}

#[test]
fn fixed_denominator_digits_without_a_slash_become_literal_text() {
    let section = Section::new(
        None,
        None,
        vec![
            FormatPart::Fraction(FractionPart::IntegerDigit(DigitPlaceholder::Zero)),
            FormatPart::Fraction(FractionPart::FixedDenominatorDigit(7)),
        ],
    );
    let format = NumberFormat::from_sections(vec![section]).unwrap();
    assert_eq!(
        format.sections()[0].parts(),
        &[
            FormatPart::Digit(DigitPlaceholder::Zero),
            FormatPart::Literal("7".to_string()),
        ]
    );
}

#[test]
fn a_plan_has_one_operation_per_part() {
    let format = NumberFormat::parse("\"a\"#,##0.0_)*x%").unwrap();
    assert_eq!(
        format.compiled().sections[0].operations.len(),
        format.sections()[0].parts().len()
    );
}

#[test]
fn compiled_fraction_fields_name_their_own_operations() {
    let plan = plan("# ??/1*x6");
    let fraction = plan.fraction.clone().unwrap();
    let count = plan.operations.len();
    assert!(fraction.slash_index < count);
    assert!(fraction
        .integer_placeholders
        .iter()
        .chain(fraction.numerator_placeholders.iter())
        .all(|p| p.operation_index < count));
    match fraction.denominator {
        FractionDenominatorSpec::Fixed { value, digits } => {
            assert_eq!(value, 16);
            assert!(digits.iter().all(|d| d.operation_index < count));
        }
        FractionDenominatorSpec::Variable { .. } => panic!("expected a fixed denominator"),
    }
}

#[test]
fn large_integer_text_reads_back_as_the_same_integer() {
    for text in ["0", "-7", "123456789012345678901234567890", "-9007199254740993"] {
        let value = LargeInt::parse(text).unwrap();
        let shown = fallback_format_bigint(&value);
        assert_eq!(shown, text);
        assert_eq!(LargeInt::parse(&shown).unwrap(), value);
    }
    assert_eq!(fallback_format_bigint(&LargeInt::parse("-000").unwrap()), "0");
    assert_eq!(fallback_format_bigint(&LargeInt::parse("0042").unwrap()), "42");
    assert!(LargeInt::parse("").is_none());
    assert!(LargeInt::parse("-").is_none());
    assert!(LargeInt::parse("1_000").is_none());
    assert!(LargeInt::parse("+5").is_none());
    assert_eq!(
        fallback_format_bigint(&LargeInt::from_i64(i64::MIN)),
        "-9223372036854775808"
    );
}

#[test]
fn the_selected_section_applies_to_the_value() {
    let single = NumberFormat::parse("0").unwrap();
    for sign in [ValueSign::Negative, ValueSign::Zero, ValueSign::Positive] {
        assert_eq!(single.select_section_index_for(sign, &vec![false]), 0);
    }

    let two = NumberFormat::parse("0;(0)").unwrap();
    assert_eq!(two.select_section_index_for(ValueSign::Negative, &vec![false, false]), 1);
    assert_eq!(two.select_section_index_for(ValueSign::Zero, &vec![false, false]), 0);

    let three = NumberFormat::parse("0;-0;\"zero\"").unwrap();
    let none = vec![false; 3];
    assert_eq!(three.select_section_index_for(ValueSign::Positive, &none), 0);
    assert_eq!(three.select_section_index_for(ValueSign::Negative, &none), 1);
    assert_eq!(three.select_section_index_for(ValueSign::Zero, &none), 2);

    let text_zero = NumberFormat::parse("0;-0;@").unwrap();
    assert_eq!(text_zero.select_section_index_for(ValueSign::Zero, &none), 0);

    let conditional = NumberFormat::parse("[>100]\"big\";[<0]\"neg\";0").unwrap();
    assert_eq!(
        conditional.select_section_index_for(ValueSign::Positive, &vec![true, false, false]),
        0
    );
    assert_eq!(
        conditional.select_section_index_for(ValueSign::Negative, &vec![false, true, false]),
        1
    );
    assert_eq!(
        conditional.select_section_index_for(ValueSign::Positive, &vec![false, false, false]),
        2
    );

    let all_conditional = NumberFormat::parse("[>100]0;[<-100]0").unwrap();
    assert_eq!(
        all_conditional.select_section_index_for(ValueSign::Positive, &vec![false, false]),
        1
    );
}

#[test]
fn minus_sign_and_absolute_value_policy() {
    let single = NumberFormat::parse("0").unwrap();
    assert!(single.minus_sign_needed(0, true, false));
    assert!(!single.minus_sign_needed(0, false, false));
    assert!(!single.minus_sign_needed(0, true, true));

    let literal = NumberFormat::parse("\"x\"").unwrap();
    assert!(literal.minus_sign_needed(0, true, false));
    let long_literal = NumberFormat::parse("\"xy\"").unwrap();
    assert!(!long_literal.minus_sign_needed(0, true, false));

    let fraction = NumberFormat::parse("# ?/?").unwrap();
    assert!(!fraction.minus_sign_needed(0, true, false));
    let scientific = NumberFormat::parse("0.0E+0").unwrap();
    assert!(!scientific.minus_sign_needed(0, true, false));

    let two = NumberFormat::parse("0;0").unwrap();
    assert!(!two.minus_sign_needed(1, true, false));

    let conditional = NumberFormat::parse("[<-25]General;0").unwrap();
    assert!(conditional.uses_absolute_value(0, true));
    assert!(!conditional.uses_absolute_value(0, false));
    assert!(!conditional.uses_absolute_value(1, true));
    assert!(!single.uses_absolute_value(0, true));
}

#[test]
fn evaluation_keeps_source_order_and_defers_layout() {
    let plan = plan("\"[\"*x@_)\"]\"");
    let fields: Vec<Option<String>> = plan
        .operations
        .iter()
        .map(|_| Some("v".to_string()))
        .collect();
    let parts = evaluate_operations(&plan, &fields);
    assert_eq!(
        parts,
        vec![
            RenderPart::Text("[".to_string()),
            RenderPart::Fill('x'),
            RenderPart::Text("v".to_string()),
            RenderPart::Skip(')'),
            RenderPart::Text("]".to_string()),
        ]
    );
    assert_eq!(resolve_layout(&parts, 2).unwrap(), "[xxv ]");
}

#[test]
fn text_layout_uses_the_fill_count_and_refuses_oversized_output() {
    let format = NumberFormat::parse("0;0;0;\"[\"*x@\"]\"").unwrap();
    let options = FormatOptions {
        fill_count: 3,
        ..FormatOptions::default()
    };
    assert_eq!(format.try_format_text("text", &options).unwrap(), "[xxxtext]");

    let huge = FormatOptions {
        fill_count: usize::MAX,
        ..FormatOptions::default()
    };
    let text = NumberFormat::parse("*é@").unwrap();
    assert_eq!(
        text.try_format_text("text", &huge),
        Err(ooxml_numfmt::FormatError::OutputTooLarge {
            fill_count: usize::MAX,
        })
    );
    assert_eq!(text.format_text("text", &huge), "text");

    let number_only = NumberFormat::parse("0").unwrap();
    assert_eq!(number_only.try_format_text("plain", &huge).unwrap(), "plain");
}

#[test]
fn text_sections_follow_the_fourth_section_policy() {
    let opts = FormatOptions::default();
    let no_text = NumberFormat::parse("0;0").unwrap();
    assert_eq!(no_text.format_text("abc", &opts), "abc");

    let fill_and_skip = NumberFormat::parse("0;0;0;@*._)").unwrap();
    assert_eq!(fill_and_skip.format_text("abc", &opts), "abc ");
}

#[test]
fn text_layout_resolves_skips_and_fills() {
    let opts = FormatOptions::default();
    let skip = NumberFormat::parse("@_)").unwrap();
    assert_eq!(skip.format_text("text", &opts), "text ");

    let three = FormatOptions {
        fill_count: 3,
        ..FormatOptions::default()
    };
    let direct = NumberFormat::parse("\"[\"*x@\"]\"").unwrap();
    let fourth = NumberFormat::parse("0;0;0;\"[\"*x@\"]\"").unwrap();
    assert_eq!(direct.format_text("text", &three), "[xxxtext]");
    assert_eq!(fourth.format_text("text", &three), "[xxxtext]");
}
