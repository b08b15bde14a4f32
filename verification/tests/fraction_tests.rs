use ooxml_numfmt::compile::SectionPlan;
use ooxml_numfmt::formatter::fraction::{carry_fraction, evaluate_prepared_fraction, PreparedFraction};
use ooxml_numfmt::formatter::render::{resolve_layout, RenderPart};
use ooxml_numfmt::NumberFormat;

/// Return the sole compiled plan for a parsed format.
fn plan(code: &str) -> SectionPlan {
    NumberFormat::parse(code).unwrap().compiled().sections[0].clone()
}

/// Evaluates a fraction plan for a value whose whole part, numerator and
/// denominator have been approximated already.
fn evaluate(plan: &SectionPlan, integer: u64, numerator: u32, denominator: u32) -> Vec<RenderPart> {
    let spec = plan.fraction.as_ref().unwrap();
    let prepared = carry_fraction(spec, integer, numerator, denominator);
    evaluate_prepared_fraction(plan, prepared).unwrap()
}

#[test]
fn preserves_layout_around_fraction_fields() {
    // 1.5 is one and one half.
    let plan = plan("# ?/?*x");
    let parts = evaluate(&plan, 1, 1, 2);

    assert_eq!(resolve_layout(&parts, 2).unwrap(), "1 1/2xx");
}

#[test]
fn test_prepares_mixed_fraction_carry_once() {
    // 1.75 over the fixed denominator 2 rounds to one and two halves.
    let plan = plan("# ?/2");
    let spec = plan.fraction.as_ref().unwrap();

    assert_eq!(
        carry_fraction(spec, 1, 2, 2),
        PreparedFraction {
            integer: 2,
            numerator: 0,
            denominator: 2,
            padding_width: 0,
        }
    );
}

#[test]
fn test_assigns_fixed_denominator_digits_around_fill() {
    // 1.2 over the fixed denominator 16 is one and three sixteenths.
    let plan = plan("# ?/1*x6");

    assert_eq!(
        evaluate(&plan, 1, 3, 16),
        vec![
            RenderPart::Text("1 3/1".to_string()),
            RenderPart::Fill('x'),
            RenderPart::Text("6".to_string()),
        ]
    );
}

#[test]
fn test_assigns_variable_denominator_padding_without_crossing_fill() {
    let plan = plan("# ??/?*x?");

    assert_eq!(
        evaluate(&plan, 1, 1, 2),
        vec![
            RenderPart::Text("1  1/2".to_string()),
            RenderPart::Fill('x'),
            RenderPart::Text(" ".to_string()),
        ]
    );
}

#[test]
fn test_applies_zero_hash_and_question_integer_placeholders() {
    // 0.5 is one half with no whole part.
    let plan = plan("0#? ?/?");

    assert_eq!(
        evaluate(&plan, 0, 1, 2),
        vec![RenderPart::Text("0  1/2".to_string())]
    );
}
