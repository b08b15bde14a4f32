use ooxml_numfmt::compile::SectionPlan;
use ooxml_numfmt::formatter::render::RenderPart;
use ooxml_numfmt::formatter::text::evaluate_text;
use ooxml_numfmt::NumberFormat;

/// Return the sole compiled plan for a parsed format.
fn plan(code: &str) -> SectionPlan {
    NumberFormat::parse(code).unwrap().compiled().sections[0].clone()
}

#[test]
fn emits_first_line_fill_as_ordered_unresolved_parts() {
    assert_eq!(
        evaluate_text(&plan("@\"!\"*-"), "first\nsecond"),
        vec![
            RenderPart::Text("first".to_string()),
            RenderPart::Fill('-'),
            RenderPart::Text("\nsecond!".to_string()),
        ]
    );
    assert_eq!(
        evaluate_text(&plan("@*-"), "first\r\nsecond"),
        vec![
            RenderPart::Text("first".to_string()),
            RenderPart::Fill('-'),
            RenderPart::Text("\r\nsecond".to_string()),
        ]
    );
    assert_eq!(
        evaluate_text(&plan("0@*-"), "first\nsecond"),
        vec![
            RenderPart::Text("first".to_string()),
            RenderPart::Fill('-'),
            RenderPart::Text("\nsecond".to_string()),
        ]
    );
}

#[test]
fn preserves_source_order_without_an_applicable_multiline_anchor() {
    assert_eq!(
        evaluate_text(&plan("*-@"), "first\nsecond"),
        vec![
            RenderPart::Fill('-'),
            RenderPart::Text("first\nsecond".to_string()),
        ]
    );
    assert_eq!(
        evaluate_text(&plan("@\"!\"*-"), "first"),
        vec![
            RenderPart::Text("first!".to_string()),
            RenderPart::Fill('-'),
        ]
    );
    assert_eq!(
        evaluate_text(&plan("@@*-"), "a\nb"),
        vec![
            RenderPart::Text("a\nba\nb".to_string()),
            RenderPart::Fill('-'),
        ]
    );
}
