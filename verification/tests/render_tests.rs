use ooxml_numfmt::formatter::render::{
    fill_position, layout_capacity, push_text, resolve_layout, RenderPart, RenderPartOf,
};
use ooxml_numfmt::FormatError;

#[test]
fn resolves_empty_and_text_only_parts() {
    assert_eq!(resolve_layout(&[], 4).unwrap(), "");
    assert_eq!(
        resolve_layout(&[RenderPart::Text("text".to_string())], 4).unwrap(),
        "text"
    );
}

#[test]
fn resolves_fill_at_every_layout_position() {
    let parts = [
        RenderPart::Fill('-'),
        RenderPart::Text("a".to_string()),
        RenderPart::Fill('é'),
        RenderPart::Text("b".to_string()),
        RenderPart::Fill('!'),
    ];

    assert_eq!(resolve_layout(&parts, 0).unwrap(), "ab");
    assert_eq!(resolve_layout(&parts, 1).unwrap(), "-aéb!");
    assert_eq!(resolve_layout(&parts, 3).unwrap(), "---aéééb!!!");
}

#[test]
fn resolves_skip_as_one_ascii_space() {
    assert_eq!(resolve_layout(&[RenderPart::Skip(')')], 0).unwrap(), " ");
}

#[test]
fn locates_fill_in_fill_free_utf8_output() {
    let parts = [
        RenderPart::Text("é".to_string()),
        RenderPart::Skip('界'),
        RenderPart::Text("값".to_string()),
        RenderPart::Fill('界'),
    ];

    assert_eq!(fill_position(&parts), Some((6, '界')));
}

#[test]
fn coalesces_adjacent_text_without_crossing_layout_boundaries() {
    let mut parts = Vec::new();
    push_text(&mut parts, "a".to_string());
    push_text(&mut parts, "b".to_string());
    parts.push(RenderPart::Fill('.'));
    push_text(&mut parts, "c".to_string());

    assert_eq!(
        parts,
        vec![
            RenderPart::Text("ab".to_string()),
            RenderPart::Fill('.'),
            RenderPart::Text("c".to_string()),
        ]
    );
}

#[test]
fn rejects_output_length_overflow() {
    let parts = [RenderPart::Fill('é')];

    assert_eq!(
        resolve_layout(&parts, usize::MAX),
        Err(FormatError::OutputTooLarge {
            fill_count: usize::MAX,
        })
    );
}

#[test]
fn rejects_unreservable_output() {
    let parts = [RenderPart::Fill('x')];

    assert_eq!(
        resolve_layout(&parts, usize::MAX),
        Err(FormatError::OutputTooLarge {
            fill_count: usize::MAX,
        })
    );
}

#[test]
fn layout_capacity_counts_bytes() {
    let parts = vec![
        RenderPartOf::Text("ab".to_string()),
        RenderPartOf::Fill('é'),
        RenderPartOf::Skip(')'),
    ];
    assert_eq!(layout_capacity(&parts, 3), Some(2 + 6 + 1));
    assert_eq!(layout_capacity(&parts, usize::MAX), None);
    assert_eq!(layout_capacity(&[], 7), Some(0));
}

#[test]
fn layout_beyond_isize_is_refused() {
    let parts = vec![RenderPartOf::Fill('x')];
    assert_eq!(
        resolve_layout(&parts, usize::MAX),
        Err(FormatError::OutputTooLarge { fill_count: usize::MAX })
    );
}
