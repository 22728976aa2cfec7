use office_oxide::ir::{
    Heading, InlineContent, PageSetup, Shape, ShapeGeom, TextSpan, inline_to_text,
};

#[test]
fn test_text_span_plain_has_default_styling() {
    let s = TextSpan::plain("hi".into());
    assert_eq!(s.text, "hi");
    assert!(!s.bold);
    assert!(!s.italic);
    assert!(s.font_size_half_pt.is_none());
    assert!(s.hyperlink.is_none());
}

#[test]
fn test_shape_default_is_line_at_origin() {
    let s = Shape::default();
    assert!(matches!(s.kind, ShapeGeom::Line));
    assert_eq!(s.x_emu, 0);
    assert_eq!(s.width_emu, 0);
    assert!(s.stroke_rgb.is_none());
}

#[test]
fn heading_level_is_clamped_to_one_through_six() {
    let h = |level: u8| Heading { level, ..Default::default() };
    assert_eq!(h(0).clamped_level(), 1);
    assert_eq!(h(3).clamped_level(), 3);
    assert_eq!(h(9).clamped_level(), 6);
}

#[test]
fn inline_text_joins_spans() {
    let content = vec![
        InlineContent::Text(TextSpan::plain("a".into())),
        InlineContent::LineBreak,
        InlineContent::Text(TextSpan::plain("b".into())),
    ];
    assert_eq!(inline_to_text(&content), "a\nb");
}

#[test]
fn page_setup_default_is_letter_portrait() {
    let p = PageSetup::default();
    assert!(p.width_twips > 0);
}
