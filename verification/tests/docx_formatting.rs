use office_oxide::docx::color::{ColorRef, RgbColor, ThemeColorSlot};
use office_oxide::docx::formatting::{
    parse_outline_level, parse_paragraph_properties_fast, parse_run_properties_fast,
    Justification, LineSpacingRule, ParagraphProperties, RunProperties, Twip, HalfPoint,
    UnderlineType, VerticalAlign, HeaderFooterType, PageOrientation,
};
use office_oxide::docx::paragraph::{FormField, FormFieldKind, Paragraph};
use office_oxide::docx::formatting::parse_indent;
use office_oxide::docx::xml::{parse_toggle, read_xml_events, XmlEvent, XmlTag};

fn ppr(xml: &[u8]) -> ParagraphProperties {
    let ev = read_xml_events(xml).unwrap();
    parse_paragraph_properties_fast(&ev, 1).unwrap().0
}

fn rpr(xml: &[u8]) -> RunProperties {
    let ev = read_xml_events(xml).unwrap();
    parse_run_properties_fast(&ev, 1).unwrap().0
}

#[test]
fn test_paragraph_properties_size_stays_boxed() {
    assert!(std::mem::size_of::<ParagraphProperties>() <= 250);
    assert!(std::mem::size_of::<Paragraph>() <= 300);
}

#[test]
fn run_properties_from_children() {
    let rp = rpr(br#"<w:rPr><w:b/><w:i w:val="0"/><w:sz w:val="24"/><w:u w:val="dotDash"/><w:vertAlign w:val="superscript"/><w:rFonts w:ascii="Arial"/><w:color w:val="FF0000"/><w:spacing w:val="-20"/><w:shd w:fill="FFFF00"/><w:vanish/><w:caps w:val="false"/></w:rPr>"#);
    assert_eq!(rp.bold, Some(true));
    assert_eq!(rp.italic, Some(false));
    assert_eq!(rp.font_size, Some(HalfPoint(24)));
    assert_eq!(rp.underline, Some(UnderlineType::DotDash));
    assert_eq!(rp.vertical_align, Some(VerticalAlign::Superscript));
    assert_eq!(rp.font_name.as_deref(), Some("Arial"));
    assert_eq!(rp.color, Some(ColorRef::Rgb(RgbColor { r: 255, g: 0, b: 0 })));
    assert_eq!(rp.char_spacing, Some(-20));
    assert_eq!(rp.shading_fill.as_deref(), Some("FFFF00"));
    assert_eq!(rp.hidden, Some(true));
    assert_eq!(rp.caps, Some(false));
    assert_eq!(rp.strike, None);
}

#[test]
fn run_properties_units_and_unknown_underline() {
    let rp = rpr(br#"<w:rPr><w:sz w:val="12.5pt"/><w:u w:val="zigzag"/><w:u/></w:rPr>"#);
    assert_eq!(rp.font_size, Some(HalfPoint(12)));
    assert_eq!(rp.underline, Some(UnderlineType::Single));
    let rp = rpr(br#"<w:rPr><w:u w:val="zigzag"/></w:rPr>"#);
    assert_eq!(rp.underline, Some(UnderlineType::Other("zigzag".to_string())));
    let ev = read_xml_events(br#"<w:rPr><w:sz w:val="x"/></w:rPr>"#).unwrap();
    assert!(parse_run_properties_fast(&ev, 1).is_err());
}

#[test]
fn theme_colors_keep_tint_and_fallback() {
    let rp = rpr(br#"<w:rPr><w:color w:val="1F4E79" w:themeColor="accent1" w:themeTint="99"/></w:rPr>"#);
    assert_eq!(
        rp.color,
        Some(ColorRef::Theme {
            slot: ThemeColorSlot::Accent1,
            tint: Some(0x99),
            shade: None,
            fallback: Some(RgbColor { r: 0x1F, g: 0x4E, b: 0x79 }),
        })
    );
    assert_eq!(rpr(br#"<w:rPr><w:color w:val="auto"/></w:rPr>"#).color, Some(ColorRef::Auto));
    assert_eq!(rpr(br#"<w:rPr><w:color w:val="12345"/></w:rPr>"#).color, None);
}

#[test]
fn frame_position_needs_all_four_values() {
    let pp = ppr(br#"<w:pPr><w:framePr w:x="720" w:y="1080" w:w="3000" w:h="500"/></w:pPr>"#);
    let fp = pp.frame_position.unwrap();
    assert_eq!((fp.x_twips, fp.y_twips, fp.width_twips, fp.height_twips), (720, 1080, 3000, 500));
    let pp = ppr(br#"<w:pPr><w:framePr w:x="100" w:y="200" w:w="300"/></w:pPr>"#);
    assert!(pp.frame_position.is_none());
    let pp = ppr(br#"<w:pPr><w:framePr w:x="10" w:y="20" w:w="30" w:h="40"></w:framePr></w:pPr>"#);
    assert_eq!(pp.frame_position.unwrap().width_twips, 30);
}

#[test]
fn paragraph_borders_and_bottom_rule() {
    let pp = ppr(br#"<w:pPr><w:pBdr><w:bottom w:val="single" w:sz="6" w:space="1" w:color="auto"/></w:pBdr></w:pPr>"#);
    assert!(pp.has_bottom_border);
    let b = pp.borders.unwrap();
    let bottom = b.bottom.unwrap();
    assert_eq!(bottom.size, Some(6));
    assert_eq!(bottom.style.as_deref(), Some("single"));
    let pp = ppr(br#"<w:pPr><w:pBdr><w:top w:val="single" w:sz="6"/><w:left w:val="single"/></w:pBdr></w:pPr>"#);
    assert!(!pp.has_bottom_border);
    let pp = ppr(br#"<w:pPr><w:pStyle w:val="Normal"/></w:pPr>"#);
    assert!(pp.frame_position.is_none());
    assert!(!pp.has_bottom_border);
    assert_eq!(pp.style_id.as_deref(), Some("Normal"));
}

#[test]
fn paragraph_properties_from_children() {
    let pp = ppr(br#"<w:pPr><w:jc w:val="end"/><w:ind w:start="720" w:hanging="360"/><w:spacing w:before="240" w:line="360" w:lineRule="exact"/><w:numPr><w:ilvl w:val="2"/><w:numId w:val="7"/></w:numPr><w:outlineLvl w:val="9"/><w:keepNext/><w:tabs><w:tab w:pos="1440" w:leader="dot"/><w:tab w:val="center"/></w:tabs><w:rPr><w:b/></w:rPr><w:sectPr><w:pgSz w:w="15840" w:orient="landscape"/><w:headerReference w:type="first" r:id="rId7"/><w:cols w:num="2"/></w:sectPr></w:pPr>"#);
    assert_eq!(pp.justification, Some(Justification::Right));
    let ind = pp.indent.unwrap();
    assert_eq!(ind.left, Some(Twip(720)));
    assert_eq!(ind.hanging, Some(Twip(360)));
    assert!(ind.right.is_none());
    let sp = pp.spacing.unwrap();
    assert_eq!(sp.before, Some(Twip(240)));
    let line = sp.line.unwrap();
    assert_eq!((line.value, line.rule), (360, Some(LineSpacingRule::Exact)));
    let nr = pp.numbering_ref.unwrap();
    assert_eq!((nr.num_id, nr.ilvl), (7, 2));
    assert_eq!(pp.outline_level, None);
    assert_eq!(pp.keep_next, Some(true));
    assert_eq!(pp.tabs.len(), 1);
    assert_eq!(pp.tabs[0].position_twips, 1440);
    assert_eq!(pp.tabs[0].alignment, "left");
    assert_eq!(pp.tabs[0].leader.as_deref(), Some("dot"));
    assert_eq!(pp.run_properties.unwrap().bold, Some(true));
    let sect = pp.section_properties.unwrap();
    let size = sect.page_size.unwrap();
    assert_eq!((size.width, size.height, size.orient), (Twip(15840), Twip(15840), Some(PageOrientation::Landscape)));
    assert_eq!(sect.header_refs.len(), 1);
    assert_eq!(sect.header_refs[0].hf_type, HeaderFooterType::First);
    assert_eq!(sect.header_refs[0].relationship_id, "rId7");
    assert_eq!(sect.columns, Some(2));
}

#[test]
fn outline_levels_zero_to_eight() {
    assert_eq!(parse_outline_level(" 8 "), Some(8));
    assert_eq!(parse_outline_level("9"), None);
    assert_eq!(parse_outline_level("0"), Some(0));
    assert_eq!(parse_outline_level("x"), None);
}

#[test]
fn overlay_takes_what_the_source_states() {
    let mut a = RunProperties::default();
    a.bold = Some(true);
    a.font_name = Some("Times".to_string());
    let mut b = RunProperties::default();
    b.bold = Some(false);
    b.italic = Some(true);
    a.overlay(&b);
    assert_eq!(a.bold, Some(false));
    assert_eq!(a.italic, Some(true));
    assert_eq!(a.font_name.as_deref(), Some("Times"));

    let mut p = ppr(br#"<w:pPr><w:rPr><w:b/></w:rPr><w:pBdr><w:bottom/></w:pBdr></w:pPr>"#);
    let q = ppr(br#"<w:pPr><w:rPr><w:i/></w:rPr><w:jc w:val="center"/></w:pPr>"#);
    p.overlay(&q);
    let r = p.run_properties.as_ref().unwrap();
    assert_eq!((r.bold, r.italic), (Some(true), Some(true)));
    assert!(p.has_bottom_border);
    assert_eq!(p.justification, Some(Justification::Center));
}

#[test]
fn form_field_values() {
    let check = FormField { name: None, kind: FormFieldKind::CheckBox { checked: true }, display_text: None };
    assert_eq!(check.value_text().as_deref(), Some("\u{2612}"));
    let drop = FormField {
        name: None,
        kind: FormFieldKind::DropDown { entries: vec!["a".to_string(), "b".to_string()], selected: 5 },
        display_text: None,
    };
    assert_eq!(drop.value_text().as_deref(), Some("a"));
    let empty = FormField { name: None, kind: FormFieldKind::TextInput { default: Some(String::new()) }, display_text: None };
    assert_eq!(empty.value_text(), None);
    assert_eq!(FormField::default().value_text(), None);
}

fn first_tag(xml: &[u8]) -> XmlTag {
    let ev = read_xml_events(xml).unwrap();
    for e in ev {
        match e {
            XmlEvent::Empty(t) | XmlEvent::Start(t) => return t,
            XmlEvent::Eof => panic!("unexpected eof"),
            _ => {},
        }
    }
    panic!("unexpected eof")
}

#[test]
fn test_parse_toggle_bare() {
    let xml = br#"<w:b xmlns:w="http://schemas.openxmlformats.org/wordprocessingml/2006/main"/>"#;
    assert!(parse_toggle(&first_tag(xml)));
}

#[test]
fn test_parse_toggle_false() {
    let xml = br#"<w:b w:val="0" xmlns:w="http://schemas.openxmlformats.org/wordprocessingml/2006/main"/>"#;
    assert!(!parse_toggle(&first_tag(xml)));
}

#[test]
fn test_parse_run_props_bold_italic() {
    let xml = br#"<w:rPr xmlns:w="http://schemas.openxmlformats.org/wordprocessingml/2006/main">
            <w:b/>
            <w:i/>
            <w:sz w:val="24"/>
        </w:rPr>"#;
    let rp = rpr(xml);
    assert_eq!(rp.bold, Some(true));
    assert_eq!(rp.italic, Some(true));
    assert_eq!(rp.font_size, Some(HalfPoint(24)));
}

#[test]
fn test_parse_paragraph_props_style_justification() {
    let xml = br#"<w:pPr xmlns:w="http://schemas.openxmlformats.org/wordprocessingml/2006/main">
            <w:pStyle w:val="Heading1"/>
            <w:jc w:val="center"/>
            <w:outlineLvl w:val="0"/>
        </w:pPr>"#;
    let pp = ppr(xml);
    assert_eq!(pp.style_id.as_deref(), Some("Heading1"));
    assert_eq!(pp.justification, Some(Justification::Center));
    assert_eq!(pp.outline_level, Some(0));
}

#[test]
fn test_parse_indent_values() {
    let xml = br#"<w:ind w:left="720" w:hanging="360" xmlns:w="http://schemas.openxmlformats.org/wordprocessingml/2006/main"/>"#;
    let indent = parse_indent(&first_tag(xml)).unwrap();
    assert_eq!(indent.left, Some(Twip(720)));
    assert_eq!(indent.hanging, Some(Twip(360)));
    assert!(indent.right.is_none());
    assert!(indent.first_line.is_none());
}

#[test]
fn test_parse_frame_pr_empty_element() {
    let xml = br#"<w:pPr xmlns:w="http://schemas.openxmlformats.org/wordprocessingml/2006/main">
          <w:framePr w:x="720" w:y="1080" w:w="3000" w:h="500"/>
        </w:pPr>"#;
    let pp = ppr(xml);
    let fp = pp.frame_position.expect("framePr parsed");
    assert_eq!(fp.x_twips, 720);
    assert_eq!(fp.y_twips, 1080);
    assert_eq!(fp.width_twips, 3000);
    assert_eq!(fp.height_twips, 500);
}

#[test]
fn test_parse_frame_pr_missing_attrs_returns_none() {
    let xml = br#"<w:pPr xmlns:w="http://schemas.openxmlformats.org/wordprocessingml/2006/main">
          <w:framePr w:x="100" w:y="200" w:w="300"/>
        </w:pPr>"#;
    let pp = ppr(xml);
    assert!(pp.frame_position.is_none());
}

#[test]
fn test_parse_frame_pr_inside_start_form() {
    let xml = br#"<w:pPr xmlns:w="http://schemas.openxmlformats.org/wordprocessingml/2006/main">
          <w:framePr w:x="10" w:y="20" w:w="30" w:h="40"></w:framePr>
        </w:pPr>"#;
    let pp = ppr(xml);
    let fp = pp.frame_position.expect("framePr parsed");
    assert_eq!(fp.x_twips, 10);
    assert_eq!(fp.width_twips, 30);
}

#[test]
fn test_parse_p_bdr_with_bottom() {
    let xml = br#"<w:pPr xmlns:w="http://schemas.openxmlformats.org/wordprocessingml/2006/main">
          <w:pBdr>
            <w:bottom w:val="single" w:sz="6" w:space="1" w:color="auto"/>
          </w:pBdr>
        </w:pPr>"#;
    let pp = ppr(xml);
    assert!(pp.has_bottom_border);
}

#[test]
fn test_parse_p_bdr_without_bottom() {
    let xml = br#"<w:pPr xmlns:w="http://schemas.openxmlformats.org/wordprocessingml/2006/main">
          <w:pBdr>
            <w:top w:val="single" w:sz="6"/>
            <w:left w:val="single" w:sz="6"/>
          </w:pBdr>
        </w:pPr>"#;
    let pp = ppr(xml);
    assert!(!pp.has_bottom_border);
}

#[test]
fn test_paragraph_properties_default_has_no_frame_or_border() {
    let xml = br#"<w:pPr xmlns:w="http://schemas.openxmlformats.org/wordprocessingml/2006/main">
          <w:pStyle w:val="Normal"/>
        </w:pPr>"#;
    let pp = ppr(xml);
    assert!(pp.frame_position.is_none());
    assert!(!pp.has_bottom_border);
}
