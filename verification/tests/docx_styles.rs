use office_oxide::docx::formatting::{HalfPoint, RunProperties};
use office_oxide::docx::styles::{StyleSheet, StyleSheetError, StyleType};

const SAMPLE_STYLES: &[u8] = br#"<?xml version="1.0" encoding="UTF-8" standalone="yes"?>
<w:styles xmlns:w="http://schemas.openxmlformats.org/wordprocessingml/2006/main">
  <w:docDefaults>
    <w:rPrDefault>
      <w:rPr>
        <w:sz w:val="22"/>
      </w:rPr>
    </w:rPrDefault>
  </w:docDefaults>
  <w:style w:type="paragraph" w:styleId="Normal">
    <w:name w:val="Normal"/>
  </w:style>
  <w:style w:type="paragraph" w:styleId="Heading1">
    <w:name w:val="heading 1"/>
    <w:basedOn w:val="Normal"/>
    <w:pPr>
      <w:outlineLvl w:val="0"/>
    </w:pPr>
    <w:rPr>
      <w:b/>
      <w:sz w:val="32"/>
    </w:rPr>
  </w:style>
  <w:style w:type="character" w:styleId="Strong">
    <w:name w:val="Strong"/>
    <w:rPr>
      <w:b/>
    </w:rPr>
  </w:style>
</w:styles>"#;

#[test]
fn test_parse_stylesheet() {
    let sheet = StyleSheet::parse(SAMPLE_STYLES).unwrap();
    assert_eq!(sheet.style_count(), 3);
    assert!(sheet.doc_defaults.is_some());
}

#[test]
fn test_parse_doc_defaults_font_size() {
    let sheet = StyleSheet::parse(SAMPLE_STYLES).unwrap();
    let defaults = sheet.doc_defaults.as_ref().unwrap();
    let rp = defaults.run_properties.as_ref().unwrap();
    assert_eq!(rp.font_size, Some(HalfPoint(22)));
}

#[test]
fn test_parse_heading1_style() {
    let sheet = StyleSheet::parse(SAMPLE_STYLES).unwrap();
    let h1 = sheet.get("Heading1").unwrap();
    assert_eq!(h1.name.as_deref(), Some("heading 1"));
    assert_eq!(h1.based_on.as_deref(), Some("Normal"));
    assert_eq!(h1.style_type, StyleType::Paragraph);

    let pp = h1.paragraph_properties.as_ref().unwrap();
    assert_eq!(pp.outline_level, Some(0));

    let rp = h1.run_properties.as_ref().unwrap();
    assert_eq!(rp.bold, Some(true));
    assert_eq!(rp.font_size, Some(HalfPoint(32)));
}

#[test]
fn test_resolve_outline_level() {
    let sheet = StyleSheet::parse(SAMPLE_STYLES).unwrap();
    assert_eq!(sheet.resolve_outline_level("Heading1"), Some(0));
    assert_eq!(sheet.resolve_outline_level("Normal"), None);
}

#[test]
fn effective_run_properties_fold_defaults_styles_and_direct() {
    let sheet = StyleSheet::parse(SAMPLE_STYLES).unwrap();
    let plain = sheet.effective_run_properties(Some("Heading1"), None);
    assert_eq!(plain.font_size, Some(HalfPoint(32)));
    assert_eq!(plain.bold, Some(true));
    let mut direct = RunProperties::default();
    direct.bold = Some(false);
    direct.style_id = Some("Strong".to_string());
    let r = sheet.effective_run_properties(Some("Normal"), Some(&direct));
    assert_eq!(r.bold, Some(false));
    assert_eq!(r.font_size, Some(HalfPoint(22)));
    assert_eq!(r.style_id.as_deref(), Some("Strong"));
}

#[test]
fn effective_hidden_follows_the_same_precedence() {
    let xml = br#"<w:styles>
      <w:style w:styleId="Secret"><w:rPr><w:vanish/></w:rPr></w:style>
      <w:style w:styleId="Shown"><w:basedOn w:val="Secret"/><w:rPr><w:vanish w:val="0"/></w:rPr></w:style>
    </w:styles>"#;
    let sheet = StyleSheet::parse(xml).unwrap();
    assert!(sheet.effective_hidden(Some("Secret"), None));
    assert!(!sheet.effective_hidden(Some("Shown"), None));
    assert!(!sheet.effective_hidden(None, None));
    let mut direct = RunProperties::default();
    direct.hidden = Some(true);
    assert!(sheet.effective_hidden(Some("Shown"), Some(&direct)));
    let e = sheet.effective_run_properties(Some("Secret"), None);
    assert_eq!(e.hidden, Some(true));
}

#[test]
fn effective_paragraph_properties_use_the_paragraph_style() {
    let sheet = StyleSheet::parse(SAMPLE_STYLES).unwrap();
    let h1 = sheet.get("Heading1").unwrap();
    let mut direct = h1.paragraph_properties.clone().unwrap();
    direct.style_id = Some("Heading1".to_string());
    direct.outline_level = None;
    let e = sheet.effective_paragraph_properties(Some(&direct));
    assert_eq!(e.outline_level, Some(0));
    assert_eq!(e.style_id.as_deref(), Some("Heading1"));
    assert!(sheet.effective_paragraph_properties(None).style_id.is_none());
}

#[test]
fn based_on_cycle_ends() {
    let xml = br#"<w:styles>
      <w:style w:styleId="A"><w:basedOn w:val="B"/></w:style>
      <w:style w:styleId="B"><w:basedOn w:val="A"/><w:pPr><w:outlineLvl w:val="3"/></w:pPr></w:style>
    </w:styles>"#;
    let sheet = StyleSheet::parse(xml).unwrap();
    assert_eq!(sheet.resolve_outline_level("A"), Some(3));
    assert_eq!(sheet.effective_run_properties(Some("A"), None).bold, None);
}

#[test]
fn later_style_with_same_id_replaces() {
    let xml = br#"<w:styles>
      <w:style w:styleId="S"><w:name w:val="first"/></w:style>
      <w:style w:styleId="S"><w:name w:val="second"/></w:style>
      <w:style w:type="character"><w:name w:val="no id"/></w:style>
    </w:styles>"#;
    let sheet = StyleSheet::parse(xml).unwrap();
    assert_eq!(sheet.style_count(), 1);
    assert_eq!(sheet.get("S").unwrap().name.as_deref(), Some("second"));
    assert!(sheet.get("missing").is_none());
}

#[test]
fn bad_size_and_bad_xml_are_errors() {
    let bad_number = br#"<w:styles><w:docDefaults><w:rPrDefault><w:rPr><w:sz w:val="big"/></w:rPr></w:rPrDefault></w:docDefaults></w:styles>"#;
    assert_eq!(StyleSheet::parse(bad_number).err(), Some(StyleSheetError::InvalidNumber));
    let bad_xml = br#"<w:styles><w:style w:styleId="A" w:type="x" w:type="y"/></w:styles>"#;
    assert_eq!(StyleSheet::parse(bad_xml).err(), Some(StyleSheetError::Xml));
}
