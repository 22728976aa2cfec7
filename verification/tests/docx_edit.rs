use office_oxide::docx::edit::{
    count_paragraph_removals, extract_body_children, format_paragraph_containing,
    insert_before_body_end, paragraph_text, remove_paragraphs_containing,
    replace_in_wt_elements, unescape_xml, EditableDocx,
};
use office_oxide::edit::{DocxAlign, DocxFormat};

#[test]
fn replace_in_wt_simple() {
    let xml = r#"<w:p><w:r><w:t>Hello World</w:t></w:r></w:p>"#;
    let (result, count) = replace_in_wt_elements(xml, "World", "Rust");
    assert_eq!(count, 1);
    assert!(result.contains("<w:t>Hello Rust</w:t>"));
}

#[test]
fn replace_in_wt_multiple() {
    let xml = r#"<w:r><w:t>foo bar foo</w:t></w:r>"#;
    let (result, count) = replace_in_wt_elements(xml, "foo", "baz");
    assert_eq!(count, 2);
    assert!(result.contains("<w:t>baz bar baz</w:t>"));
}

#[test]
fn replace_preserves_attributes() {
    let xml = r#"<w:r><w:t xml:space="preserve"> Hello </w:t></w:r>"#;
    let (result, count) = replace_in_wt_elements(xml, "Hello", "World");
    assert_eq!(count, 1);
    assert!(result.contains(r#"xml:space="preserve"> World </w:t>"#));
}

#[test]
fn no_match_returns_zero() {
    let xml = r#"<w:r><w:t>Hello</w:t></w:r>"#;
    let (result, count) = replace_in_wt_elements(xml, "xyz", "abc");
    assert_eq!(count, 0);
    assert_eq!(result, xml);
}

#[test]
fn replace_skips_self_closing_and_text_outside_runs() {
    let (result, count) = replace_in_wt_elements("<w:t/>x<w:t>x</w:t>x", "x", "y");
    assert_eq!(result, "<w:t/>x<w:t>y</w:t>x");
    assert_eq!(count, 1);
}

#[test]
fn replace_with_empty_pattern_matches_every_position() {
    let (result, count) = replace_in_wt_elements("<w:t>ab</w:t>", "", "-");
    assert_eq!(result, "<w:t>-a-b-</w:t>");
    assert_eq!(count, 3);
}

#[test]
fn replace_stops_copying_at_unclosed_text() {
    let (result, count) = replace_in_wt_elements("<w:t>a a", "a", "b");
    assert_eq!(result, "<w:t>a a");
    assert_eq!(count, 0);
}

#[test]
fn unescape_replaces_entities_in_order() {
    assert_eq!(unescape_xml("&lt;a&gt; &amp;amp; &quot;q&quot; &apos;"), "<a> &amp; \"q\" '");
}

#[test]
fn paragraph_text_drops_tags_and_unescapes() {
    assert_eq!(paragraph_text("<w:p><w:r><w:t>A &amp; B</w:t></w:r></w:p>"), "A & B");
    assert_eq!(paragraph_text("<w:p/>"), "");
}

#[test]
fn remove_drops_matching_paragraphs_only() {
    let xml = "<w:body><w:p><w:r><w:t>keep</w:t></w:r></w:p><w:p><w:r><w:t>drop me</w:t></w:r></w:p></w:body>";
    let out = remove_paragraphs_containing(xml, "drop");
    assert_eq!(out, "<w:body><w:p><w:r><w:t>keep</w:t></w:r></w:p></w:body>");
    assert_eq!(count_paragraph_removals(xml, &out), 1);
    assert_eq!(count_paragraph_removals(&out, xml), 0);
}

#[test]
fn remove_matches_escaped_text() {
    let xml = "<w:p><w:t>a &lt; b</w:t></w:p><w:p><w:t>c</w:t></w:p>";
    assert_eq!(remove_paragraphs_containing(xml, "a < b"), "<w:p><w:t>c</w:t></w:p>");
}

#[test]
fn format_adds_new_properties_element() {
    let xml = "<w:p><w:r><w:t>Hi</w:t></w:r></w:p>";
    let fmt = DocxFormat {
        alignment: Some(DocxAlign::Center),
        spacing_before: Some(120),
        ..DocxFormat::default()
    };
    assert_eq!(
        format_paragraph_containing(xml, "Hi", &fmt).unwrap(),
        "<w:p><w:pPr><w:jc w:val=\"center\"/><w:spacing w:before=\"120\"/></w:pPr><w:r><w:t>Hi</w:t></w:r></w:p>"
    );
}

#[test]
fn format_merges_into_existing_properties() {
    let xml = "<w:p><w:pPr><w:pStyle w:val=\"X\"/></w:pPr><w:r><w:t>Hi</w:t></w:r></w:p>";
    let fmt = DocxFormat {
        indent_left: Some(720),
        indent_right: Some(0),
        alignment: Some(DocxAlign::Justify),
        ..DocxFormat::default()
    };
    assert_eq!(
        format_paragraph_containing(xml, "Hi", &fmt).unwrap(),
        "<w:p><w:pPr><w:pStyle w:val=\"X\"/><w:jc w:val=\"both\"/><w:ind w:left=\"720\" w:right=\"0\"/></w:pPr><w:r><w:t>Hi</w:t></w:r></w:p>"
    );
}

#[test]
fn format_only_first_match_and_nothing_for_empty_format() {
    let xml = "<w:p><w:t>x</w:t></w:p><w:p><w:t>x</w:t></w:p>";
    let fmt = DocxFormat { spacing_after: Some(5), ..DocxFormat::default() };
    assert_eq!(
        format_paragraph_containing(xml, "x", &fmt).unwrap(),
        "<w:p><w:pPr><w:spacing w:after=\"5\"/></w:pPr><w:t>x</w:t></w:p><w:p><w:t>x</w:t></w:p>"
    );
    assert!(format_paragraph_containing(xml, "x", &DocxFormat::default()).is_none());
    assert!(format_paragraph_containing(xml, "y", &fmt).is_none());
}

#[test]
fn format_merges_into_a_self_closing_properties_element() {
    let xml = r#"<w:p><w:pPr/><w:r><w:t>A</w:t></w:r></w:p><w:p><w:pPr><w:jc w:val="left"/></w:pPr><w:r><w:t>B</w:t></w:r></w:p>"#;
    let fmt = DocxFormat { alignment: Some(DocxAlign::Center), ..DocxFormat::default() };
    assert_eq!(
        format_paragraph_containing(xml, "A", &fmt).unwrap(),
        r#"<w:p><w:pPr><w:jc w:val="center"/></w:pPr><w:r><w:t>A</w:t></w:r></w:p><w:p><w:pPr><w:jc w:val="left"/></w:pPr><w:r><w:t>B</w:t></w:r></w:p>"#
    );
}

#[test]
fn format_inserts_after_an_unclosed_properties_tag() {
    let xml = "<w:p><w:pPr><w:r><w:t>Hi</w:t></w:r></w:p><w:p><w:pPr></w:pPr></w:p>";
    let fmt = DocxFormat { alignment: Some(DocxAlign::Left), ..DocxFormat::default() };
    assert_eq!(
        format_paragraph_containing(xml, "Hi", &fmt).unwrap(),
        "<w:p><w:pPr><w:jc w:val=\"left\"/><w:r><w:t>Hi</w:t></w:r></w:p><w:p><w:pPr></w:pPr></w:p>"
    );
}

#[test]
fn replace_touches_only_text_elements() {
    let xml = "<w:tc><w:p><w:r><w:t>Hi</w:t></w:r></w:p></w:tc>";
    assert_eq!(replace_in_wt_elements(xml, "w:p", "X"), (xml.to_string(), 0));
    let tab = r#"<w:tab/><w:t xml:space="preserve">a b</w:t><w:tbl>a</w:tbl>"#;
    assert_eq!(
        replace_in_wt_elements(tab, "a", "c"),
        (r#"<w:tab/><w:t xml:space="preserve">c b</w:t><w:tbl>a</w:tbl>"#.to_string(), 1)
    );
}

#[test]
fn remove_keeps_everything_outside_removed_paragraphs() {
    let xml = "<w:body><w:p><w:r><w:t>Drop</w:t></w:r></w:p></w:body>";
    assert_eq!(remove_paragraphs_containing(xml, "Drop"), "<w:body></w:body>");
}

#[test]
fn delete_counts_paragraphs_not_property_tags() {
    let xml = r#"<w:body><w:p><w:r><w:t>Keep</w:t></w:r></w:p><w:p><w:pPr><w:jc w:val="center"/></w:pPr><w:r><w:t>Drop me</w:t></w:r></w:p></w:body>"#;
    let mut doc = EditableDocx::from_main_part(Some(xml.to_string()));
    assert_eq!(doc.delete_paragraphs("Drop"), 1);
    assert_eq!(doc.main_part().unwrap(), "<w:body><w:p><w:r><w:t>Keep</w:t></w:r></w:p></w:body>");
    let out = remove_paragraphs_containing(xml, "Drop");
    assert_eq!(count_paragraph_removals(xml, &out), 1);
}

#[test]
fn body_children_between_tags() {
    assert_eq!(
        extract_body_children("<w:document><w:body a=\"1\"><w:p/></w:body></w:document>"),
        "<w:p/>"
    );
    assert_eq!(extract_body_children("<w:document></w:document>"), "");
    assert_eq!(extract_body_children("</w:body><w:body>"), "");
}

#[test]
fn editable_docx_edits_its_main_part() {
    let mut doc = EditableDocx::from_main_part(Some(
        "<w:body><w:p><w:t>one</w:t></w:p><w:p><w:t>two</w:t></w:p></w:body>".to_string(),
    ));
    assert_eq!(doc.replace_text("one", "uno"), 1);
    assert_eq!(doc.replace_text("zzz", "y"), 0);
    assert_eq!(doc.delete_paragraphs("two"), 1);
    let fmt = DocxFormat { alignment: Some(DocxAlign::Right), ..DocxFormat::default() };
    assert_eq!(doc.format_paragraph("uno", &fmt), 1);
    assert_eq!(
        doc.main_part().unwrap(),
        "<w:body><w:p><w:pPr><w:jc w:val=\"right\"/></w:pPr><w:t>uno</w:t></w:p></w:body>"
    );
    let mut empty = EditableDocx::from_main_part(None);
    assert_eq!(empty.replace_text("a", "b"), 0);
    assert_eq!(empty.delete_paragraphs("a"), 0);
    assert!(empty.into_main_part().is_none());
}

#[test]
fn insert_goes_before_the_last_body_end() {
    assert_eq!(
        insert_before_body_end("<w:body><w:p/></w:body>x</w:body>", "<w:tbl/>").unwrap(),
        "<w:body><w:p/></w:body>x<w:tbl/></w:body>"
    );
    assert!(insert_before_body_end("<w:body><w:p/>", "<w:tbl/>").is_none());
}

#[test]
fn editable_docx_appends_blocks_and_tables() {
    let mut doc = EditableDocx::from_main_part(Some("<w:body><w:sectPr/></w:body>".to_string()));
    assert_eq!(doc.append_blocks(2, ""), 0);
    assert_eq!(doc.append_blocks(2, "<w:p>a</w:p><w:p>b</w:p>"), 2);
    let rows = vec![vec!["x".to_string()]];
    assert_eq!(doc.append_table(&[], "<w:tbl/>"), 0);
    assert_eq!(doc.append_table(&rows, "<w:tbl/>"), 1);
    assert_eq!(
        doc.main_part().unwrap(),
        "<w:body><w:sectPr/><w:p>a</w:p><w:p>b</w:p><w:tbl/></w:body>"
    );
    let mut no_body = EditableDocx::from_main_part(Some("<w:document/>".to_string()));
    assert_eq!(no_body.append_blocks(1, "<w:p/>"), 0);
    assert_eq!(no_body.append_table(&rows, "<w:tbl/>"), 0);
    assert_eq!(no_body.main_part().unwrap(), "<w:document/>");
    let mut empty = EditableDocx::from_main_part(None);
    assert_eq!(empty.append_blocks(1, "<w:p/>"), 0);
    assert_eq!(empty.append_table(&rows, "<w:tbl/>"), 0);
}

#[test]
fn format_succeeds_only_with_a_match_and_a_property() {
    let xml = "<w:p><w:t>a</w:t></w:p><w:p><w:t>b</w:t></w:p>";
    let fmt = DocxFormat { indent_left: Some(10), ..DocxFormat::default() };
    assert!(format_paragraph_containing(xml, "zzz", &fmt).is_none());
    assert!(format_paragraph_containing(xml, "b", &DocxFormat::default()).is_none());
    let out = format_paragraph_containing(xml, "b", &fmt).unwrap();
    assert_eq!(out, "<w:p><w:t>a</w:t></w:p><w:p><w:pPr><w:ind w:left=\"10\"/></w:pPr><w:t>b</w:t></w:p>");
    let mut doc = EditableDocx::from_main_part(Some(xml.to_string()));
    assert_eq!(doc.format_paragraph("zzz", &fmt), 0);
    assert_eq!(doc.main_part().unwrap(), xml);
    assert_eq!(doc.format_paragraph("b", &fmt), 1);
    assert_eq!(doc.main_part().unwrap(), out.as_str());
}
