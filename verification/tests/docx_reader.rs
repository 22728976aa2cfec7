use office_oxide::docx::document::BlockElement;
use office_oxide::docx::formatting::{HalfPoint, Justification};
use office_oxide::docx::hyperlink::HyperlinkTarget;
use office_oxide::docx::image::{AnchorFrame, ShapeKind};
use office_oxide::docx::paragraph::{BreakType, ParagraphContent, RunContent};
use office_oxide::docx::reader::{
    header_footer_parts, media_relationships, PackageRelationship, parse_body_elements, parse_drawing, parse_table_width, read_document,
    PartLinks, ReadError, Relationship,
};
use office_oxide::docx::embedded_font_name;
use office_oxide::docx::document::HeaderFooter;
use office_oxide::docx::formatting::HeaderFooterType;
use office_oxide::docx::text::{split_headers_footers, to_markdown_with_baseurl};
use office_oxide::docx::table::{MergeType, TableCell, TableCellProperties, TableWidthType};
use office_oxide::docx::text::{blocks_markdown, blocks_plain_text};
use office_oxide::docx::xml::{read_xml_events, XmlEvent};

fn no_links() -> PartLinks {
    PartLinks { hyperlinks: Vec::new(), media: Vec::new() }
}

fn body(xml: &[u8]) -> Vec<BlockElement> {
    read_document(xml, &no_links()).unwrap().0.elements
}

fn plain(xml: &[u8]) -> String {
    blocks_plain_text(&body(xml))
}

fn markdown(xml: &[u8]) -> String {
    blocks_markdown(&body(xml), None, None)
}

fn drawing_events(xml: &[u8]) -> (Vec<XmlEvent>, usize) {
    let ev = read_xml_events(xml).unwrap();
    let at = ev
        .iter()
        .position(|e| matches!(e, XmlEvent::Start(t) if t.name == "drawing"))
        .expect("no drawing");
    (ev, at + 1)
}

#[test]
fn parse_empty_document() {
    let xml = br#"<?xml version="1.0" encoding="UTF-8" standalone="yes"?>
<w:document xmlns:w="http://schemas.openxmlformats.org/wordprocessingml/2006/main">
  <w:body/>
</w:document>"#;
    let elements = body(xml);
    assert!(elements.is_empty());
    assert_eq!(blocks_plain_text(&elements), "");
}

#[test]
fn parse_single_paragraph() {
    let xml = br#"<?xml version="1.0" encoding="UTF-8" standalone="yes"?>
<w:document xmlns:w="http://schemas.openxmlformats.org/wordprocessingml/2006/main">
  <w:body>
    <w:p>
      <w:r>
        <w:t>Hello, World!</w:t>
      </w:r>
    </w:p>
  </w:body>
</w:document>"#;
    assert_eq!(body(xml).len(), 1);
    assert_eq!(plain(xml), "Hello, World!");
}

#[test]
fn parse_multiple_paragraphs() {
    let xml = br#"<?xml version="1.0" encoding="UTF-8" standalone="yes"?>
<w:document xmlns:w="http://schemas.openxmlformats.org/wordprocessingml/2006/main">
  <w:body>
    <w:p>
      <w:r><w:t>First paragraph.</w:t></w:r>
    </w:p>
    <w:p>
      <w:r><w:t>Second paragraph.</w:t></w:r>
    </w:p>
  </w:body>
</w:document>"#;
    assert_eq!(body(xml).len(), 2);
    assert_eq!(plain(xml), "First paragraph.\nSecond paragraph.");
}

#[test]
fn parse_multiple_runs() {
    let xml = br#"<?xml version="1.0" encoding="UTF-8" standalone="yes"?>
<w:document xmlns:w="http://schemas.openxmlformats.org/wordprocessingml/2006/main">
  <w:body>
    <w:p>
      <w:r><w:t xml:space="preserve">Hello </w:t></w:r>
      <w:r><w:t>World</w:t></w:r>
    </w:p>
  </w:body>
</w:document>"#;
    assert_eq!(plain(xml), "Hello World");
}

#[test]
fn parse_break_and_tab() {
    let xml = br#"<?xml version="1.0" encoding="UTF-8" standalone="yes"?>
<w:document xmlns:w="http://schemas.openxmlformats.org/wordprocessingml/2006/main">
  <w:body>
    <w:p>
      <w:r>
        <w:t>Before</w:t>
        <w:tab/>
        <w:t>After</w:t>
      </w:r>
    </w:p>
  </w:body>
</w:document>"#;
    assert_eq!(plain(xml), "Before\tAfter");
}

#[test]
fn parse_table_basic() {
    let xml = br#"<?xml version="1.0" encoding="UTF-8" standalone="yes"?>
<w:document xmlns:w="http://schemas.openxmlformats.org/wordprocessingml/2006/main">
  <w:body>
    <w:tbl>
      <w:tr>
        <w:tc><w:p><w:r><w:t>A1</w:t></w:r></w:p></w:tc>
        <w:tc><w:p><w:r><w:t>B1</w:t></w:r></w:p></w:tc>
      </w:tr>
      <w:tr>
        <w:tc><w:p><w:r><w:t>A2</w:t></w:r></w:p></w:tc>
        <w:tc><w:p><w:r><w:t>B2</w:t></w:r></w:p></w:tc>
      </w:tr>
    </w:tbl>
  </w:body>
</w:document>"#;
    let elements = body(xml);
    assert_eq!(elements.len(), 1);
    if let BlockElement::Table(ref table) = elements[0] {
        assert_eq!(table.rows.len(), 2);
        assert_eq!(table.rows[0].cells.len(), 2);
    } else {
        panic!("expected table");
    }
    assert_eq!(blocks_plain_text(&elements), "A1\tB1\nA2\tB2");
}

#[test]
fn parse_paragraph_with_formatting() {
    let xml = br#"<?xml version="1.0" encoding="UTF-8" standalone="yes"?>
<w:document xmlns:w="http://schemas.openxmlformats.org/wordprocessingml/2006/main">
  <w:body>
    <w:p>
      <w:pPr>
        <w:pStyle w:val="Heading1"/>
        <w:jc w:val="center"/>
      </w:pPr>
      <w:r>
        <w:rPr>
          <w:b/>
          <w:sz w:val="32"/>
        </w:rPr>
        <w:t>Bold Heading</w:t>
      </w:r>
    </w:p>
  </w:body>
</w:document>"#;
    let elements = body(xml);
    if let BlockElement::Paragraph(ref p) = elements[0] {
        let pp = p.properties.as_ref().unwrap();
        assert_eq!(pp.style_id.as_deref(), Some("Heading1"));
        assert_eq!(pp.justification, Some(Justification::Center));
        if let ParagraphContent::Run(ref run) = p.content[0] {
            let rp = run.properties.as_ref().unwrap();
            assert_eq!(rp.bold, Some(true));
            assert_eq!(rp.font_size, Some(HalfPoint(32)));
        } else {
            panic!("expected run");
        }
    } else {
        panic!("expected paragraph");
    }
}

#[test]
fn markdown_bold_italic() {
    let xml = br#"<?xml version="1.0" encoding="UTF-8" standalone="yes"?>
<w:document xmlns:w="http://schemas.openxmlformats.org/wordprocessingml/2006/main">
  <w:body>
    <w:p>
      <w:r>
        <w:rPr><w:b/></w:rPr>
        <w:t>bold</w:t>
      </w:r>
      <w:r>
        <w:t xml:space="preserve"> and </w:t>
      </w:r>
      <w:r>
        <w:rPr><w:i/></w:rPr>
        <w:t>italic</w:t>
      </w:r>
    </w:p>
  </w:body>
</w:document>"#;
    assert_eq!(markdown(xml), "**bold** and *italic*");
}

#[test]
fn markdown_table() {
    let xml = br#"<?xml version="1.0" encoding="UTF-8" standalone="yes"?>
<w:document xmlns:w="http://schemas.openxmlformats.org/wordprocessingml/2006/main">
  <w:body>
    <w:tbl>
      <w:tr>
        <w:tc><w:p><w:r><w:t>Header1</w:t></w:r></w:p></w:tc>
        <w:tc><w:p><w:r><w:t>Header2</w:t></w:r></w:p></w:tc>
      </w:tr>
      <w:tr>
        <w:tc><w:p><w:r><w:t>Cell1</w:t></w:r></w:p></w:tc>
        <w:tc><w:p><w:r><w:t>Cell2</w:t></w:r></w:p></w:tc>
      </w:tr>
    </w:tbl>
  </w:body>
</w:document>"#;
    let md = markdown(xml);
    assert!(md.contains("| Header1 | Header2 |"));
    assert!(md.contains("| --- | --- |"));
    assert!(md.contains("| Cell1 | Cell2 |"));
}

#[test]
fn parse_drawing_anchor_position() {
    let xml = br#"<w:drawing xmlns:w="http://schemas.openxmlformats.org/wordprocessingml/2006/main"
                xmlns:wp="http://schemas.openxmlformats.org/drawingml/2006/wordprocessingDrawing"
                xmlns:a="http://schemas.openxmlformats.org/drawingml/2006/main"
                xmlns:r="http://schemas.openxmlformats.org/officeDocument/2006/relationships">
            <wp:anchor>
                <wp:positionH relativeFrom="page"><wp:posOffset>914400</wp:posOffset></wp:positionH>
                <wp:positionV relativeFrom="page"><wp:posOffset>457200</wp:posOffset></wp:positionV>
                <wp:extent cx="2000000" cy="1500000"/>
                <a:graphic><a:graphicData uri="">
                    <pic:pic xmlns:pic="http://schemas.openxmlformats.org/drawingml/2006/picture">
                        <pic:blipFill><a:blip r:embed="rId7"/></pic:blipFill>
                    </pic:pic>
                </a:graphicData></a:graphic>
            </wp:anchor>
        </w:drawing>"#;
    let (ev, at) = drawing_events(xml);
    let info = parse_drawing(&ev, at, &[]).0.expect("drawing");
    assert!(!info.inline);
    let pos = info.anchor_position.expect("anchor position");
    assert_eq!(pos.x_emu, 914400);
    assert_eq!(pos.y_emu, 457200);
    assert_eq!(pos.h_relative_from, AnchorFrame::Page);
    assert_eq!(info.relationship_id, "rId7");
}

#[test]
fn parse_drawing_wsp_line_shape() {
    let xml = br#"<w:drawing xmlns:w="http://schemas.openxmlformats.org/wordprocessingml/2006/main"
                xmlns:wp="http://schemas.openxmlformats.org/drawingml/2006/wordprocessingDrawing"
                xmlns:a="http://schemas.openxmlformats.org/drawingml/2006/main"
                xmlns:wps="http://schemas.microsoft.com/office/word/2010/wordprocessingShape">
            <wp:anchor>
                <wp:positionH relativeFrom="page"><wp:posOffset>100000</wp:posOffset></wp:positionH>
                <wp:positionV relativeFrom="page"><wp:posOffset>200000</wp:posOffset></wp:positionV>
                <wp:extent cx="500000" cy="0"/>
                <a:graphic><a:graphicData>
                    <wps:wsp>
                        <wps:spPr>
                            <a:prstGeom prst="line"/>
                            <a:ln w="9525">
                                <a:solidFill><a:srgbClr val="FF0000"/></a:solidFill>
                            </a:ln>
                        </wps:spPr>
                    </wps:wsp>
                </a:graphicData></a:graphic>
            </wp:anchor>
        </w:drawing>"#;
    let (ev, at) = drawing_events(xml);
    let info = parse_drawing(&ev, at, &[]).0.expect("drawing");
    let shape = info.shape.expect("shape");
    assert_eq!(shape.kind, ShapeKind::Line);
    assert_eq!(shape.stroke_rgb, Some((0xFF, 0x00, 0x00)));
    assert_eq!(shape.stroke_w_emu, Some(9525));
}

#[test]
fn section_properties() {
    let xml = br#"<?xml version="1.0" encoding="UTF-8" standalone="yes"?>
<w:document xmlns:w="http://schemas.openxmlformats.org/wordprocessingml/2006/main">
  <w:body>
    <w:p><w:r><w:t>Content</w:t></w:r></w:p>
    <w:sectPr>
      <w:pgSz w:w="12240" w:h="15840"/>
      <w:pgMar w:top="1440" w:bottom="1440" w:left="1800" w:right="1800"/>
    </w:sectPr>
  </w:body>
</w:document>"#;
    let (_, sections) = read_document(xml, &no_links()).unwrap();
    assert_eq!(sections.len(), 1);
    let sect = &sections[0];
    let ps = sect.page_size.as_ref().unwrap();
    assert_eq!(ps.width.0, 12240);
    assert_eq!(ps.height.0, 15840);
    let margins = sect.margins.as_ref().unwrap();
    assert_eq!(margins.left.0, 1800);
}

#[test]
fn mid_document_section_break_is_recorded() {
    let xml = br#"<w:document xmlns:w="w"><w:body>
    <w:p><w:pPr><w:sectPr><w:pgSz w:w="100" w:h="200"/></w:sectPr></w:pPr><w:r><w:t>one</w:t></w:r></w:p>
    <w:p><w:r><w:t>two</w:t></w:r></w:p>
    <w:sectPr><w:pgSz w:w="300" w:h="400"/></w:sectPr>
    </w:body></w:document>"#;
    let (b, sections) = read_document(xml, &no_links()).unwrap();
    assert_eq!(b.section_breaks, vec![1]);
    assert_eq!(sections.len(), 2);
    assert_eq!(sections[0].page_size.unwrap().width.0, 100);
    assert_eq!(sections[1].page_size.unwrap().width.0, 300);
}

#[test]
fn hyperlinks_resolve_through_relationships() {
    let xml = br#"<w:document xmlns:w="w" xmlns:r="r"><w:body><w:p>
    <w:hyperlink r:id="rId5" w:anchor="top" w:tooltip="tip"><w:r><w:t>site</w:t></w:r></w:hyperlink>
    <w:hyperlink w:anchor="intro"><w:r><w:t>intro</w:t></w:r></w:hyperlink>
    <w:hyperlink r:id="rId9"><w:r><w:t>other</w:t></w:r></w:hyperlink>
    </w:p></w:body></w:document>"#;
    let rels = vec![Relationship {
        id: "rId5".to_string(),
        target: "https://example.com".to_string(),
        external: true,
    }];
    let links = PartLinks { hyperlinks: rels, media: Vec::new() };
    let (b, _) = read_document(xml, &links).unwrap();
    let p = match &b.elements[0] {
        BlockElement::Paragraph(p) => p,
        _ => panic!("expected paragraph"),
    };
    match &p.content[0] {
        ParagraphContent::Hyperlink(h) => {
            assert_eq!(h.target, HyperlinkTarget::External("https://example.com".to_string()));
            assert_eq!(h.fragment.as_deref(), Some("top"));
            assert_eq!(h.tooltip.as_deref(), Some("tip"));
            assert_eq!(h.runs.len(), 1);
        },
        _ => panic!("expected hyperlink"),
    }
    match &p.content[1] {
        ParagraphContent::Hyperlink(h) => {
            assert_eq!(h.target, HyperlinkTarget::Internal("intro".to_string()));
            assert!(h.fragment.is_none());
        },
        _ => panic!("expected hyperlink"),
    }
    match &p.content[2] {
        ParagraphContent::Hyperlink(h) => {
            assert_eq!(h.target, HyperlinkTarget::External("rId9".to_string()));
        },
        _ => panic!("expected hyperlink"),
    }
    assert_eq!(
        blocks_markdown(&b.elements, None, None),
        "[site](https://example.com)[intro](#intro)[other](rId9)"
    );
}

#[test]
fn entities_and_breaks_in_runs() {
    let xml = br#"<w:document xmlns:w="w"><w:body><w:p><w:r>
    <w:t>a &amp; b &#65;</w:t><w:br/><w:br w:type="page"/><w:t></w:t>
    </w:r></w:p></w:body></w:document>"#;
    let elements = body(xml);
    let p = match &elements[0] {
        BlockElement::Paragraph(p) => p,
        _ => panic!("expected paragraph"),
    };
    match &p.content[0] {
        ParagraphContent::Run(r) => {
            assert_eq!(r.content.len(), 3);
            assert!(matches!(&r.content[0], RunContent::Text(t) if t == "a & b A"));
            assert!(matches!(r.content[1], RunContent::Break(BreakType::Line)));
            assert!(matches!(r.content[2], RunContent::Break(BreakType::Page)));
        },
        _ => panic!("expected run"),
    }
}

#[test]
fn table_properties_grid_and_cells() {
    let xml = br#"<w:document xmlns:w="w"><w:body><w:tbl>
    <w:tblPr><w:tblW w:w="5000" w:type="pct"/><w:jc w:val="center"/><w:tblStyle w:val="Grid"/></w:tblPr>
    <w:tblGrid><w:gridCol w:w="2000"/><w:gridCol w:w="x"/></w:tblGrid>
    <w:tr><w:trPr><w:tblHeader/></w:trPr>
      <w:tc><w:tcPr><w:tcW w:w="2000" w:type="dxa"/><w:vMerge w:val="restart"/><w:gridSpan w:val="2"/><w:shd w:fill="FF0000"/></w:tcPr>
        <w:p><w:r><w:t>x</w:t></w:r></w:p>
        <w:tbl><w:tr><w:tc><w:p><w:r><w:t>inner</w:t></w:r></w:p></w:tc></w:tr></w:tbl>
      </w:tc>
    </w:tr></w:tbl></w:body></w:document>"#;
    let elements = body(xml);
    let t = match &elements[0] {
        BlockElement::Table(t) => t,
        _ => panic!("expected table"),
    };
    let tp = t.properties.as_ref().unwrap();
    let w = tp.width.unwrap();
    assert_eq!(w.value, 5000);
    assert_eq!(w.width_type, TableWidthType::Pct);
    assert_eq!(tp.justification, Some(Justification::Center));
    assert_eq!(tp.style_id.as_deref(), Some("Grid"));
    assert_eq!(t.grid.iter().map(|g| g.0).collect::<Vec<_>>(), vec![2000, 0]);
    let row = &t.rows[0];
    assert!(row.properties.unwrap().is_header);
    let cell = &row.cells[0];
    let cp = cell.properties.as_ref().unwrap();
    assert_eq!(cp.vertical_merge, Some(MergeType::Restart));
    assert_eq!(cp.grid_span, Some(2));
    assert_eq!(cp.shading.as_ref().unwrap().fill.as_deref(), Some("FF0000"));
    assert_eq!(cell.content.len(), 2);
    assert!(matches!(cell.content[1], BlockElement::Table(_)));
    assert_eq!(blocks_plain_text(&elements), "x inner");
}

#[test]
fn table_width_tag_kinds() {
    let ev = read_xml_events(br#"<a w:w="12" w:type="nil"/>"#).unwrap();
    match &ev[0] {
        XmlEvent::Empty(t) => {
            let w = parse_table_width(t).unwrap();
            assert_eq!(w.value, 12);
            assert_eq!(w.width_type, TableWidthType::Nil);
        },
        _ => panic!("expected tag"),
    }
    let ev = read_xml_events(br#"<a w:type="pct"/>"#).unwrap();
    match &ev[0] {
        XmlEvent::Empty(t) => assert!(parse_table_width(t).is_none()),
        _ => panic!("expected tag"),
    }
}

#[test]
fn header_parts_read_blocks_at_any_depth() {
    let xml = br#"<w:hdr xmlns:w="w"><w:sdt><w:sdtContent><w:p><w:r><w:t>Header</w:t></w:r></w:p></w:sdtContent></w:sdt></w:hdr>"#;
    let elements = parse_body_elements(xml, &no_links()).unwrap();
    assert_eq!(elements.len(), 1);
    assert_eq!(blocks_plain_text(&elements), "Header");
    assert_eq!(parse_body_elements(b"<a x=1/>", &no_links()).err(), Some(ReadError::Xml));
}

#[test]
fn malformed_number_is_an_error() {
    let xml = br#"<w:document xmlns:w="w"><w:body><w:p><w:r><w:rPr><w:sz w:val="big"/></w:rPr></w:r></w:p></w:body></w:document>"#;
    assert_eq!(read_document(xml, &no_links()).err(), Some(ReadError::InvalidNumber));
    assert_eq!(read_document(b"<a attr=x/>", &no_links()).err(), Some(ReadError::Xml));
}

#[test]
fn headings_from_outline_level() {
    let xml = br#"<w:document xmlns:w="w"><w:body>
    <w:p><w:pPr><w:outlineLvl w:val="1"/></w:pPr><w:r><w:t>Title</w:t></w:r></w:p>
    <w:p><w:r><w:t>Body</w:t></w:r></w:p>
    </w:body></w:document>"#;
    assert_eq!(markdown(xml), "## Title\n\nBody");
}

#[test]
fn test_table_cell_properties_size_stays_boxed() {
    assert!(
        std::mem::size_of::<TableCellProperties>() <= 200,
        "TableCellProperties grew to {} bytes",
        std::mem::size_of::<TableCellProperties>()
    );
    assert!(
        std::mem::size_of::<TableCell>() <= 250,
        "TableCell grew to {} bytes",
        std::mem::size_of::<TableCell>()
    );
}

const PICTURE_DOC: &[u8] = br#"<w:document xmlns:w="w" xmlns:wp="wp" xmlns:a="a" xmlns:r="r"><w:body><w:p><w:r><w:drawing>
<wp:inline><wp:extent cx="10" cy="20"/><wp:docPr id="1" descr="logo"/>
<a:graphic><a:graphicData><pic:pic xmlns:pic="pic"><pic:blipFill><a:blip r:embed="rId3"/></pic:blipFill></pic:pic></a:graphicData></a:graphic>
</wp:inline></w:drawing></w:r></w:p></w:body></w:document>"#;

#[test]
fn drawing_media_paths_resolve_by_relationship_id() {
    let links = PartLinks {
        hyperlinks: Vec::new(),
        media: vec![Relationship {
            id: "rId3".to_string(),
            target: "word/media/image1.png".to_string(),
            external: false,
        }],
    };
    let (b, _) = read_document(PICTURE_DOC, &links).unwrap();
    let p = match &b.elements[0] {
        BlockElement::Paragraph(p) => p,
        _ => panic!("expected paragraph"),
    };
    let d = match &p.content[0] {
        ParagraphContent::Run(r) => match &r.content[0] {
            RunContent::Drawing(d) => d,
            _ => panic!("expected drawing"),
        },
        _ => panic!("expected run"),
    };
    assert_eq!(d.relationship_id, "rId3");
    assert_eq!(d.media_path.as_deref(), Some("word/media/image1.png"));
    assert_eq!(d.description.as_deref(), Some("logo"));
    assert!(d.inline);
    assert_eq!(d.width.0, 10);
    assert_eq!(d.height.0, 20);
    assert_eq!(
        blocks_markdown(&b.elements, None, Some("/files/")),
        "![logo](/files/word/media/image1.png)"
    );
    let (b2, _) = read_document(PICTURE_DOC, &no_links()).unwrap();
    assert_eq!(blocks_markdown(&b2.elements, None, Some("/files")), "![logo](rId3)");
}

fn hf(is_header: bool, xml: &[u8]) -> HeaderFooter {
    HeaderFooter {
        hf_type: HeaderFooterType::Default,
        content: parse_body_elements(xml, &no_links()).unwrap(),
        is_header,
    }
}

#[test]
fn markdown_puts_distinct_headers_before_and_footers_after_the_body() {
    let hfs = vec![
        hf(true, br#"<w:hdr xmlns:w="w"><w:p><w:r><w:t>My header</w:t></w:r></w:p></w:hdr>"#),
        hf(false, br#"<w:ftr xmlns:w="w"><w:p><w:r><w:t>My footer</w:t></w:r></w:p></w:ftr>"#),
        hf(true, br#"<w:hdr xmlns:w="w"><w:p><w:r><w:t>My header</w:t></w:r></w:p></w:hdr>"#),
        hf(true, br#"<w:hdr xmlns:w="w"><w:p></w:p></w:hdr>"#),
    ];
    let (heads, foots) = split_headers_footers(&hfs, None, None);
    assert_eq!(heads, vec!["My header".to_string()]);
    assert_eq!(foots, vec!["My footer".to_string()]);
    let xml = br#"<w:document xmlns:w="w"><w:body><w:p><w:r><w:t>Body</w:t></w:r></w:p></w:body></w:document>"#;
    let md = to_markdown_with_baseurl(&body(xml), &hfs, None, None);
    assert_eq!(md, "My header\n\nBody\n\n\nMy footer");
}

fn rel(id: &str, target: &str, external: bool) -> Relationship {
    Relationship { id: id.to_string(), target: target.to_string(), external }
}

#[test]
fn header_footer_parts_follow_sections_headers_then_footers() {
    let xml = br#"<w:document xmlns:w="w" xmlns:r="r"><w:body>
        <w:p><w:pPr><w:sectPr><w:headerReference w:type="first" r:id="rId9"/></w:sectPr></w:pPr></w:p>
        <w:sectPr>
          <w:footerReference w:type="default" r:id="rId2"/>
          <w:headerReference w:type="even" r:id="rId1"/>
          <w:headerReference w:type="default" r:id="rIdX"/>
          <w:headerReference w:type="default" r:id="rId3"/>
        </w:sectPr></w:body></w:document>"#;
    let (_, sections) = read_document(xml, &no_links()).unwrap();
    assert_eq!(sections.len(), 2);
    let rels = vec![
        rel("rId1", "header1.xml", false),
        rel("rId2", "footer1.xml", false),
        rel("rId3", "http://example.com/h.xml", true),
        rel("rId9", "header2.xml", false),
        rel("rId1", "shadowed.xml", false),
    ];
    let parts = header_footer_parts(&sections, &rels);
    let got: Vec<(HeaderFooterType, &str, bool)> =
        parts.iter().map(|p| (p.hf_type, p.target.as_str(), p.is_header)).collect();
    assert_eq!(
        got,
        vec![
            (HeaderFooterType::First, "header2.xml", true),
            (HeaderFooterType::Even, "header1.xml", true),
            (HeaderFooterType::Default, "footer1.xml", false),
        ]
    );
    assert!(header_footer_parts(&sections, &[]).is_empty());
}

#[test]
fn embedded_fonts_are_named_by_their_face() {
    assert_eq!(
        embedded_font_name("/word/fonts/font_4_TeXGyreTermesX-Regular.ttf").as_deref(),
        Some("TeXGyreTermesX-Regular")
    );
    assert_eq!(embedded_font_name("/word/fonts/Noto.OTF").as_deref(), Some("Noto"));
    assert_eq!(embedded_font_name("/word/fonts/font_x_Face.ttf").as_deref(), Some("font_x_Face"));
    assert_eq!(embedded_font_name("/word/fonts/.ttf").as_deref(), Some(".ttf"));
    assert_eq!(embedded_font_name("/word/fonts/a.woff"), None);
    assert_eq!(embedded_font_name("/word/media/a.ttf"), None);
    assert_eq!(embedded_font_name("/word/fonts"), None);
}

#[test]
fn media_links_are_the_internal_image_relationships() {
    let image = "http://schemas.openxmlformats.org/officeDocument/2006/relationships/image";
    let rel = |id: &str, t: &str, target: &str, external: bool| PackageRelationship {
        id: id.to_string(),
        rel_type: t.to_string(),
        target: target.to_string(),
        external,
    };
    let rels = vec![
        rel("rId1", image, "media/a.png", false),
        rel("rId2", "http://schemas.openxmlformats.org/officeDocument/2006/relationships/styles", "styles.xml", false),
        rel("rId3", image, "http://example.com/b.png", true),
        rel("rId4", image, "media/c.jpeg", false),
    ];
    let got: Vec<(String, String, bool)> = media_relationships(&rels)
        .into_iter()
        .map(|r| (r.id, r.target, r.external))
        .collect();
    assert_eq!(
        got,
        vec![
            ("rId1".to_string(), "media/a.png".to_string(), false),
            ("rId4".to_string(), "media/c.jpeg".to_string(), false),
        ]
    );
}

#[test]
fn character_references_are_read_in_both_bases() {
    let ev = read_xml_events(b"<a>&#x41;&#66;&#x1F600;</a>").unwrap();
    let texts: Vec<String> = ev
        .iter()
        .filter_map(|e| match e {
            XmlEvent::Text(t) => Some(t.clone()),
            _ => None,
        })
        .collect();
    assert_eq!(texts, vec!["A".to_string(), "B".to_string(), "\u{1F600}".to_string()]);
    assert!(read_xml_events(b"<a>&#0;</a>").is_err());
    assert!(read_xml_events(b"<a>&#xD800;</a>").is_err());
    assert!(read_xml_events(b"<a>&#X41;</a>").is_err());
    assert!(read_xml_events(b"<a>&#;</a>").is_err());
}
