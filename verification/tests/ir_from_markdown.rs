use office_oxide::ir::{ImageFormat, ImagePositioning, InlineContent};
use office_oxide::ir_from_markdown::{
    parse_markdown_sections, split_lines, MarkdownElement,
    base64_decode, decode_data_image, image_pixel_dimensions, is_ordered_list_marker,
    is_table_separator_row, is_thematic_break, is_unordered_list_marker, jpeg_dimensions,
    parse_atx_heading, parse_image_element, parse_inline, png_dimensions, split_pipe_row,
    strip_list_marker,
};

const TINY_PNG_B64: &str = "iVBORw0KGgoAAAANSUhEUgAAAAEAAAABCAYAAAAfFcSJAAAADUlEQVR42mNkYPhfDwAChwGA60e6kgAAAABJRU5ErkJggg==";

fn encode_b64(bytes: &[u8]) -> String {
    let t: &[u8] = b"ABCDEFGHIJKLMNOPQRSTUVWXYZabcdefghijklmnopqrstuvwxyz0123456789+/";
    let mut out = String::new();
    for chunk in bytes.chunks(3) {
        let n = ((chunk[0] as u32) << 16)
            | ((chunk.get(1).copied().unwrap_or(0) as u32) << 8)
            | chunk.get(2).copied().unwrap_or(0) as u32;
        out.push(t[(n >> 18) as usize & 63] as char);
        out.push(t[(n >> 12) as usize & 63] as char);
        if chunk.len() > 1 {
            out.push(t[(n >> 6) as usize & 63] as char);
        }
        if chunk.len() > 2 {
            out.push(t[n as usize & 63] as char);
        }
    }
    while out.len() % 4 != 0 {
        out.push('=');
    }
    out
}

fn wide_png() -> Vec<u8> {
    let mut png = b"\x89PNG\r\n\x1a\n\x00\x00\x00\rIHDR".to_vec();
    png.extend_from_slice(&2000u32.to_be_bytes());
    png.extend_from_slice(&1000u32.to_be_bytes());
    png.extend_from_slice(&[8, 6, 0, 0, 0]);
    png
}

fn small_jpeg() -> Vec<u8> {
    vec![
        0xFF, 0xD8, 0xFF, 0xC0, 0x00, 0x11, 0x08, 0x00, 0x04, 0x00, 0x08, 0x03, 0x01, 0x22,
        0x00, 0x02, 0x11, 0x01, 0x03, 0x11, 0x01, 0xFF, 0xD9,
    ]
}

#[test]
fn base64_decode_rejects_garbage() {
    assert_eq!(base64_decode("aGVsbG8="), Some(b"hello".to_vec()));
    assert_eq!(base64_decode("aGVsbG8="), Some(b"hello".to_vec()));
    assert_eq!(base64_decode(""), Some(Vec::new()));
    assert_eq!(base64_decode("A"), None);
    assert_eq!(base64_decode("aGVsbG8*"), None);
    assert_eq!(base64_decode("a=b="), None);
}

#[test]
fn base64_decode_skips_whitespace_and_handles_padding() {
    assert_eq!(base64_decode("aGVs\nbG8="), Some(b"hello".to_vec()));
    assert_eq!(base64_decode("aGk="), Some(b"hi".to_vec()));
    assert_eq!(base64_decode("aA=="), Some(b"h".to_vec()));
    assert_eq!(base64_decode("YWJj"), Some(b"abc".to_vec()));
}

#[test]
fn parse_inline_bold_and_italic_spans() {
    let spans = parse_inline("Hello **world** and *rust*.");
    let texts: Vec<_> = spans
        .iter()
        .filter_map(|c| match c {
            InlineContent::Text(s) => Some(s),
            _ => None,
        })
        .collect();
    assert!(texts.iter().any(|s| s.bold && !s.italic && s.text == "world"));
    assert!(texts.iter().any(|s| s.italic && !s.bold && s.text == "rust"));
    assert!(texts.iter().any(|s| !s.bold && !s.italic && s.text == "Hello "));
}

#[test]
fn parse_inline_plain_text_is_one_span() {
    let spans = parse_inline("just text");
    assert_eq!(spans.len(), 1);
    match &spans[0] {
        InlineContent::Text(s) => {
            assert_eq!(s.text, "just text");
            assert!(!s.bold && !s.italic);
        },
        _ => panic!("expected a text span"),
    }
    assert!(parse_inline("").is_empty());
}

#[test]
fn atx_headings_by_level() {
    assert_eq!(parse_atx_heading("# Title"), Some((1, "Title".to_string())));
    assert_eq!(parse_atx_heading("### Sub  "), Some((3, "Sub".to_string())));
    assert_eq!(parse_atx_heading("####### seven"), None);
    assert_eq!(parse_atx_heading("#nospace"), None);
    assert_eq!(parse_atx_heading("plain"), None);
}

#[test]
fn thematic_breaks() {
    assert!(is_thematic_break("---"));
    assert!(is_thematic_break(" * * * "));
    assert!(is_thematic_break("___"));
    assert!(!is_thematic_break("--"));
    assert!(!is_thematic_break("-*-"));
}

#[test]
fn table_rows() {
    assert!(is_table_separator_row("|------|:---:|"));
    assert!(!is_table_separator_row("| Name | Age |"));
    assert_eq!(
        split_pipe_row("| Alice | 30 |"),
        vec![" Alice ".to_string(), " 30 ".to_string()]
    );
}

#[test]
fn list_markers() {
    assert!(is_unordered_list_marker("- apple"));
    assert!(is_unordered_list_marker("  * pear"));
    assert!(!is_unordered_list_marker("-apple"));
    assert!(is_ordered_list_marker("1. first"));
    assert!(is_ordered_list_marker("12) twelfth"));
    assert!(!is_ordered_list_marker("1.first"));
    assert_eq!(strip_list_marker("- apple"), "apple");
    assert_eq!(strip_list_marker("12. dozen"), "dozen");
}

#[test]
fn png_and_jpeg_sizes() {
    assert_eq!(png_dimensions(&wide_png()), Some((2000, 1000)));
    assert_eq!(png_dimensions(b"not a png"), None);
    assert_eq!(jpeg_dimensions(&small_jpeg()), Some((8, 4)));
    assert_eq!(jpeg_dimensions(&[0xFF, 0xD8]), None);
    assert_eq!(image_pixel_dimensions(&ImageFormat::Png, &wide_png()), Some((2000, 1000)));
    assert_eq!(image_pixel_dimensions(&ImageFormat::Gif, &wide_png()), None);
}

#[test]
fn data_uri_decoding() {
    let src = format!("data:image/png;base64,{TINY_PNG_B64}");
    let (fmt, data) = decode_data_image(&src).unwrap();
    assert_eq!(fmt, ImageFormat::Png);
    assert_eq!(&data[1..4], b"PNG");
    assert!(decode_data_image("https://example.com/x.png").is_none());
    assert!(decode_data_image("data:image/gif;base64,R0lG").is_none());
}

#[test]
fn standalone_data_uri_image_line() {
    let line = format!("![Revenue chart](data:image/png;base64,{TINY_PNG_B64})");
    let img = parse_image_element(&line).unwrap();
    assert_eq!(img.alt_text.as_deref(), Some("Revenue chart"));
    assert_eq!(img.format, Some(ImageFormat::Png));
    assert_eq!(img.pixel_width, Some(1));
    assert_eq!(img.pixel_height, Some(1));
    assert_eq!(img.display_width_emu, Some(9_525));
    assert_eq!(img.display_height_emu, Some(9_525));
    assert!(!img.decorative);
    assert!(matches!(img.positioning, ImagePositioning::Inline));
}

#[test]
fn wide_image_fits_six_inch_column() {
    let line = format!("![t](data:image/png;base64,{})", encode_b64(&wide_png()));
    let img = parse_image_element(&line).unwrap();
    assert_eq!(img.display_width_emu, Some(5_486_400));
    assert_eq!(img.display_height_emu, Some(5_486_400 / 2));
}

#[test]
fn jpeg_image_line_parses() {
    let line = format!("![photo](data:image/jpeg;base64,{})", encode_b64(&small_jpeg()));
    let img = parse_image_element(&line).unwrap();
    assert_eq!(img.format, Some(ImageFormat::Jpeg));
    assert_eq!(img.pixel_width, Some(8));
    assert_eq!(img.pixel_height, Some(4));
}

#[test]
fn external_image_source_is_not_an_image() {
    assert!(parse_image_element("![logo](https://example.com/x.png)").is_none());
    assert!(parse_image_element("plain text").is_none());
}

#[test]
fn parse_heading_paragraph() {
    let md = "# Hello\n\nSome text here.\n";
    let secs = parse_markdown_sections(md);
    assert_eq!(secs.len(), 1);
    assert_eq!(secs[0].title.as_deref(), Some("Hello"));
    assert!(matches!(secs[0].elements[0], MarkdownElement::Paragraph(_)));
}

#[test]
fn parse_page_break_into_sections() {
    let md = "# Page 1\n\nText one.\n\n---\n\n# Page 2\n\nText two.\n";
    let secs = parse_markdown_sections(md);
    assert_eq!(secs.len(), 2);
    assert_eq!(secs[0].title.as_deref(), Some("Page 1"));
    assert_eq!(secs[1].title.as_deref(), Some("Page 2"));
}

#[test]
fn parse_unordered_list() {
    let md = "- apple\n- banana\n- cherry\n";
    let secs = parse_markdown_sections(md);
    let list = match &secs[0].elements[0] {
        MarkdownElement::List(l) => l,
        other => panic!("expected List, got {other:?}"),
    };
    assert!(!list.ordered);
    assert_eq!(list.items.len(), 3);
}

#[test]
fn parse_ordered_list() {
    let md = "1. first\n2. second\n";
    let secs = parse_markdown_sections(md);
    let list = match &secs[0].elements[0] {
        MarkdownElement::List(l) => l,
        other => panic!("expected List, got {other:?}"),
    };
    assert!(list.ordered);
}

#[test]
fn parse_pipe_table() {
    let md = "| Name | Age |\n|------|-----|\n| Alice | 30 |\n| Bob | 25 |\n";
    let secs = parse_markdown_sections(md);
    let table = match &secs[0].elements[0] {
        MarkdownElement::Table(t) => t,
        other => panic!("expected Table, got {other:?}"),
    };
    assert_eq!(table.rows.len(), 3);
    assert!(table.rows[0].is_header);
}

#[test]
fn parse_bold_italic_inline() {
    let md = "Hello **world** and *rust*.\n";
    let secs = parse_markdown_sections(md);
    let para = match &secs[0].elements[0] {
        MarkdownElement::Paragraph(p) => p,
        other => panic!("expected Paragraph, got {other:?}"),
    };
    let spans: Vec<_> = para
        .content
        .iter()
        .filter_map(|c| match c {
            InlineContent::Text(s) => Some(s),
            _ => None,
        })
        .collect();
    assert!(spans.iter().any(|s| s.bold && s.text == "world"));
    assert!(spans.iter().any(|s| s.italic && s.text == "rust"));
}

#[test]
fn parse_empty_markdown() {
    let secs = parse_markdown_sections("");
    assert_eq!(secs.len(), 1);
    assert!(secs[0].elements.is_empty());
}

#[test]
fn parse_standalone_data_uri_image() {
    let md = format!("# Report\n\n![Revenue chart](data:image/png;base64,{TINY_PNG_B64})\n\nAfter text.\n");
    let secs = parse_markdown_sections(&md);
    assert_eq!(secs[0].title.as_deref(), Some("Report"));
    let elems = &secs[0].elements;
    let img = match &elems[0] {
        MarkdownElement::Image(i) => i,
        other => panic!("expected Image, got {other:?}"),
    };
    assert_eq!(img.alt_text.as_deref(), Some("Revenue chart"));
    assert_eq!(img.format, Some(ImageFormat::Png));
    assert_eq!(img.pixel_width, Some(1));
    assert_eq!(img.pixel_height, Some(1));
    assert_eq!(img.display_width_emu, Some(9_525));
    assert_eq!(img.display_height_emu, Some(9_525));
    assert!(matches!(elems[1], MarkdownElement::Paragraph(_)), "text after image");
}

#[test]
fn parse_wide_image_fits_six_inch_column() {
    let md = format!("![t](data:image/png;base64,{})\n", encode_b64(&wide_png()));
    let secs = parse_markdown_sections(&md);
    let img = match &secs[0].elements[0] {
        MarkdownElement::Image(i) => i,
        other => panic!("expected Image, got {other:?}"),
    };
    assert_eq!(img.display_width_emu, Some(5_486_400));
    assert_eq!(img.display_height_emu, Some(5_486_400 / 2));
}

#[test]
fn external_image_source_stays_text() {
    let md = "![logo](https://example.com/x.png)\n";
    let secs = parse_markdown_sections(md);
    assert!(matches!(secs[0].elements[0], MarkdownElement::Paragraph(_)));
}

#[test]
fn jpeg_data_uri_image_parses() {
    let md = format!("![photo](data:image/jpeg;base64,{})\n", encode_b64(&small_jpeg()));
    let secs = parse_markdown_sections(&md);
    let img = match &secs[0].elements[0] {
        MarkdownElement::Image(i) => i,
        other => panic!("expected Image, got {other:?}"),
    };
    assert_eq!(img.format, Some(ImageFormat::Jpeg));
    assert_eq!(img.pixel_width, Some(8));
    assert_eq!(img.pixel_height, Some(4));
}

#[test]
fn lines_split_like_str_lines() {
    assert_eq!(split_lines("a\r\nb\n\nc"), vec!["a", "b", "", "c"]);
    assert_eq!(split_lines("a\n"), vec!["a"]);
    assert!(split_lines("").is_empty());
    assert_eq!(split_lines("x\r"), vec!["x\r"]);
}

#[test]
fn headings_below_one_stay_in_the_section_and_paragraphs_join_lines() {
    let md = "## Sub\nline one\nline two\n\n|---|\nafter\n";
    let secs = parse_markdown_sections(md);
    assert_eq!(secs.len(), 1);
    assert!(secs[0].title.is_none());
    match &secs[0].elements[0] {
        MarkdownElement::Heading(h) => assert_eq!(h.level, 2),
        other => panic!("expected Heading, got {other:?}"),
    }
    match &secs[0].elements[1] {
        MarkdownElement::Paragraph(p) => match &p.content[0] {
            InlineContent::Text(s) => assert_eq!(s.text, "line one line two"),
            _ => panic!("expected text"),
        },
        other => panic!("expected Paragraph, got {other:?}"),
    }
    match &secs[0].elements[2] {
        MarkdownElement::Paragraph(p) => match &p.content[0] {
            InlineContent::Text(s) => assert_eq!(s.text, "after"),
            _ => panic!("expected text"),
        },
        other => panic!("expected Paragraph, got {other:?}"),
    }
    assert_eq!(secs[0].elements.len(), 3);
}

#[test]
fn breaks_never_leave_empty_sections() {
    let secs = parse_markdown_sections("---\n\n***\n# A\nbody\n---\n---\n# B\n");
    assert_eq!(secs.len(), 2);
    assert_eq!(secs[0].title.as_deref(), Some("A"));
    assert_eq!(secs[0].elements.len(), 1);
    assert_eq!(secs[1].title.as_deref(), Some("B"));
    assert!(secs[1].elements.is_empty());
}
