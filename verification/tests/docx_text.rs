use office_oxide::docx::formatting::RunProperties;
use office_oxide::docx::image::{AnchorFrame, DrawingInfo, Emu};
use office_oxide::docx::paragraph::{BreakType, Run, RunContent};
use office_oxide::docx::text::{markdown_drawing, markdown_run, plain_text_run, runs_to_plain_text};
use office_oxide::docx::{parse_anchor_frame, parse_hex_rgb, strip_embedded_font_filename};

fn drawing(rel_id: &str, media_path: Option<&str>, desc: Option<&str>) -> DrawingInfo {
    DrawingInfo {
        relationship_id: rel_id.to_string(),
        media_path: media_path.map(|s| s.to_string()),
        description: desc.map(|s| s.to_string()),
        width: Emu(0),
        height: Emu(0),
        inline: true,
        anchor_position: None,
        shape: None,
    }
}

#[test]
fn drawing_uses_baseurl_and_media_path() {
    let d = drawing("rId7", Some("word/media/image1.png"), Some("logo"));
    let mut out = String::new();
    markdown_drawing(&d, &mut out, Some("/office-files"));
    assert_eq!(out, "![logo](/office-files/word/media/image1.png)");
}

#[test]
fn drawing_strips_trailing_slash_from_baseurl() {
    let d = drawing("rId7", Some("word/media/image1.png"), None);
    let mut out = String::new();
    markdown_drawing(&d, &mut out, Some("/office-files/"));
    assert_eq!(out, "![](/office-files/word/media/image1.png)");
}

#[test]
fn drawing_keeps_relative_media_path() {
    let d = drawing("rId3", Some("word/media/image2.png"), Some("chart"));
    let mut out = String::new();
    markdown_drawing(&d, &mut out, Some("https://example.com/files"));
    assert_eq!(out, "![chart](https://example.com/files/word/media/image2.png)");
}

#[test]
fn drawing_falls_back_to_relationship_id() {
    let d = drawing("rId7", Some("word/media/image1.png"), None);
    let mut out = String::new();
    markdown_drawing(&d, &mut out, None);
    assert_eq!(out, "![](rId7)");

    let d2 = drawing("rId9", None, Some("pic"));
    let mut out2 = String::new();
    markdown_drawing(&d2, &mut out2, Some("/office-files"));
    assert_eq!(out2, "![pic](rId9)");
}

#[test]
fn drawing_joins_with_one_slash() {
    let d = drawing("rId1", Some("//media/x.png"), None);
    let mut out = String::new();
    markdown_drawing(&d, &mut out, Some("base//"));
    assert_eq!(out, "![](base/media/x.png)");
}

#[test]
fn strip_embedded_font_writer_convention() {
    assert_eq!(strip_embedded_font_filename("font_4_TeXGyreTermesX-Regular.ttf"), "TeXGyreTermesX-Regular");
    assert_eq!(strip_embedded_font_filename("font_1_NewTXBMI.ttf"), "NewTXBMI");
    assert_eq!(strip_embedded_font_filename("font_12_DejaVuSans.otf"), "DejaVuSans");
}

#[test]
fn strip_embedded_font_no_prefix_keeps_stem() {
    assert_eq!(strip_embedded_font_filename("Arial.ttf"), "Arial");
    assert_eq!(strip_embedded_font_filename("MyFont.otf"), "MyFont");
}

#[test]
fn strip_embedded_font_no_extension() {
    assert_eq!(strip_embedded_font_filename("font_1_Calibri"), "Calibri");
    assert_eq!(strip_embedded_font_filename("Calibri"), "Calibri");
}

#[test]
fn strip_embedded_font_non_digit_prefix_keeps_stem() {
    assert_eq!(strip_embedded_font_filename("font_abc_Foo.ttf"), "font_abc_Foo");
}

#[test]
fn strip_embedded_font_alphabetic_face_preserved() {
    assert_eq!(strip_embedded_font_filename("font_4_TeXGyreTermesX-Bold.ttf"), "TeXGyreTermesX-Bold");
}

#[test]
fn strip_embedded_font_empty() {
    assert_eq!(strip_embedded_font_filename(""), "");
}

#[test]
fn strip_embedded_font_no_face_after_prefix() {
    assert_eq!(strip_embedded_font_filename("font_5_.ttf"), "");
}

#[test]
fn strip_embedded_font_only_last_dot_and_empty_digits() {
    assert_eq!(strip_embedded_font_filename("font__A.b.ttf"), "A.b");
    assert_eq!(strip_embedded_font_filename("font_7.ttf"), "font_7");
}

#[test]
fn anchor_frames_and_hex_colours() {
    assert_eq!(parse_anchor_frame("insideMargin"), AnchorFrame::Margin);
    assert_eq!(parse_anchor_frame("character"), AnchorFrame::Character);
    assert_eq!(parse_anchor_frame("nonsense"), AnchorFrame::Page);
    assert_eq!(parse_hex_rgb(" 00ff7F "), Some((0, 255, 127)));
    assert_eq!(parse_hex_rgb("00ff7"), None);
    assert_eq!(parse_hex_rgb("00ff7G"), None);
}

fn run(props: Option<RunProperties>, content: Vec<RunContent>) -> Run {
    Run { properties: props, content }
}

#[test]
fn plain_text_of_runs() {
    let a = run(None, vec![RunContent::Text("Hello".into()), RunContent::Tab, RunContent::Text("x".into())]);
    let b = run(None, vec![RunContent::Break(BreakType::Page), RunContent::CommentRef(3), RunContent::Text("y".into())]);
    let mut out = String::from(">");
    plain_text_run(&a, &mut out);
    assert_eq!(out, ">Hello\tx");
    assert_eq!(runs_to_plain_text(&[a, b]), "Hello\tx\ny");
}

#[test]
fn markdown_of_runs_wraps_emphasis() {
    let mut rp = RunProperties::default();
    rp.bold = Some(true);
    rp.italic = Some(true);
    rp.dstrike = Some(true);
    let r = run(Some(rp), vec![RunContent::Text("hi".into()), RunContent::Break(BreakType::Line)]);
    let mut out = String::new();
    markdown_run(&r, &mut out, None);
    assert_eq!(out, "~~***hi  \n***~~");
    let mut italic = RunProperties::default();
    italic.italic = Some(true);
    let mut out = String::new();
    markdown_run(&run(Some(italic), vec![RunContent::Break(BreakType::Column)]), &mut out, None);
    assert_eq!(out, "*\n\n---\n\n*");
    let mut out = String::from("x");
    markdown_run(&run(None, vec![RunContent::FootnoteRef(1, false)]), &mut out, None);
    assert_eq!(out, "x");
}

#[test]
fn strip_embedded_font_bare_font_stem_names_no_face() {
    assert_eq!(strip_embedded_font_filename("font.otf"), "");
    assert_eq!(strip_embedded_font_filename("font"), "");
}
