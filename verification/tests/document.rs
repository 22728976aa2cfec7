use office_oxide::doc::document::{
    DocDocument, SubDocumentKind, parse_comments, parse_grp_xst_atn_owners,
    parse_plcf_hdd_stories, plcf_hdd_first_section_cp,
};
use office_oxide::doc::error::DocError;
use office_oxide::doc::ole_objects::{DirEntry, EntryType, NO_ENTRY};

#[test]
fn test_grp_xst_atn_owners_parses_multiple_packed_entries() {
    let mut data = Vec::new();
    for name in ["Michael McCandless", "Miklos Vajna"] {
        let units: Vec<u16> = name.encode_utf16().collect();
        data.extend_from_slice(&(units.len() as u16).to_le_bytes());
        for u in units {
            data.extend_from_slice(&u.to_le_bytes());
        }
    }
    let names = parse_grp_xst_atn_owners(&data, 0, data.len() as u32);
    assert_eq!(names, vec!["Michael McCandless".to_string(), "Miklos Vajna".to_string()]);
}

#[test]
fn test_grp_xst_atn_owners_zero_length_is_empty() {
    let data = vec![0u8; 32];
    assert!(parse_grp_xst_atn_owners(&data, 4, 0).is_empty());
}

#[test]
fn test_plcf_hdd_splits_the_first_sections_six_stories() {
    let raw = "EVEN HEADERODD HEADEREVEN FOOTERODD FOOTERFIRST HEADERFIRST FOOTERX";
    assert_eq!(raw.chars().count(), 67, "fixture text must match the cps below exactly");

    let cps: [u32; 14] = [0, 0, 0, 0, 0, 0, 0, 11, 21, 32, 42, 54, 66, 67];
    let mut table_stream = Vec::new();
    for cp in cps {
        table_stream.extend_from_slice(&cp.to_le_bytes());
    }

    let stories = parse_plcf_hdd_stories(&table_stream, raw, 0, table_stream.len() as u32);
    assert_eq!(stories.even_header.as_deref(), Some("EVEN HEADER"));
    assert_eq!(stories.odd_header.as_deref(), Some("ODD HEADER"));
    assert_eq!(stories.even_footer.as_deref(), Some("EVEN FOOTER"));
    assert_eq!(stories.odd_footer.as_deref(), Some("ODD FOOTER"));
    assert_eq!(stories.first_header.as_deref(), Some("FIRST HEADER"));
    assert_eq!(stories.first_footer.as_deref(), Some("FIRST FOOTER"));
}

#[test]
fn test_plcf_hdd_first_section_cp_skips_the_six_separator_stories() {
    // Stories 0..6 hold a continuation notice (chars 0..9); the real
    // headers start at CP 9.
    let cps: [u32; 14] = [0, 0, 0, 9, 9, 9, 9, 20, 30, 41, 51, 63, 75, 76];
    let mut table_stream = Vec::new();
    for cp in cps {
        table_stream.extend_from_slice(&cp.to_le_bytes());
    }
    assert_eq!(plcf_hdd_first_section_cp(&table_stream, 0, table_stream.len() as u32), Some(9));
    assert_eq!(plcf_hdd_first_section_cp(&[0u8; 8], 0, 0), None);
}

#[test]
fn test_plcf_hdd_zero_length_yields_no_stories() {
    let stories = parse_plcf_hdd_stories(&[0u8; 8], "", 0, 0);
    assert!(stories.is_empty());
}

#[test]
fn test_plcf_hdd_shorter_than_one_section_yields_no_stories() {
    // Only the 6 fixed separators (n=6, needs n+2=8 CPs) — no
    // section's worth of header/footer stories at all.
    let table_stream = vec![0u8; 8 * 4];
    let stories = parse_plcf_hdd_stories(&table_stream, "", 0, table_stream.len() as u32);
    assert!(stories.is_empty());
}

#[test]
fn test_parse_comments_splits_and_attributes_two_comments() {
    let raw = "\u{5}First comment\r\u{5}Second comment\r";
    let first_len = "\u{5}First comment\r".chars().count();
    let total_len = raw.chars().count();
    assert_eq!(first_len, 15);
    assert_eq!(total_len, 31);

    // PlcfandTxt: pure-CP PLC, comments-substory-local CPs.
    let and_txt_cps: [u32; 4] = [0, first_len as u32, total_len as u32, 0];
    let mut and_txt = Vec::new();
    for cp in and_txt_cps {
        and_txt.extend_from_slice(&cp.to_le_bytes());
    }

    // PlcfandRef: 3 main-doc CPs (n=2 comments) + 2 ATRDPre10s (30
    // bytes each), ibst at offset 20 within each.
    let and_ref_cps: [u32; 3] = [0, 1, 2];
    let mut and_ref = Vec::new();
    for cp in and_ref_cps {
        and_ref.extend_from_slice(&cp.to_le_bytes());
    }
    let mut atrd0 = vec![0u8; 30];
    atrd0[20..22].copy_from_slice(&1u16.to_le_bytes()); // ibst=1
    let mut atrd1 = vec![0u8; 30];
    atrd1[20..22].copy_from_slice(&0u16.to_le_bytes()); // ibst=0
    and_ref.extend_from_slice(&atrd0);
    and_ref.extend_from_slice(&atrd1);

    // Lay both PLCs out in one fake table stream, back to back.
    let and_txt_fc = 0u32;
    let and_ref_fc = and_txt.len() as u32;
    let mut table_stream = and_txt.clone();
    table_stream.extend_from_slice(&and_ref);

    let authors = vec!["Miklos Vajna".to_string(), "vmiklos".to_string()];
    let comments = parse_comments(
        &table_stream,
        raw,
        and_txt_fc,
        and_txt.len() as u32,
        and_ref_fc,
        and_ref.len() as u32,
        &authors,
    );

    assert_eq!(comments.len(), 2, "expected 2 split comments: {comments:?}");
    assert_eq!(comments[0].text, "First comment");
    assert_eq!(comments[0].author.as_deref(), Some("vmiklos"), "ibst=1 -> authors[1]");
    assert_eq!(comments[1].text, "Second comment");
    assert_eq!(comments[1].author.as_deref(), Some("Miklos Vajna"), "ibst=0 -> authors[0]");
}

#[test]
fn test_parse_comments_falls_back_to_empty_on_a_count_mismatch() {
    // A PlcfandTxt describing 2 ranges but a PlcfandRef describing
    // only 1 ATRDPre10 must not be trusted at all.
    let and_txt_cps: [u32; 4] = [0, 5, 10, 0];
    let mut and_txt = Vec::new();
    for cp in and_txt_cps {
        and_txt.extend_from_slice(&cp.to_le_bytes());
    }
    let and_ref_cps: [u32; 2] = [0, 1];
    let mut and_ref = Vec::new();
    for cp in and_ref_cps {
        and_ref.extend_from_slice(&cp.to_le_bytes());
    }
    and_ref.extend_from_slice(&[0u8; 30]);

    let mut table_stream = and_txt.clone();
    table_stream.extend_from_slice(&and_ref);
    let comments = parse_comments(
        &table_stream,
        "helloworld",
        0,
        and_txt.len() as u32,
        and_txt.len() as u32,
        and_ref.len() as u32,
        &[],
    );
    assert!(comments.is_empty(), "count mismatch must fall back to empty: {comments:?}");
}


/// A minimal Word 97 `WordDocument` stream: FIB, then UTF-16 text at 0x800.
fn word97_streams(text: &str) -> (Vec<u8>, Vec<u8>) {
    let units: Vec<u16> = text.encode_utf16().collect();
    let mut word = vec![0u8; 0x800];
    word[0..2].copy_from_slice(&0xA5ECu16.to_le_bytes());
    word[2..4].copy_from_slice(&0x00C1u16.to_le_bytes());
    word[6..8].copy_from_slice(&0x0409u16.to_le_bytes());
    word[0x0A..0x0C].copy_from_slice(&(1u16 << 9).to_le_bytes());
    word[0x4C..0x50].copy_from_slice(&(units.len() as u32).to_le_bytes());
    for u in &units {
        word.extend_from_slice(&u.to_le_bytes());
    }
    // CLX: a Pcdt with one piece covering the text at fc 0x800.
    let mut clx = vec![2u8];
    clx.extend_from_slice(&16u32.to_le_bytes());
    clx.extend_from_slice(&0u32.to_le_bytes());
    clx.extend_from_slice(&(units.len() as u32).to_le_bytes());
    clx.extend_from_slice(&0u16.to_le_bytes());
    clx.extend_from_slice(&0x800u32.to_le_bytes());
    clx.extend_from_slice(&0u16.to_le_bytes());
    word[0x01A2..0x01A6].copy_from_slice(&0u32.to_le_bytes());
    word[0x01A6..0x01AA].copy_from_slice(&(clx.len() as u32).to_le_bytes());
    (word, clx)
}

#[test]
fn word97_streams_give_the_sanitised_main_text() {
    let (word, table) = word97_streams("Hello\rWorld\r");
    let doc = DocDocument::from_streams(&word, None, Some(&table), Vec::new(), &[], None).unwrap();
    assert_eq!(doc.plain_text(), "Hello\nWorld\n");
    assert!(doc.text_complete());
    assert!(!doc.has_macros());
    assert!(doc.subdocuments().is_empty());
}

#[test]
fn word97_without_a_table_stream_is_missing_a_stream() {
    let (word, _) = word97_streams("Hello\r");
    let r = DocDocument::from_streams(&word, None, None, Vec::new(), &[], None);
    assert!(matches!(r, Err(DocError::MissingStream(_))));
}

#[test]
fn word97_with_a_clx_past_the_table_is_an_invalid_piece_table() {
    let (mut word, table) = word97_streams("Hello\r");
    word[0x01A2..0x01A6].copy_from_slice(&5000u32.to_le_bytes());
    let r = DocDocument::from_streams(&word, Some(&table), None, Vec::new(), &[], None);
    assert!(matches!(r, Err(DocError::InvalidPieceTable(_))));
}

#[test]
fn word2_flat_file_collapses_crlf_and_keeps_footnotes() {
    let text = b"Line one\r\nLine two\r\n";
    let footnote = b"Note.\r\n";
    let mut doc = vec![0u8; 0x180];
    doc[0..2].copy_from_slice(&0xA5DBu16.to_le_bytes());
    doc[0x18..0x1C].copy_from_slice(&0x180u32.to_le_bytes());
    let fc_mac = 0x180 + (text.len() + footnote.len()) as u32;
    doc[0x1C..0x20].copy_from_slice(&fc_mac.to_le_bytes());
    doc[0x34..0x38].copy_from_slice(&(text.len() as u32).to_le_bytes());
    doc[0x38..0x3C].copy_from_slice(&(footnote.len() as u32).to_le_bytes());
    doc.extend_from_slice(text);
    doc.extend_from_slice(footnote);
    let d = DocDocument::from_word2(&doc).unwrap();
    assert_eq!(d.plain_text_ref(), "Line one\nLine two\n");
    assert_eq!(d.subdocuments().len(), 1);
    assert_eq!(d.subdocuments()[0].kind, SubDocumentKind::Footnotes);
    assert_eq!(d.subdocuments()[0].text, "Note.\n");
}

#[test]
fn test_plain_text_access() {
    let (word, table) = word97_streams("Hello World");
    let doc = DocDocument::from_streams(&word, None, Some(&table), Vec::new(), &[], None).unwrap();
    assert_eq!(doc.plain_text(), "Hello World");
}

/// `WordDocument` and table streams of a Word 97 file whose stories are
/// `stories`: each a FIB offset of its `ccp` field and its text, the text
/// stored in that order in one piece.
fn word97_stories(stories: &[(usize, &str)]) -> (Vec<u8>, Vec<u8>) {
    let mut word = vec![0u8; 0x800];
    word[0..2].copy_from_slice(&0xA5ECu16.to_le_bytes());
    word[2..4].copy_from_slice(&0x00C1u16.to_le_bytes());
    word[6..8].copy_from_slice(&0x0409u16.to_le_bytes());
    word[0x0A..0x0C].copy_from_slice(&(1u16 << 9).to_le_bytes());
    let mut total = 0u32;
    for (at, text) in stories {
        let units: Vec<u16> = text.encode_utf16().collect();
        word[*at..*at + 4].copy_from_slice(&(units.len() as u32).to_le_bytes());
        total += units.len() as u32;
        for u in &units {
            word.extend_from_slice(&u.to_le_bytes());
        }
    }
    let mut clx = vec![2u8];
    clx.extend_from_slice(&16u32.to_le_bytes());
    clx.extend_from_slice(&0u32.to_le_bytes());
    clx.extend_from_slice(&total.to_le_bytes());
    clx.extend_from_slice(&0u16.to_le_bytes());
    clx.extend_from_slice(&0x800u32.to_le_bytes());
    clx.extend_from_slice(&0u16.to_le_bytes());
    word[0x01A2..0x01A6].copy_from_slice(&0u32.to_le_bytes());
    word[0x01A6..0x01AA].copy_from_slice(&(clx.len() as u32).to_le_bytes());
    (word, clx)
}

fn dir_entry(name: &str, entry_type: EntryType, child: u32, right: u32) -> DirEntry {
    DirEntry {
        name: name.to_string(),
        entry_type,
        color: 1,
        left_sibling: NO_ENTRY,
        right_sibling: right,
        child,
        start_sector: 0,
        stream_size: 0,
    }
}

/// An embedded object is named on the plain-text surface.
#[test]
fn test_plain_text_names_embedded_objects() {
    let (word, table) = word97_streams("Body");
    let entries = vec![
        dir_entry("Root Entry", EntryType::RootStorage, 1, NO_ENTRY),
        dir_entry("ObjectPool", EntryType::Storage, 2, NO_ENTRY),
        dir_entry("_1234567890", EntryType::Storage, 3, NO_ENTRY),
        dir_entry("Equation Native", EntryType::Stream, NO_ENTRY, NO_ENTRY),
    ];
    let doc = DocDocument::from_streams(&word, None, Some(&table), Vec::new(), &entries, None).unwrap();
    let text = doc.plain_text();
    assert_eq!(text, "Body\n[Embedded Equation Editor/MathType Object]\n");
}

/// Footnote, comment and text-box bodies reach the plain text.
#[test]
fn test_plain_text_and_markdown_include_subdocument_bodies() {
    let (word, table) = word97_stories(&[
        (0x4C, "Main body text"),
        (0x50, "FOOTNOTE ONE"),
        (0x5C, "REVIEW NOTE"),
        (0x68, "SIDEBAR"),
    ]);
    let doc = DocDocument::from_streams(&word, None, Some(&table), Vec::new(), &[], None).unwrap();
    let kinds: Vec<SubDocumentKind> = doc.subdocuments().iter().map(|d| d.kind).collect();
    assert_eq!(
        kinds,
        vec![SubDocumentKind::Footnotes, SubDocumentKind::Comments, SubDocumentKind::HeaderTextBoxes]
    );
    let text = doc.plain_text();
    for token in ["Main body text", "FOOTNOTE ONE", "REVIEW NOTE", "SIDEBAR"] {
        assert!(text.contains(token), "{token} missing from plain_text(): {text:?}");
    }
}

/// An empty subdocument body contributes nothing.
#[test]
fn test_empty_subdocuments_are_skipped_in_both_renderers() {
    let (word, table) = word97_stories(&[(0x4C, "Body"), (0x5C, "  \r ")]);
    let doc = DocDocument::from_streams(&word, None, Some(&table), Vec::new(), &[], None).unwrap();
    assert_eq!(doc.plain_text(), "Body");
}

#[test]
fn a_clx_outside_the_table_stream_is_reported_with_its_place() {
    let (mut word, table) = word97_streams("Hello\r");
    word[0x01A2..0x01A6].copy_from_slice(&5000u32.to_le_bytes());
    match DocDocument::from_streams(&word, Some(&table), None, Vec::new(), &[], None) {
        Err(DocError::InvalidPieceTable(m)) => {
            assert_eq!(m, "CLX at offset 5000 size 21 is outside the 21-byte table stream")
        },
        Err(e) => panic!("unexpected error {e:?}"),
        Ok(_) => panic!("unexpected success"),
    }
}
