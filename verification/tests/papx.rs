use office_oxide::doc::chpx::FkpRun;
use office_oxide::doc::papx::{
    FkpParagraph, build_paragraphs, extract_grpprl, fc_run_to_cp_ranges, parse_fkp_page,
    parse_papx_paragraphs,
};
use office_oxide::doc::piece_table::Piece;
use office_oxide::doc::sprm::extract_pap_props;


fn unicode_piece(fc: u32, cp_end: u32) -> Piece {
    Piece {
        cp_start: 0,
        cp_end,
        fc,
        is_compressed: false,
    }
}

#[test]
fn test_fc_run_maps_to_cp_ranges_in_a_unicode_piece() {
    // table.doc: one Unicode piece, fc = 0x800, text_len = 23.
    let pieces = [unicode_piece(0x800, 23)];
    // bytes 0x802..0x806 = cps 1..3.
    assert_eq!(fc_run_to_cp_ranges(0x802, 0x806, &pieces), vec![(1, 3)]);
    // A run reaching below and beyond the piece is clipped to it.
    assert_eq!(fc_run_to_cp_ranges(0x700, 0x900, &pieces), vec![(0, 23)]);
    assert!(fc_run_to_cp_ranges(0x900, 0x910, &pieces).is_empty());
}

#[test]
fn test_fc_run_strips_the_compressed_bit() {
    // A compressed piece with bit 30 set; an FC may carry the same bit.
    let pieces = [Piece {
        cp_start: 0,
        cp_end: 5,
        fc: 0x4000_0010, // compressed, real offset = 0x10/2 = 8
        is_compressed: true,
    }];
    assert_eq!(fc_run_to_cp_ranges(0x4000_0010, 0x4000_0014, &pieces), vec![(0, 2)]);
    // fc 9 (real byte, no bit) → cp 1.
    assert_eq!(fc_run_to_cp_ranges(9, 11, &pieces), vec![(1, 3)]);
}

/// A fast-saved file scatters one paragraph's characters over the
/// pieces: the run's CPs are the union of its intersections with each
/// piece, in CP order, never "everything between the two end points".
#[test]
fn test_fc_run_across_scattered_pieces_yields_each_pieces_cps() {
    // cp 0..10 at bytes 0x800.., cp 10..20 at bytes 0x100.. (edited
    // later, stored earlier), both 8-bit.
    let pieces = [
        Piece {
            cp_start: 0,
            cp_end: 10,
            fc: 0x4000_0000 | (0x800 * 2),
            is_compressed: true,
        },
        Piece {
            cp_start: 10,
            cp_end: 20,
            fc: 0x4000_0000 | (0x100 * 2),
            is_compressed: true,
        },
    ];
    // One FC run covering bytes 0x100..0x900: both pieces, in CP order.
    assert_eq!(fc_run_to_cp_ranges(0x100, 0x900, &pieces), vec![(0, 10), (10, 20)]);
    // A run over the later-stored piece only.
    assert_eq!(fc_run_to_cp_ranges(0x105, 0x108, &pieces), vec![(15, 18)]);
}

#[test]
fn test_extract_grpprl_handles_word8_reread() {
    // Build a 512-byte page with one paragraph PAPX at word offset 247.
    // cw=6, istd=0000, grpprl = [16 24 01 49 66 01 00 00 00] (9 bytes).
    let mut page = vec![0u8; 512];
    let pstart = 247 * 2;
    let papx = [
        0x06, 0x00, 0x00, 0x16, 0x24, 0x01, 0x49, 0x66, 0x01, 0x00, 0x00, 0x00,
    ];
    page[pstart..pstart + papx.len()].copy_from_slice(&papx);
    page[511] = 1; // crun
    // rgfc[0..2]
    page[0..4].copy_from_slice(&0x800u32.to_le_bytes());
    page[4..8].copy_from_slice(&0x806u32.to_le_bytes());
    // rgbx[0].offset at byte 8
    page[8] = 247;

    let mut out = Vec::new();
    parse_fkp_page(&page, &mut out);
    assert_eq!(out.len(), 1);
    assert_eq!(out[0].fc_start, 0x800);
    assert_eq!(out[0].fc_end, 0x806);
    assert_eq!(out[0].grpprl, vec![0x16, 0x24, 0x01, 0x49, 0x66, 0x01, 0x00, 0x00, 0x00]);
}

#[test]
fn test_empty_papx_when_word_off_zero() {
    let mut page = vec![0u8; 512];
    page[511] = 1;
    page[0..4].copy_from_slice(&0x800u32.to_le_bytes());
    page[4..8].copy_from_slice(&0x802u32.to_le_bytes());
    page[8] = 0; // no PAPX
    let mut out = Vec::new();
    parse_fkp_page(&page, &mut out);
    assert_eq!(out.len(), 1);
    assert!(out[0].grpprl.is_empty());
}

#[test]
fn test_build_paragraphs_slices_text_and_flags() {
    // cp0..6: a leading '\r' mark, cell "1", cell "2", then a row mark.
    // One Unicode piece whose bytes live at fc=0x800 in `word_doc`.
    let raw = "\r1\u{7}2\u{7}\u{7}";
    let text_bytes: Vec<u8> = raw.encode_utf16().flat_map(|u| u.to_le_bytes()).collect();
    let mut word_doc = vec![0u8; 0x800 + text_bytes.len()];
    word_doc[0x800..0x800 + text_bytes.len()].copy_from_slice(&text_bytes);
    let pieces = [unicode_piece(0x800, 6)];

    // FKP paragraphs with FC ranges (Unicode: cp*2 + 0x800) and grpprls.
    let mk = |cp0: u32, cp1: u32, grpprl: &[u8]| FkpParagraph {
        fc_start: 0x800 + cp0 * 2,
        fc_end: 0x800 + cp1 * 2,
        grpprl: grpprl.to_vec(),
    };
    let cell = [0x16, 0x24, 0x01, 0x49, 0x66, 0x01, 0x00, 0x00, 0x00];
    let rowmark = [
        0x16, 0x24, 0x01, 0x17, 0x24, 0x01, 0x49, 0x66, 0x01, 0x00, 0x00, 0x00, 0x08, 0xd6,
        0x02, 0x00, 0x00, 0x00,
    ];
    let fkp = vec![
        mk(0, 1, &[]),      // leading '\r', default props
        mk(1, 3, &cell),    // "1\u{7}"
        mk(3, 5, &cell),    // "2\u{7}"
        mk(5, 6, &rowmark), // "\u{7}" row mark
    ];

    let paras = build_paragraphs(&word_doc, &pieces, &fkp, 6, 0, &[]);
    assert_eq!(paras.len(), 4);
    // leading mark
    assert_eq!(paras[0].text, "");
    assert_eq!(paras[0].terminator, '\r');
    assert!(!paras[0].props.f_in_table);
    // cells
    assert_eq!(paras[1].text, "1");
    assert_eq!(paras[1].terminator, '\u{7}');
    assert!(paras[1].props.f_in_table);
    assert!(!paras[1].props.is_table_trailing_mark);
    assert_eq!(paras[2].text, "2");
    // row mark
    assert_eq!(paras[3].text, "");
    assert_eq!(paras[3].terminator, '\u{7}');
    assert!(paras[3].props.f_in_table);
    assert!(paras[3].props.is_table_trailing_mark);
}

/// Text a tracked change deleted (`sprmCFRMarkDel`) is left out of
/// the structured paragraphs the way it is left out of the flat text,
/// so every surface agrees on what the document says.
#[test]
fn test_build_paragraphs_drops_deleted_revision_text() {
    let raw = "Keep this deleted text here.\r";
    let text_bytes: Vec<u8> = raw.encode_utf16().flat_map(|u| u.to_le_bytes()).collect();
    let mut word_doc = vec![0u8; 0x800 + text_bytes.len()];
    word_doc[0x800..0x800 + text_bytes.len()].copy_from_slice(&text_bytes);
    let n = raw.encode_utf16().count() as u32;
    let pieces = [unicode_piece(0x800, n)];
    let fkp = vec![FkpParagraph {
        fc_start: 0x800,
        fc_end: 0x800 + n * 2,
        grpprl: Vec::new(),
    }];
    // "deleted text " (cp 10..23) carries sprmCFRMarkDel = 1.
    let del = FkpRun {
        fc_start: 0x800 + 10 * 2,
        fc_end: 0x800 + 23 * 2,
        grpprl: vec![0x00, 0x08, 0x01],
    };
    let plain = |a: u32, b: u32| FkpRun {
        fc_start: 0x800 + a * 2,
        fc_end: 0x800 + b * 2,
        grpprl: Vec::new(),
    };
    let runs = vec![plain(0, 10), del, plain(23, n)];
    let paras = build_paragraphs(&word_doc, &pieces, &fkp, n, 0, &runs);
    assert_eq!(paras.len(), 1);
    assert_eq!(paras[0].text, "Keep this here.");
}

/// Regression: an astral character (emoji) is a single `char` but two
/// UTF-16 code units, so a `Vec<char>` indexed by CP desyncs every later
/// paragraph. Decoding each CP range directly must keep alignment. Each
/// paragraph ends with a terminator (`\r`) as a real `.doc` does.
#[test]
fn test_build_paragraphs_keeps_astral_alignment() {
    // "Hi 😀\r" (cp0..6) then "there\r" (cp6..12). The emoji occupies
    // cp3 and cp4 (two UTF-16 units) but is one char.
    let raw = "Hi 😀\rthere\r";
    let text_bytes: Vec<u8> = raw.encode_utf16().flat_map(|u| u.to_le_bytes()).collect();
    let mut word_doc = vec![0u8; 0x800 + text_bytes.len()];
    word_doc[0x800..0x800 + text_bytes.len()].copy_from_slice(&text_bytes);
    let pieces = [unicode_piece(0x800, 12)];

    let mk = |cp0: u32, cp1: u32| FkpParagraph {
        fc_start: 0x800 + cp0 * 2,
        fc_end: 0x800 + cp1 * 2,
        grpprl: Vec::new(),
    };
    let fkp = vec![mk(0, 6), mk(6, 12)];

    let paras = build_paragraphs(&word_doc, &pieces, &fkp, 12, 0, &[]);
    assert_eq!(paras.len(), 2);
    assert_eq!(paras[0].text, "Hi 😀", "emoji must not desync the range");
    assert_eq!(paras[0].terminator, '\r');
    assert_eq!(paras[1].text, "there", "second paragraph must be intact");
    assert_eq!(paras[1].terminator, '\r');
}

/// Regression: field codes (0x13/0x14/0x15) in a paragraph must be
/// stripped from the IR text, matching the sanitised plain-text path.
///
/// The instruction text between `0x13` and `0x14`
/// ("HYPERLINK ...", the field's own code, never shown by Word) must
/// be dropped entirely, not just its boundary markers; only the cached
/// result (between `0x14` and `0x15`) is visible text. This test used
/// to assert the opposite (`"SeeHYPERLINKresulthere"`, keeping both
/// halves) — that was the bug, not the contract.
#[test]
fn test_build_paragraphs_strips_field_codes() {
    // A HYPERLINK field run inside one paragraph, terminated by '\r'.
    let raw = "See\x13HYPERLINK\x14result\x15here\r";
    let text_bytes: Vec<u8> = raw.encode_utf16().flat_map(|u| u.to_le_bytes()).collect();
    let mut word_doc = vec![0u8; 0x800 + text_bytes.len()];
    word_doc[0x800..0x800 + text_bytes.len()].copy_from_slice(&text_bytes);
    let pieces = [unicode_piece(0x800, raw.chars().count() as u32)];

    let mk = |cp0: u32, cp1: u32| FkpParagraph {
        fc_start: 0x800 + cp0 * 2,
        fc_end: 0x800 + cp1 * 2,
        grpprl: Vec::new(),
    };
    let fkp = vec![mk(0, raw.chars().count() as u32)];
    let paras = build_paragraphs(&word_doc, &pieces, &fkp, raw.chars().count() as u32, 0, &[]);
    assert_eq!(paras.len(), 1);
    assert_eq!(paras[0].terminator, '\r');
    let t = &paras[0].text;
    assert!(!t.contains('\u{13}'), "field begin must be stripped");
    assert!(!t.contains('\u{14}'), "field separator must be stripped");
    assert!(!t.contains('\u{15}'), "field end must be stripped");
    assert!(
        !t.contains("HYPERLINK"),
        "field instruction text must not leak into visible text"
    );
    assert_eq!(t, "Seeresulthere");
}

/// Regression: the `cw == 0` Word8 re-read branch must not drop the trailing
/// byte of the grpprl. Per [MS-DOC] §2.9.175 (PapxInFkp), the
/// re-read form is `[cb':1][GrpPrlAndIstd: 2*cb']`, so the grpprl is
/// `2*cb' - 2` bytes — one byte longer than the `2*cb - 3` non-reread
/// form. The grpprl therefore ends at `p + 1 + 2*cb'`; the `+1` in
/// `extract_grpprl` is what keeps that byte (the buggy `p + 2*cb'` would
/// drop it).
/// When the last SPRM is `sprmTDefTable`, dropping that byte truncates the
/// TAP and the cell-merge spans vanish. The existing
/// `test_extract_grpprl_handles_word8_reread` test uses `cw = 6`, so it never
/// exercises this branch.
#[test]
fn test_papx_cw_zero_reread_extracts_trailing_tdef_table() {
    // 512-byte FKP page with the PAPX at word offset 0.
    let mut page = vec![0u8; 512];
    // PAPX: 0x00 (cw re-read marker), cw' = 17, istd = 0000, grpprl (32 bytes).
    page[0] = 0x00; // cw == 0 -> re-read the next byte as the real cw
    page[1] = 0x11; // cw' = 17 -> grpprl should be 2*17 - 2 = 32 bytes
    page[2] = 0x00;
    page[3] = 0x00; // istd
    // grpprl = sprmPFInTable(0x2416)=1  (3 bytes)
    //        + sprmTDefTable (opcode 2 + 2-byte cb=26 + 25-byte operand)
    let mut grpprl: Vec<u8> = vec![
        0x16, 0x24, 0x01, // sprmPFInTable = 1
        0x08, 0xD6, 0x1A, 0x00, // sprmTDefTable (0xD608), 2-byte cb = 26
        0x01, // itcMac = 1
        0x00, 0x00, 0x88, 0x13, // rgdxaCenter: 0, 5000
    ];
    grpprl.resize(32, 0); // rgtc padding (20 zero bytes) -> 32-byte grpprl
    assert_eq!(grpprl.len(), 32);
    page[4..4 + 32].copy_from_slice(&grpprl);

    let extracted = extract_grpprl(&page, 0);
    let props = extract_pap_props(&extracted);
    assert!(
        props.tap.is_some(),
        "cw==0 re-read must keep the full grpprl so the trailing TAP parses"
    );
    assert!(props.is_table_trailing_mark);
}

/// Regression: a PlcfBtePapx listing many BTEs that all
/// reference the same FKP page must not cause unbounded repeated parsing.
/// The walk dedupes visited pages and clamps `n` to the number of physical
/// pages, so the work stays bounded even with a hostile large `lcb`.
#[test]
fn test_papx_fkp_walk_is_bounded() {
    // One real 512-byte page holding a single empty PAPX.
    let mut word_doc = vec![0u8; 512];
    word_doc[511] = 1; // crun = 1
    word_doc[0..4].copy_from_slice(&0x800u32.to_le_bytes());
    word_doc[4..8].copy_from_slice(&0x802u32.to_le_bytes());
    word_doc[8] = 0; // no PAPX

    // PlcfBtePapx with n = 1000 BTEs, all pointing at page 0.
    let n: usize = 1000;
    let mut plc = Vec::new();
    for _ in 0..=n {
        plc.extend_from_slice(&0u32.to_le_bytes());
    }
    for _ in 0..n {
        plc.extend_from_slice(&0u32.to_le_bytes());
    }

    let out = parse_papx_paragraphs(&word_doc, &plc, 0, plc.len() as u32);
    // Despite 1000 BTEs, only the single physical page is parsed once.
    assert_eq!(out.len(), 1, "same page referenced 1000× must parse once, not 1000×");
}

#[test]
fn papx_paragraphs_are_bounded_by_pages() {
    // A bin table naming page 1 a thousand times; the page holds one run.
    let mut word = vec![0u8; 1024];
    word[512..516].copy_from_slice(&0u32.to_le_bytes());
    word[516..520].copy_from_slice(&10u32.to_le_bytes());
    word[1023] = 1;
    let n = 1000usize;
    let mut table = Vec::new();
    for i in 0..=n {
        table.extend_from_slice(&(i as u32).to_le_bytes());
    }
    for _ in 0..n {
        table.extend_from_slice(&1u32.to_le_bytes());
    }
    let paras = parse_papx_paragraphs(&word, &table, 0, table.len() as u32);
    assert_eq!(paras.len(), 1);
    assert!(parse_papx_paragraphs(&word, &table, 0, 3).is_empty());
    assert!(parse_papx_paragraphs(&word[..500], &table, 0, table.len() as u32).is_empty());
}
