use office_oxide::doc::word6::{contiguous_piece, parse_fib, parse_word2_fib, pieces, stories};


fn fib_bytes(
    complex: bool,
    ccp_text: u32,
    fc_min: u32,
    fc_mac: u32,
    clx: (u32, u32),
) -> Vec<u8> {
    let mut d = vec![0u8; 0x300];
    d[0..2].copy_from_slice(&0xA5DCu16.to_le_bytes());
    d[2..4].copy_from_slice(&101u16.to_le_bytes());
    d[6..8].copy_from_slice(&0x0409u16.to_le_bytes());
    d[0x0A..0x0C].copy_from_slice(&(if complex { 0x0004u16 } else { 0 }).to_le_bytes());
    d[0x18..0x1C].copy_from_slice(&fc_min.to_le_bytes());
    d[0x1C..0x20].copy_from_slice(&fc_mac.to_le_bytes());
    d[0x34..0x38].copy_from_slice(&ccp_text.to_le_bytes());
    d[0x160..0x164].copy_from_slice(&clx.0.to_le_bytes());
    d[0x164..0x168].copy_from_slice(&clx.1.to_le_bytes());
    d
}

#[test]
fn test_non_complex_text_is_read_from_fc_min() {
    let text = b"Hello from Word 6.\rSecond paragraph.\r";
    let mut doc = fib_bytes(false, text.len() as u32, 0x300, 0x300 + text.len() as u32, (0, 0));
    doc.extend_from_slice(text);
    let fib = parse_fib(&doc).unwrap();
    let table = pieces(&doc, &fib).unwrap();
    let (main, subs) = stories(&doc, &fib, &table);
    assert_eq!(main, "Hello from Word 6.\nSecond paragraph.\n");
    assert!(subs.is_empty());
}

/// A fast-saved file keeps its text in pieces named by a CLX inside
/// the WordDocument stream; the pieces' `fc` are plain byte offsets.
#[test]
fn test_complex_text_follows_the_piece_table_in_the_main_stream() {
    let a = b"second half\r";
    let b = b"first half, ";
    let fc_a = 0x300u32;
    let fc_b = fc_a + a.len() as u32;
    let clx_at = fc_b + b.len() as u32;
    // CLX: clxt=2, lcb, PlcPcd { cps: [0, 12, 24], pcds: 2 × 8 bytes }.
    let mut clx = vec![2u8];
    let plc_len = 3 * 4 + 2 * 8;
    clx.extend_from_slice(&(plc_len as u32).to_le_bytes());
    for cp in [0u32, b.len() as u32, (a.len() + b.len()) as u32] {
        clx.extend_from_slice(&cp.to_le_bytes());
    }
    for fc in [fc_b, fc_a] {
        clx.extend_from_slice(&0u16.to_le_bytes());
        clx.extend_from_slice(&fc.to_le_bytes());
        clx.extend_from_slice(&0u16.to_le_bytes());
    }
    let total = (a.len() + b.len()) as u32;
    let mut doc = fib_bytes(true, total, fc_a, clx_at, (clx_at, clx.len() as u32));
    doc.extend_from_slice(a);
    doc.extend_from_slice(b);
    doc.extend_from_slice(&clx);
    let fib = parse_fib(&doc).unwrap();
    let table = pieces(&doc, &fib).unwrap();
    let (main, _) = stories(&doc, &fib, &table);
    assert_eq!(main, "first half, second half\n");
}

/// The Macintosh and Far East builds set `fExtChar` and store the
/// text in two-byte units.
#[test]
fn test_ext_char_text_is_utf16() {
    let text: Vec<u8> = "Mac Word\r"
        .encode_utf16()
        .flat_map(u16::to_le_bytes)
        .collect();
    let mut doc = fib_bytes(false, 9, 0x300, 0x300 + text.len() as u32, (0, 0));
    doc[0x0A..0x0C].copy_from_slice(&0x1000u16.to_le_bytes());
    doc.extend_from_slice(&text);
    let fib = parse_fib(&doc).unwrap();
    assert!(fib.ext_char);
    let table = pieces(&doc, &fib).unwrap();
    assert_eq!(stories(&doc, &fib, &table).0, "Mac Word\n");
}

/// A Word 2.0 file is the FIB and the text with no container: the
/// text runs from `fcMin` in the Windows code page, the five story
/// lengths sit where Word 6 keeps its eight.
#[test]
fn test_word_2_text_is_read_from_a_flat_file() {
    let text = b"Word 2.0 for Windows.\rZweite Zeile: \xfcber.\r";
    let footnote = b"A footnote.\r";
    let mut doc = vec![0u8; 0x180];
    doc[0..2].copy_from_slice(&0xA5DBu16.to_le_bytes());
    doc[2..4].copy_from_slice(&45u16.to_le_bytes());
    doc[6..8].copy_from_slice(&0x0407u16.to_le_bytes());
    doc[0x18..0x1C].copy_from_slice(&0x180u32.to_le_bytes());
    let fc_mac = 0x180 + (text.len() + footnote.len()) as u32;
    doc[0x1C..0x20].copy_from_slice(&fc_mac.to_le_bytes());
    doc[0x34..0x38].copy_from_slice(&(text.len() as u32).to_le_bytes());
    doc[0x38..0x3C].copy_from_slice(&(footnote.len() as u32).to_le_bytes());
    doc.extend_from_slice(text);
    doc.extend_from_slice(footnote);
    let fib = parse_word2_fib(&doc).unwrap();
    assert!(!fib.ext_char);
    let table = vec![contiguous_piece(&doc, &fib)];
    let (main, subs) = stories(&doc, &fib, &table);
    assert_eq!(main, "Word 2.0 for Windows.\nZweite Zeile: über.\n");
    assert_eq!(subs, vec![(1, "A footnote.\n".to_string())]);
    assert!(parse_word2_fib(&doc[..0x100]).is_err(), "shorter than a FIB");
}

/// Fuzzed corpus files declare 1.8 GB of text and CLX offsets past
/// the end of the stream; nothing may allocate or index on those.
#[test]
fn test_absurd_fib_values_are_bounded_or_refused() {
    let mut doc = fib_bytes(false, u32::MAX, 768, 0, (0, 0));
    doc.extend_from_slice(b"x");
    let fib = parse_fib(&doc).unwrap();
    let table = pieces(&doc, &fib).unwrap();
    assert_eq!(stories(&doc, &fib, &table).0, "");
    let doc = fib_bytes(true, 100, 768, 900, (4_076_008_178, 15_728_882));
    let fib = parse_fib(&doc).unwrap();
    assert!(pieces(&doc, &fib).is_err());
}
