use office_oxide::doc::sprm::{
    ChpProps, PapProps, Sprm, chp_sprm_registry, decode_pchg_tabs, extract_chp_props,
    extract_pap_props, parse_grpprl, parse_tdef_table, pap_sprm_registry, pchg_tabs_operand_len,
};
use office_oxide::ir::{ParagraphAlignment, TabAlignment, UnderlineStyle};

/// Opcode → property name, transcribed from [MS-DOC] §2.6.2 (paragraph
/// SPRMs) and §2.6.3 (table SPRMs).
///
/// This exists to be *disagreed with*. The dispatch registry is
/// generated from the match arms, so an arm whose constant names a
/// different property than its comment claims shows up here as a
/// mismatch — which per-opcode inline assertions cannot do, because
/// nobody writes an assertion for an arm they believe is correct.
///
/// Entries beyond what the crate decodes are deliberate: they are the
/// opcodes that have been mistaken for the ones above.
const MS_DOC_SPRM_TABLE: &[(u16, &str)] = &[
    (0x2416, "sprmPFInTable"),
    (0x2417, "sprmPFTtp"),
    (0x260A, "sprmPIlvl"),
    (0x2640, "sprmPOutLvl"),
    (0x460B, "sprmPIlfo"),
    (0x6412, "sprmPDyaLine"),
    (0x6649, "sprmPItap"),
    (0xC60D, "sprmPChgTabsPapx"),
    (0xC615, "sprmPChgTabs"),
    (0xD608, "sprmTDefTable"),
    (0x2461, "sprmPJc"),
    (0x2403, "sprmPJc80"),
    (0x845E, "sprmPDxaLeft"),
    (0x840F, "sprmPDxaLeft80"),
    (0x845D, "sprmPDxaRight"),
    (0x840E, "sprmPDxaRight80"),
    (0x8460, "sprmPDxaLeft1"),
    (0x8411, "sprmPDxaLeft180"),
    (0xA413, "sprmPDyaBefore"),
    (0xA414, "sprmPDyaAfter"),
];

/// Every opcode the dispatch claims must name the property [MS-DOC]
/// gives it, and must cite a section.
#[test]
fn test_registry_matches_the_spec_table() {
    for &(opcode, name, section) in pap_sprm_registry().iter() {
        let expected = MS_DOC_SPRM_TABLE
            .iter()
            .find(|(o, _)| *o == opcode)
            .map(|(_, n)| *n);
        assert_eq!(
            expected,
            Some(name),
            "opcode 0x{opcode:04X} is decoded as {name}, but [MS-DOC] calls it {expected:?}"
        );
        assert!(
            section.starts_with("2.6"),
            "0x{opcode:04X} ({name}) must cite its [MS-DOC] §2.6.x section, got {section:?}"
        );
    }
}

/// No opcode may be dispatched twice — two arms claiming the same
/// constant means one of them never runs.
#[test]
fn test_registry_has_no_duplicate_opcodes() {
    let mut seen: Vec<u16> = pap_sprm_registry().iter().map(|(o, _, _)| *o).collect();
    seen.sort_unstable();
    let before = seen.len();
    seen.dedup();
    assert_eq!(before, seen.len(), "duplicate opcode in the dispatch");
}

/// The opcodes that have actually been confused for the ones we decode
/// must not be decoded as something else. `0x6412` is line spacing and
/// occurs 758 times in a 246-file corpus; reading it as an outline
/// level marked most of those paragraphs as headings.
#[test]
fn test_known_confusable_opcodes_are_not_claimed() {
    for confusable in [0x6412u16, 0x640A] {
        assert!(
            !pap_sprm_registry().iter().any(|(o, _, _)| *o == confusable),
            "0x{confusable:04X} is not a paragraph property this crate decodes"
        );
    }
}

/// The registry must actually be reachable from the decoder, so a
/// registry that drifts away from the dispatch cannot pass silently.
#[test]
fn test_every_registered_opcode_changes_the_decoded_props() {
    // A one-byte operand is enough for the flag/level SPRMs; the
    // multi-byte ones get four bytes.
    for &(opcode, name, _) in pap_sprm_registry().iter() {
        if matches!(opcode, 0xC615 | 0xC60D | 0xD608) {
            continue; // variable-length payloads, covered by their own tests
        }
        let mut grpprl = opcode.to_le_bytes().to_vec();
        grpprl.extend_from_slice(&[1u8, 0, 0, 0]);
        let props = extract_pap_props(&grpprl);
        assert_ne!(
            format!("{props:?}"),
            format!("{:?}", PapProps::default()),
            "0x{opcode:04X} ({name}) is registered but decoding it changes nothing"
        );
    }
}

/// Cell-paragraph grpprl: `sprmPFInTable(0x2416)=1`, `sprmPItap(0x6649)=1`.
fn cell_grpprl() -> Vec<u8> {
    vec![0x16, 0x24, 0x01, 0x49, 0x66, 0x01, 0x00, 0x00, 0x00]
}

/// Row-terminator grpprl: `sprmPFInTable(0x2416)=1`,
/// `sprmPFInTableTtp(0x2417)=1`, `sprmPItap(0x6649)=1`, then the full TAP
/// including `sprmTDefTable(0xD608)`. Only the head is needed to verify
/// flag extraction; the rest is padding the walker must skip over.
fn row_mark_grpprl() -> Vec<u8> {
    // 0x2416 op=01 | 0x2417 op=01 | 0x6649 op=01000000 | 0x563a op=1400
    // | 0xd634 1-byte len=06 ... | 0xd608 2-byte cb=04 payload=000000
    vec![
        0x16, 0x24, 0x01, // sprmPFInTable = 1
        0x17, 0x24, 0x01, // sprmPFInTableTtp = 1
        0x49, 0x66, 0x01, 0x00, 0x00, 0x00, // sprmPItap = 1
        0x3a, 0x56, 0x14, 0x00, // sprmTDefTableSpacing? 2-byte op
        0x34, 0xd6, 0x06, 0x00, 0x01, 0x02, 0x03, 0x6c, 0x00, // 1-byte len
        0x08, 0xd6, 0x04, 0x00, 0x00, 0x00, 0x00, // sprmTDefTable, 2-byte cb=4
    ]
}

#[test]
fn test_walks_fixed_and_variable_sprms() {
    let sprms = parse_grpprl(&cell_grpprl());
    assert_eq!(sprms.len(), 2);
    assert_eq!(sprms[0].opcode, 0x2416);
    assert_eq!(sprms[0].operand, vec![0x01]);
    assert_eq!(sprms[1].opcode, 0x6649);
    assert_eq!(sprms[1].operand, vec![0x01, 0x00, 0x00, 0x00]);
}

#[test]
fn test_row_mark_walk_consumes_every_byte() {
    let grpprl = row_mark_grpprl();
    let sprms = parse_grpprl(&grpprl);
    // No byte left behind: re-encoding the walked SPRMs — re-inserting the
    // correct length prefix (1-byte for ordinary spra=6 SPRMs, 2-byte `cb`
    // for the sole exception 0xD608) — reproduces the input exactly. This
    // guards against off-by-one skipping.
    let mut rebuilt = Vec::new();
    for s in &sprms {
        rebuilt.push((s.opcode & 0xFF) as u8);
        rebuilt.push((s.opcode >> 8) as u8);
        if s.opcode == 0xD608 {
            let cb = (s.operand.len() + 1) as u16;
            rebuilt.push(cb as u8);
            rebuilt.push((cb >> 8) as u8);
        } else if s.spra() == 6 {
            rebuilt.push(s.operand.len() as u8);
        }
        rebuilt.extend_from_slice(&s.operand);
    }
    assert_eq!(rebuilt, grpprl, "walker must consume every byte exactly");
    // The 0xD608 must be reached.
    assert!(sprms.iter().any(|s| s.opcode == 0xD608));
}

/// Regression for the `sprmTDefTable` 2-byte `cb` length prefix.
///
/// For `cb >= 256` the 1-byte-prefix walk under-consumes by `256 × cb_high`
/// and decodes the rest of the row's grpprl as fabricated SPRMs, which
/// both drops the merged-cell spans (TAP fails to parse) and can collide
/// with structure-driving opcodes. A 12-column table is the threshold:
/// `cb = 4 + 22·itcMac = 268` (>= 256). The walker must read the 2-byte
/// `cb`, decode the full TAP, and still reach the trailing SPRM.
#[test]
fn test_d608_two_byte_cb_decodes_wide_tables() {
    let itc: usize = 12;
    let mut tap = vec![itc as u8]; // itcMac
    for _ in 0..=itc {
        tap.extend_from_slice(&0i16.to_le_bytes()); // rgdxaCenter
    }
    for _ in 0..itc {
        tap.extend_from_slice(&[0u8; 20]); // TKBKTAP descriptors
    }
    let cb = (tap.len() + 1) as u16; // operand length is cb - 1
    let mut grpprl = vec![0x08, 0xd6, cb as u8, (cb >> 8) as u8];
    grpprl.extend_from_slice(&tap);
    // Trailing distinct SPRM proves the walker didn't under-consume.
    grpprl.extend_from_slice(&[0x16, 0x24, 0x01]); // sprmPFInTable = 1

    let sprms = parse_grpprl(&grpprl);
    let td = sprms
        .iter()
        .find(|s| s.opcode == 0xD608)
        .expect("0xD608 must be present");
    assert_eq!(
        td.operand.len(),
        tap.len(),
        "2-byte cb must decode the full {}-byte TAP",
        tap.len()
    );

    let props = extract_pap_props(&grpprl);
    assert_eq!(props.tap.as_ref().unwrap().itc_mac, 12, "12-column table TAP must parse");
    assert!(
        sprms.iter().any(|s| s.opcode == 0x2416),
        "trailing SPRM must be reached (no under-consumption)"
    );
}

#[test]
fn test_extracts_cell_props() {
    let props = extract_pap_props(&cell_grpprl());
    assert!(props.f_in_table);
    assert!(!props.is_table_trailing_mark);
    assert_eq!(props.itap, 1);
}

#[test]
fn test_extracts_row_mark_props() {
    let props = extract_pap_props(&row_mark_grpprl());
    assert!(props.f_in_table);
    assert!(props.is_table_trailing_mark);
    assert_eq!(props.itap, 1);
    assert!(props.tap.is_some(), "0xD608 operand must parse into a TapInfo");
}

/// Regression: alignment/indentation/spacing SPRMs decode
/// to their real values, not the always-`None`/`0` they were before.
#[test]
fn test_extract_pap_props_alignment_indent_and_spacing() {
    // sprmPJc(0x2461) = 1 (center)
    let props = extract_pap_props(&[0x61, 0x24, 0x01]);
    assert_eq!(props.alignment, Some(ParagraphAlignment::Center));

    // sprmPJc80(0x2403) = 2 (right) — legacy opcode, same meaning.
    let props = extract_pap_props(&[0x03, 0x24, 0x02]);
    assert_eq!(props.alignment, Some(ParagraphAlignment::Right));

    // sprmPJc(0x2461) = 3 (both/justify)
    let props = extract_pap_props(&[0x61, 0x24, 0x03]);
    assert_eq!(props.alignment, Some(ParagraphAlignment::Justify));

    // sprmPDxaLeft(0x845E) = 720 twips (0.5in), sprmPDxaLeft1(0x8460) =
    // -360 (hanging indent), sprmPDxaRight(0x845D) = 0.
    let mut grpprl = Vec::new();
    grpprl.extend_from_slice(&[0x5E, 0x84]);
    grpprl.extend_from_slice(&720i16.to_le_bytes());
    grpprl.extend_from_slice(&[0x60, 0x84]);
    grpprl.extend_from_slice(&(-360i16).to_le_bytes());
    grpprl.extend_from_slice(&[0x5D, 0x84]);
    grpprl.extend_from_slice(&0i16.to_le_bytes());
    let props = extract_pap_props(&grpprl);
    assert_eq!(props.indent_left_twips, Some(720));
    assert_eq!(props.first_line_indent_twips, Some(-360));
    assert_eq!(props.indent_right_twips, Some(0));

    // sprmPDyaBefore(0xA413) = 200, sprmPDyaAfter(0xA414) = 100 twips.
    let mut grpprl = Vec::new();
    grpprl.extend_from_slice(&[0x13, 0xA4]);
    grpprl.extend_from_slice(&200u16.to_le_bytes());
    grpprl.extend_from_slice(&[0x14, 0xA4]);
    grpprl.extend_from_slice(&100u16.to_le_bytes());
    let props = extract_pap_props(&grpprl);
    assert_eq!(props.space_before_twips, Some(200));
    assert_eq!(props.space_after_twips, Some(100));

    // Out-of-range spacing (> 0x7BC0) is ignored, not stored.
    let mut grpprl = vec![0x13, 0xA4];
    grpprl.extend_from_slice(&0x7BC1u16.to_le_bytes());
    assert_eq!(extract_pap_props(&grpprl).space_before_twips, None);
}

#[test]
fn test_empty_grpprl_is_ordinary_prose() {
    let props = extract_pap_props(&[]);
    assert!(!props.f_in_table);
    assert!(!props.is_table_trailing_mark);
    assert_eq!(props.itap, 0);
    assert!(props.ilvl.is_none());
    assert!(props.ilfo.is_none());
    assert!(props.tap.is_none());
}

#[test]
fn test_decodes_pchg_tabs_new_stops() {
    // PChgTabsOperand (0xC615): PchgTabsDelClose (cDel=0) then PchgTabsAdd
    // (cAdd=2). Positions are 2-byte XAS (signed twips); each TBD is 1
    // byte with `jc` in bits 0..2. new[0]: jc=2 (Right), pos=2000;
    // new[1]: jc=1 (Center), pos=1000.
    let mut operand = vec![0x00]; // cDel = 0 (no deletes)
    operand.push(2); // cAdd = 2
    operand.extend_from_slice(&[0xD0, 0x07]); // rgdxaAdd[0] = 2000
    operand.extend_from_slice(&[0xE8, 0x03]); // rgdxaAdd[1] = 1000
    operand.push(0x02); // rgtbdAdd[0]: jc=2 (Right)
    operand.push(0x01); // rgtbdAdd[1]: jc=1 (Center)

    let tabs = decode_pchg_tabs(0xC615, &operand);
    assert_eq!(tabs.len(), 2);
    assert_eq!(tabs[0].position_twips, 2000);
    assert_eq!(tabs[0].alignment, TabAlignment::Right);
    assert_eq!(tabs[1].position_twips, 1000);
    assert_eq!(tabs[1].alignment, TabAlignment::Center);
}

#[test]
fn test_pchg_tabs_malformed_operand_is_empty() {
    // Truncated operand: cDel=2 but no rgdxaDel/rgdxaClose bytes, so the
    // Add list is unreachable — must degrade to empty, not panic.
    assert!(decode_pchg_tabs(0xC615, &[0x02]).is_empty());
    // PchgTabsPapx: cDel=2 but no following bytes.
    assert!(decode_pchg_tabs(0xC60D, &[0x02, 0x00]).is_empty());
}

fn hex(s: &str) -> Vec<u8> {
    (0..s.len())
        .step_by(2)
        .map(|i| u8::from_str_radix(&s[i..i + 2], 16).unwrap())
        .collect()
}

#[test]
fn test_parses_tdef_table_boundaries() {
    // 0xD608 operand bytes captured from a real Word document (the source
    // .doc is not distributed in this repo): itcMac=2, boundaries
    // [0, 6872, 9302]. (The 2-byte `cb` prefix is stripped by parse_grpprl,
    // so the operand here starts at itcMac.)
    let tap = parse_tdef_table(&hex(
        "020000d81a562400000000040101000401010004010100000000000000000004010100040101000401010004010100",
    ))
    .unwrap();
    assert_eq!(tap.itc_mac, 2);
    assert_eq!(tap.centers, vec![0, 6872, 9302]);
    assert_eq!(tap.cells.len(), 2);
    assert_eq!(tap.cells[0].rgf, 0);
    assert_eq!(tap.cells[0].w_width, 0);
}

#[test]
fn test_parses_tdef_table_vertical_merge_flags() {
    // 0xD608 operand bytes captured from a real Word document (source .doc
    // not distributed): itcMac=4; the first cell descriptor carries
    // fVertMerge | fVertRestart (0x0060). (cb prefix stripped — operand
    // starts at itcMac.)
    let tap = parse_tdef_table(&hex(
        "04000026046a16d41f56246000000004010100040101000401010000000000000000000401010004010100040101000000000000000000040101000401010004010100000000000000000004010100040101000401010004010100",
    ))
    .unwrap();
    assert_eq!(tap.itc_mac, 4);
    assert_eq!(tap.centers, vec![0, 1062, 5738, 8148, 9302]);
    assert_eq!(tap.cells[0].rgf, 0x0060, "fVertMerge | fVertRestart");
    assert_eq!(tap.cells[1].rgf, 0);
    assert_eq!(tap.cells[3].rgf, 0);
}

#[test]
fn test_rejects_truncated_tdef_table() {
    assert!(parse_tdef_table(&[]).is_none());
    // itcMac=4 but only 2 further bytes — needs far more for rgdxaCenter
    // + rgtc, so it must fail.
    assert!(parse_tdef_table(&[0x04, 0x00, 0x00]).is_none());
    // A TAP labelled as itcMac=4 needs 92 bytes and must fail when short.
    let row0 = hex(
        "020000d81a562400000000040101000401010004010100000000000000000004010100040101000401010004010100",
    );
    let mut malformed = vec![0x04];
    malformed.extend_from_slice(&row0[1..]);
    malformed.truncate(10); // far fewer than the 92 bytes required
    assert!(parse_tdef_table(&malformed).is_none());
}

#[test]
fn test_spra_and_sgc_fields() {
    let cell = Sprm {
        opcode: 0x2416,
        operand: vec![1],
    };
    assert_eq!(cell.spra(), 1); // 1-byte operand
    assert_eq!(cell.sgc(), 1); // PAP

    let tdef = Sprm {
        opcode: 0xD608,
        operand: vec![],
    };
    assert_eq!(tdef.spra(), 6); // variable
    assert_eq!(tdef.sgc(), 5); // TAP
}

// --------------------------------------------------------------------
// Opcode identity in `extract_pap_props`. Every fixture uses the opcode
// *as Word writes it per [MS-DOC]*, not the project's own constants, so a
// mislabelled opcode in the dispatch shows here.
// --------------------------------------------------------------------

/// `0x460B` is `sprmPIlfo` (2-byte operand). The decoder must populate
/// `ilfo`. Today it is dispatched as `sprmPIlvl`, so `ilfo` stays `None`.
#[test]
fn test_sprm_pilfo_opcode_460b_populates_ilfo() {
    // sprmPIlfo (0x460B), operand = 0x0005 (ilfo index 5).
    let grpprl = [0x0B, 0x46, 0x05, 0x00];
    let props = extract_pap_props(&grpprl);
    assert_eq!(props.ilfo, Some(5), "0x460B is sprmPIlfo: must set ilfo");
    assert_eq!(props.ilvl, None, "0x460B must not be read as ilvl");
}

/// `0x260A` is `sprmPIlvl` (1-byte operand). The decoder must populate
/// `ilvl`. Today it is never read (falls through to `_`).
#[test]
fn test_sprm_pilvl_opcode_260a_populates_ilvl() {
    // sprmPIlvl (0x260A), operand = 0x01 (level 1).
    let grpprl = [0x0A, 0x26, 0x01];
    let props = extract_pap_props(&grpprl);
    assert_eq!(props.ilvl, Some(1), "0x260A is sprmPIlvl: must set ilvl");
}

/// `0xC615` is `sprmPChgTabs`. The decoder must populate tab stops from it.
#[test]
fn test_sprm_pchg_tabs_opcode_c615_populates_tabs() {
    // Per [MS-DOC] §2.9.182 the operand is a `PChgTabsOperand`:
    // `PchgTabsDelClose` (cDel, then 4 bytes per delete) followed by
    // `PchgTabsAdd` (cAdd, then 2-byte positions + 1-byte TBD per add).
    // `0xC615` carries a **1-byte** `cb` (not the 2-byte `cb` of 0xD608), so
    // the grpprl layout is opcode(2) + cb(1) + body(cb bytes).
    //
    // The fixture uses cDel = 1 (one delete entry) on purpose: a 1-byte-cb
    // off-by-one that shifted the operand by one byte would misread `cDel`
    // and land the add list at the wrong offset, so only a non-zero `cDel`
    // exposes the bug. cAdd = 2; positions 2000 & 1000, TBD jc=2 / jc=1.
    let body: Vec<u8> = vec![
        1, // cDel = 1 (one delete entry — exercises the skip)
        0x00, 0x00, // rgdxaDel[0]
        0x00, 0x00, // rgdxaClose[0]
        2,    // cAdd = 2
        0xD0, 0x07, // rgdxaAdd[0] = 2000
        0xE8, 0x03, // rgdxaAdd[1] = 1000
        0x02, // rgtbdAdd[0]: jc=2 (Right)
        0x01, // rgtbdAdd[1]: jc=1 (Center)
    ];
    let cb = body.len() as u8; // 1-byte cb = body length
    let mut grpprl = vec![0x15, 0xC6]; // sprmPChgTabs (0xC615)
    grpprl.push(cb);
    grpprl.extend_from_slice(&body);

    let props = extract_pap_props(&grpprl);
    assert!(!props.tabs.is_empty(), "0xC615 is sprmPChgTabs: must populate tabs");
    assert_eq!(props.tabs.len(), 2, "cDel must be skipped, cAdd=2 adds remain");
    assert_eq!(props.tabs[0].position_twips, 2000);
    assert_eq!(props.tabs[0].alignment, TabAlignment::Right);
    assert_eq!(props.tabs[1].position_twips, 1000);
    assert_eq!(props.tabs[1].alignment, TabAlignment::Center);
}

/// `0xC615` in the `cb == 255` escape form: the literal byte count is not
/// 255, the length is derived from the payload's own `cDel`/`cAdd`. A naive
/// "255-byte operand" read would overrun and desync the rest of the grpprl;
/// the byte-level round trip must reproduce the input exactly.
#[test]
fn test_sprm_pchg_tabs_c615_cb_255_escape_round_trips() {
    // cDel = 1 (delete block = 1 + 4*1 = 5 bytes), cAdd = 2 (add block =
    // 1 + 2*2 + 2 = 7 bytes). Total body = 12 bytes.
    let body: Vec<u8> = vec![
        1, 0x00, 0x00, 0x00, 0x00, // PchgTabsDelClose: cDel=1 + 4 bytes
        2, 0x64, 0x00, 0xC8, 0x00, 0x03, 0x01, // PchgTabsAdd: cAdd=2 + positions + TBDs
    ];
    let mut grpprl = vec![0x15, 0xC6, 0xFF]; // opcode + cb == 255 escape
    grpprl.extend_from_slice(&body);

    let sprms = parse_grpprl(&grpprl);
    assert_eq!(sprms.len(), 1, "must decode exactly one SPRM");
    let s = &sprms[0];
    assert_eq!(s.opcode, 0xC615);
    // The 1-byte cb (0xFF) is consumed; operand is the raw body.
    assert_eq!(s.operand, body, "operand must be the body without the cb");

    // Round-trip: rebuild the grpprl from the walked SPRM.
    let rebuilt = {
        let mut v = vec![(s.opcode & 0xFF) as u8, (s.opcode >> 8) as u8];
        v.push(0xFF); // cb escape
        v.extend_from_slice(&s.operand);
        v
    };
    assert_eq!(rebuilt, grpprl, "walker must consume every byte exactly");

    let props = extract_pap_props(&grpprl);
    assert_eq!(props.tabs.len(), 2);
    assert_eq!(props.tabs[0].position_twips, 100); // 0x64
    assert_eq!(props.tabs[1].position_twips, 200); // 0xC8
}

/// `0xC60D` (`sprmPChgTabsPapx`) carries a normal 1-byte `cb` prefix (not a
/// no-prefix opcode), and its delete block is `PChgTabsDel` (`1 + 2·cDel`,
/// one XAS per tab) rather than `PchgTabsDelClose` (`1 + 4·cDel`). Build the
/// grpprl straight from [MS-DOC]: opcode + `cb = 7` + `PChgTabsDel{cTabs=1,
/// rgdxaDel=[16]}` + `PChgTabsAdd{cTabs=1, pos=2000, TBD jc=2}`, followed by
/// a `sprmPFInTable` so we can prove the walker does NOT swallow it.
#[test]
fn test_sprm_pchg_tabs_papx_c60d_populates_tabs() {
    // PchgTabsDel: cTabs=1, rgdxaDel=[16] (2-byte XAS) -> 3 bytes.
    // PchgTabsAdd: cTabs=1, rgdxaAdd=[2000], rgtbdAdd=[jc=2] -> 4 bytes.
    // Body = 7 bytes, so the 1-byte cb prefix is 7.
    let body: Vec<u8> = vec![
        1, 0x10, 0x00, // PchgTabsDel: cTabs=1, rgdxaDel=[16]
        1, 0xD0, 0x07, 0x02, // PchgTabsAdd: cTabs=1, rgdxaAdd=[2000], TBD jc=2
    ];
    let mut grpprl = vec![0x0D, 0xC6, 7]; // opcode + 1-byte cb
    grpprl.extend_from_slice(&body);
    grpprl.extend_from_slice(&[0x16, 0x24, 0x01]); // sprmPFInTable, operand 0x01

    // The trailing SPRM must be decoded, not swallowed by a bad length.
    let sprms = parse_grpprl(&grpprl);
    assert_eq!(sprms.len(), 2, "0xC60D must decode AND leave the trailing SPRM intact");
    assert_eq!(sprms[0].opcode, 0xC60D);
    assert_eq!(sprms[0].operand, body);
    assert_eq!(sprms[1].opcode, 0x2416);

    let props = extract_pap_props(&grpprl);
    assert_eq!(props.tabs.len(), 1, "0xC60D PChgTabsDel is 1 + 2·cDel");
    assert_eq!(props.tabs[0].position_twips, 2000);
    assert_eq!(props.tabs[0].alignment, TabAlignment::Right);
    assert!(props.f_in_table, "trailing sprmPFInTable must be reached and applied");
}

/// `0xD632` is `sprmTCellPadding` (NOT `sprmPChgTabs`). It must not be read
/// as tab stops. Today it is dispatched as `sprmPChgTabs`, so `tabs` is
/// populated — the inverse of the correct behaviour.
#[test]
fn test_sprm_tcell_padding_opcode_d632_does_not_populate_tabs() {
    // PChgTabsOperand-style bytes tagged with the TCellPadding opcode
    // (0xD632): 1-byte length prefix = 8, then cDel=0, cAdd=2, two
    // positions, two TBDs.
    let grpprl = [
        0x32, 0xD6, 8, 0x00, 0x02, 0xD0, 0x07, 0xE8, 0x03, 0x02, 0x01,
    ];
    let props = extract_pap_props(&grpprl);
    assert!(
        props.tabs.is_empty(),
        "0xD632 is sprmTCellPadding, not sprmPChgTabs: must not populate tabs"
    );
}

/// `0xC615` with a truncated length prefix must stop cleanly, never panic.
/// A grpprl holding only the opcode (no cb byte) and one
/// holding the cb but no body are both malformed inputs.
#[test]
fn test_sprm_pchg_tabs_c615_truncated_cb_is_empty() {
    // Opcode only, no cb byte: the 1-byte cb read is out of bounds -> stop.
    let sprms = parse_grpprl(&[0x15, 0xC6]);
    assert!(sprms.is_empty(), "truncated 0xC615 (no cb) must yield no SPRM, not panic");
    // cb present but body absent: cb == 4 claims 4 body bytes that do not
    // exist; the operand must clamp to empty, not read past the buffer.
    let sprms = parse_grpprl(&[0x15, 0xC6, 0x04]);
    assert_eq!(sprms.len(), 1, "opcode is present so one SPRM is produced");
    assert!(
        sprms[0].operand.is_empty(),
        "0xC615 cb with no body must clamp the operand to empty"
    );
}

/// `0xC615` in the `cb == 255` escape form must be consumed exactly so the
/// following SPRM is reached. This is the exact off-by-one the 2-byte-cb
/// misreading caused: a one-byte shift would desync the rest of the grpprl
/// and either drop or mis-parse the trailing SPRM.
#[test]
fn test_sprm_pchg_tabs_c615_255_escape_followed_by_sprm() {
    // cDel=1, cAdd=2 (12-byte body), then a trailing sprmPFInTable
    // (0x2416, 1-byte operand 0x01).
    let body: Vec<u8> = vec![
        1, 0x00, 0x00, 0x00, 0x00, // PchgTabsDelClose: cDel=1 + 4 bytes
        2, 0x64, 0x00, 0xC8, 0x00, 0x03, 0x01, // PchgTabsAdd: cAdd=2 + positions + TBDs
    ];
    let mut grpprl = vec![0x15, 0xC6, 0xFF]; // opcode + cb == 255 escape
    grpprl.extend_from_slice(&body);
    grpprl.extend_from_slice(&[0x16, 0x24, 0x01]); // sprmPFInTable, operand 0x01

    let sprms = parse_grpprl(&grpprl);
    assert_eq!(sprms.len(), 2, "must decode both the 0xC615 and the trailing SPRM (no desync)");
    assert_eq!(sprms[0].opcode, 0xC615);
    assert_eq!(sprms[0].operand, body, "0xC615 operand must be the raw body");
    assert_eq!(sprms[1].opcode, 0x2416);
    assert_eq!(sprms[1].operand, vec![0x01]);

    let props = extract_pap_props(&grpprl);
    assert_eq!(props.tabs.len(), 2, "tabs from 0xC615 must be present");
    assert!(props.f_in_table, "trailing sprmPFInTable must be reached and applied");
}

/// A variable-length SPRM whose length prefix / body is truncated must stop
/// the walk cleanly, never panic. Covers the truncation
/// `break` for each special variable encoding: 0xD608 (2-byte cb), 0xC615
/// (1-byte cb), and 0xC60D (1-byte cb).
#[test]
fn test_parse_grpprl_truncated_variable_sprm_prefixes() {
    assert!(
        parse_grpprl(&[0x08, 0xD6]).is_empty(),
        "0xD608 with no 2-byte cb must stop, not panic"
    );
    assert!(
        parse_grpprl(&[0x15, 0xC6]).is_empty(),
        "0xC615 with no 1-byte cb must stop, not panic"
    );
    assert!(
        parse_grpprl(&[0x0D, 0xC6]).is_empty(),
        "0xC60D with no body must stop, not panic"
    );
}

/// `pchg_tabs_operand_len` must bound itself against a short buffer instead
/// of indexing out of range.
#[test]
fn test_pchg_tabs_operand_len_truncated() {
    // start beyond the buffer -> 0.
    assert_eq!(pchg_tabs_operand_len(&[], 0), 0);
    // cDel present but its rgdxa/rgdxaClose block runs past the end -> the
    // remaining bytes are returned, not a panic.
    assert_eq!(pchg_tabs_operand_len(&[0x02], 0), 1);
}

/// Consolidated opcode-conformance gate: every dispatched opcode must name
/// the property [MS-DOC] assigns it: `0x460B` is `ilfo` (not `ilvl`),
/// `0xD632` is not tabs, and `0x260A` / `0xC615` are read.
#[test]
fn test_opcode_conformance_gate() {
    // 0x460B = sprmPIlfo -> ilfo
    assert_eq!(
        extract_pap_props(&[0x0B, 0x46, 0x03, 0x00]).ilfo,
        Some(3),
        "0x460B = sprmPIlfo"
    );
    // 0x260A = sprmPIlvl -> ilvl
    assert_eq!(extract_pap_props(&[0x0A, 0x26, 0x02]).ilvl, Some(2), "0x260A = sprmPIlvl");
    // 0xD632 = sprmTCellPadding -> no tabs
    assert!(
        extract_pap_props(&[0x32, 0xD6, 4, 0x00, 0x01, 0x64, 0x00])
            .tabs
            .is_empty(),
        "0xD632 = sprmTCellPadding"
    );
}

/// [MS-DOC] transcription for the CHP registry, mirroring
/// `MS_DOC_SPRM_TABLE` above.
const MS_DOC_CHP_SPRM_TABLE: &[(u16, &str)] = &[
    (0x0800, "sprmCFRMarkDel"),
    (0x0801, "sprmCFRMarkIns"),
    (0x0835, "sprmCFBold"),
    (0x0836, "sprmCFItalic"),
    (0x2A3E, "sprmCKul"),
    (0x6870, "sprmCCv"),
    (0x4A43, "sprmCHps"),
];

#[test]
fn test_chp_registry_matches_the_spec_table() {
    for &(opcode, name, section) in chp_sprm_registry().iter() {
        let expected = MS_DOC_CHP_SPRM_TABLE
            .iter()
            .find(|(o, _)| *o == opcode)
            .map(|(_, n)| *n);
        assert_eq!(
            expected,
            Some(name),
            "opcode 0x{opcode:04X} is decoded as {name}, but [MS-DOC] calls it {expected:?}"
        );
        assert!(
            section.starts_with("2.6"),
            "0x{opcode:04X} ({name}) must cite its [MS-DOC] §2.6.x section, got {section:?}"
        );
    }
}

/// Mirrors `test_every_registered_opcode_changes_the_decoded_props`, but for
/// the CHP registry. `sprmCHps` needs its own payload since a generic
/// `[1, 0, 0, 0]` operand (font size `1` half-point) falls outside its
/// valid `2..=3276` range and would be silently ignored, not stored.
#[test]
fn test_every_registered_chp_opcode_changes_the_decoded_props() {
    for &(opcode, name, _) in chp_sprm_registry().iter() {
        let mut grpprl = opcode.to_le_bytes().to_vec();
        if opcode == 0x4A43 {
            grpprl.extend_from_slice(&[48u8, 0]); // 24pt, in range
        } else {
            grpprl.extend_from_slice(&[1u8, 0, 0, 0]);
        }
        let props = extract_chp_props(&grpprl);
        assert_ne!(
            format!("{props:?}"),
            format!("{:?}", ChpProps::default()),
            "0x{opcode:04X} ({name}) is registered but decoding it changes nothing"
        );
    }
}

#[test]
fn test_chp_registry_has_no_duplicate_opcodes() {
    let mut seen: Vec<u16> = chp_sprm_registry().iter().map(|(o, _, _)| *o).collect();
    seen.sort_unstable();
    let before = seen.len();
    seen.dedup();
    assert_eq!(before, seen.len(), "duplicate opcode in the CHP dispatch");
}

#[test]
fn test_extract_chp_props_marks_deleted_and_inserted_runs() {
    // sprmCFRMarkDel = 1
    let props = extract_chp_props(&[0x00, 0x08, 0x01]);
    assert!(props.f_rmark_del);
    assert!(!props.f_rmark_ins);

    // sprmCFRMarkIns = 1
    let props = extract_chp_props(&[0x01, 0x08, 0x01]);
    assert!(!props.f_rmark_del);
    assert!(props.f_rmark_ins);

    // A zero operand toggles the flag off, not on.
    let props = extract_chp_props(&[0x00, 0x08, 0x00]);
    assert!(!props.f_rmark_del);
}

#[test]
fn test_extract_chp_props_empty_grpprl_is_default() {
    assert_eq!(extract_chp_props(&[]), ChpProps::default());
}

#[test]
fn test_extract_chp_props_bold_and_italic() {
    let props = extract_chp_props(&[0x35, 0x08, 0x01, 0x36, 0x08, 0x01]);
    assert!(props.bold);
    assert!(props.italic);

    // Zero operand toggles off, not on.
    let props = extract_chp_props(&[0x35, 0x08, 0x00]);
    assert!(!props.bold);
}

#[test]
fn test_extract_chp_props_underline_maps_kul_values() {
    assert_eq!(extract_chp_props(&[0x3E, 0x2A, 0x00]).underline, None);
    assert_eq!(extract_chp_props(&[0x3E, 0x2A, 0x01]).underline, Some(UnderlineStyle::Single));
    assert_eq!(extract_chp_props(&[0x3E, 0x2A, 0x03]).underline, Some(UnderlineStyle::Double));
    assert_eq!(extract_chp_props(&[0x3E, 0x2A, 0x0B]).underline, Some(UnderlineStyle::Wave));
    // An unrecognized/reserved value still yields "some underline",
    // not silence.
    assert_eq!(extract_chp_props(&[0x3E, 0x2A, 0x63]).underline, Some(UnderlineStyle::Single));
}

#[test]
fn test_extract_chp_props_color_ignores_auto() {
    // fAuto = 0: real RGB color.
    let props = extract_chp_props(&[0x70, 0x68, 0xFF, 0x99, 0x00, 0x00]);
    assert_eq!(props.color, Some([0xFF, 0x99, 0x00]));

    // fAuto = 1: "use the automatic color" — no override.
    let props = extract_chp_props(&[0x70, 0x68, 0xFF, 0x99, 0x00, 0x01]);
    assert_eq!(props.color, None);
}

#[test]
fn test_extract_chp_props_font_size_rejects_out_of_range() {
    // 24pt = 48 half-points.
    let props = extract_chp_props(&[0x43, 0x4A, 48, 0]);
    assert_eq!(props.font_size_half_pt, Some(48));

    // 0 is below the spec's minimum of 2 — ignored, not stored.
    let props = extract_chp_props(&[0x43, 0x4A, 0, 0]);
    assert_eq!(props.font_size_half_pt, None);
}

#[test]
fn test_extract_chp_props_ignores_unknown_opcodes() {
    // 0x2416 = sprmPFInTable — a PAP opcode, must not affect CHP props.
    let props = extract_chp_props(&[0x16, 0x24, 0x01]);
    assert_eq!(props, ChpProps::default());
}

#[test]
fn complete_sprms_are_read_back_and_rewritten_byte_for_byte() {
    // A 1-byte operand (spra 1), a 0xD608 with a 2-byte cb, a 0xC615 with
    // the 255 escape (cDel = 0, cAdd = 1), and a 0xC60D with a 1-byte cb.
    let mut g = vec![0x03, 0x24, 0x01];
    g.extend_from_slice(&[0x08, 0xD6, 0x03, 0x00, 0xAA, 0xBB]);
    g.extend_from_slice(&[0x15, 0xC6, 0xFF, 0x00, 0x01, 0x10, 0x00, 0x01]);
    g.extend_from_slice(&[0x0D, 0xC6, 0x02, 0x07, 0x08]);
    let sprms = parse_grpprl(&g);
    let got: Vec<(u16, Vec<u8>)> = sprms.iter().map(|s| (s.opcode, s.operand.clone())).collect();
    assert_eq!(
        got,
        vec![
            (0x2403, vec![0x01]),
            (0xD608, vec![0xAA, 0xBB]),
            (0xC615, vec![0x00, 0x01, 0x10, 0x00, 0x01]),
            (0xC60D, vec![0x07, 0x08]),
        ]
    );
    let mut back = Vec::new();
    for s in &sprms {
        back.extend_from_slice(&s.opcode.to_le_bytes());
        match s.opcode {
            0xD608 => back.extend_from_slice(&((s.operand.len() + 1) as u16).to_le_bytes()),
            0xC615 => back.push(0xFF),
            0xC60D => back.push(s.operand.len() as u8),
            _ => {},
        }
        back.extend_from_slice(&s.operand);
    }
    assert_eq!(back, g);
}

#[test]
fn tdef_table_needs_three_plus_twenty_two_bytes_per_cell() {
    assert!(parse_tdef_table(&[]).is_none());
    assert!(parse_tdef_table(&[4, 0, 0]).is_none());
    let mut o = vec![1u8];
    o.extend_from_slice(&(-5i16).to_le_bytes());
    o.extend_from_slice(&100i16.to_le_bytes());
    let mut cell = vec![0u8; 20];
    cell[0..2].copy_from_slice(&0x0102u16.to_le_bytes());
    cell[2..4].copy_from_slice(&1440u16.to_le_bytes());
    o.extend_from_slice(&cell);
    assert_eq!(o.len(), 3 + 22);
    let t = parse_tdef_table(&o).unwrap();
    assert_eq!(t.itc_mac, 1);
    assert_eq!(t.centers, vec![-5, 100]);
    assert_eq!(t.cells.len(), 1);
    assert_eq!(t.cells[0].rgf, 0x0102);
    assert_eq!(t.cells[0].w_width, 1440);
    assert!(parse_tdef_table(&o[..o.len() - 1]).is_none());
}
