use office_oxide::doc::list_format::ListFormatting;


/// The exact byte layout from [MS-DOC]'s own "Example of a List"
/// worked example: one list (`lsid = 0x44F53D09`), 9 levels
/// (`fSimpleList = 0`), and one `LFO` whose `lsid` matches it.
/// `lvl[0].iStartAt = 1`, `lvl[1].iStartAt = 3`, `lvl[2]` is unnumbered
/// (`nfc = 0xFF`).
fn spec_example_table_stream() -> Vec<u8> {
    let mut data = vec![0u8; 0x1000];

    // PlfLst at 0x0536: cLst = 1, then one 28-byte LSTF.
    let plf_lst_start = 0x0536;
    data[plf_lst_start..plf_lst_start + 2].copy_from_slice(&1u16.to_le_bytes());
    let lstf_start = plf_lst_start + 2;
    data[lstf_start..lstf_start + 4].copy_from_slice(&0x44F53D09u32.to_le_bytes()); // lsid
    data[lstf_start + 4..lstf_start + 8].copy_from_slice(&0x31200A2Cu32.to_le_bytes()); // tplc
    // rgistdPara[9] left as zero; flags byte (offset 24) = 0 -> fSimpleList=0 (9 levels).
    data[lstf_start + 24] = 0x00;

    // LVL array begins at fcPlfLst + lcbPlfLst = 0x0536 + 0x1E = 0x0554.
    let mut pos = 0x0554usize;
    // lvl[0]: iStartAt=1, nfc=0x00, cbGrpprlChpx=0x0D, cbGrpprlPapx=0x18, Xst cch=2.
    pos = write_test_lvl(&mut data, pos, 1, 0x00, 0x0D, 0x18, 2);
    // lvl[1]: iStartAt=3, nfc=0x04, cbGrpprlChpx=0x0D, cbGrpprlPapx=0x18, Xst cch=4.
    pos = write_test_lvl(&mut data, pos, 3, 0x04, 0x0D, 0x18, 4);
    // lvl[2]: iStartAt=1 (ignored, unnumbered), nfc=0xFF, cbGrpprlChpx=0x0D, cbGrpprlPapx=0x10, Xst cch=8.
    pos = write_test_lvl(&mut data, pos, 1, 0xFF, 0x0D, 0x10, 8);
    // Remaining 6 levels: minimal (cch=0), just to keep the array well-formed.
    for _ in 0..6 {
        pos = write_test_lvl(&mut data, pos, 1, 0xFF, 0, 0, 0);
    }
    let _ = pos;

    // PlfLfo at 0x07E1: lfoMac=1, one 16-byte LFO (lsid matches the LSTF above).
    let plf_lfo_start = 0x07E1;
    data[plf_lfo_start..plf_lfo_start + 4].copy_from_slice(&1u32.to_le_bytes());
    let lfo_start = plf_lfo_start + 4;
    data[lfo_start..lfo_start + 4].copy_from_slice(&0x44F53D09u32.to_le_bytes()); // lsid
    data[lfo_start + 12] = 0; // clfolvl = 0

    data
}

/// Write one `LVL` at `pos`, return the offset just past it.
fn write_test_lvl(
    data: &mut [u8],
    pos: usize,
    start_at: i32,
    nfc: u8,
    cb_chpx: u8,
    cb_papx: u8,
    xst_cch: u16,
) -> usize {
    data[pos..pos + 4].copy_from_slice(&start_at.to_le_bytes());
    data[pos + 4] = nfc;
    data[pos + 24] = cb_chpx;
    data[pos + 25] = cb_papx;
    let after_lvlf = pos + 28;
    let after_grpprls = after_lvlf + cb_papx as usize + cb_chpx as usize;
    data[after_grpprls..after_grpprls + 2].copy_from_slice(&xst_cch.to_le_bytes());
    after_grpprls + 2 + (xst_cch as usize) * 2
}

#[test]
fn test_resolves_start_at_and_nfc_from_the_spec_worked_example() {
    let table = spec_example_table_stream();
    let fmt = ListFormatting::parse(&table, 0x0536, 0x001E, 0x07E1, 0x0018);

    let lvl0 = fmt.level_for(1, 0).expect("ilfo=1, ilvl=0 must resolve");
    assert_eq!(lvl0.start_at, 1);
    assert!(lvl0.is_numbered());

    let lvl1 = fmt.level_for(1, 1).expect("ilfo=1, ilvl=1 must resolve");
    assert_eq!(lvl1.start_at, 3);
    assert!(lvl1.is_numbered());

    let lvl2 = fmt.level_for(1, 2).expect("ilfo=1, ilvl=2 must resolve");
    assert!(!lvl2.is_numbered(), "nfc=0xFF must report as unnumbered (a bullet level)");
}

/// The real-world override shape: a corpus file literally
/// named `apache_tika__testWORD_override_list_numbering.doc` turned out
/// to express its start-at override via a `LFOLVL` entry on the `LFO`
/// (`fStartAt == 1`), not via a second `LSTF`/`LVL` pair with a
/// different declared `iStartAt`. Byte layout verified against the
/// published `LFOLVL` structure page.
#[test]
fn test_lfolvl_start_at_override_takes_precedence_over_the_lstfs_own_value() {
    let mut data = spec_example_table_stream();

    // Rewrite the LFO's clfolvl from 0 to 1, and append one LFOLVL
    // overriding level 0's start-at to 42.
    let plf_lfo_start = 0x07E1;
    let lfo_start = plf_lfo_start + 4;
    data[lfo_start + 12] = 1; // clfolvl = 1

    // LFOData begins right after the (single) LFO: cp (4 bytes,
    // ignored) then the one LFOLVL.
    let lfo_data_start = lfo_start + 16;
    let lfolvl_start = lfo_data_start + 4;
    data[lfolvl_start..lfolvl_start + 4].copy_from_slice(&42i32.to_le_bytes()); // iStartAt
    // flags: iLvl=0 (bits 0-3), fStartAt=1 (bit 4), fFormatting=0 (bit 5).
    let flags: u32 = 1 << 4;
    data[lfolvl_start + 4..lfolvl_start + 8].copy_from_slice(&flags.to_le_bytes());

    let fmt = ListFormatting::parse(&data, 0x0536, 0x001E, 0x07E1, 0x0018);

    let overridden = fmt.level_for(1, 0).expect("ilfo=1, ilvl=0 must resolve");
    assert_eq!(
        overridden.start_at, 42,
        "the LFOLVL override must win over the LSTF's own iStartAt=1"
    );
    assert!(overridden.is_numbered(), "nfc is unaffected by a start-at-only override");

    // Level 1 has no override — must still be the LSTF's own value.
    let unaffected = fmt.level_for(1, 1).expect("ilfo=1, ilvl=1 must resolve");
    assert_eq!(unaffected.start_at, 3, "an override on level 0 must not leak into level 1");
}

#[test]
fn test_ilfo_zero_or_negative_is_not_in_a_list() {
    let table = spec_example_table_stream();
    let fmt = ListFormatting::parse(&table, 0x0536, 0x001E, 0x07E1, 0x0018);
    assert!(fmt.level_for(0, 0).is_none());
    assert!(fmt.level_for(-1, 0).is_none());
}

#[test]
fn test_unknown_ilfo_resolves_to_none_not_a_panic() {
    let table = spec_example_table_stream();
    let fmt = ListFormatting::parse(&table, 0x0536, 0x001E, 0x07E1, 0x0018);
    assert!(fmt.level_for(99, 0).is_none());
}

#[test]
fn test_empty_table_stream_never_panics() {
    let fmt = ListFormatting::parse(&[], 0, 0, 0, 0);
    assert!(fmt.level_for(1, 0).is_none());
}

#[test]
fn test_truncated_plf_lst_degrades_gracefully() {
    // Claims a large lcb but the actual data is short — must not panic
    // or read out of bounds.
    let table = vec![0xFFu8; 16];
    let fmt = ListFormatting::parse(&table, 0, 10_000, 0, 0);
    assert!(fmt.level_for(1, 0).is_none());
}

/// A level index deeper than the list actually defines (a simple list
/// referenced at ilvl > 0) must fall back to the list's first level
/// rather than returning `None`.
#[test]
fn test_ilvl_past_the_lists_own_depth_falls_back_to_the_first_level() {
    let table = spec_example_table_stream();
    let fmt = ListFormatting::parse(&table, 0x0536, 0x001E, 0x07E1, 0x0018);
    let deep = fmt
        .level_for(1, 50)
        .expect("out-of-range ilvl must fall back, not None");
    assert_eq!(deep.start_at, 1); // lvl[0]'s value
}

#[test]
fn an_absent_list_table_places_nothing_in_a_list() {
    let lf = ListFormatting::parse(&[0u8; 64], 0, 0, 8, 0);
    for ilfo in [-1i16, 0, 1, 2, 100] {
        for ilvl in [0u8, 1, 8] {
            assert!(lf.level_for(ilfo, ilvl).is_none());
        }
    }
}

#[test]
fn malformed_or_absent_list_data_degrades_to_an_empty_table() {
    let a = ListFormatting::parse(&[], 0, 0, 0, 0);
    let b = ListFormatting::parse(&[0xFF; 16], 0, 10000, 0, 0);
    let c = ListFormatting::parse(&[0u8; 16], 100, 8, 200, 8);
    for lf in [&a, &b, &c] {
        assert!(lf.level_for(1, 0).is_none());
    }
}
