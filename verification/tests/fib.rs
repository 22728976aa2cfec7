use office_oxide::doc::fib::Fib;
use office_oxide::doc::error::DocError;

fn build_minimal_fib() -> Vec<u8> {
    let mut data = vec![0u8; 1024];
    // wIdent = Word 97
    data[0..2].copy_from_slice(&0xA5ECu16.to_le_bytes());
    // nFib (version)
    data[2..4].copy_from_slice(&0x00C1u16.to_le_bytes());
    // flags: use 1Table (bit 9)
    data[0x0A..0x0C].copy_from_slice(&(1u16 << 9).to_le_bytes());
    // ccpText = 100
    data[0x4C..0x50].copy_from_slice(&100u32.to_le_bytes());
    // fcClx
    data[0x01A2..0x01A6].copy_from_slice(&512u32.to_le_bytes());
    // lcbClx
    data[0x01A6..0x01AA].copy_from_slice(&64u32.to_le_bytes());
    // fcPlcfBtePapx = 300, lcbPlcfBtePapx = 28
    data[0x0102..0x0106].copy_from_slice(&300u32.to_le_bytes());
    data[0x0106..0x010A].copy_from_slice(&28u32.to_le_bytes());
    // fcPlfLst = 400, lcbPlfLst = 12
    data[0x02E2..0x02E6].copy_from_slice(&400u32.to_le_bytes());
    data[0x02E6..0x02EA].copy_from_slice(&12u32.to_le_bytes());
    // fcPlfLfo / lcbPlfLfo — the exact values from [MS-DOC]'s own
    // "Example of a List" worked example.
    data[0x02EA..0x02EE].copy_from_slice(&0x000007E1u32.to_le_bytes());
    data[0x02EE..0x02F2].copy_from_slice(&0x00000018u32.to_le_bytes());
    data
}

#[test]
fn test_parse_valid_fib() {
    let data = build_minimal_fib();
    let fib = Fib::parse(&data).unwrap();
    assert!(fib.use_table1);
    assert_eq!(fib.text_len, 100);
    assert_eq!(fib.clx_offset, 512);
    assert_eq!(fib.clx_size, 64);
    assert_eq!(fib.fc_plcf_bte_papx, 300);
    assert_eq!(fib.lcb_plcf_bte_papx, 28);
    assert_eq!(fib.fc_plcf_lst, 400);
    assert_eq!(fib.lcb_plcf_lst, 12);
    assert_eq!(fib.fc_plf_lfo, 0x000007E1);
    assert_eq!(fib.lcb_plf_lfo, 0x00000018);
}

/// Regression: `fcPlcfBteChpx`/`lcbPlcfBteChpx` must land at 0x00FA/
/// 0x00FE — immediately before `fcPlcfBtePapx` at 0x0102, per
/// [MS-DOC] §2.5.6's field-order table.
#[test]
fn test_fc_plcf_bte_chpx_offset() {
    let mut data = build_minimal_fib();
    data[0x00FA..0x00FE].copy_from_slice(&700u32.to_le_bytes());
    data[0x00FE..0x0102].copy_from_slice(&40u32.to_le_bytes());
    let fib = Fib::parse(&data).unwrap();
    assert_eq!(fib.fc_plcf_bte_chpx, 700);
    assert_eq!(fib.lcb_plcf_bte_chpx, 40);
    // The already-verified PAPX pointer must be unaffected by the new
    // field landing immediately before it.
    assert_eq!(fib.fc_plcf_bte_papx, 300);
    assert_eq!(fib.lcb_plcf_bte_papx, 28);
}

#[test]
fn test_bad_wident_rejected() {
    let mut data = build_minimal_fib();
    data[0..2].copy_from_slice(&0x1234u16.to_le_bytes());
    assert!(Fib::parse(&data).is_err());
}

#[test]
fn test_too_short_rejected() {
    let data = vec![0u8; 100];
    assert!(Fib::parse(&data).is_err());
}

#[test]
fn test_use_table0() {
    let mut data = build_minimal_fib();
    data[0x0A..0x0C].copy_from_slice(&0u16.to_le_bytes()); // clear bit 9
    let fib = Fib::parse(&data).unwrap();
    assert!(!fib.use_table1);
}

/// Every `FibRgLw97` field from `comment_len` on used to be
/// read one slot early (landing on `reserved3`, spec-mandated always
/// zero, at 0x58) instead of its real offset. Each field below gets a
/// distinct value so a shift in either direction is caught, and
/// `reserved3` itself is set to a nonzero value to prove it's never
/// read at all.
#[test]
fn test_fibrglw97_fields_read_from_their_real_spec_offsets() {
    let mut data = build_minimal_fib();
    data[0x4C..0x50].copy_from_slice(&100u32.to_le_bytes()); // ccpText
    data[0x50..0x54].copy_from_slice(&11u32.to_le_bytes()); // ccpFtn
    data[0x54..0x58].copy_from_slice(&22u32.to_le_bytes()); // ccpHdd
    data[0x58..0x5C].copy_from_slice(&0xDEADBEEFu32.to_le_bytes()); // reserved3 — MUST be ignored
    data[0x5C..0x60].copy_from_slice(&33u32.to_le_bytes()); // ccpAtn (comments)
    data[0x60..0x64].copy_from_slice(&44u32.to_le_bytes()); // ccpEdn (endnotes)
    data[0x64..0x68].copy_from_slice(&55u32.to_le_bytes()); // ccpTxbx (textboxes)
    data[0x68..0x6C].copy_from_slice(&66u32.to_le_bytes()); // ccpHdrTxbx (header textboxes)

    let fib = Fib::parse(&data).unwrap();
    assert_eq!(fib.text_len, 100);
    assert_eq!(fib.footnote_len, 11);
    assert_eq!(fib.header_len, 22);
    assert_eq!(fib.comment_len, 33, "must read ccpAtn at 0x5C, not reserved3 at 0x58");
    assert_eq!(fib.endnote_len, 44, "must read ccpEdn at 0x60");
    assert_eq!(fib.textbox_len, 55, "must read ccpTxbx at 0x64");
    assert_eq!(
        fib.header_textbox_len, 66,
        "must read the real ccpHdrTxbx at 0x68, previously never read at all"
    );
}

/// `fcGrpXstAtnOwners`/`lcbGrpXstAtnOwners` (comment
/// author names) were never parsed at all. Offset derived from
/// FibRgFcLcb97's fixed field order; cross-checked against the two
/// offsets already verified elsewhere in this file (`fcPlcfBtePapx`
/// at 0x0102, `fcClx` at 0x01A2).
#[test]
fn test_grp_xst_atn_owners_read_from_its_real_offset() {
    let mut data = build_minimal_fib();
    data[0x01BA..0x01BE].copy_from_slice(&700u32.to_le_bytes());
    data[0x01BE..0x01C2].copy_from_slice(&40u32.to_le_bytes());

    let fib = Fib::parse(&data).unwrap();
    assert_eq!(fib.fc_grp_xst_atn_owners, 700);
    assert_eq!(fib.lcb_grp_xst_atn_owners, 40);
}

/// `fcPlcfHdd`/`lcbPlcfHdd` (header/footer story
/// delimiter PLC) were never parsed at all.
#[test]
fn test_plcf_hdd_read_from_its_real_offset() {
    let mut data = build_minimal_fib();
    data[0x00F2..0x00F6].copy_from_slice(&800u32.to_le_bytes());
    data[0x00F6..0x00FA].copy_from_slice(&56u32.to_le_bytes());

    let fib = Fib::parse(&data).unwrap();
    assert_eq!(fib.fc_plcf_hdd, 800);
    assert_eq!(fib.lcb_plcf_hdd, 56);
}

/// `fcPlcfandRef`/`lcbPlcfandRef` and `fcPlcfandTxt`/
/// `lcbPlcfandTxt` were never parsed at all.
#[test]
fn test_plcf_and_ref_and_txt_read_from_their_real_offsets() {
    let mut data = build_minimal_fib();
    data[0x00BA..0x00BE].copy_from_slice(&900u32.to_le_bytes());
    data[0x00BE..0x00C2].copy_from_slice(&64u32.to_le_bytes());
    data[0x00C2..0x00C6].copy_from_slice(&1000u32.to_le_bytes());
    data[0x00C6..0x00CA].copy_from_slice(&12u32.to_le_bytes());

    let fib = Fib::parse(&data).unwrap();
    assert_eq!(fib.fc_plcf_and_ref, 900);
    assert_eq!(fib.lcb_plcf_and_ref, 64);
    assert_eq!(fib.fc_plcf_and_txt, 1000);
    assert_eq!(fib.lcb_plcf_and_txt, 12);
}

#[test]
fn word6_wident_is_refused_as_unsupported() {
    let mut data = build_minimal_fib();
    data[0..2].copy_from_slice(&0xA5DCu16.to_le_bytes());
    assert!(matches!(Fib::parse(&data), Err(DocError::UnsupportedVersion(_))));
}

#[test]
fn fib_errors_name_the_length_and_the_wident() {
    match Fib::parse(&[0u8; 10]) {
        Err(DocError::InvalidFib(m)) => assert_eq!(m, "WordDocument stream too short: 10 bytes"),
        other => panic!("unexpected {other:?}"),
    }
    let mut data = vec![0u8; 128];
    data[0..2].copy_from_slice(&0x1234u16.to_le_bytes());
    match Fib::parse(&data) {
        Err(DocError::InvalidFib(m)) => assert_eq!(m, "unknown wIdent: 0x1234"),
        other => panic!("unexpected {other:?}"),
    }
    data[0..2].copy_from_slice(&0xA5DCu16.to_le_bytes());
    match Fib::parse(&data) {
        Err(DocError::UnsupportedVersion(m)) => {
            assert_eq!(m, "Word 6.0/95 (wIdent 0xA5DC); only Word 97 and later are supported")
        },
        other => panic!("unexpected {other:?}"),
    }
}
