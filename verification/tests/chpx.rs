use office_oxide::doc::chpx::{
    FkpRun, extract_chpx_grpprl, merge_ranges, parse_chpx_runs, parse_fkp_page,
    resolve_chp_cp_runs, resolve_chp_segments, resolve_deleted_cp_ranges_from_runs,
};
use office_oxide::doc::piece_table::Piece;
use office_oxide::doc::sprm::ChpProps;


fn unicode_piece(fc: u32, cp_end: u32) -> Piece {
    Piece {
        cp_start: 0,
        cp_end,
        fc,
        is_compressed: false,
    }
}

/// Regression, byte-for-byte from [MS-DOC] §3.4's own worked example:
/// a page with 3 runs, two carrying a Chpx (word offsets 0xFA and
/// 0xF8) and one with no CHPX (word offset 0).
#[test]
fn test_parse_fkp_page_matches_spec_worked_example() {
    let mut page = vec![0u8; 512];
    // rgfc[0..4] = 0x400, 0x407, 0x410, 0x411
    page[0..4].copy_from_slice(&0x400u32.to_le_bytes());
    page[4..8].copy_from_slice(&0x407u32.to_le_bytes());
    page[8..12].copy_from_slice(&0x410u32.to_le_bytes());
    page[12..16].copy_from_slice(&0x411u32.to_le_bytes());
    // rgb[0..3] = 0xFA, 0xF8, 0x00
    page[16] = 0xFA;
    page[17] = 0xF8;
    page[18] = 0x00;
    page[511] = 3; // crun

    // chpx[0] at word offset 0xFA -> byte 0x1F4: cb=9, 9-byte grpprl.
    let chpx0_grpprl = [0x42, 0x0A, 0x07, 0x70, 0x1C, 0xFF, 0x99, 0x00, 0x00];
    page[0x1F4] = chpx0_grpprl.len() as u8;
    page[0x1F5..0x1F5 + chpx0_grpprl.len()].copy_from_slice(&chpx0_grpprl);

    // chpx[1] at word offset 0xF8 -> byte 0x1F0: cb=3, 3-byte grpprl.
    let chpx1_grpprl = [0x3E, 0x08, 0x01];
    page[0x1F0] = chpx1_grpprl.len() as u8;
    page[0x1F1..0x1F1 + chpx1_grpprl.len()].copy_from_slice(&chpx1_grpprl);

    let mut out = Vec::new();
    parse_fkp_page(&page, &mut out);
    assert_eq!(out.len(), 3);
    assert_eq!(out[0].fc_start, 0x400);
    assert_eq!(out[0].fc_end, 0x407);
    assert_eq!(out[0].grpprl, chpx0_grpprl);
    assert_eq!(out[1].fc_start, 0x407);
    assert_eq!(out[1].fc_end, 0x410);
    assert_eq!(out[1].grpprl, chpx1_grpprl);
    assert_eq!(out[2].fc_start, 0x410);
    assert_eq!(out[2].fc_end, 0x411);
    assert!(out[2].grpprl.is_empty(), "rgb[2] == 0 means no CHPX for that run");
}

#[test]
fn test_extract_chpx_grpprl_no_header_stripping() {
    let mut page = vec![0u8; 512];
    page[10] = 3; // cb = 3
    page[11..14].copy_from_slice(&[0xAA, 0xBB, 0xCC]);
    // word_off * 2 == 10 -> word_off == 5
    assert_eq!(extract_chpx_grpprl(&page, 5), vec![0xAA, 0xBB, 0xCC]);
}

#[test]
fn test_resolve_deleted_cp_ranges_finds_deleted_run() {
    // Two runs: cp[0,3) normal, cp[3,6) deleted (sprmCFRMarkDel = 1).
    // Exercises the same two-step pipeline `document.rs` uses:
    // `parse_chpx_runs` (byte-level FKP walk) then
    // `resolve_deleted_cp_ranges_from_runs` (CP-range resolution).
    // `parse_chpx_runs` only reads the FKP page out of `word_doc` (via
    // the page number); it never dereferences a piece's `fc` against
    // `word_doc`, so `word_doc` here IS the FKP page (page 0) and the
    // piece's `fc = 0x800` is a purely notional text-storage offset,
    // exactly as in a real file where the FKP page and the text it
    // describes live in unrelated regions of the WordDocument stream.
    let pieces = [unicode_piece(0x800, 6)];

    let mut page = vec![0u8; 512];
    page[0..4].copy_from_slice(&(0x800u32).to_le_bytes());
    page[4..8].copy_from_slice(&(0x800 + 3 * 2u32).to_le_bytes());
    page[8..12].copy_from_slice(&(0x800 + 6 * 2u32).to_le_bytes());
    page[12] = 0; // rgb[0]: no CHPX -> not deleted
    page[13] = 200; // rgb[1]: word offset 200 -> byte 400
    page[511] = 2; // crun

    let del_grpprl = [0x00, 0x08, 0x01]; // sprmCFRMarkDel = 1
    page[400] = del_grpprl.len() as u8;
    page[401..401 + del_grpprl.len()].copy_from_slice(&del_grpprl);

    // PlcBteChpx: 2 FCs (unused by this function beyond sizing) + 1
    // PnFkpChpx naming page 0.
    let mut plc = Vec::new();
    plc.extend_from_slice(&0u32.to_le_bytes());
    plc.extend_from_slice(&1024u32.to_le_bytes());
    plc.extend_from_slice(&0u32.to_le_bytes()); // page 0

    let runs = parse_chpx_runs(&page, &plc, 0, plc.len() as u32);
    let deleted = resolve_deleted_cp_ranges_from_runs(&runs, &pieces, 6);
    assert_eq!(deleted, vec![(3, 6)]);
}

/// `resolve_chp_segments` decodes each `FkpRun`'s own `grpprl` via
/// `extract_chp_props`, so a props-carrying test run needs a real
/// encoded grpprl, not just the struct's `props` field (which doesn't
/// exist — `FkpRun` only carries raw bytes). `sprmCFBold(0x0835) = 1`.
fn bold_grpprl() -> Vec<u8> {
    vec![0x35, 0x08, 0x01]
}

#[test]
fn test_resolve_chp_segments_empty_runs_yields_one_default_segment() {
    let segs = resolve_chp_segments(&[], 0, 10);
    assert_eq!(segs, vec![(0, 10, ChpProps::default())]);
}

#[test]
fn test_resolve_chp_segments_out_of_range_is_empty() {
    assert!(resolve_chp_segments(&[], 10, 10).is_empty());
    assert!(resolve_chp_segments(&[], 10, 5).is_empty());
}

#[test]
fn test_resolve_chp_segments_single_run_covers_whole_paragraph() {
    let pieces = [unicode_piece(0x800, 10)];
    let runs = vec![FkpRun {
        fc_start: 0x800,
        fc_end: 0x800 + 10 * 2,
        grpprl: bold_grpprl(),
    }];
    let segs = resolve_chp_segments(&resolve_chp_cp_runs(&runs, &pieces), 0, 10);
    assert_eq!(
        segs,
        vec![(
            0,
            10,
            ChpProps {
                bold: true,
                ..Default::default()
            }
        )]
    );
}

/// A run covering only the middle of the paragraph gap-fills both
/// sides with default (unformatted) props.
#[test]
fn test_resolve_chp_segments_middle_run_gap_fills_both_sides() {
    let pieces = [unicode_piece(0x800, 10)];
    let runs = vec![FkpRun {
        fc_start: 0x800 + 3 * 2,
        fc_end: 0x800 + 7 * 2,
        grpprl: bold_grpprl(),
    }];
    let segs = resolve_chp_segments(&resolve_chp_cp_runs(&runs, &pieces), 0, 10);
    assert_eq!(
        segs,
        vec![
            (0, 3, ChpProps::default()),
            (
                3,
                7,
                ChpProps {
                    bold: true,
                    ..Default::default()
                }
            ),
            (7, 10, ChpProps::default()),
        ]
    );
}

/// A run entirely outside `[para_cp_start, para_cp_end)` contributes
/// nothing — the whole paragraph gap-fills to default.
#[test]
fn test_resolve_chp_segments_run_outside_paragraph_is_ignored() {
    let pieces = [unicode_piece(0x800, 20)];
    let runs = vec![FkpRun {
        fc_start: 0x800 + 15 * 2,
        fc_end: 0x800 + 18 * 2,
        grpprl: bold_grpprl(),
    }];
    let segs = resolve_chp_segments(&resolve_chp_cp_runs(&runs, &pieces), 0, 10);
    assert_eq!(segs, vec![(0, 10, ChpProps::default())]);
}

/// Overlapping/malformed runs must not produce overlapping output
/// segments — a later-sorted run only contributes
/// the portion of its range beyond what an earlier one already
/// claimed.
#[test]
fn test_resolve_chp_segments_overlapping_runs_do_not_duplicate_coverage() {
    let pieces = [unicode_piece(0x800, 10)];
    let runs = vec![
        FkpRun {
            fc_start: 0x800,
            fc_end: 0x800 + 5 * 2,
            grpprl: bold_grpprl(),
        },
        // Overlaps [0,5) by [2,5); only [5,8) is new.
        FkpRun {
            fc_start: 0x800 + 2 * 2,
            fc_end: 0x800 + 8 * 2,
            grpprl: Vec::new(),
        },
    ];
    let segs = resolve_chp_segments(&resolve_chp_cp_runs(&runs, &pieces), 0, 10);
    // Total coverage must be exactly [0,10) with no gaps or overlaps.
    let mut cursor = 0u32;
    for &(s, e, _) in &segs {
        assert_eq!(s, cursor, "segments must be contiguous, no gap or overlap");
        assert!(e > s);
        cursor = e;
    }
    assert_eq!(cursor, 10);
}

#[test]
fn test_resolve_chp_cp_runs_converts_and_sorts() {
    let pieces = [unicode_piece(0x800, 10)];
    // Deliberately out of FC/CP order: the second run's CP range (5..8)
    // comes before the first's (0..3) in the input slice.
    let runs = vec![
        FkpRun {
            fc_start: 0x800 + 5 * 2,
            fc_end: 0x800 + 8 * 2,
            grpprl: Vec::new(),
        },
        FkpRun {
            fc_start: 0x800,
            fc_end: 0x800 + 3 * 2,
            grpprl: bold_grpprl(),
        },
    ];
    let cp_runs = resolve_chp_cp_runs(&runs, &pieces);
    assert_eq!(cp_runs.len(), 2);
    assert_eq!((cp_runs[0].0, cp_runs[0].1), (0, 3));
    assert!(cp_runs[0].2.bold);
    assert_eq!((cp_runs[1].0, cp_runs[1].1), (5, 8));
}

/// Regression: `resolve_chp_segments` must stay fast (binary search +
/// bounded scan) as the document-wide run count grows, not degrade
/// into a linear-per-call scan. A real 780-file corpus sweep hung for
/// minutes before this fix, because `build_paragraphs` calls this once
/// per paragraph and the pre-fix version re-scanned (and FC→CP
/// re-converted) every run in the whole document on every call —
/// `O(runs × pieces × paragraphs)`. 5,000 runs × 2,000 simulated
/// paragraph queries finishing well under a second is a low-flake way
/// to catch a regression back to that shape without hard-coding a
/// brittle exact time bound.
#[test]
fn test_resolve_chp_segments_stays_fast_with_many_runs_and_many_queries() {
    let pieces = [unicode_piece(0, 20_000)];
    let runs: Vec<FkpRun> = (0..5_000u32)
        .map(|i| FkpRun {
            fc_start: i * 4,
            fc_end: i * 4 + 4,
            grpprl: if i % 2 == 0 {
                bold_grpprl()
            } else {
                Vec::new()
            },
        })
        .collect();
    let cp_runs = resolve_chp_cp_runs(&runs, &pieces);

    let start = std::time::Instant::now();
    for p in 0..2_000u32 {
        let seg = resolve_chp_segments(&cp_runs, p * 10, p * 10 + 8);
        assert!(!seg.is_empty());
    }
    let elapsed = start.elapsed();
    assert!(
        elapsed.as_secs() < 5,
        "5,000 runs × 2,000 queries took {elapsed:?} — likely back to O(runs) per query"
    );
}

#[test]
fn test_merge_ranges_combines_overlaps_and_keeps_disjoint() {
    assert_eq!(merge_ranges(vec![(0, 3), (2, 5), (8, 10)]), vec![(0, 5), (8, 10)]);
    assert_eq!(merge_ranges(vec![]), Vec::<(u32, u32)>::new());
}

/// Regression: many PnFkpChpx entries pointing at the
/// same page must parse that page once, not repeatedly.
#[test]
fn test_chpx_fkp_walk_is_bounded() {
    let mut word_doc = vec![0u8; 512];
    word_doc[511] = 1; // crun = 1
    word_doc[0..4].copy_from_slice(&0x800u32.to_le_bytes());
    word_doc[4..8].copy_from_slice(&0x802u32.to_le_bytes());
    word_doc[8] = 0; // no CHPX

    let n: usize = 1000;
    let mut plc = Vec::new();
    for _ in 0..=n {
        plc.extend_from_slice(&0u32.to_le_bytes());
    }
    for _ in 0..n {
        plc.extend_from_slice(&0u32.to_le_bytes());
    }

    let out = parse_chpx_runs(&word_doc, &plc, 0, plc.len() as u32);
    assert_eq!(out.len(), 1, "same page referenced 1000× must parse once, not 1000×");
}

#[test]
fn segments_come_from_covering_runs_or_defaults() {
    let bold = ChpProps { bold: true, ..ChpProps::default() };
    let runs = vec![(0u32, 4u32, bold.clone()), (2, 8, ChpProps::default()), (12, 20, bold.clone())];
    let segs = resolve_chp_segments(&runs, 1, 15);
    assert!(segs.len() <= 2 * runs.len() + 1);
    for (a, b, p) in &segs {
        assert!(
            *p == ChpProps::default()
                || runs.iter().any(|(s, e, q)| s <= a && b <= e && q == p)
        );
    }
    assert_eq!(segs.first().unwrap().0, 1);
    assert_eq!(segs.last().unwrap().1, 15);
}
