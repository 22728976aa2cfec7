//! CHPX (character properties): the CHPX FKP pages indexed by the
//! PlcBteChpx, and the character-property runs of the text in CP space.
//!
//! Each 512-byte `ChpxFkp` page sits at `pn * 512` in the WordDocument
//! stream and holds `rgfc[crun + 1]` (u32 FCs bounding each run),
//! `rgb[crun]` (1-byte word offsets of each run's `Chpx`, 0 for none), then
//! `crun` in the page's last byte. A `Chpx` is `[cb:1][grpprl: cb bytes]`.

use vstd::prelude::*;
use crate::bytes::{le32, len_ok, read_u32_le, copy_range};
use super::papx::{
    page_bytes, spec_walked_pages, walked_pages, spec_fc_run_cp_ranges, fc_run_cp_ranges_by_piece,
    sort_pairs, pair_le,
};
use super::piece_table::Piece;
use super::sprm::{ChpProps, chp_default, spec_chp_props, extract_chp_props};

verus! {

broadcast use vstd::seq_lib::to_multiset_insert;

/// A character-run descriptor recovered from a CHPX FKP page.
#[derive(Debug, Clone)]
pub struct FkpRun {
    /// Start FC of the run, inclusive.
    pub fc_start: u32,
    /// End FC of the run, exclusive.
    pub fc_end: u32,
    /// The CHP `grpprl` bytes (without the `cb` length byte).
    pub grpprl: Vec<u8>,
}

impl View for FkpRun {
    type V = (u32, u32, Seq<u8>);

    open spec fn view(&self) -> (u32, u32, Seq<u8>) {
        (self.fc_start, self.fc_end, self.grpprl@)
    }
}

/// The `grpprl` of the `Chpx` at word offset `word_off`: the `cb` bytes
/// after its length byte, cut at the page's end.
pub open spec fn spec_chpx_grpprl(page: Seq<u8>, word_off: int) -> Seq<u8> {
    let p = word_off * 2;
    if p >= page.len() {
        Seq::empty()
    } else {
        let start = p + 1;
        let end0 = start + page[p] as int;
        let end = if end0 <= page.len() { end0 } else { page.len() as int };
        if start >= end {
            Seq::empty()
        } else {
            page.subrange(start, end)
        }
    }
}

/// Extract the CHP `grpprl` from a page at the given word offset.
pub fn extract_chpx_grpprl(page: &[u8], word_off: usize) -> (r: Vec<u8>)
    requires
        word_off * 2 <= usize::MAX,
    ensures
        r@ == spec_chpx_grpprl(page@, word_off as int),
        r@.len() <= page@.len(),
{
    let p = word_off * 2;
    if p >= page.len() {
        return Vec::new();
    }
    let cb = page[p] as usize;
    let start = p + 1;
    let end = if cb <= page.len() - start { start + cb } else { page.len() };
    if start >= end {
        return Vec::new();
    }
    copy_range(page, start, end)
}

/// Number of runs a CHPX FKP page describes.
pub open spec fn chpx_entry_count(crun: int) -> int {
    if crun == 0 || crun >= 64 {
        0
    } else {
        crun
    }
}

/// Run `i` of a CHPX FKP page.
pub open spec fn spec_chpx_entry(page: Seq<u8>, i: int) -> (u32, u32, Seq<u8>) {
    let crun = page[511] as int;
    let word_off = page[(crun + 1) * 4 + i] as int;
    (
        le32(page, 4 * i) as u32,
        le32(page, 4 * (i + 1)) as u32,
        if word_off == 0 { Seq::empty() } else { spec_chpx_grpprl(page, word_off) },
    )
}

/// Every run a CHPX FKP page describes, in page order.
pub open spec fn spec_chpx_page(page: Seq<u8>) -> Seq<(u32, u32, Seq<u8>)> {
    Seq::new(chpx_entry_count(page[511] as int) as nat, |i: int| spec_chpx_entry(page, i))
}

/// Parse a single CHPX FKP page, appending its runs to `out`.
pub fn parse_fkp_page(page: &[u8], out: &mut Vec<FkpRun>)
    requires
        512 <= page@.len(),
    ensures
        final(out)@.map_values(|r: FkpRun| r@) == old(out)@.map_values(|r: FkpRun| r@)
            + spec_chpx_page(page@),
        runs_len_ok(old(out)@) && len_ok(page@.len() as int) ==> runs_len_ok(final(out)@),
{
    let ghost old_view = old(out)@.map_values(|r: FkpRun| r@);
    let ghost old_len = old(out)@.len();
    let crun = page[511] as usize;
    if crun == 0 || crun >= 64 {
        assert(out@.map_values(|r: FkpRun| r@) =~= old_view + spec_chpx_page(page@));
        return;
    }
    let pos = (crun + 1) * 4;
    let mut i: usize = 0;
    while i < crun
        invariant
            512 <= page@.len(),
            crun == page@[511],
            0 < crun < 64,
            pos == (crun + 1) * 4,
            i <= crun,
            out@.len() == old_len + i,
            old_view.len() == old_len,
            forall|j: int| 0 <= j < old_len ==> #[trigger] out@[j]@ == old_view[j],
            forall|j: int| 0 <= j < i ==> #[trigger] out@[old_len + j]@ == spec_chpx_entry(page@, j),
            runs_len_ok(old(out)@) && len_ok(page@.len() as int) ==> runs_len_ok(out@),
        decreases crun - i,
    {
        let word_off = page[pos + i] as usize;
        let fc_start = read_u32_le(page, 4 * i);
        let fc_end = read_u32_le(page, 4 * (i + 1));
        let grpprl = if word_off == 0 {
            Vec::new()
        } else {
            extract_chpx_grpprl(page, word_off)
        };
        assert(grpprl@.len() <= page@.len());
        out.push(FkpRun { fc_start, fc_end, grpprl });
        proof {
            assert(out@[old_len + i]@ == spec_chpx_entry(page@, i as int));
        }
        i = i + 1;
    }
    let ghost nv = out@.map_values(|r: FkpRun| r@);
    assert forall|j: int| 0 <= j < out@.len() implies #[trigger] nv[j] == (old_view + spec_chpx_page(page@))[j] by {
        if j >= old_len {
            assert(out@[old_len + (j - old_len)]@ == spec_chpx_entry(page@, j - old_len));
        }
    }
    assert(nv =~= old_view + spec_chpx_page(page@));
}

/// The runs of the CHPX FKP pages `ws`, page after page.
pub open spec fn chpx_pages(word: Seq<u8>, ws: Seq<u32>) -> Seq<(u32, u32, Seq<u8>)>
    decreases ws.len(),
{
    if ws.len() == 0 {
        Seq::empty()
    } else {
        chpx_pages(word, ws.drop_last()) + spec_chpx_page(page_bytes(word, ws.last()))
    }
}

/// Every run of every distinct CHPX FKP page the PlcBteChpx names.
pub open spec fn spec_parse_chpx(word: Seq<u8>, table: Seq<u8>, fc: u32, lcb: u32) -> Seq<
    (u32, u32, Seq<u8>),
> {
    chpx_pages(word, spec_walked_pages(word.len() as int, table, fc, lcb))
}

/// Parse every CHPX FKP page referenced by the PlcBteChpx: one `FkpRun`
/// per character run, page by page in table order. A page named again is
/// parsed once, and at most as many entries are read as the WordDocument
/// stream has whole pages.
pub fn parse_chpx_runs(
    word_doc: &[u8],
    table_stream: &[u8],
    fc_plcf_bte_chpx: u32,
    lcb_plcf_bte_chpx: u32,
) -> (r: Vec<FkpRun>)
    requires
        len_ok(word_doc@.len() as int),
        len_ok(table_stream@.len() as int),
    ensures
        r@.map_values(|r: FkpRun| r@) == spec_parse_chpx(
            word_doc@,
            table_stream@,
            fc_plcf_bte_chpx,
            lcb_plcf_bte_chpx,
        ),
        runs_len_ok(r@),
{
    let ws = walked_pages(word_doc, table_stream, fc_plcf_bte_chpx, lcb_plcf_bte_chpx);
    let mut out: Vec<FkpRun> = Vec::new();
    let mut i: usize = 0;
    while i < ws.len()
        invariant
            len_ok(word_doc@.len() as int),
            i <= ws@.len(),
            forall|k: int| 0 <= k < ws@.len() ==> (#[trigger] ws@[k] as int + 1) * 512 <= word_doc@.len(),
            out@.map_values(|r: FkpRun| r@) == chpx_pages(word_doc@, ws@.take(i as int)),
            runs_len_ok(out@),
        decreases ws@.len() - i,
    {
        let pn = ws[i] as usize;
        proof {
            assert(ws@.take(i + 1 as int).drop_last() =~= ws@.take(i as int));
            assert((ws@[i as int] as int + 1) * 512 <= word_doc@.len());
        }
        let page = vstd::slice::slice_subrange(word_doc, pn * 512, pn * 512 + 512);
        parse_fkp_page(page, &mut out);
        i = i + 1;
    }
    assert(ws@.take(ws@.len() as int) =~= ws@);
    out
}

/// A sequence of runs ordered by first CP.
pub open spec fn sorted_by_start<T>(s: Seq<(u32, u32, T)>) -> bool {
    forall|i: int, j: int| 0 <= i < j < s.len() ==> s[i].0 <= s[j].0
}

/// Sort runs by their first CP, keeping runs with the same first CP in
/// their input order.
pub fn sort_cp_runs(v: Vec<(u32, u32, ChpProps)>) -> (r: Vec<(u32, u32, ChpProps)>)
    ensures
        sorted_by_start(r@),
        r@.to_multiset() == v@.to_multiset(),
{
    let mut out: Vec<(u32, u32, ChpProps)> = Vec::new();
    let mut i: usize = 0;
    proof {
        assert(v@.take(0) =~= out@);
    }
    while i < v.len()
        invariant
            i <= v@.len(),
            sorted_by_start(out@),
            out@.to_multiset() == v@.take(i as int).to_multiset(),
        decreases v@.len() - i,
    {
        let x = v[i];
        let mut k: usize = 0;
        while k < out.len() && out[k].0 <= x.0
            invariant
                k <= out@.len(),
                forall|j: int| 0 <= j < k ==> out@[j].0 <= x.0,
            decreases out@.len() - k,
        {
            k = k + 1;
        }
        let ghost old_out = out@;
        out.insert(k, x);
        proof {
            assert(v@.take(i + 1 as int) == v@.take(i as int).push(x));
            vstd::seq_lib::to_multiset_build(v@.take(i as int), x);
            assert forall|a: int, b: int| 0 <= a < b < out@.len() implies out@[a].0 <= out@[b].0 by {
                if b < k {
                } else if b == k {
                } else if a < k {
                    assert(old_out[a].0 <= x.0);
                    assert(old_out[k as int].0 > x.0);
                    assert(old_out[k as int].0 <= old_out[b - 1].0 || k == b - 1);
                } else if a == k {
                    assert(old_out[k as int].0 > x.0);
                    assert(old_out[k as int].0 <= old_out[b - 1].0 || k == b - 1);
                } else {
                    assert(old_out[a - 1].0 <= old_out[b - 1].0);
                }
            }
        }
        i = i + 1;
    }
    assert(v@.take(v@.len() as int) == v@);
    out
}

/// The CP runs of one CHPX run: each CP range it covers, with its decoded
/// properties.
pub open spec fn run_cp_triples(r: FkpRun, pieces: Seq<Piece>) -> Seq<(u32, u32, ChpProps)> {
    spec_fc_run_cp_ranges(r.fc_start, r.fc_end, pieces).map_values(
        |p: (u32, u32)| (p.0, p.1, spec_chp_props(r.grpprl@)),
    )
}

/// The CP runs of every CHPX run, run after run.
pub open spec fn chp_cp_triples(runs: Seq<FkpRun>, pieces: Seq<Piece>) -> Seq<
    (u32, u32, ChpProps),
>
    decreases runs.len(),
{
    if runs.len() == 0 {
        Seq::empty()
    } else {
        chp_cp_triples(runs.drop_last(), pieces) + run_cp_triples(runs.last(), pieces)
    }
}

/// Grpprls short enough to index with a `usize`.
pub open spec fn runs_len_ok(runs: Seq<FkpRun>) -> bool {
    forall|i: int| 0 <= i < runs.len() ==> len_ok(#[trigger] runs[i].grpprl@.len() as int)
}

/// Convert every CHPX run from FC to CP once, decode each one's
/// `ChpProps` once, and sort by `cp_start`: one entry per CP range each run
/// covers, carrying that run's properties.
pub fn resolve_chp_cp_runs(runs: &[FkpRun], pieces: &[Piece]) -> (r: Vec<(u32, u32, ChpProps)>)
    requires
        runs_len_ok(runs@),
    ensures
        sorted_by_start(r@),
        r@.to_multiset() == chp_cp_triples(runs@, pieces@).to_multiset(),
{
    let mut acc: Vec<(u32, u32, ChpProps)> = Vec::new();
    let mut i: usize = 0;
    while i < runs.len()
        invariant
            i <= runs@.len(),
            runs_len_ok(runs@),
            acc@ == chp_cp_triples(runs@.take(i as int), pieces@),
        decreases runs@.len() - i,
    {
        let r = &runs[i];
        proof {
            assert(runs@.take(i + 1 as int).drop_last() =~= runs@.take(i as int));
            assert(len_ok(runs@[i as int].grpprl@.len() as int));
        }
        let props = extract_chp_props(r.grpprl.as_slice());
        let rs = fc_run_cp_ranges_by_piece(r.fc_start, r.fc_end, pieces);
        let ghost before = acc@;
        let mut j: usize = 0;
        while j < rs.len()
            invariant
                j <= rs@.len(),
                props == spec_chp_props(r.grpprl@),
                acc@ == before + rs@.take(j as int).map_values(
                    |p: (u32, u32)| (p.0, p.1, spec_chp_props(r.grpprl@)),
                ),
            decreases rs@.len() - j,
        {
            let (a, b) = rs[j];
            acc.push((a, b, props));
            proof {
                assert(rs@.take(j + 1 as int).map_values(
                    |p: (u32, u32)| (p.0, p.1, spec_chp_props(r.grpprl@)),
                ) =~= rs@.take(j as int).map_values(
                    |p: (u32, u32)| (p.0, p.1, spec_chp_props(r.grpprl@)),
                ).push((a, b, props)));
            }
            j = j + 1;
        }
        proof {
            assert(rs@.take(rs@.len() as int) =~= rs@);
        }
        i = i + 1;
    }
    assert(runs@.take(runs@.len() as int) =~= runs@);
    sort_cp_runs(acc)
}

/// Whether CP `x` lies in one of the ranges `s`.
pub open spec fn covers(s: Seq<(u32, u32)>, x: int) -> bool {
    exists|k: int| 0 <= k < s.len() && (#[trigger] s[k]).0 <= x && x < s[k].1
}

/// Non-empty ranges in increasing order, each ending strictly before the
/// next begins: the one shortest way to write down their union.
pub open spec fn canonical_ranges(s: Seq<(u32, u32)>) -> bool {
    &&& forall|k: int| 0 <= k < s.len() ==> (#[trigger] s[k]).0 < s[k].1
    &&& forall|i: int, j: int| 0 <= i < j < s.len() ==> s[i].1 < s[j].0
}

/// One step of merging: extend the last range when `r` starts inside or
/// right at its end, else append `r`.
pub open spec fn merge_step(out: Seq<(u32, u32)>, r: (u32, u32)) -> Seq<(u32, u32)> {
    if out.len() > 0 && r.0 <= out.last().1 {
        let l = out.last();
        out.drop_last().push((l.0, if r.1 > l.1 { r.1 } else { l.1 }))
    } else {
        out.push(r)
    }
}

/// Ranges merged left to right.
pub open spec fn spec_merge(s: Seq<(u32, u32)>) -> Seq<(u32, u32)>
    decreases s.len(),
{
    if s.len() == 0 {
        Seq::empty()
    } else {
        merge_step(spec_merge(s.drop_last()), s.last())
    }
}

/// Merge overlapping or touching `(start, end)` ranges, taken in order,
/// into one range each.
pub fn merge_ranges(ranges: Vec<(u32, u32)>) -> (r: Vec<(u32, u32)>)
    ensures
        r@ == spec_merge(ranges@),
{
    let mut out: Vec<(u32, u32)> = Vec::new();
    let mut i: usize = 0;
    while i < ranges.len()
        invariant
            i <= ranges@.len(),
            out@ == spec_merge(ranges@.take(i as int)),
        decreases ranges@.len() - i,
    {
        let (start, end) = ranges[i];
        proof {
            assert(ranges@.take(i + 1 as int).drop_last() =~= ranges@.take(i as int));
        }
        let n = out.len();
        if n > 0 && start <= out[n - 1].1 {
            let last = out[n - 1];
            let new_end = if end > last.1 { end } else { last.1 };
            out.set(n - 1, (last.0, new_end));
            proof {
                assert(out@ =~= merge_step(spec_merge(ranges@.take(i as int)), (start, end)));
            }
        } else {
            out.push((start, end));
        }
        i = i + 1;
    }
    assert(ranges@.take(ranges@.len() as int) =~= ranges@);
    out
}

/// Merging ranges sorted by start, each non-empty, gives their union in
/// canonical form: non-empty ranges, increasing, with a gap between any
/// two, covering exactly the CPs the input covers.
pub proof fn lemma_merge_ranges_canonical(s: Seq<(u32, u32)>)
    requires
        forall|i: int, j: int| 0 <= i < j < s.len() ==> s[i].0 <= s[j].0,
        forall|k: int| 0 <= k < s.len() ==> (#[trigger] s[k]).0 < s[k].1,
    ensures
        canonical_ranges(spec_merge(s)),
        forall|x: int| covers(spec_merge(s), x) <==> covers(s, x),
        s.len() > 0 ==> spec_merge(s).len() > 0 && spec_merge(s).last().0 <= s.last().0,
    decreases s.len(),
{
    if s.len() > 0 {
        let t = s.drop_last();
        lemma_merge_ranges_canonical(t);
        let m = spec_merge(t);
        let r = s.last();
        let n = spec_merge(s);
        assert(n == merge_step(m, r));
        if m.len() > 0 && r.0 <= m.last().1 {
            let l = m.last();
            assert(l.0 <= t.last().0);
            assert(t.last().0 <= r.0);
            assert forall|x: int| covers(n, x) <==> covers(s, x) by {
                if covers(n, x) {
                    let k = choose|k: int| 0 <= k < n.len() && (#[trigger] n[k]).0 <= x && x < n[k].1;
                    if k < m.len() - 1 {
                        assert(m[k] == n[k]);
                        assert(covers(m, x));
                        assert(covers(t, x));
                        let w = choose|w: int| 0 <= w < t.len() && (#[trigger] t[w]).0 <= x && x < t[w].1;
                        assert(s[w] == t[w]);
                    } else if x < l.1 {
                        assert(m[m.len() - 1] == l);
                        assert(covers(m, x));
                        assert(covers(t, x));
                        let w = choose|w: int| 0 <= w < t.len() && (#[trigger] t[w]).0 <= x && x < t[w].1;
                        assert(s[w] == t[w]);
                    } else {
                        assert(s[s.len() - 1] == r);
                    }
                }
                if covers(s, x) {
                    let w = choose|w: int| 0 <= w < s.len() && (#[trigger] s[w]).0 <= x && x < s[w].1;
                    if w < s.len() - 1 {
                        assert(t[w] == s[w]);
                        assert(covers(t, x));
                        assert(covers(m, x));
                        let k = choose|k: int| 0 <= k < m.len() && (#[trigger] m[k]).0 <= x && x < m[k].1;
                        if k < m.len() - 1 {
                            assert(n[k] == m[k]);
                        } else {
                            assert(n[m.len() - 1].0 == l.0);
                        }
                    } else {
                        assert(n[m.len() - 1].0 == l.0);
                    }
                }
            }
            assert forall|i: int, j: int| 0 <= i < j < n.len() implies n[i].1 < n[j].0 by {
                assert(m[i] == n[i]);
                assert(m[j].0 == n[j].0);
            }
            assert forall|k: int| 0 <= k < n.len() implies (#[trigger] n[k]).0 < n[k].1 by {
                if k < n.len() - 1 {
                    assert(m[k] == n[k]);
                } else {
                    assert(m[k] == l);
                }
            }
        } else {
            assert forall|x: int| covers(n, x) <==> covers(s, x) by {
                if covers(n, x) {
                    let k = choose|k: int| 0 <= k < n.len() && (#[trigger] n[k]).0 <= x && x < n[k].1;
                    if k < m.len() {
                        assert(m[k] == n[k]);
                        assert(covers(m, x));
                        assert(covers(t, x));
                        let w = choose|w: int| 0 <= w < t.len() && (#[trigger] t[w]).0 <= x && x < t[w].1;
                        assert(s[w] == t[w]);
                    } else {
                        assert(s[s.len() - 1] == r);
                    }
                }
                if covers(s, x) {
                    let w = choose|w: int| 0 <= w < s.len() && (#[trigger] s[w]).0 <= x && x < s[w].1;
                    if w < s.len() - 1 {
                        assert(t[w] == s[w]);
                        assert(covers(t, x));
                        assert(covers(m, x));
                        let k = choose|k: int| 0 <= k < m.len() && (#[trigger] m[k]).0 <= x && x < m[k].1;
                        assert(n[k] == m[k]);
                    } else {
                        assert(n[m.len() as int] == r);
                    }
                }
            }
            assert forall|i: int, j: int| 0 <= i < j < n.len() implies n[i].1 < n[j].0 by {
                if j < m.len() {
                    assert(m[i] == n[i]);
                    assert(m[j] == n[j]);
                } else {
                    assert(m[i] == n[i]);
                    if i < m.len() - 1 {
                        assert(m[i].1 < m[m.len() - 1].0);
                    }
                    assert(m.len() > 0 ==> m.last().0 <= t.last().0);
                }
            }
            assert forall|k: int| 0 <= k < n.len() implies (#[trigger] n[k]).0 < n[k].1 by {
                if k < m.len() {
                    assert(m[k] == n[k]);
                }
            }
        }
    }
}

/// The ranges `rs`, each clamped to `[0, t)`, dropping those left empty.
pub open spec fn clamp_nonempty(rs: Seq<(u32, u32)>, t: u32) -> Seq<(u32, u32)>
    decreases rs.len(),
{
    if rs.len() == 0 {
        Seq::empty()
    } else {
        let p = rs.last();
        let a = if p.0 <= t { p.0 } else { t };
        let b = if p.1 <= t { p.1 } else { t };
        let prev = clamp_nonempty(rs.drop_last(), t);
        if b > a {
            prev.push((a, b))
        } else {
            prev
        }
    }
}

/// The CP ranges, inside `[0, t)`, of the runs whose character properties
/// mark them deleted (`sprmCFRMarkDel`), run after run.
pub open spec fn deleted_cp_ranges(runs: Seq<FkpRun>, pieces: Seq<Piece>, t: u32) -> Seq<(u32, u32)>
    decreases runs.len(),
{
    if runs.len() == 0 {
        Seq::empty()
    } else {
        let r = runs.last();
        deleted_cp_ranges(runs.drop_last(), pieces, t) + if spec_chp_props(r.grpprl@).f_rmark_del {
            clamp_nonempty(spec_fc_run_cp_ranges(r.fc_start, r.fc_end, pieces), t)
        } else {
            Seq::empty()
        }
    }
}

/// Two sequences with the same elements cover the same CPs, and every
/// element of one is an element of the other.
pub proof fn lemma_same_multiset_covers(a: Seq<(u32, u32)>, b: Seq<(u32, u32)>)
    requires
        a.to_multiset() == b.to_multiset(),
    ensures
        forall|x: int| covers(a, x) <==> covers(b, x),
        forall|k: int| 0 <= k < b.len() ==> a.contains(#[trigger] b[k]),
{
    broadcast use vstd::seq_lib::group_to_multiset_ensures;

    assert forall|k: int| 0 <= k < b.len() implies a.contains(#[trigger] b[k]) by {
        assert(b.contains(b[k]));
        assert(b.to_multiset().count(b[k]) > 0);
    }
    assert forall|k: int| 0 <= k < a.len() implies b.contains(#[trigger] a[k]) by {
        assert(a.contains(a[k]));
        assert(a.to_multiset().count(a[k]) > 0);
    }
    assert forall|x: int| covers(a, x) <==> covers(b, x) by {
        if covers(a, x) {
            let k = choose|k: int| 0 <= k < a.len() && (#[trigger] a[k]).0 <= x && x < a[k].1;
            assert(b.contains(a[k]));
            let w = choose|w: int| 0 <= w < b.len() && b[w] == a[k];
            assert(b[w].0 <= x && x < b[w].1);
        }
        if covers(b, x) {
            let k = choose|k: int| 0 <= k < b.len() && (#[trigger] b[k]).0 <= x && x < b[k].1;
            assert(a.contains(b[k]));
            let w = choose|w: int| 0 <= w < a.len() && a[w] == b[k];
            assert(a[w].0 <= x && x < a[w].1);
        }
    }
}

/// CP `x` lies in the text and in a CP range of a run whose properties
/// mark it deleted, the ranges as `fc_run_to_cp_ranges` gives them.
pub open spec fn deleted_at(runs: Seq<FkpRun>, pieces: Seq<Piece>, t: u32, x: int) -> bool {
    x < t && exists|i: int|
        0 <= i < runs.len() && spec_chp_props((#[trigger] runs[i]).grpprl@).f_rmark_del && covers(
            spec_fc_run_cp_ranges(runs[i].fc_start, runs[i].fc_end, pieces),
            x,
        )
}

proof fn lemma_covers_concat(a: Seq<(u32, u32)>, b: Seq<(u32, u32)>, x: int)
    ensures
        covers(a + b, x) <==> covers(a, x) || covers(b, x),
{
    let c = a + b;
    if covers(c, x) {
        let k = choose|k: int| 0 <= k < c.len() && (#[trigger] c[k]).0 <= x && x < c[k].1;
        if k < a.len() {
            assert(a[k] == c[k]);
        } else {
            assert(b[k - a.len()] == c[k]);
        }
    }
    if covers(a, x) {
        let k = choose|k: int| 0 <= k < a.len() && (#[trigger] a[k]).0 <= x && x < a[k].1;
        assert(c[k] == a[k]);
    }
    if covers(b, x) {
        let k = choose|k: int| 0 <= k < b.len() && (#[trigger] b[k]).0 <= x && x < b[k].1;
        assert(c[a.len() + k] == b[k]);
    }
}

proof fn lemma_clamp_covers(rs: Seq<(u32, u32)>, t: u32, x: int)
    ensures
        covers(clamp_nonempty(rs, t), x) <==> covers(rs, x) && x < t,
    decreases rs.len(),
{
    if rs.len() > 0 {
        lemma_clamp_covers(rs.drop_last(), t, x);
        let p = rs.last();
        let a = if p.0 <= t { p.0 } else { t };
        let b = if p.1 <= t { p.1 } else { t };
        let prev = clamp_nonempty(rs.drop_last(), t);
        let one: Seq<(u32, u32)> = if b > a { seq![(a, b)] } else { Seq::empty() };
        assert(clamp_nonempty(rs, t) =~= prev + one);
        lemma_covers_concat(prev, one, x);
        assert(rs =~= rs.drop_last() + seq![p]);
        lemma_covers_concat(rs.drop_last(), seq![p], x);
        if covers(seq![p], x) {
            assert(seq![p][0] == p);
        }
        if covers(one, x) {
            assert(one[0] == (a, b));
        }
        if p.0 <= x && x < p.1 && x < t {
            assert(one[0] == (a, b));
            assert(covers(one, x));
        }
        assert(covers(seq![p], x) <==> p.0 <= x && x < p.1) by {
            if p.0 <= x && x < p.1 {
                assert(seq![p][0] == p);
            }
        }
    }
}

proof fn lemma_deleted_covers(runs: Seq<FkpRun>, pieces: Seq<Piece>, t: u32, x: int)
    ensures
        covers(deleted_cp_ranges(runs, pieces, t), x) <==> deleted_at(runs, pieces, t, x),
    decreases runs.len(),
{
    if runs.len() > 0 {
        let init = runs.drop_last();
        lemma_deleted_covers(init, pieces, t, x);
        let r = runs.last();
        let rs = spec_fc_run_cp_ranges(r.fc_start, r.fc_end, pieces);
        let part = if spec_chp_props(r.grpprl@).f_rmark_del {
            clamp_nonempty(rs, t)
        } else {
            Seq::empty()
        };
        lemma_covers_concat(deleted_cp_ranges(init, pieces, t), part, x);
        lemma_clamp_covers(rs, t, x);
        if deleted_at(init, pieces, t, x) {
            let i = choose|i: int|
                0 <= i < init.len() && spec_chp_props((#[trigger] init[i]).grpprl@).f_rmark_del
                    && covers(spec_fc_run_cp_ranges(init[i].fc_start, init[i].fc_end, pieces), x);
            assert(runs[i] == init[i]);
        }
        if spec_chp_props(r.grpprl@).f_rmark_del && covers(rs, x) && x < t {
            assert(runs[runs.len() - 1] == r);
        }
        if deleted_at(runs, pieces, t, x) {
            let i = choose|i: int|
                0 <= i < runs.len() && spec_chp_props((#[trigger] runs[i]).grpprl@).f_rmark_del
                    && covers(spec_fc_run_cp_ranges(runs[i].fc_start, runs[i].fc_end, pieces), x);
            if i < runs.len() - 1 {
                assert(init[i] == runs[i]);
            }
        }
        if !spec_chp_props(r.grpprl@).f_rmark_del {
            assert(!covers(part, x));
        }
    } else {
        assert(!covers(Seq::<(u32, u32)>::empty(), x));
    }
}

/// The CP ranges within `[0, text_len)` whose character properties mark
/// them as deleted revision-mark text (`sprmCFRMarkDel`), merged: the
/// result is in canonical form and covers exactly the CPs some deleted run
/// covers inside the text.
pub fn resolve_deleted_cp_ranges_from_runs(runs: &[FkpRun], pieces: &[Piece], text_len: u32) -> (r:
    Vec<(u32, u32)>)
    requires
        runs_len_ok(runs@),
    ensures
        canonical_ranges(r@),
        forall|x: int| covers(r@, x) <==> covers(deleted_cp_ranges(runs@, pieces@, text_len), x),
        forall|x: int| covers(r@, x) <==> deleted_at(runs@, pieces@, text_len, x),
        forall|k: int| 0 <= k < r@.len() ==> (#[trigger] r@[k]).1 <= text_len,
{
    let mut acc: Vec<(u32, u32)> = Vec::new();
    let mut i: usize = 0;
    while i < runs.len()
        invariant
            i <= runs@.len(),
            runs_len_ok(runs@),
            acc@ == deleted_cp_ranges(runs@.take(i as int), pieces@, text_len),
            forall|k: int| 0 <= k < acc@.len() ==> (#[trigger] acc@[k]).0 < acc@[k].1,
        decreases runs@.len() - i,
    {
        let r = &runs[i];
        proof {
            assert(runs@.take(i + 1 as int).drop_last() =~= runs@.take(i as int));
            assert(len_ok(runs@[i as int].grpprl@.len() as int));
        }
        let props = extract_chp_props(r.grpprl.as_slice());
        if props.f_rmark_del {
            let rs = fc_run_cp_ranges_by_piece(r.fc_start, r.fc_end, pieces);
            let ghost before = acc@;
            let mut j: usize = 0;
            while j < rs.len()
                invariant
                    j <= rs@.len(),
                    acc@ == before + clamp_nonempty(rs@.take(j as int), text_len),
                    forall|k: int| 0 <= k < acc@.len() ==> (#[trigger] acc@[k]).0 < acc@[k].1,
                decreases rs@.len() - j,
            {
                let (a0, b0) = rs[j];
                let a = if a0 <= text_len { a0 } else { text_len };
                let b = if b0 <= text_len { b0 } else { text_len };
                proof {
                    assert(rs@.take(j + 1 as int).drop_last() =~= rs@.take(j as int));
                }
                if b > a {
                    acc.push((a, b));
                }
                j = j + 1;
            }
            proof {
                assert(rs@.take(rs@.len() as int) =~= rs@);
            }
        } else {
            assert(acc@ =~= deleted_cp_ranges(runs@.take(i + 1 as int), pieces@, text_len));
        }
        i = i + 1;
    }
    assert(runs@.take(runs@.len() as int) =~= runs@);
    let sorted = sort_pairs(acc);
    proof {
        lemma_same_multiset_covers(acc@, sorted@);
        assert forall|k: int| 0 <= k < sorted@.len() implies (#[trigger] sorted@[k]).0 < sorted@[k].1 by {
            assert(acc@.contains(sorted@[k]));
        }
        assert forall|a: int, b: int| 0 <= a < b < sorted@.len() implies sorted@[a].0 <= sorted@[b].0 by {
            assert(pair_le(sorted@[a], sorted@[b]));
        }
        lemma_merge_ranges_canonical(sorted@);
    }
    let r = merge_ranges(sorted);
    proof {
        assert forall|x: int| covers(r@, x) <==> deleted_at(runs@, pieces@, text_len, x) by {
            lemma_deleted_covers(runs@, pieces@, text_len, x);
        }
        assert forall|k: int| 0 <= k < r@.len() implies (#[trigger] r@[k]).1 <= text_len by {
            let x = r@[k].1 - 1;
            assert(r@[k].0 <= x && x < r@[k].1);
            assert(covers(r@, x));
            lemma_deleted_covers(runs@, pieces@, text_len, x);
        }
    }
    r
}

/// How many runs start before CP `v`.
pub open spec fn count_lt(runs: Seq<(u32, u32, ChpProps)>, v: u32) -> int
    decreases runs.len(),
{
    if runs.len() == 0 {
        0
    } else {
        count_lt(runs.drop_last(), v) + if runs.last().0 < v { 1int } else { 0int }
    }
}

/// The segments a run list contributes to `[ps, pe)` from `cursor` on:
/// each run clipped to the paragraph and to what earlier runs already
/// claimed, a default-props gap before it where it starts past `cursor`;
/// the walk stops at the first run starting at or after `pe`. Returns the
/// segments and the cursor after them.
pub open spec fn seg_walk(runs: Seq<(u32, u32, ChpProps)>, cursor: u32, ps: u32, pe: u32) -> (
    Seq<(u32, u32, ChpProps)>,
    u32,
)
    decreases runs.len(),
{
    if runs.len() == 0 {
        (Seq::empty(), cursor)
    } else {
        let (s, e, p) = runs[0];
        if s >= pe {
            (Seq::empty(), cursor)
        } else {
            let a = if s >= cursor { s } else { cursor };
            let seg_start = if a >= ps { a } else { ps };
            let seg_end = if e <= pe { e } else { pe };
            if seg_end <= seg_start {
                seg_walk(runs.drop_first(), cursor, ps, pe)
            } else {
                let head = if seg_start > cursor {
                    seq![(cursor, seg_start, chp_default())]
                } else {
                    Seq::empty()
                };
                let rest = seg_walk(runs.drop_first(), seg_end, ps, pe);
                (head.push((seg_start, seg_end, p)) + rest.0, rest.1)
            }
        }
    }
}

/// The character-property segments of `[ps, pe)`: the walk starts at the
/// last run starting before `ps` (or the first run), and a default-props
/// segment fills whatever the runs leave uncovered at the end.
pub open spec fn spec_chp_segments(runs: Seq<(u32, u32, ChpProps)>, ps: u32, pe: u32) -> Seq<
    (u32, u32, ChpProps),
> {
    if pe <= ps {
        Seq::empty()
    } else {
        let k = count_lt(runs, ps);
        let k1 = if k > 0 { k - 1 } else { 0 };
        let w = seg_walk(runs.subrange(k1, runs.len() as int), ps, ps, pe);
        if w.1 < pe {
            w.0.push((w.1, pe, chp_default()))
        } else {
            w.0
        }
    }
}

/// The segments `s` tile `[lo, hi)`: each non-empty, each starting where
/// the one before ended, the first at `lo` and the last ending at `hi`.
pub open spec fn tiles(s: Seq<(u32, u32, ChpProps)>, lo: int, hi: int) -> bool
    decreases s.len(),
{
    if s.len() == 0 {
        lo == hi
    } else {
        s[0].0 == lo && s[0].0 < s[0].1 && tiles(s.drop_first(), s[0].1 as int, hi)
    }
}

proof fn lemma_tiles_push(s: Seq<(u32, u32, ChpProps)>, lo: int, mid: int, seg: (u32, u32, ChpProps))
    requires
        tiles(s, lo, mid),
        seg.0 == mid,
        seg.0 < seg.1,
    ensures
        tiles(s.push(seg), lo, seg.1 as int),
    decreases s.len(),
{
    if s.len() > 0 {
        lemma_tiles_push(s.drop_first(), s[0].1 as int, mid, seg);
        assert(s.push(seg).drop_first() =~= s.drop_first().push(seg));
        assert(s.push(seg)[0] == s[0]);
    } else {
        assert(s.push(seg).drop_first() =~= Seq::<(u32, u32, ChpProps)>::empty());
        assert(s.push(seg)[0] == seg);
        assert(tiles(s.push(seg).drop_first(), seg.1 as int, seg.1 as int));
    }
}

proof fn lemma_count_lt_split(runs: Seq<(u32, u32, ChpProps)>, v: u32, k: int)
    requires
        0 <= k <= runs.len(),
        forall|j: int| 0 <= j < k ==> (#[trigger] runs[j]).0 < v,
        forall|j: int| k <= j < runs.len() ==> (#[trigger] runs[j]).0 >= v,
    ensures
        count_lt(runs, v) == k,
    decreases runs.len(),
{
    if runs.len() > 0 {
        if k == runs.len() {
            lemma_count_lt_split(runs.drop_last(), v, k - 1);
        } else {
            lemma_count_lt_split(runs.drop_last(), v, k);
        }
    }
}

/// The segment `seg` has default properties, or the properties of a run
/// that covers it.
pub open spec fn seg_from_runs(seg: (u32, u32, ChpProps), runs: Seq<(u32, u32, ChpProps)>) -> bool {
    seg.2 == chp_default() || exists|j: int|
        0 <= j < runs.len() && (#[trigger] runs[j]).0 <= seg.0 && seg.1 <= runs[j].1 && runs[j].2 == seg.2
}

proof fn lemma_count_lt_bounds(runs: Seq<(u32, u32, ChpProps)>, v: u32)
    ensures
        0 <= count_lt(runs, v) <= runs.len(),
    decreases runs.len(),
{
    if runs.len() > 0 {
        lemma_count_lt_bounds(runs.drop_last(), v);
    }
}

proof fn lemma_seg_walk_bounds(runs: Seq<(u32, u32, ChpProps)>, cursor: u32, ps: u32, pe: u32)
    ensures
        seg_walk(runs, cursor, ps, pe).0.len() <= 2 * runs.len(),
        forall|i: int|
            0 <= i < seg_walk(runs, cursor, ps, pe).0.len() ==> seg_from_runs(
                #[trigger] seg_walk(runs, cursor, ps, pe).0[i],
                runs,
            ),
    decreases runs.len(),
{
    if runs.len() > 0 {
        let (s, e, p) = runs[0];
        if s < pe {
            let a = if s >= cursor { s } else { cursor };
            let seg_start = if a >= ps { a } else { ps };
            let seg_end = if e <= pe { e } else { pe };
            let tl = runs.drop_first();
            let next_cursor = if seg_end <= seg_start { cursor } else { seg_end };
            lemma_seg_walk_bounds(tl, next_cursor, ps, pe);
            let rest = seg_walk(tl, next_cursor, ps, pe);
            let w = seg_walk(runs, cursor, ps, pe).0;
            if seg_end <= seg_start {
                assert(w == rest.0);
            } else {
                let head = if seg_start > cursor {
                    seq![(cursor, seg_start, chp_default())]
                } else {
                    Seq::empty()
                };
                let h = head.push((seg_start, seg_end, p));
                assert(w == h + rest.0);
            }
            assert forall|i: int| 0 <= i < w.len() implies seg_from_runs(#[trigger] w[i], runs) by {
                let off = w.len() - rest.0.len();
                if i >= off {
                    let seg = rest.0[i - off];
                    assert(w[i] == seg);
                    assert(seg_from_runs(seg, tl));
                    if seg.2 != chp_default() {
                        let j = choose|j: int|
                            0 <= j < tl.len() && (#[trigger] tl[j]).0 <= seg.0 && seg.1 <= tl[j].1
                                && tl[j].2 == seg.2;
                        assert(runs[j + 1] == tl[j]);
                    }
                } else if w[i].2 != chp_default() {
                    assert(runs[0] == (s, e, p));
                }
            }
        }
    }
}

/// The segments of a paragraph number at most two per run and one more,
/// and each carries default properties or those of a run that covers it.
pub proof fn lemma_chp_segments_come_from_runs(runs: Seq<(u32, u32, ChpProps)>, ps: u32, pe: u32)
    ensures
        spec_chp_segments(runs, ps, pe).len() <= 2 * runs.len() + 1,
        forall|i: int|
            0 <= i < spec_chp_segments(runs, ps, pe).len() ==> seg_from_runs(
                #[trigger] spec_chp_segments(runs, ps, pe)[i],
                runs,
            ),
{
    if pe > ps {
        lemma_count_lt_bounds(runs, ps);
        let k = count_lt(runs, ps);
        let k1 = if k > 0 { k - 1 } else { 0 };
        let sub = runs.subrange(k1, runs.len() as int);
        lemma_seg_walk_bounds(sub, ps, ps, pe);
        let w = seg_walk(sub, ps, ps, pe);
        let out = spec_chp_segments(runs, ps, pe);
        assert forall|i: int| 0 <= i < out.len() implies seg_from_runs(#[trigger] out[i], runs) by {
            if i < w.0.len() {
                assert(out[i] == w.0[i]);
                let seg = w.0[i];
                assert(seg_from_runs(seg, sub));
                if seg.2 != chp_default() {
                    let j = choose|j: int|
                        0 <= j < sub.len() && (#[trigger] sub[j]).0 <= seg.0 && seg.1 <= sub[j].1
                            && sub[j].2 == seg.2;
                    assert(runs[k1 + j] == sub[j]);
                }
            }
        }
    }
}

/// The character-property segments covering `[para_cp_start,
/// para_cp_end)` for one paragraph, from runs sorted by `cp_start`: every
/// CP of the paragraph lies in exactly one segment, in order, a run's
/// properties where a run covers it and default properties elsewhere.
pub fn resolve_chp_segments(
    sorted_cp_runs: &[(u32, u32, ChpProps)],
    para_cp_start: u32,
    para_cp_end: u32,
) -> (r: Vec<(u32, u32, ChpProps)>)
    requires
        sorted_by_start(sorted_cp_runs@),
    ensures
        r@ == spec_chp_segments(sorted_cp_runs@, para_cp_start, para_cp_end),
        para_cp_end <= para_cp_start ==> r@.len() == 0,
        para_cp_start < para_cp_end ==> tiles(r@, para_cp_start as int, para_cp_end as int),
{
    let mut out: Vec<(u32, u32, ChpProps)> = Vec::new();
    if para_cp_end <= para_cp_start {
        return out;
    }
    let ghost runs = sorted_cp_runs@;
    let mut lo: usize = 0;
    let mut hi: usize = sorted_cp_runs.len();
    while lo < hi
        invariant
            lo <= hi <= runs.len(),
            runs == sorted_cp_runs@,
            sorted_by_start(runs),
            forall|j: int| 0 <= j < lo ==> (#[trigger] runs[j]).0 < para_cp_start,
            forall|j: int| hi <= j < runs.len() ==> (#[trigger] runs[j]).0 >= para_cp_start,
        decreases hi - lo,
    {
        let mid = lo + (hi - lo) / 2;
        if sorted_cp_runs[mid].0 < para_cp_start {
            lo = mid + 1;
        } else {
            hi = mid;
        }
    }
    proof {
        lemma_count_lt_split(runs, para_cp_start, lo as int);
    }
    let start_idx = if lo > 0 { lo - 1 } else { 0 };
    let ghost total = seg_walk(runs.subrange(start_idx as int, runs.len() as int), para_cp_start, para_cp_start, para_cp_end);
    let mut cursor = para_cp_start;
    let mut i = start_idx;
    proof {
        assert(out@ + seg_walk(runs.subrange(i as int, runs.len() as int), cursor, para_cp_start, para_cp_end).0 =~= total.0);
    }
    while i < sorted_cp_runs.len()
        invariant_except_break
            start_idx <= i <= runs.len(),
            runs == sorted_cp_runs@,
            para_cp_start < para_cp_end,
            para_cp_start <= cursor <= para_cp_end,
            tiles(out@, para_cp_start as int, cursor as int),
            out@ + seg_walk(runs.subrange(i as int, runs.len() as int), cursor, para_cp_start, para_cp_end).0 == total.0,
            seg_walk(runs.subrange(i as int, runs.len() as int), cursor, para_cp_start, para_cp_end).1 == total.1,
        ensures
            para_cp_start <= cursor <= para_cp_end,
            tiles(out@, para_cp_start as int, cursor as int),
            out@ == total.0,
            cursor == total.1,
        decreases runs.len() - i,
    {
        let (s, e, props) = sorted_cp_runs[i];
        let ghost rest = runs.subrange(i as int, runs.len() as int);
        proof {
            assert(rest[0] == runs[i as int]);
            assert(rest.drop_first() =~= runs.subrange(i + 1, runs.len() as int));
        }
        if s >= para_cp_end {
            assert(out@ =~= total.0);
            break;
        }
        let a = if s >= cursor { s } else { cursor };
        let seg_start = if a >= para_cp_start { a } else { para_cp_start };
        let seg_end = if e <= para_cp_end { e } else { para_cp_end };
        if seg_end <= seg_start {
            i = i + 1;
            continue;
        }
        let ghost before = out@;
        if seg_start > cursor {
            proof {
                lemma_tiles_push(out@, para_cp_start as int, cursor as int, (cursor, seg_start, chp_default()));
            }
            out.push((cursor, seg_start, ChpProps::default()));
        }
        proof {
            lemma_tiles_push(out@, para_cp_start as int, seg_start as int, (seg_start, seg_end, props));
        }
        out.push((seg_start, seg_end, props));
        proof {
            let head = if seg_start > cursor {
                seq![(cursor, seg_start, chp_default())]
            } else {
                Seq::empty()
            };
            assert(out@ =~= before + head.push((seg_start, seg_end, props)));
        }
        cursor = seg_end;
        i = i + 1;
    }
    if cursor < para_cp_end {
        proof {
            lemma_tiles_push(out@, para_cp_start as int, cursor as int, (cursor, para_cp_end, chp_default()));
        }
        out.push((cursor, para_cp_end, ChpProps::default()));
    }
    out
}

} // verus!
