//! PAPX (paragraph properties): the PAPX FKP pages indexed by the
//! PlcfBtePapx, and the paragraphs of the main text built from them.
//!
//! Each 512-byte FKP page sits in the WordDocument stream at `pn * 512`
//! and holds `rgfc[crun + 1]` (u32 FCs bounding each paragraph), then
//! `crun` 13-byte BX descriptors whose first byte is the word offset of
//! that paragraph's PAPX, and `crun` itself in byte 511. A PAPX is
//! `[cw:1][istd:2][grpprl]`; when `cw == 0` the real `cw` is the next byte
//! (the Word8 re-read).

use vstd::prelude::*;
use crate::bytes::{le32, len_ok, read_u32_le, copy_range};
use super::piece_table::{
    Piece, piece_base, piece_stride, fc_norm, clear_bit30_u32, HyperlinkSpan, extract_text_range,
    spec_extract, rich_from, rich_init, sanitize_chars_with_hyperlinks_and_chp,
};
use super::chpx::{FkpRun, resolve_chp_cp_runs, resolve_chp_segments, spec_chp_segments, sorted_by_start, chp_cp_triples, runs_len_ok};
use super::sprm::{ChpProps, PapProps, PapModel, extract_pap_props, spec_pap_props};
use crate::text::chars_of;

verus! {

broadcast use vstd::seq_lib::to_multiset_insert;

/// A paragraph descriptor recovered from a PAPX FKP page.
#[derive(Debug, Clone)]
pub struct FkpParagraph {
    /// Start FC of the paragraph, inclusive.
    pub fc_start: u32,
    /// End FC of the paragraph, exclusive.
    pub fc_end: u32,
    /// The PAP `grpprl` bytes (without the `cw`/`istd` header).
    pub grpprl: Vec<u8>,
}

impl View for FkpParagraph {
    type V = (u32, u32, Seq<u8>);

    open spec fn view(&self) -> (u32, u32, Seq<u8>) {
        (self.fc_start, self.fc_end, self.grpprl@)
    }
}

/// The PAP `grpprl` of the PAPX at word offset `word_off` of `page`:
/// `[cw:1][istd:2][grpprl]` with `2 * cw - 3` grpprl bytes, or, when `cw`
/// is zero, `[0][cw':1][istd:2][grpprl]` with `2 * cw' - 2` bytes; cut at
/// the page's end.
pub open spec fn spec_papx_grpprl(page: Seq<u8>, word_off: int) -> Seq<u8> {
    let p0 = word_off * 2;
    if p0 >= page.len() {
        Seq::empty()
    } else {
        let reread = page[p0] == 0;
        let p = if reread { p0 + 1 } else { p0 };
        if p >= page.len() {
            Seq::empty()
        } else {
            let cb = page[p] as int * 2;
            let start = p + 3;
            let end0 = p + cb + if reread { 1int } else { 0int };
            let end = if end0 <= page.len() { end0 } else { page.len() as int };
            if cb < 3 || start >= end {
                Seq::empty()
            } else {
                page.subrange(start, end)
            }
        }
    }
}

/// Extract the PAP `grpprl` from a page at the given word offset.
pub fn extract_grpprl(page: &[u8], word_off: usize) -> (r: Vec<u8>)
    requires
        word_off < 256,
    ensures
        r@ == spec_papx_grpprl(page@, word_off as int),
        r@.len() <= page@.len(),
{
    let mut p = word_off * 2;
    if p >= page.len() {
        return Vec::new();
    }
    let mut cw = page[p] as usize;
    let reread = cw == 0;
    if reread {
        p = p + 1;
        if p >= page.len() {
            return Vec::new();
        }
        cw = page[p] as usize;
    }
    let cb = cw * 2;
    if cb < 3 {
        return Vec::new();
    }
    let grpprl_start = p + 3;
    let end0 = p + cb + if reread { 1 } else { 0 };
    let grpprl_end = if end0 <= page.len() { end0 } else { page.len() };
    if grpprl_start >= grpprl_end {
        return Vec::new();
    }
    copy_range(page, grpprl_start, grpprl_end)
}

/// Number of paragraphs a page with `crun` entries describes: its BX
/// descriptors are read while they start inside the page.
pub open spec fn papx_entry_count(len: int, crun: int) -> int {
    if crun == 0 || crun >= 64 {
        0
    } else {
        let pos = (crun + 1) * 4;
        let fit = (len - pos + 12) / 13;
        if fit < crun { fit } else { crun }
    }
}

/// Entry `i` of a PAPX FKP page.
pub open spec fn spec_papx_entry(page: Seq<u8>, i: int) -> (u32, u32, Seq<u8>) {
    let crun = page[511] as int;
    let bx = (crun + 1) * 4 + i * 13;
    let word_off = page[bx] as int;
    (
        le32(page, 4 * i) as u32,
        le32(page, 4 * (i + 1)) as u32,
        if word_off == 0 { Seq::empty() } else { spec_papx_grpprl(page, word_off) },
    )
}

/// Every paragraph a PAPX FKP page describes, in page order.
pub open spec fn spec_papx_page(page: Seq<u8>) -> Seq<(u32, u32, Seq<u8>)> {
    Seq::new(
        papx_entry_count(page.len() as int, page[511] as int) as nat,
        |i: int| spec_papx_entry(page, i),
    )
}

/// Parse a single PAPX FKP page, appending its paragraphs to `out`.
pub fn parse_fkp_page(page: &[u8], out: &mut Vec<FkpParagraph>)
    requires
        512 <= page@.len(),
        len_ok(page@.len() as int),
    ensures
        final(out)@.map_values(|p: FkpParagraph| p@) == old(out)@.map_values(
            |p: FkpParagraph| p@,
        ) + spec_papx_page(page@),
        fkp_len_ok(old(out)@) ==> fkp_len_ok(final(out)@),
{
    let ghost old_view = old(out)@.map_values(|p: FkpParagraph| p@);
    let ghost old_len = old(out)@.len();
    let crun = page[511] as usize;
    if crun == 0 || crun >= 64 {
        assert(spec_papx_page(page@) =~= Seq::empty());
        assert(out@.map_values(|p: FkpParagraph| p@) =~= old_view + spec_papx_page(page@));
        return;
    }
    let pos = (crun + 1) * 4;
    let count = if (page.len() - pos + 12) / 13 < crun { (page.len() - pos + 12) / 13 } else { crun };
    assert(count == papx_entry_count(page@.len() as int, crun as int));
    let mut i: usize = 0;
    while i < count
        invariant
            512 <= page@.len(),
            len_ok(page@.len() as int),
            crun == page@[511],
            0 < crun < 64,
            pos == (crun + 1) * 4,
            count == papx_entry_count(page@.len() as int, crun as int),
            count <= crun,
            i <= count,
            out@.len() == old_len + i,
            forall|j: int| 0 <= j < old_len ==> #[trigger] out@[j]@ == old_view[j],
            forall|j: int| 0 <= j < i ==> #[trigger] out@[old_len + j]@ == spec_papx_entry(page@, j),
            old_view.len() == old_len,
            fkp_len_ok(old(out)@) ==> fkp_len_ok(out@),
        decreases count - i,
    {
        let bx_off = pos + i * 13;
        assert(bx_off < page@.len()) by (nonlinear_arith)
            requires
                bx_off == pos + i * 13,
                i < count,
                count == papx_entry_count(page@.len() as int, crun as int),
                0 < crun < 64,
                pos == (crun + 1) * 4,
                512 <= page@.len(),
        ;
        let word_off = page[bx_off] as usize;
        let fc_start = read_u32_le(page, 4 * i);
        let fc_end = read_u32_le(page, 4 * (i + 1));
        let grpprl = if word_off == 0 {
            Vec::new()
        } else {
            extract_grpprl(page, word_off)
        };
        assert(len_ok(grpprl@.len() as int));
        out.push(FkpParagraph { fc_start, fc_end, grpprl });
        proof {
            assert(out@[old_len + i]@ == spec_papx_entry(page@, i as int));
        }
        i = i + 1;
    }
    let ghost nv = out@.map_values(|p: FkpParagraph| p@);
    assert forall|j: int| 0 <= j < out@.len() implies #[trigger] nv[j] == (old_view + spec_papx_page(page@))[j] by {
        if j >= old_len {
            assert(out@[old_len + (j - old_len)]@ == spec_papx_entry(page@, j - old_len));
        }
    }
    assert(nv =~= old_view + spec_papx_page(page@));
}

/// Page number named by BTE `i` of a PlcfBtePapx / PlcBteChpx whose FC
/// array is `fc_arr` bytes long: the low 22 bits.
pub open spec fn bte_page(plc: Seq<u8>, fc_arr: int, i: int) -> u32 {
    (le32(plc, fc_arr + 4 * i) as u32) & 0x003F_FFFFu32
}

/// The BTE layout of a bin table: `(n, fc_arr)` with `n` entries (clamped
/// to the whole pages of the WordDocument stream) after an FC array of
/// `fc_arr` bytes; `None` when the table holds no entry.
pub open spec fn bte_layout(word_len: int, plc_len: int) -> Option<(int, int)> {
    let n0 = if plc_len >= 4 { (plc_len - 4) / 8 } else { 0 };
    if n0 == 0 {
        None
    } else {
        let fc_arr = (n0 + 1) * 4;
        let n = if n0 <= word_len / 512 { n0 } else { word_len / 512 };
        Some((n, fc_arr))
    }
}

/// The bin table's bytes inside the Table stream, when it is there at all.
pub open spec fn bte_table(table: Seq<u8>, fc: u32, lcb: u32) -> Option<Seq<u8>> {
    let start = fc as int;
    if lcb < 4 || start + 4 > table.len() {
        None
    } else {
        let end0 = start + lcb as int;
        let end = if end0 <= table.len() { end0 } else { table.len() as int };
        Some(table.subrange(start, end))
    }
}

/// The page numbers of a bin table, in table order.
pub open spec fn bte_pages(word_len: int, plc: Seq<u8>) -> Seq<u32> {
    match bte_layout(word_len, plc.len() as int) {
        None => Seq::empty(),
        Some((n, fc_arr)) => Seq::new(n as nat, |i: int| bte_page(plc, fc_arr, i)),
    }
}

/// Whether the `i`th page number is the first occurrence of its page and
/// names a whole page of the WordDocument stream.
pub open spec fn page_is_walked(word_len: int, pns: Seq<u32>, i: int) -> bool {
    !pns.take(i).contains(pns[i]) && (pns[i] as int + 1) * 512 <= word_len
}

/// The bytes of page `pn`.
pub open spec fn page_bytes(word: Seq<u8>, pn: u32) -> Seq<u8> {
    word.subrange(pn as int * 512, pn as int * 512 + 512)
}

/// The pages walked among the first `i` page numbers, in order.
pub open spec fn walked(word_len: int, pns: Seq<u32>, i: int) -> Seq<u32>
    decreases i,
{
    if i <= 0 {
        Seq::empty()
    } else if page_is_walked(word_len, pns, i - 1) {
        walked(word_len, pns, i - 1).push(pns[i - 1])
    } else {
        walked(word_len, pns, i - 1)
    }
}

/// The FKP pages a bin table names, each once, in table order, keeping
/// only whole pages of the WordDocument stream.
pub open spec fn spec_walked_pages(word_len: int, table: Seq<u8>, fc: u32, lcb: u32) -> Seq<u32> {
    match bte_table(table, fc, lcb) {
        None => Seq::empty(),
        Some(plc) => {
            let pns = bte_pages(word_len, plc);
            walked(word_len, pns, pns.len() as int)
        },
    }
}

/// The paragraphs of the PAPX FKP pages `ws`, page after page.
pub open spec fn papx_pages(word: Seq<u8>, ws: Seq<u32>) -> Seq<(u32, u32, Seq<u8>)>
    decreases ws.len(),
{
    if ws.len() == 0 {
        Seq::empty()
    } else {
        papx_pages(word, ws.drop_last()) + spec_papx_page(page_bytes(word, ws.last()))
    }
}

/// Every paragraph of every distinct PAPX FKP page the PlcfBtePapx names.
pub open spec fn spec_parse_papx(word: Seq<u8>, table: Seq<u8>, fc: u32, lcb: u32) -> Seq<
    (u32, u32, Seq<u8>),
> {
    papx_pages(word, spec_walked_pages(word.len() as int, table, fc, lcb))
}

proof fn lemma_walked_bounds(word_len: int, pns: Seq<u32>, i: int)
    requires
        0 <= i <= pns.len(),
    ensures
        walked(word_len, pns, i).len() <= i,
        forall|k: int|
            0 <= k < walked(word_len, pns, i).len() ==> ((#[trigger] walked(word_len, pns, i)[k]) as int
                + 1) * 512 <= word_len,
    decreases i,
{
    if i > 0 {
        lemma_walked_bounds(word_len, pns, i - 1);
    }
}

proof fn lemma_papx_pages_len(word: Seq<u8>, ws: Seq<u32>)
    requires
        forall|k: int| 0 <= k < ws.len() ==> ((#[trigger] ws[k]) as int + 1) * 512 <= word.len(),
    ensures
        papx_pages(word, ws).len() <= 63 * ws.len(),
    decreases ws.len(),
{
    if ws.len() > 0 {
        lemma_papx_pages_len(word, ws.drop_last());
        let page = page_bytes(word, ws.last());
        assert(page.len() == 512);
        let crun = page[511] as int;
        if !(crun == 0 || crun >= 64) {
            let pos = (crun + 1) * 4;
            assert((512 - pos + 12) / 13 >= 0);
        }
        assert(spec_papx_page(page).len() <= 63);
    }
}

/// The paragraphs read from the PAPX pages: at most 63 per bin-table
/// entry and 63 per whole page of the WordDocument stream, each page read
/// once; none without a bin table.
pub proof fn lemma_papx_paragraph_bound(word: Seq<u8>, table: Seq<u8>, fc: u32, lcb: u32)
    ensures
        match bte_table(table, fc, lcb) {
            None => spec_parse_papx(word, table, fc, lcb).len() == 0,
            Some(plc) => {
                &&& spec_parse_papx(word, table, fc, lcb).len() <= 63 * (if plc.len() >= 4 {
                    (plc.len() - 4) / 8
                } else {
                    0
                })
                &&& spec_parse_papx(word, table, fc, lcb).len() <= 63 * (word.len() / 512)
            },
        },
{
    match bte_table(table, fc, lcb) {
        None => {
            assert(spec_walked_pages(word.len() as int, table, fc, lcb).len() == 0);
        },
        Some(plc) => {
            let pns = bte_pages(word.len() as int, plc);
            lemma_walked_bounds(word.len() as int, pns, pns.len() as int);
            let ws = walked(word.len() as int, pns, pns.len() as int);
            lemma_papx_pages_len(word, ws);
            let n0 = if plc.len() >= 4 { (plc.len() - 4) / 8 } else { 0 };
            assert(pns.len() <= n0 && pns.len() <= word.len() / 512);
            assert(63 * ws.len() <= 63 * n0 && 63 * ws.len() <= 63 * (word.len() / 512)) by (nonlinear_arith)
                requires
                    ws.len() <= pns.len(),
                    pns.len() <= n0,
                    pns.len() <= word.len() / 512,
            ;
        },
    }
}

/// The paragraphs read from the PAPX bin table at `fc` (`lcb` bytes) of
/// the Table stream: none where the table is shorter than 4 bytes or
/// starts past the stream's end, holds no entry, or the WordDocument
/// stream has no whole page; otherwise at most 63 for each of the
/// `n` entries and at most 63 for each whole page.
pub proof fn lemma_papx_empty_and_size(word: Seq<u8>, table: Seq<u8>, fc: u32, lcb: u32)
    ensures
        ({
            let r = spec_parse_papx(word, table, fc, lcb);
            let end = if fc as int + lcb as int <= table.len() {
                fc as int + lcb as int
            } else {
                table.len() as int
            };
            let n = if end - fc as int >= 4 {
                (end - fc as int - 4) / 8
            } else {
                0
            };
            &&& (lcb < 4 || fc as int + 4 > table.len()) ==> r.len() == 0
            &&& (lcb >= 4 && fc as int + 4 <= table.len()) ==> r.len() <= 63 * n
            &&& word.len() < 512 ==> r.len() == 0
            &&& r.len() <= 63 * (word.len() / 512)
            &&& (lcb >= 4 && fc as int + 4 <= table.len() && n == 0) ==> r.len() == 0
        }),
{
    lemma_papx_paragraph_bound(word, table, fc, lcb);
    if let Some(plc) = bte_table(table, fc, lcb) {
        let end = if fc as int + lcb as int <= table.len() {
            fc as int + lcb as int
        } else {
            table.len() as int
        };
        assert(plc.len() == end - fc);
    }
}

/// The page numbers of the bin table `plc`, clamped to the whole pages of
/// `word_doc`.
pub fn bte_page_numbers(word_doc: &[u8], plc: &[u8]) -> (r: Vec<u32>)
    requires
        len_ok(plc@.len() as int),
        len_ok(word_doc@.len() as int),
    ensures
        r@ == bte_pages(word_doc@.len() as int, plc@),
{
    let mut out: Vec<u32> = Vec::new();
    let n0 = if plc.len() >= 4 { (plc.len() - 4) / 8 } else { 0 };
    if n0 == 0 {
        assert(out@ =~= bte_pages(word_doc@.len() as int, plc@));
        return out;
    }
    let fc_arr = (n0 + 1) * 4;
    let max_pages = word_doc.len() / 512;
    let n = if n0 <= max_pages { n0 } else { max_pages };
    let mut i: usize = 0;
    while i < n
        invariant
            n <= n0,
            n0 == (plc@.len() - 4) / 8,
            fc_arr == (n0 + 1) * 4,
            plc@.len() >= 4,
            len_ok(plc@.len() as int),
            i <= n,
            out@.len() == i,
            forall|j: int| 0 <= j < i ==> #[trigger] out@[j] == bte_page(plc@, fc_arr as int, j),
        decreases n - i,
    {
        assert(fc_arr + 4 * i + 4 <= plc@.len()) by (nonlinear_arith)
            requires
                i < n,
                n <= n0,
                n0 == (plc@.len() - 4) / 8,
                fc_arr == (n0 + 1) * 4,
                plc@.len() >= 4,
        ;
        let bte = read_u32_le(plc, fc_arr + 4 * i);
        out.push(bte & 0x003F_FFFF);
        i = i + 1;
    }
    assert(out@ =~= bte_pages(word_doc@.len() as int, plc@));
    out
}

/// The FKP pages a bin table `[fc, fc + lcb)` of `table_stream` names:
/// each page number once, in table order, only pages wholly inside
/// `word_doc`, and at most as many entries read as `word_doc` has pages.
pub fn walked_pages(word_doc: &[u8], table_stream: &[u8], fc: u32, lcb: u32) -> (r: Vec<u32>)
    requires
        len_ok(word_doc@.len() as int),
        len_ok(table_stream@.len() as int),
    ensures
        r@ == spec_walked_pages(word_doc@.len() as int, table_stream@, fc, lcb),
        forall|k: int| 0 <= k < r@.len() ==> (#[trigger] r@[k] as int + 1) * 512 <= word_doc@.len(),
{
    let mut out: Vec<u32> = Vec::new();
    let start = fc as usize;
    if lcb < 4 || start > table_stream.len() || table_stream.len() - start < 4 {
        return out;
    }
    let end = if lcb as usize <= table_stream.len() - start {
        start + lcb as usize
    } else {
        table_stream.len()
    };
    let plc = vstd::slice::slice_subrange(table_stream, start, end);
    let pns = bte_page_numbers(word_doc, plc);
    proof {
        assert forall|j: int| 0 <= j < pns@.len() implies #[trigger] pns@[j] < 0x40_0000 by {
            match bte_layout(word_doc@.len() as int, plc@.len() as int) {
                Some((_, fc_arr)) => {
                    let x = le32(plc@, fc_arr + 4 * j) as u32;
                    assert(x & 0x003F_FFFFu32 < 0x40_0000) by (bit_vector);
                },
                None => {},
            }
        }
    }
    let max_pages = word_doc.len() / 512;
    let n_visited: usize = if max_pages < 0x40_0000 { max_pages } else { 0x40_0000 };
    let mut visited: Vec<bool> = Vec::new();
    let mut k: usize = 0;
    while k < n_visited
        invariant
            k <= n_visited,
            visited@.len() == k,
            forall|q: int| 0 <= q < k ==> !#[trigger] visited@[q],
        decreases n_visited - k,
    {
        visited.push(false);
        k = k + 1;
    }
    let mut i: usize = 0;
    while i < pns.len()
        invariant
            len_ok(word_doc@.len() as int),
            max_pages == word_doc@.len() / 512,
            n_visited <= max_pages,
            n_visited <= 0x40_0000,
            n_visited == max_pages || n_visited == 0x40_0000,
            visited@.len() == n_visited,
            i <= pns@.len(),
            forall|j: int| 0 <= j < pns@.len() ==> #[trigger] pns@[j] < 0x40_0000,
            forall|q: int| 0 <= q < n_visited ==> #[trigger] visited@[q] == pns@.take(i as int).contains(q as u32),
            out@ == walked(word_doc@.len() as int, pns@, i as int),
            forall|k: int| 0 <= k < out@.len() ==> (#[trigger] out@[k] as int + 1) * 512 <= word_doc@.len(),
        decreases pns@.len() - i,
    {
        let pn = pns[i] as usize;
        proof {
            assert(pns@.take(i + 1 as int) =~= pns@.take(i as int).push(pns@[i as int]));
            assert((pn + 1) * 512 <= word_doc@.len() <==> pn < max_pages) by (nonlinear_arith)
                requires max_pages == word_doc@.len() / 512;
        }
        if pn < n_visited && !visited[pn] {
            visited.set(pn, true);
            out.push(pn as u32);
        }
        proof {
            assert forall|q: int| 0 <= q < n_visited implies #[trigger] visited@[q] == pns@.take(i + 1 as int).contains(q as u32) by {
                if q == pn {
                    assert(pns@.take(i + 1 as int)[i as int] == q as u32);
                } else {
                    if pns@.take(i + 1 as int).contains(q as u32) {
                        let w = choose|w: int| 0 <= w < i + 1 && #[trigger] pns@.take(i + 1 as int)[w] == q as u32;
                        assert(w < i);
                        assert(pns@.take(i as int)[w] == q as u32);
                    }
                    if pns@.take(i as int).contains(q as u32) {
                        let w = choose|w: int| 0 <= w < i && #[trigger] pns@.take(i as int)[w] == q as u32;
                        assert(pns@.take(i + 1 as int)[w] == q as u32);
                    }
                }
            }
        }
        i = i + 1;
    }
    assert(pns@.take(pns@.len() as int) =~= pns@);
    out
}

/// Parse every PAPX FKP page referenced by the PlcfBtePapx: one
/// `FkpParagraph` per paragraph, page by page in table order. A page named
/// again is parsed once, and at most as many entries are read as the
/// WordDocument stream has whole pages.
pub fn parse_papx_paragraphs(
    word_doc: &[u8],
    table_stream: &[u8],
    fc_plcf_bte_papx: u32,
    lcb_plcf_bte_papx: u32,
) -> (r: Vec<FkpParagraph>)
    requires
        len_ok(word_doc@.len() as int),
        len_ok(table_stream@.len() as int),
    ensures
        r@.map_values(|p: FkpParagraph| p@) == spec_parse_papx(
            word_doc@,
            table_stream@,
            fc_plcf_bte_papx,
            lcb_plcf_bte_papx,
        ),
        fkp_len_ok(r@),
{
    let ws = walked_pages(word_doc, table_stream, fc_plcf_bte_papx, lcb_plcf_bte_papx);
    let mut out: Vec<FkpParagraph> = Vec::new();
    let mut i: usize = 0;
    while i < ws.len()
        invariant
            len_ok(word_doc@.len() as int),
            i <= ws@.len(),
            forall|k: int| 0 <= k < ws@.len() ==> (#[trigger] ws@[k] as int + 1) * 512 <= word_doc@.len(),
            out@.map_values(|p: FkpParagraph| p@) == papx_pages(word_doc@, ws@.take(i as int)),
            fkp_len_ok(out@),
        decreases ws@.len() - i,
    {
        let pn = ws[i] as usize;
        proof {
            assert(ws@.take(i + 1 as int).drop_last() =~= ws@.take(i as int));
            assert((ws@[i as int] as int + 1) * 512 <= word_doc@.len());
        }
        let page = vstd::slice::slice_subrange(word_doc, pn * 512, pn * 512 + 512);
        parse_fkp_page(page, &mut out);
        i = i + 1;
    }
    assert(ws@.take(ws@.len() as int) =~= ws@);
    out
}

/// Real byte offset and stride (bytes per character) of a piece's start.
pub fn piece_byte_base(p: &Piece) -> (r: (u32, u32))
    ensures
        r.0 as int == piece_base(*p),
        r.1 as int == piece_stride(*p),
{
    if p.is_compressed {
        (clear_bit30_u32(p.fc) / 2, 1)
    } else {
        (p.fc, 2)
    }
}

pub open spec fn min_int(a: int, b: int) -> int {
    if a <= b {
        a
    } else {
        b
    }
}

pub open spec fn max_int(a: int, b: int) -> int {
    if a >= b {
        a
    } else {
        b
    }
}

/// The CP range of piece `p` that the byte run `[run_start, run_end)`
/// covers, when it covers any.
pub open spec fn piece_cp_range(run_start: int, run_end: int, p: Piece) -> Option<(u32, u32)> {
    if p.cp_end <= p.cp_start {
        None
    } else {
        let base = piece_base(p);
        let stride = piece_stride(p);
        let piece_end = base + (p.cp_end - p.cp_start) * stride;
        let lo = max_int(run_start, base);
        let hi = min_int(run_end, piece_end);
        if hi <= lo {
            None
        } else {
            let cp_lo = p.cp_start + (lo - base) / stride;
            let cp_hi = p.cp_start + (hi - base + stride - 1) / stride;
            if cp_hi > cp_lo {
                Some((min_int(cp_lo, 0xFFFF_FFFF) as u32, min_int(cp_hi, 0xFFFF_FFFF) as u32))
            } else {
                None
            }
        }
    }
}

/// The covered CP ranges of every piece, in piece order.
pub open spec fn pieces_cp_ranges(run_start: int, run_end: int, pieces: Seq<Piece>) -> Seq<
    (u32, u32),
>
    decreases pieces.len(),
{
    if pieces.len() == 0 {
        Seq::empty()
    } else {
        let prev = pieces_cp_ranges(run_start, run_end, pieces.drop_last());
        match piece_cp_range(run_start, run_end, pieces.last()) {
            Some(r) => prev.push(r),
            None => prev,
        }
    }
}

/// The CP ranges an FC run covers, before ordering.
pub open spec fn spec_fc_run_cp_ranges(fc_start: u32, fc_end: u32, pieces: Seq<Piece>) -> Seq<
    (u32, u32),
> {
    let rs = fc_norm(fc_start as int);
    let re = fc_norm(fc_end as int);
    if re <= rs {
        Seq::empty()
    } else {
        pieces_cp_ranges(rs, re, pieces)
    }
}

/// Lexicographic order on pairs.
pub open spec fn pair_le(a: (u32, u32), b: (u32, u32)) -> bool {
    a.0 < b.0 || (a.0 == b.0 && a.1 <= b.1)
}

/// A sequence of pairs in lexicographic order.
pub open spec fn sorted_pairs(s: Seq<(u32, u32)>) -> bool {
    forall|i: int, j: int| 0 <= i < j < s.len() ==> pair_le(s[i], s[j])
}

fn pair_le_exec(a: (u32, u32), b: (u32, u32)) -> (r: bool)
    ensures
        r == pair_le(a, b),
{
    a.0 < b.0 || (a.0 == b.0 && a.1 <= b.1)
}

/// Sort pairs lexicographically.
pub fn sort_pairs(v: Vec<(u32, u32)>) -> (r: Vec<(u32, u32)>)
    ensures
        sorted_pairs(r@),
        r@.to_multiset() == v@.to_multiset(),
{
    let mut out: Vec<(u32, u32)> = Vec::new();
    let mut i: usize = 0;
    proof {
        assert(v@.take(0) =~= out@);
    }
    while i < v.len()
        invariant
            i <= v@.len(),
            sorted_pairs(out@),
            out@.to_multiset() == v@.take(i as int).to_multiset(),
        decreases v@.len() - i,
    {
        let x = v[i];
        let mut k: usize = 0;
        while k < out.len() && pair_le_exec(out[k], x)
            invariant
                k <= out@.len(),
                forall|j: int| 0 <= j < k ==> pair_le(out@[j], x),
            decreases out@.len() - k,
        {
            k = k + 1;
        }
        let ghost old_out = out@;
        out.insert(k, x);
        proof {
            assert(v@.take(i + 1 as int) == v@.take(i as int).push(x));
            vstd::seq_lib::to_multiset_build(v@.take(i as int), x);
            assert forall|a: int, b: int| 0 <= a < b < out@.len() implies pair_le(out@[a], out@[b]) by {
                if b < k {
                } else if b == k {
                } else if a < k {
                    assert(pair_le(old_out[a], x));
                    if k < old_out.len() {
                        assert(!pair_le(old_out[k as int], x));
                        assert(pair_le(old_out[k as int], old_out[b - 1]) || k == b - 1);
                    }
                } else if a == k {
                    if k < old_out.len() {
                        assert(!pair_le(old_out[k as int], x));
                        assert(pair_le(old_out[k as int], old_out[b - 1]) || k == b - 1);
                    }
                } else {
                    assert(pair_le(old_out[a - 1], old_out[b - 1]));
                }
            }
        }
        i = i + 1;
    }
    assert(v@.take(v@.len() as int) == v@);
    out
}

/// The CP ranges an FC run `[fc_start, fc_end)` covers, in CP order: every
/// piece intersected with the run, each intersection mapped to the CPs it
/// holds.
pub fn fc_run_to_cp_ranges(fc_start: u32, fc_end: u32, pieces: &[Piece]) -> (r: Vec<(u32, u32)>)
    ensures
        sorted_pairs(r@),
        r@.to_multiset() == spec_fc_run_cp_ranges(fc_start, fc_end, pieces@).to_multiset(),
{
    sort_pairs(fc_run_cp_ranges_by_piece(fc_start, fc_end, pieces))
}

/// The CP ranges an FC run covers, one per piece it meets, in piece order.
pub fn fc_run_cp_ranges_by_piece(fc_start: u32, fc_end: u32, pieces: &[Piece]) -> (r: Vec<(u32, u32)>)
    ensures
        r@ == spec_fc_run_cp_ranges(fc_start, fc_end, pieces@),
{
    let run_start = if (fc_start / 0x4000_0000) % 2 == 1 {
        clear_bit30_u32(fc_start) / 2
    } else {
        fc_start
    } as u64;
    let run_end = if (fc_end / 0x4000_0000) % 2 == 1 {
        clear_bit30_u32(fc_end) / 2
    } else {
        fc_end
    } as u64;
    let mut out: Vec<(u32, u32)> = Vec::new();
    if run_end <= run_start {
        return out;
    }
    let mut i: usize = 0;
    while i < pieces.len()
        invariant
            i <= pieces@.len(),
            run_start == fc_norm(fc_start as int),
            run_end == fc_norm(fc_end as int),
            run_start < run_end,
            out@ == pieces_cp_ranges(run_start as int, run_end as int, pieces@.take(i as int)),
        decreases pieces@.len() - i,
    {
        let p = pieces[i];
        proof {
            assert(pieces@.take(i + 1 as int).drop_last() == pieces@.take(i as int));
        }
        if p.cp_end > p.cp_start {
            let (b, s) = piece_byte_base(&p);
            let base = b as u64;
            let stride = s as u64;
            let span = (p.cp_end - p.cp_start) as u64;
            assert(span * stride <= 0x2_0000_0000) by (nonlinear_arith)
                requires span <= 0xFFFF_FFFF, stride <= 2;
            let piece_end = base + span * stride;
            let lo = if run_start >= base { run_start } else { base };
            let hi = if run_end <= piece_end { run_end } else { piece_end };
            if hi > lo {
                let cp_lo = p.cp_start as u64 + (lo - base) / stride;
                let cp_hi = p.cp_start as u64 + (hi - base + stride - 1) / stride;
                if cp_hi > cp_lo {
                    let a = if cp_lo <= 0xFFFF_FFFF { cp_lo as u32 } else { 0xFFFF_FFFF };
                    let c = if cp_hi <= 0xFFFF_FFFF { cp_hi as u32 } else { 0xFFFF_FFFF };
                    out.push((a, c));
                }
            }
        }
        i = i + 1;
    }
    assert(pieces@.take(pieces@.len() as int) == pieces@);
    out
}

/// A fully-resolved main-text paragraph: its sanitised text, the
/// terminating character, and the distilled PAP properties.
#[derive(Debug, Clone)]
pub struct DocParagraph {
    /// Paragraph text without the terminating mark.
    pub text: String,
    /// The terminating character (`\r` paragraph mark, `\x07` cell/row
    /// mark, ...), which drives cell/row grouping.
    pub terminator: char,
    /// Distilled PAP flags.
    pub props: PapProps,
    /// `HYPERLINK` field display-text spans (byte ranges into `text`) with
    /// their targets.
    pub hyperlinks: Vec<HyperlinkSpan>,
    /// Character-property runs (byte ranges into `text`); they tile the
    /// whole of `text`.
    pub chp_runs: Vec<(usize, usize, ChpProps)>,
}

/// What a paragraph holds: text, terminator, PAP model, hyperlink spans
/// and character-property runs.
pub type ParaView = (Seq<char>, char, PapModel, Seq<(int, int, Seq<char>)>, Seq<(int, int, ChpProps)>);

pub open spec fn para_view(p: DocParagraph) -> ParaView {
    (
        p.text@,
        p.terminator,
        p.props@,
        p.hyperlinks@.map_values(|h: HyperlinkSpan| (h.start as int, h.end as int, h.url@)),
        p.chp_runs@.map_values(|x: (usize, usize, ChpProps)| (x.0 as int, x.1 as int, x.2)),
    )
}

/// The paragraph a buffer of characters (ending with its mark) makes,
/// with the properties of the PAPX `g`: its content sanitised, keeping
/// hyperlinks and character runs.
pub open spec fn make_para(buf: Seq<(char, ChpProps)>, g: Seq<u8>) -> ParaView {
    let content = buf.drop_last().map_values(|x: (char, ChpProps)| x.0);
    let cprops = buf.drop_last().map_values(|x: (char, ChpProps)| x.1);
    let st = rich_from(content, cprops, rich_init());
    (st.text, buf.last().0, spec_pap_props(g), st.links, st.runs)
}

/// Whether a buffer is short enough for its byte offsets to fit a
/// `usize` (always so for a buffer that fits in memory).
pub open spec fn buf_fits(buf: Seq<(char, ChpProps)>) -> bool {
    buf.len() - 1 <= usize::MAX / 4
}

/// Emit the paragraph of `buf`.
pub open spec fn emit_spec(out: Seq<ParaView>, buf: Seq<(char, ChpProps)>, g: Seq<u8>) -> Seq<ParaView> {
    if buf_fits(buf) { out.push(make_para(buf, g)) } else { out }
}

/// Paragraph and cell marks end a paragraph.
pub open spec fn is_para_mark(c: char) -> bool {
    c == '\r' || c == '\u{7}'
}

/// One decoded character with its properties: text a tracked change
/// deleted is dropped (its mark kept); a mark ends the paragraph.
pub open spec fn char_step(st: (Seq<(char, ChpProps)>, Seq<ParaView>), c: char, p: ChpProps, g: Seq<u8>) -> (Seq<(char, ChpProps)>, Seq<ParaView>) {
    if p.f_rmark_del && !is_para_mark(c) {
        st
    } else {
        let b = st.0.push((c, p));
        if is_para_mark(c) { (Seq::empty(), emit_spec(st.1, b, g)) } else { (b, st.1) }
    }
}

pub open spec fn chunk_fold(st: (Seq<(char, ChpProps)>, Seq<ParaView>), chunk: Seq<char>, p: ChpProps, g: Seq<u8>) -> (Seq<(char, ChpProps)>, Seq<ParaView>)
    decreases chunk.len(),
{
    if chunk.len() == 0 {
        st
    } else {
        chunk_fold(char_step(st, chunk[0], p, g), chunk.drop_first(), p, g)
    }
}

/// The characters of each character-property segment, decoded.
pub open spec fn segs_fold(
    st: (Seq<(char, ChpProps)>, Seq<ParaView>),
    segs: Seq<(u32, u32, ChpProps)>,
    g: Seq<u8>,
    word: Seq<u8>,
    pieces: Seq<Piece>,
    lid: u16,
) -> (Seq<(char, ChpProps)>, Seq<ParaView>)
    decreases segs.len(),
{
    if segs.len() == 0 {
        st
    } else {
        let (a, b, p) = segs[0];
        segs_fold(chunk_fold(st, spec_extract(word, pieces, a as int, b as int, lid), p, g), segs.drop_first(), g, word, pieces, lid)
    }
}

/// The CP intervals the paragraphs are decoded from, from `cursor` on:
/// before each PAPX range whatever no range covered (default properties),
/// then the range itself, each clipped to what is past the cursor.
pub open spec fn intervals_from(pap: Seq<(u32, u32, usize)>, cursor: u32) -> Seq<(u32, u32, Option<usize>)>
    decreases pap.len(),
{
    if pap.len() == 0 {
        Seq::empty()
    } else {
        let (a, b, k) = pap[0];
        let m1 = if a >= cursor { a } else { cursor };
        let m2 = if b >= cursor { b } else { cursor };
        let first = if m1 > cursor { seq![(cursor, m1, None::<usize>)] } else { Seq::empty() };
        let second = if m2 > m1 { seq![(m1, m2, Some(k))] } else { Seq::empty() };
        let next = if m2 > m1 { m2 } else { m1 };
        first + second + intervals_from(pap.drop_first(), next)
    }
}

/// The PAPX grpprl an interval's paragraphs take.
pub open spec fn run_grpprl(fkp: Seq<FkpParagraph>, run: Option<usize>) -> Seq<u8> {
    match run {
        Some(k) => fkp[k as int].grpprl@,
        None => Seq::empty(),
    }
}

pub open spec fn intervals_fold(
    st: (Seq<(char, ChpProps)>, Seq<ParaView>),
    ivs: Seq<(u32, u32, Option<usize>)>,
    chp: Seq<(u32, u32, ChpProps)>,
    fkp: Seq<FkpParagraph>,
    word: Seq<u8>,
    pieces: Seq<Piece>,
    lid: u16,
) -> (Seq<(char, ChpProps)>, Seq<ParaView>)
    decreases ivs.len(),
{
    if ivs.len() == 0 {
        st
    } else {
        let (a, b, run) = ivs[0];
        let st2 = segs_fold(st, spec_chp_segments(chp, a, b), run_grpprl(fkp, run), word, pieces, lid);
        intervals_fold(st2, ivs.drop_first(), chp, fkp, word, pieces, lid)
    }
}

/// The paragraphs decoded along the sorted PAPX ranges `pap` with the
/// sorted character runs `chp`: text left after the last mark becomes a
/// final paragraph, closed with a paragraph mark and the last range's
/// properties.
pub open spec fn spec_paragraphs(
    word: Seq<u8>,
    pieces: Seq<Piece>,
    fkp: Seq<FkpParagraph>,
    pap: Seq<(u32, u32, usize)>,
    chp: Seq<(u32, u32, ChpProps)>,
    lid: u16,
) -> Seq<ParaView> {
    let st = intervals_fold((Seq::empty(), Seq::empty()), intervals_from(pap, 0), chp, fkp, word, pieces, lid);
    if st.0.len() > 0 {
        let g = if pap.len() > 0 { fkp[pap.last().2 as int].grpprl@ } else { Seq::empty() };
        emit_spec(st.1, st.0.push(('\r', st.0.last().1)), g)
    } else {
        st.1
    }
}

/// The buffer's characters paired with their properties.
pub open spec fn buf_view(buf: Seq<char>, props: Seq<ChpProps>) -> Seq<(char, ChpProps)> {
    Seq::new(buf.len(), |i: int| (buf[i], props[i]))
}

pub open spec fn out_view(out: Seq<DocParagraph>) -> Seq<ParaView> {
    out.map_values(|p: DocParagraph| para_view(p))
}

/// Grpprls short enough to index with a `usize`.
pub open spec fn fkp_len_ok(fkp: Seq<FkpParagraph>) -> bool {
    forall|i: int| 0 <= i < fkp.len() ==> len_ok(#[trigger] fkp[i].grpprl@.len() as int)
}

fn push_para(out: &mut Vec<DocParagraph>, p: DocParagraph)
    ensures
        out_view(final(out)@) == out_view(old(out)@).push(para_view(p)),
{
    let ghost gp = p;
    out.push(p);
    assert(out@ =~= old(out)@.push(gp));
    assert(out_view(out@) =~= out_view(old(out)@).push(para_view(gp)));
}

/// Turn the buffered characters (ending with their mark) into a
/// paragraph with the PAPX `grpprl`'s properties, and clear the buffers.
fn emit_paragraph(buf: &mut Vec<char>, buf_props: &mut Vec<ChpProps>, grpprl: &[u8], out: &mut Vec<DocParagraph>)
    requires
        old(buf)@.len() > 0,
        old(buf)@.len() == old(buf_props)@.len(),
        len_ok(grpprl@.len() as int),
    ensures
        final(buf)@.len() == 0,
        final(buf_props)@.len() == 0,
        out_view(final(out)@) == emit_spec(out_view(old(out)@), buf_view(old(buf)@, old(buf_props)@), grpprl@),
{
    let ghost bv = buf_view(buf@, buf_props@);
    let n = buf.len();
    if n - 1 > usize::MAX / 4 {
        buf.clear();
        buf_props.clear();
        return;
    }
    let terminator = buf[n - 1];
    let mut content: Vec<char> = Vec::new();
    let mut cprops: Vec<ChpProps> = Vec::new();
    let mut i: usize = 0;
    while i < n - 1
        invariant
            n == buf@.len(),
            n == buf_props@.len(),
            i <= n - 1,
            content@ == bv.take(i as int).map_values(|x: (char, ChpProps)| x.0),
            cprops@ == bv.take(i as int).map_values(|x: (char, ChpProps)| x.1),
            bv == buf_view(buf@, buf_props@),
        decreases n - 1 - i,
    {
        content.push(buf[i]);
        cprops.push(buf_props[i]);
        i = i + 1;
        assert(content@ =~= bv.take(i as int).map_values(|x: (char, ChpProps)| x.0));
        assert(cprops@ =~= bv.take(i as int).map_values(|x: (char, ChpProps)| x.1));
    }
    assert(bv.take(n - 1) =~= bv.drop_last());
    let (text, hyperlinks, chp_runs) = sanitize_chars_with_hyperlinks_and_chp(content.as_slice(), cprops.as_slice());
    let props = extract_pap_props(grpprl);
    let ghost ov = out_view(out@);
    proof {
        assert(content@ =~= bv.drop_last().map_values(|x: (char, ChpProps)| x.0));
        assert(cprops@ =~= bv.drop_last().map_values(|x: (char, ChpProps)| x.1));
        assert(bv.last().0 == terminator);
    }
    let para = DocParagraph { text, terminator, props, hyperlinks, chp_runs };
    assert(para_view(para) == make_para(bv, grpprl@));
    push_para(out, para);
    assert(out_view(out@) =~= ov.push(make_para(bv, grpprl@)));
    buf.clear();
    buf_props.clear();
}

fn process_chunk(
    buf: &mut Vec<char>,
    buf_props: &mut Vec<ChpProps>,
    out: &mut Vec<DocParagraph>,
    chunk: &[char],
    p: ChpProps,
    g: &[u8],
)
    requires
        old(buf)@.len() == old(buf_props)@.len(),
        len_ok(g@.len() as int),
    ensures
        final(buf)@.len() == final(buf_props)@.len(),
        (buf_view(final(buf)@, final(buf_props)@), out_view(final(out)@)) == chunk_fold(
            (buf_view(old(buf)@, old(buf_props)@), out_view(old(out)@)),
            chunk@,
            p,
            g@,
        ),
{
    let ghost target = chunk_fold((buf_view(buf@, buf_props@), out_view(out@)), chunk@, p, g@);
    let mut i: usize = 0;
    assert(chunk@.skip(0) =~= chunk@);
    while i < chunk.len()
        invariant
            i <= chunk@.len(),
            buf@.len() == buf_props@.len(),
            len_ok(g@.len() as int),
            chunk_fold((buf_view(buf@, buf_props@), out_view(out@)), chunk@.skip(i as int), p, g@) == target,
        decreases chunk@.len() - i,
    {
        let c = chunk[i];
        let ghost st = (buf_view(buf@, buf_props@), out_view(out@));
        proof {
            assert(chunk@.skip(i as int)[0] == c);
            assert(chunk@.skip(i as int).drop_first() =~= chunk@.skip(i + 1));
        }
        let is_mark = c == '\r' || c == '\u{7}';
        if p.f_rmark_del && !is_mark {
        } else {
            buf.push(c);
            buf_props.push(p);
            proof {
                assert(buf_view(buf@, buf_props@) =~= st.0.push((c, p)));
            }
            if is_mark {
                emit_paragraph(buf, buf_props, g, out);
                proof {
                    assert(buf_view(buf@, buf_props@) =~= Seq::<(char, ChpProps)>::empty());
                }
            }
        }
        proof {
            assert((buf_view(buf@, buf_props@), out_view(out@)) == char_step(st, c, p, g@));
        }
        i = i + 1;
    }
    assert(chunk@.skip(i as int) =~= Seq::<char>::empty());
}

fn process_segments(
    buf: &mut Vec<char>,
    buf_props: &mut Vec<ChpProps>,
    out: &mut Vec<DocParagraph>,
    segs: &[(u32, u32, ChpProps)],
    g: &[u8],
    word_doc: &[u8],
    pieces: &[Piece],
    lid: u16,
)
    requires
        old(buf)@.len() == old(buf_props)@.len(),
        len_ok(g@.len() as int),
        len_ok(word_doc@.len() as int),
    ensures
        final(buf)@.len() == final(buf_props)@.len(),
        (buf_view(final(buf)@, final(buf_props)@), out_view(final(out)@)) == segs_fold(
            (buf_view(old(buf)@, old(buf_props)@), out_view(old(out)@)),
            segs@,
            g@,
            word_doc@,
            pieces@,
            lid,
        ),
{
    let ghost target = segs_fold((buf_view(buf@, buf_props@), out_view(out@)), segs@, g@, word_doc@, pieces@, lid);
    let mut i: usize = 0;
    assert(segs@.skip(0) =~= segs@);
    while i < segs.len()
        invariant
            i <= segs@.len(),
            buf@.len() == buf_props@.len(),
            len_ok(g@.len() as int),
            len_ok(word_doc@.len() as int),
            segs_fold((buf_view(buf@, buf_props@), out_view(out@)), segs@.skip(i as int), g@, word_doc@, pieces@, lid) == target,
        decreases segs@.len() - i,
    {
        let (a, b, p) = segs[i];
        proof {
            assert(segs@.skip(i as int)[0] == segs@[i as int]);
            assert(segs@.skip(i as int).drop_first() =~= segs@.skip(i + 1));
        }
        let chunk = extract_text_range(word_doc, pieces, a, b, lid);
        let cs = chars_of(chunk.as_str());
        process_chunk(buf, buf_props, out, cs.as_slice(), p, g);
        i = i + 1;
    }
    assert(segs@.skip(i as int) =~= Seq::<(u32, u32, ChpProps)>::empty());
}

/// Decode the interval `[a, b)` into the paragraph buffers.
fn process_interval(
    buf: &mut Vec<char>,
    buf_props: &mut Vec<ChpProps>,
    out: &mut Vec<DocParagraph>,
    a: u32,
    b: u32,
    run: Option<usize>,
    fkp: &[FkpParagraph],
    chp: &[(u32, u32, ChpProps)],
    word_doc: &[u8],
    pieces: &[Piece],
    lid: u16,
)
    requires
        old(buf)@.len() == old(buf_props)@.len(),
        sorted_by_start(chp@),
        fkp_len_ok(fkp@),
        run matches Some(k) ==> k < fkp@.len(),
        len_ok(word_doc@.len() as int),
    ensures
        final(buf)@.len() == final(buf_props)@.len(),
        (buf_view(final(buf)@, final(buf_props)@), out_view(final(out)@)) == intervals_fold(
            (buf_view(old(buf)@, old(buf_props)@), out_view(old(out)@)),
            seq![(a, b, run)],
            chp@,
            fkp@,
            word_doc@,
            pieces@,
            lid,
        ),
{
    let segs = resolve_chp_segments(chp, a, b);
    let empty: Vec<u8> = Vec::new();
    let g: &[u8] = match run {
        Some(k) => fkp[k].grpprl.as_slice(),
        None => empty.as_slice(),
    };
    proof {
        assert(g@ == run_grpprl(fkp@, run));
        assert(seq![(a, b, run)].drop_first() =~= Seq::<(u32, u32, Option<usize>)>::empty());
        assert(seq![(a, b, run)][0] == (a, b, run));
    }
    let ghost st = (buf_view(buf@, buf_props@), out_view(out@));
    process_segments(buf, buf_props, out, segs.as_slice(), g, word_doc, pieces, lid);
    proof {
        let st2 = segs_fold(st, spec_chp_segments(chp@, a, b), run_grpprl(fkp@, run), word_doc@, pieces@, lid);
        assert(intervals_fold(st2, Seq::empty(), chp@, fkp@, word_doc@, pieces@, lid) == st2);
        assert(intervals_fold(st, seq![(a, b, run)], chp@, fkp@, word_doc@, pieces@, lid) == intervals_fold(st2, seq![(a, b, run)].drop_first(), chp@, fkp@, word_doc@, pieces@, lid));
    }
}

proof fn lemma_intervals_fold_append(
    st: (Seq<(char, ChpProps)>, Seq<ParaView>),
    xs: Seq<(u32, u32, Option<usize>)>,
    ys: Seq<(u32, u32, Option<usize>)>,
    chp: Seq<(u32, u32, ChpProps)>,
    fkp: Seq<FkpParagraph>,
    word: Seq<u8>,
    pieces: Seq<Piece>,
    lid: u16,
)
    ensures
        intervals_fold(st, xs + ys, chp, fkp, word, pieces, lid) == intervals_fold(
            intervals_fold(st, xs, chp, fkp, word, pieces, lid),
            ys,
            chp,
            fkp,
            word,
            pieces,
            lid,
        ),
    decreases xs.len(),
{
    if xs.len() > 0 {
        let (a, b, run) = xs[0];
        let st2 = segs_fold(st, spec_chp_segments(chp, a, b), run_grpprl(fkp, run), word, pieces, lid);
        assert((xs + ys)[0] == xs[0]);
        assert((xs + ys).drop_first() =~= xs.drop_first() + ys);
        lemma_intervals_fold_append(st2, xs.drop_first(), ys, chp, fkp, word, pieces, lid);
    } else {
        assert(xs + ys =~= ys);
    }
}

/// The paragraphs decoded along PAPX ranges `pap` (sorted, each naming an
/// entry of `fkp`) with character runs `chp` (sorted by first CP).
pub fn build_paragraphs_sorted(
    word_doc: &[u8],
    pieces: &[Piece],
    fkp: &[FkpParagraph],
    pap: &[(u32, u32, usize)],
    chp: &[(u32, u32, ChpProps)],
    lid: u16,
) -> (r: Vec<DocParagraph>)
    requires
        len_ok(word_doc@.len() as int),
        sorted_by_start(chp@),
        fkp_len_ok(fkp@),
        forall|k: int| 0 <= k < pap@.len() ==> (#[trigger] pap@[k]).2 < fkp@.len(),
    ensures
        out_view(r@) == spec_paragraphs(word_doc@, pieces@, fkp@, pap@, chp@, lid),
{
    let mut buf: Vec<char> = Vec::new();
    let mut buf_props: Vec<ChpProps> = Vec::new();
    let mut out: Vec<DocParagraph> = Vec::new();
    let mut cursor: u32 = 0;
    let ghost total = intervals_fold((Seq::empty(), Seq::empty()), intervals_from(pap@, 0), chp@, fkp@, word_doc@, pieces@, lid);
    let mut i: usize = 0;
    proof {
        assert(pap@.skip(0) =~= pap@);
        assert(buf_view(buf@, buf_props@) =~= Seq::<(char, ChpProps)>::empty());
        assert(out_view(out@) =~= Seq::<ParaView>::empty());
    }
    while i < pap.len()
        invariant
            i <= pap@.len(),
            buf@.len() == buf_props@.len(),
            len_ok(word_doc@.len() as int),
            sorted_by_start(chp@),
            fkp_len_ok(fkp@),
            forall|k: int| 0 <= k < pap@.len() ==> (#[trigger] pap@[k]).2 < fkp@.len(),
            intervals_fold((buf_view(buf@, buf_props@), out_view(out@)), intervals_from(pap@.skip(i as int), cursor), chp@, fkp@, word_doc@, pieces@, lid) == total,
        decreases pap@.len() - i,
    {
        let (a, b, k) = pap[i];
        let ghost rest = pap@.skip(i as int);
        proof {
            assert(rest[0] == pap@[i as int]);
            assert(rest.drop_first() =~= pap@.skip(i + 1));
            assert(k < fkp@.len());
        }
        let m1 = if a >= cursor { a } else { cursor };
        let m2 = if b >= cursor { b } else { cursor };
        let ghost first = if m1 > cursor { seq![(cursor, m1, None::<usize>)] } else { Seq::empty() };
        let ghost second = if m2 > m1 { seq![(m1, m2, Some(k))] } else { Seq::empty() };
        let next = if m2 > m1 { m2 } else { m1 };
        let ghost tail = intervals_from(pap@.skip(i + 1), next);
        let ghost st0 = (buf_view(buf@, buf_props@), out_view(out@));
        proof {
            assert(intervals_from(rest, cursor) == first + second + tail);
            lemma_intervals_fold_append(st0, first + second, tail, chp@, fkp@, word_doc@, pieces@, lid);
            lemma_intervals_fold_append(st0, first, second, chp@, fkp@, word_doc@, pieces@, lid);
        }
        if m1 > cursor {
            process_interval(&mut buf, &mut buf_props, &mut out, cursor, m1, None, fkp, chp, word_doc, pieces, lid);
        } else {
            assert(intervals_fold(st0, first, chp@, fkp@, word_doc@, pieces@, lid) == st0);
        }
        let ghost st1 = (buf_view(buf@, buf_props@), out_view(out@));
        if m2 > m1 {
            process_interval(&mut buf, &mut buf_props, &mut out, m1, m2, Some(k), fkp, chp, word_doc, pieces, lid);
        } else {
            assert(intervals_fold(st1, second, chp@, fkp@, word_doc@, pieces@, lid) == st1);
        }
        cursor = next;
        i = i + 1;
    }
    proof {
        assert(pap@.skip(i as int) =~= Seq::<(u32, u32, usize)>::empty());
    }
    if buf.len() > 0 {
        let last_props = buf_props[buf_props.len() - 1];
        let ghost bv = buf_view(buf@, buf_props@);
        buf.push('\r');
        buf_props.push(last_props);
        proof {
            assert(buf_view(buf@, buf_props@) =~= bv.push(('\r', bv.last().1)));
        }
        let empty: Vec<u8> = Vec::new();
        let g: &[u8] = if pap.len() > 0 { fkp[pap[pap.len() - 1].2].grpprl.as_slice() } else { empty.as_slice() };
        emit_paragraph(&mut buf, &mut buf_props, g, &mut out);
    }
    out
}

/// Lexicographic order on `(start, end, index)` triples.
pub open spec fn triple_le(x: (u32, u32, usize), y: (u32, u32, usize)) -> bool {
    x.0 < y.0 || (x.0 == y.0 && (x.1 < y.1 || (x.1 == y.1 && x.2 <= y.2)))
}

pub open spec fn sorted_triples(s: Seq<(u32, u32, usize)>) -> bool {
    forall|i: int, j: int| 0 <= i < j < s.len() ==> triple_le(s[i], s[j])
}

fn triple_le_exec(x: (u32, u32, usize), y: (u32, u32, usize)) -> (r: bool)
    ensures
        r == triple_le(x, y),
{
    x.0 < y.0 || (x.0 == y.0 && (x.1 < y.1 || (x.1 == y.1 && x.2 <= y.2)))
}

/// Sort `(start, end, index)` triples lexicographically.
pub fn sort_triples(v: Vec<(u32, u32, usize)>) -> (r: Vec<(u32, u32, usize)>)
    ensures
        sorted_triples(r@),
        r@.to_multiset() == v@.to_multiset(),
{
    let mut out: Vec<(u32, u32, usize)> = Vec::new();
    let mut i: usize = 0;
    proof {
        assert(v@.take(0) =~= out@);
    }
    while i < v.len()
        invariant
            i <= v@.len(),
            sorted_triples(out@),
            out@.to_multiset() == v@.take(i as int).to_multiset(),
        decreases v@.len() - i,
    {
        let x = v[i];
        let mut k: usize = 0;
        while k < out.len() && triple_le_exec(out[k], x)
            invariant
                k <= out@.len(),
                forall|j: int| 0 <= j < k ==> triple_le(out@[j], x),
            decreases out@.len() - k,
        {
            k = k + 1;
        }
        let ghost old_out = out@;
        out.insert(k, x);
        proof {
            assert(v@.take(i + 1 as int) == v@.take(i as int).push(x));
            vstd::seq_lib::to_multiset_build(v@.take(i as int), x);
            assert forall|a: int, b: int| 0 <= a < b < out@.len() implies triple_le(out@[a], out@[b]) by {
                if b < k {
                } else if b == k {
                } else if a < k {
                    assert(triple_le(old_out[a], x));
                    if k < old_out.len() {
                        assert(!triple_le(old_out[k as int], x));
                        assert(triple_le(old_out[k as int], old_out[b - 1]) || k == b - 1);
                    }
                } else if a == k {
                    if k < old_out.len() {
                        assert(!triple_le(old_out[k as int], x));
                        assert(triple_le(old_out[k as int], old_out[b - 1]) || k == b - 1);
                    }
                } else {
                    assert(triple_le(old_out[a - 1], old_out[b - 1]));
                }
            }
        }
        i = i + 1;
    }
    assert(v@.take(v@.len() as int) == v@);
    out
}

/// The ranges `rs`, clamped to `[0, t)` and tagged with `k`, dropping
/// those left empty.
pub open spec fn clamp_tag(rs: Seq<(u32, u32)>, t: u32, k: usize) -> Seq<(u32, u32, usize)>
    decreases rs.len(),
{
    if rs.len() == 0 {
        Seq::empty()
    } else {
        let p = rs.last();
        let a = if p.0 <= t { p.0 } else { t };
        let b = if p.1 <= t { p.1 } else { t };
        let prev = clamp_tag(rs.drop_last(), t, k);
        if b > a { prev.push((a, b, k)) } else { prev }
    }
}

/// Every PAPX run's CP ranges within the main text, tagged with the run's
/// index, run after run.
pub open spec fn flat_pap(fkp: Seq<FkpParagraph>, pieces: Seq<Piece>, t: u32, n: int) -> Seq<(u32, u32, usize)>
    decreases n,
{
    if n <= 0 {
        Seq::empty()
    } else {
        flat_pap(fkp, pieces, t, n - 1) + clamp_tag(
            spec_fc_run_cp_ranges(fkp[n - 1].fc_start, fkp[n - 1].fc_end, pieces),
            t,
            (n - 1) as usize,
        )
    }
}

/// Build the main-text paragraph list: every PAPX run mapped to the CP
/// ranges it covers within `[0, text_len)`, those ranges sorted, the text
/// decoded along them per character-property segment, split at each
/// paragraph or cell mark, and each paragraph given the properties of the
/// PAPX run holding its mark. Text a tracked change deleted is dropped
/// (its mark kept); text no PAPX run covers is decoded with default
/// properties.
pub fn build_paragraphs(
    word_doc: &[u8],
    pieces: &[Piece],
    fkp: &[FkpParagraph],
    text_len: u32,
    lid: u16,
    chp_runs: &[FkpRun],
) -> (r: Vec<DocParagraph>)
    requires
        len_ok(word_doc@.len() as int),
        fkp_len_ok(fkp@),
        runs_len_ok(chp_runs@),
    ensures
        exists|pap: Seq<(u32, u32, usize)>, chp: Seq<(u32, u32, ChpProps)>|
            sorted_triples(pap) && pap.to_multiset() == flat_pap(fkp@, pieces@, text_len, fkp@.len() as int).to_multiset()
            && sorted_by_start(chp) && chp.to_multiset() == chp_cp_triples(chp_runs@, pieces@).to_multiset()
            && out_view(r@) == spec_paragraphs(word_doc@, pieces@, fkp@, pap, chp, lid),
{
    broadcast use vstd::seq_lib::group_to_multiset_ensures;

    let mut flat: Vec<(u32, u32, usize)> = Vec::new();
    let mut i: usize = 0;
    while i < fkp.len()
        invariant
            i <= fkp@.len(),
            flat@ == flat_pap(fkp@, pieces@, text_len, i as int),
            forall|k: int| 0 <= k < flat@.len() ==> (#[trigger] flat@[k]).2 < i,
        decreases fkp@.len() - i,
    {
        let fp = &fkp[i];
        let rs = fc_run_cp_ranges_by_piece(fp.fc_start, fp.fc_end, pieces);
        let ghost before = flat@;
        let mut j: usize = 0;
        while j < rs.len()
            invariant
                j <= rs@.len(),
                i < fkp@.len(),
                flat@ == before + clamp_tag(rs@.take(j as int), text_len, i),
                forall|k: int| 0 <= k < flat@.len() ==> (#[trigger] flat@[k]).2 < i + 1,
            decreases rs@.len() - j,
        {
            let (a0, b0) = rs[j];
            let a = if a0 <= text_len { a0 } else { text_len };
            let b = if b0 <= text_len { b0 } else { text_len };
            proof {
                assert(rs@.take(j + 1 as int).drop_last() =~= rs@.take(j as int));
            }
            if b > a {
                flat.push((a, b, i));
            }
            j = j + 1;
        }
        proof {
            assert(rs@.take(rs@.len() as int) =~= rs@);
        }
        i = i + 1;
    }
    let pap = sort_triples(flat);
    proof {
        assert forall|k: int| 0 <= k < pap@.len() implies (#[trigger] pap@[k]).2 < fkp@.len() by {
            assert(pap@.contains(pap@[k]));
            assert(pap@.to_multiset().count(pap@[k]) > 0);
            assert(flat@.contains(pap@[k]));
        }
    }
    let chp = resolve_chp_cp_runs(chp_runs, pieces);
    let r = build_paragraphs_sorted(word_doc, pieces, fkp, pap.as_slice(), chp.as_slice(), lid);
    assert(sorted_triples(pap@) && pap@.to_multiset() == flat_pap(fkp@, pieces@, text_len, fkp@.len() as int).to_multiset()
        && sorted_by_start(chp@) && chp@.to_multiset() == chp_cp_triples(chp_runs@, pieces@).to_multiset()
        && out_view(r@) == spec_paragraphs(word_doc@, pieces@, fkp@, pap@, chp@, lid));
    r
}

} // verus!
