//! High-level DOC document: the streams of a Word file read into text,
//! subdocuments, paragraphs, comments, headers and footers.

use vstd::prelude::*;
use crate::bytes::{le16, le32, len_ok, read_u16_le, read_u32_le};
use crate::pattern::{decimal, decimal_chars, decimal_usize_chars};
use crate::text::{chars_of, string_from_chars, trim_chars, trim_seq, utf16_decode, utf16_to_chars};
use super::piece_table::{
    sanitize_from, sanitize_text, Piece, spec_extract, extract_text_range, spec_clx, parse_clx,
    covers_declared_length, piece_reach, extract_text_range_excluding, spec_extract_excluding,
};
use super::fib::{Fib, spec_fib, is_word6_wident, fib_flags, fib_error_is};
use super::error::DocError;
use super::chpx::{FkpRun, parse_chpx_runs, spec_parse_chpx, resolve_deleted_cp_ranges_from_runs, canonical_ranges, covers, deleted_cp_ranges, chp_cp_triples, sorted_by_start};
use super::papx::{DocParagraph, ParaView, out_view, parse_papx_paragraphs, spec_parse_papx, build_paragraphs, flat_pap, sorted_triples, spec_paragraphs, FkpParagraph};
use super::list_format::{ListFormatting, ListModel, spec_list_formatting};
use super::ole_objects::{DirEntry, EmbeddedOleObject, extract_ole_objects, spec_extract_ole};
use super::images::{DocImage, extract_images, scan_images};
use super::sprm::ChpProps;
use super::word6::{
    Word6Fib, spec_is_word6_magic, is_word6_magic, spec_word6_fib, spec_word6_encrypted,
    spec_word2_fib, spec_word6_piece_table, spec_contiguous_piece, story_walk, max_cp_end,
    FIB_LEN,
};
use super::ole_objects::{find_direct_child, spec_find};

verus! {

/// The subdocument kinds `.doc` stores after the main text, in the fixed
/// order of the FIB's `ccp*` lengths.
#[derive(Debug, Clone, Copy, PartialEq, Eq, Structural)]
pub enum SubDocumentKind {
    /// Footnote bodies (`ccpFtn`).
    Footnotes,
    /// Header and footer bodies (`ccpHdd`).
    HeadersFooters,
    /// Comment bodies (`ccpAtn`).
    Comments,
    /// Endnote bodies (`ccpEdn`).
    Endnotes,
    /// Text-box bodies (`ccpTxbx`).
    TextBoxes,
    /// Header text-box bodies (`ccpHdrTxbx`).
    HeaderTextBoxes,
}

/// One of the subdocuments stored after the main text.
#[derive(Debug, Clone)]
pub struct SubDocument {
    /// Which subdocument this is.
    pub kind: SubDocumentKind,
    /// Sanitised text of the subdocument.
    pub text: String,
}

/// One comment, split out of the Comments subdocument by `PlcfandTxt` and
/// attributed by the matching `PlcfandRef` entry.
#[derive(Debug, Clone)]
pub struct ParsedComment {
    /// Sanitised body text of this one comment.
    pub text: String,
    /// The comment's author, from `GrpXstAtnOwners` by the `ATRDPre10.ibst`
    /// index; `None` when that index is out of range.
    pub author: Option<String>,
}

/// The first section's header/footer stories, split out of the header
/// document by `PlcfHdd`.
#[derive(Debug, Clone, Default)]
pub struct HeaderFooterStories {
    /// Even-page header (story 0 of a section's group).
    pub even_header: Option<String>,
    /// Odd-page header (story 1).
    pub odd_header: Option<String>,
    /// Even-page footer (story 2).
    pub even_footer: Option<String>,
    /// Odd-page footer (story 3).
    pub odd_footer: Option<String>,
    /// First-page header (story 4).
    pub first_header: Option<String>,
    /// First-page footer (story 5).
    pub first_footer: Option<String>,
}

impl HeaderFooterStories {
    /// No story holds text.
    pub fn is_empty(&self) -> (r: bool)
        ensures
            r == (self.even_header is None && self.odd_header is None && self.even_footer is None
                && self.odd_footer is None && self.first_header is None && self.first_footer is None),
    {
        self.even_header.is_none() && self.odd_header.is_none() && self.even_footer.is_none()
            && self.odd_footer.is_none() && self.first_header.is_none() && self.first_footer.is_none()
    }
}

/// The names packed in a `GrpXstAtnOwners` from `pos` to `end`: each a
/// `u16` count of UTF-16 units and the units; reading stops at the first
/// name that does not fit.
pub open spec fn xst_names(t: Seq<u8>, pos: int, end: int) -> Seq<Seq<char>>
    decreases end - pos,
{
    if pos < 0 || pos + 2 > end {
        Seq::empty()
    } else {
        let cch = le16(t, pos);
        let start = pos + 2;
        if start + 2 * cch > end {
            Seq::empty()
        } else {
            let units = Seq::new(cch as nat, |k: int| le16(t, start + 2 * k) as u16);
            seq![utf16_decode(units)] + xst_names(t, start + 2 * cch, end)
        }
    }
}

/// The end of a table `[fc, fc + lcb)` of a stream of `len` bytes, cut at
/// the stream's end.
pub open spec fn table_end(len: int, fc: u32, lcb: u32) -> int {
    let e = fc as int + lcb as int;
    if e <= len { e } else { len }
}

/// The comment author names of `GrpXstAtnOwners`.
pub open spec fn spec_grp_xst_atn_owners(t: Seq<u8>, fc: u32, lcb: u32) -> Seq<Seq<char>> {
    let start = fc as int;
    let end = table_end(t.len() as int, fc, lcb);
    if lcb == 0 || start >= end {
        Seq::empty()
    } else {
        xst_names(t, start, end)
    }
}

/// Parse `GrpXstAtnOwners`: author names packed back to back at `fc` for
/// `lcb` bytes, each a `u16` character count and that many UTF-16 units.
pub fn parse_grp_xst_atn_owners(table_stream: &[u8], fc: u32, lcb: u32) -> (r: Vec<String>)
    requires
        len_ok(table_stream@.len() as int),
    ensures
        r@.map_values(|s: String| s@) == spec_grp_xst_atn_owners(table_stream@, fc, lcb),
{
    let mut names: Vec<String> = Vec::new();
    if lcb == 0 {
        return names;
    }
    let start = fc as usize;
    let end = if (lcb as usize) <= table_stream.len() && start <= table_stream.len() - lcb as usize {
        start + lcb as usize
    } else {
        table_stream.len()
    };
    if start >= end {
        return names;
    }
    let ghost target = xst_names(table_stream@, start as int, end as int);
    let mut pos = start;
    let mut done = false;
    while !done && pos <= end && end - pos >= 2
        invariant
            end <= table_stream@.len(),
            len_ok(table_stream@.len() as int),
            start <= pos,
            names@.map_values(|s: String| s@) + xst_names(table_stream@, pos as int, end as int) == target,
            done ==> xst_names(table_stream@, pos as int, end as int) == Seq::<Seq<char>>::empty(),
        decreases end - pos + if done { 0int } else { 1int },
    {
        let cch = read_u16_le(table_stream, pos) as usize;
        let p2 = pos + 2;
        if 2 * cch > end - p2 {
            proof {
                assert(xst_names(table_stream@, pos as int, end as int) =~= Seq::<Seq<char>>::empty());
            }
            done = true;
            continue;
        }
        let mut units: Vec<u16> = Vec::new();
        let mut k: usize = 0;
        while k < cch
            invariant
                k <= cch,
                p2 + 2 * cch <= end,
                end <= table_stream@.len(),
                units@ == Seq::new(k as nat, |j: int| le16(table_stream@, p2 + 2 * j) as u16),
            decreases cch - k,
        {
            units.push(read_u16_le(table_stream, p2 + 2 * k));
            k = k + 1;
            assert(units@ =~= Seq::new(k as nat, |j: int| le16(table_stream@, p2 + 2 * j) as u16));
        }
        let cs = utf16_to_chars(units.as_slice());
        let name = string_from_chars(cs.as_slice());
        let ghost before = names@.map_values(|s: String| s@);
        names.push(name);
        proof {
            assert(names@.map_values(|s: String| s@) =~= before.push(name@));
            assert(before.push(name@) + xst_names(table_stream@, (p2 + 2 * cch) as int, end as int) =~= before + (seq![name@] + xst_names(table_stream@, (p2 + 2 * cch) as int, end as int)));
        }
        pos = p2 + 2 * cch;
    }
    proof {
        if !(pos <= end && end - pos >= 2) {
            assert(xst_names(table_stream@, pos as int, end as int) =~= Seq::<Seq<char>>::empty());
        }
        assert(names@.map_values(|s: String| s@) + Seq::<Seq<char>>::empty() =~= names@.map_values(|s: String| s@));
    }
    names
}

/// The boundary CPs `aCP[0..=n]` of a pure-CP PLC `[fc, fc + lcb)` with
/// `n + 2` entries, when it is there, a whole number of entries, and holds
/// at least `min_n` ranges.
pub open spec fn spec_plc_cps(t: Seq<u8>, fc: u32, lcb: u32, min_n: int) -> Option<Seq<usize>> {
    let start = fc as int;
    let end = table_end(t.len() as int, fc, lcb);
    if lcb == 0 || start >= end || (end - start) % 4 != 0 || (end - start) / 4 < 2 || (end - start) / 4 - 2 < min_n {
        None
    } else {
        let n = (end - start) / 4 - 2;
        Some(Seq::new((n + 1) as nat, |i: int| le32(t, start + 4 * i) as usize))
    }
}

fn plc_cps(table_stream: &[u8], fc: u32, lcb: u32, min_n: usize) -> (r: Option<Vec<usize>>)
    requires
        len_ok(table_stream@.len() as int),
    ensures
        r matches Some(v) ==> spec_plc_cps(table_stream@, fc, lcb, min_n as int) == Some(v@),
        r is None ==> spec_plc_cps(table_stream@, fc, lcb, min_n as int) is None,
{
    if lcb == 0 {
        return None;
    }
    let start = fc as usize;
    let end = if (lcb as usize) <= table_stream.len() && start <= table_stream.len() - lcb as usize {
        start + lcb as usize
    } else {
        table_stream.len()
    };
    if start >= end || (end - start) % 4 != 0 {
        return None;
    }
    let total = (end - start) / 4;
    if total < 2 || total - 2 < min_n {
        return None;
    }
    let n = total - 2;
    let mut out: Vec<usize> = Vec::new();
    let mut i: usize = 0;
    while i <= n
        invariant
            i <= n + 1,
            n + 2 == total,
            total * 4 == end - start,
            end <= table_stream@.len(),
            out@ == Seq::new(i as nat, |k: int| le32(table_stream@, start + 4 * k) as usize),
        decreases n + 1 - i,
    {
        let v = read_u32_le(table_stream, start + 4 * i) as usize;
        out.push(v);
        i = i + 1;
        assert(out@ =~= Seq::new(i as nat, |k: int| le32(table_stream@, start + 4 * k) as usize));
    }
    Some(out)
}

/// The `aCP[0..=n]` boundary CPs of `PlcfHdd`, when it holds the six
/// separator stories and at least one section's six stories.
pub fn plcf_hdd_cps(table_stream: &[u8], fc: u32, lcb: u32) -> (r: Option<Vec<usize>>)
    requires
        len_ok(table_stream@.len() as int),
    ensures
        r matches Some(v) ==> spec_plc_cps(table_stream@, fc, lcb, 12) == Some(v@),
        r is None ==> spec_plc_cps(table_stream@, fc, lcb, 12) is None,
{
    plc_cps(table_stream, fc, lcb, 12)
}

/// The header-document CP where the first section's stories begin: the
/// end of the six separator stories.
pub fn plcf_hdd_first_section_cp(table_stream: &[u8], fc: u32, lcb: u32) -> (r: Option<usize>)
    requires
        len_ok(table_stream@.len() as int),
    ensures
        r == match spec_plc_cps(table_stream@, fc, lcb, 12) {
            Some(cps) => Some(cps[6]),
            None => None,
        },
{
    match plcf_hdd_cps(table_stream, fc, lcb) {
        Some(cps) => Some(cps[6]),
        None => None,
    }
}

/// The characters `lo..hi` of `s` (as many as it has).
pub open spec fn char_slice(s: Seq<char>, lo: int, hi: int) -> Seq<char> {
    if lo >= s.len() || hi <= lo {
        Seq::empty()
    } else {
        s.subrange(lo, if hi <= s.len() { hi } else { s.len() as int })
    }
}

fn char_slice_exec(cs: &[char], lo: usize, hi: usize) -> (r: Vec<char>)
    ensures
        r@ == char_slice(cs@, lo as int, hi as int),
{
    let mut out: Vec<char> = Vec::new();
    if lo >= cs.len() || hi <= lo {
        return out;
    }
    let end = if hi <= cs.len() { hi } else { cs.len() };
    let mut i = lo;
    while i < end
        invariant
            lo <= i <= end <= cs@.len(),
            out@ == cs@.subrange(lo as int, i as int),
        decreases end - i,
    {
        out.push(cs[i]);
        i = i + 1;
        assert(out@ =~= cs@.subrange(lo as int, i as int));
    }
    out
}

/// One header/footer story: characters `lo..hi` of the header document,
/// sanitised and trimmed; `None` when empty.
pub open spec fn story_text(raw: Seq<char>, lo: int, hi: int) -> Option<Seq<char>> {
    if hi <= lo {
        None
    } else {
        let t = trim_seq(sanitize_from(char_slice(raw, lo, hi), Seq::empty()));
        if t.len() == 0 { None } else { Some(t) }
    }
}

fn story(raw: &[char], lo: usize, hi: usize) -> (r: Option<String>)
    ensures
        r matches Some(s) ==> story_text(raw@, lo as int, hi as int) == Some(s@),
        r is None ==> story_text(raw@, lo as int, hi as int) is None,
{
    if hi <= lo {
        return None;
    }
    let text = char_slice_exec(raw, lo, hi);
    let s = string_from_chars(text.as_slice());
    let san = sanitize_text(s.as_str());
    let cs = chars_of(san.as_str());
    let t = trim_chars(cs.as_slice());
    if t.len() == 0 {
        None
    } else {
        Some(string_from_chars(t.as_slice()))
    }
}

/// The view of optional text.
pub open spec fn opt_view(o: Option<String>) -> Option<Seq<char>> {
    match o {
        Some(s) => Some(s@),
        None => None,
    }
}

/// The first section's six stories (stories 6..12 of `PlcfHdd`), each
/// from the raw header-document text.
pub open spec fn spec_hdd_stories(t: Seq<u8>, raw: Seq<char>, fc: u32, lcb: u32) -> Option<Seq<Option<Seq<char>>>> {
    match spec_plc_cps(t, fc, lcb, 12) {
        None => None,
        Some(cps) => Some(Seq::new(6, |k: int| story_text(raw, cps[6 + k] as int, cps[7 + k] as int))),
    }
}

/// The stories of a header/footer set, in story order.
pub open spec fn hf_view(h: HeaderFooterStories) -> Seq<Option<Seq<char>>> {
    seq![
        opt_view(h.even_header),
        opt_view(h.odd_header),
        opt_view(h.even_footer),
        opt_view(h.odd_footer),
        opt_view(h.first_header),
        opt_view(h.first_footer),
    ]
}

/// Split the raw header-document text into the first section's six
/// header/footer stories by `PlcfHdd`; all empty when `PlcfHdd` is absent
/// or holds less than one section.
pub fn parse_plcf_hdd_stories(table_stream: &[u8], raw_header_text: &str, fc: u32, lcb: u32) -> (r: HeaderFooterStories)
    requires
        len_ok(table_stream@.len() as int),
    ensures
        match spec_hdd_stories(table_stream@, raw_header_text@, fc, lcb) {
            Some(v) => hf_view(r) == v,
            None => hf_view(r) == Seq::new(6, |k: int| None::<Seq<char>>),
        },
{
    let cps = match plcf_hdd_cps(table_stream, fc, lcb) {
        Some(c) => c,
        None => {
            let r = HeaderFooterStories {
                even_header: None,
                odd_header: None,
                even_footer: None,
                odd_footer: None,
                first_header: None,
                first_footer: None,
            };
            assert(hf_view(r) =~= Seq::new(6, |k: int| None::<Seq<char>>));
            return r;
        },
    };
    let raw = chars_of(raw_header_text);
    let r = HeaderFooterStories {
        even_header: story(raw.as_slice(), cps[6], cps[7]),
        odd_header: story(raw.as_slice(), cps[7], cps[8]),
        even_footer: story(raw.as_slice(), cps[8], cps[9]),
        odd_footer: story(raw.as_slice(), cps[9], cps[10]),
        first_header: story(raw.as_slice(), cps[10], cps[11]),
        first_footer: story(raw.as_slice(), cps[11], cps[12]),
    };
    proof {
        let v = spec_hdd_stories(table_stream@, raw_header_text@, fc, lcb)->0;
        assert(hf_view(r) =~= v);
    }
    r
}

/// `s` without one leading comment reference mark (`0x05`).
pub open spec fn strip_ref_mark(s: Seq<char>) -> Seq<char> {
    if s.len() > 0 && s[0] == '\u{5}' { s.drop_first() } else { s }
}

/// The text of comment range `lo..hi`: its characters without the leading
/// reference mark, sanitised and trimmed.
pub open spec fn comment_text(raw: Seq<char>, lo: int, hi: int) -> Seq<char> {
    if hi <= lo {
        Seq::empty()
    } else {
        trim_seq(sanitize_from(strip_ref_mark(char_slice(raw, lo, hi)), Seq::empty()))
    }
}

/// The comment texts of `PlcfandTxt`: one per range, `None` when the PLC
/// is absent, malformed or holds no range.
pub open spec fn spec_and_txt_ranges(t: Seq<u8>, raw: Seq<char>, fc: u32, lcb: u32) -> Option<Seq<Seq<char>>> {
    match spec_plc_cps(t, fc, lcb, 1) {
        None => None,
        Some(cps) => Some(Seq::new((cps.len() - 1) as nat, |i: int| comment_text(raw, cps[i] as int, cps[i + 1] as int))),
    }
}

/// Split the raw Comments subdocument text by `PlcfandTxt`'s CP
/// boundaries into one sanitised, trimmed text per comment.
pub fn parse_plcf_and_txt_ranges(table_stream: &[u8], raw_comment_text: &str, fc: u32, lcb: u32) -> (r: Option<Vec<String>>)
    requires
        len_ok(table_stream@.len() as int),
    ensures
        r matches Some(v) ==> spec_and_txt_ranges(table_stream@, raw_comment_text@, fc, lcb) == Some(v@.map_values(|s: String| s@)),
        r is None ==> spec_and_txt_ranges(table_stream@, raw_comment_text@, fc, lcb) is None,
{
    let cps = match plc_cps(table_stream, fc, lcb, 1) {
        Some(c) => c,
        None => {
            return None;
        },
    };
    let raw = chars_of(raw_comment_text);
    let n = cps.len() - 1;
    let mut out: Vec<String> = Vec::new();
    let mut i: usize = 0;
    while i < n
        invariant
            i <= n,
            n + 1 == cps@.len(),
            raw@ == raw_comment_text@,
            out@.map_values(|s: String| s@) == Seq::new(i as nat, |k: int| comment_text(raw@, cps@[k] as int, cps@[k + 1] as int)),
        decreases n - i,
    {
        let lo = cps[i];
        let hi = cps[i + 1];
        let text = if hi <= lo {
            String::new()
        } else {
            let slice = char_slice_exec(raw.as_slice(), lo, hi);
            let stripped = if slice.len() > 0 && slice[0] == '\u{5}' {
                let mut v: Vec<char> = Vec::new();
                let mut k: usize = 1;
                while k < slice.len()
                    invariant
                        1 <= k <= slice@.len(),
                        v@ == slice@.subrange(1, k as int),
                    decreases slice@.len() - k,
                {
                    v.push(slice[k]);
                    k = k + 1;
                    assert(v@ =~= slice@.subrange(1, k as int));
                }
                assert(v@ =~= slice@.drop_first());
                v
            } else {
                slice
            };
            let s = string_from_chars(stripped.as_slice());
            let san = sanitize_text(s.as_str());
            let cs = chars_of(san.as_str());
            let t = trim_chars(cs.as_slice());
            string_from_chars(t.as_slice())
        };
        let ghost before = out@.map_values(|s: String| s@);
        out.push(text);
        proof {
            assert(out@.map_values(|s: String| s@) =~= before.push(text@));
            assert(Seq::new((i + 1) as nat, |k: int| comment_text(raw@, cps@[k] as int, cps@[k + 1] as int)) =~= Seq::new(i as nat, |k: int| comment_text(raw@, cps@[k] as int, cps@[k + 1] as int)).push(text@));
        }
        i = i + 1;
    }
    Some(out)
}

/// The `ibst` of each `ATRDPre10` of `PlcfandRef` (30 bytes each, `ibst`
/// at offset 20) that lies inside the stream, in order.
pub open spec fn spec_and_ref_ibsts(t: Seq<u8>, fc: u32, lcb: u32) -> Seq<usize> {
    let start = fc as int;
    let end = start + lcb as int;
    if lcb == 0 || end > t.len() || start >= end || end - start < 4 {
        Seq::empty()
    } else {
        let n = (end - start - 4) / 34;
        let data_start = start + 4 * (n + 1);
        ibsts_from(t, data_start, n, 0)
    }
}

pub open spec fn ibsts_from(t: Seq<u8>, data_start: int, n: int, i: int) -> Seq<usize>
    decreases n - i,
{
    if i >= n {
        Seq::empty()
    } else {
        let off = data_start + 30 * i + 20;
        let rest = ibsts_from(t, data_start, n, i + 1);
        if off + 2 > t.len() { rest } else { seq![le16(t, off) as usize] + rest }
    }
}

/// `PlcfandRef`'s `ibst` author indices, one per comment in document
/// order.
pub fn parse_plcf_and_ref_ibsts(table_stream: &[u8], fc: u32, lcb: u32) -> (r: Vec<usize>)
    requires
        len_ok(table_stream@.len() as int),
    ensures
        r@ == spec_and_ref_ibsts(table_stream@, fc, lcb),
{
    let mut out: Vec<usize> = Vec::new();
    if lcb == 0 {
        return out;
    }
    let start = fc as usize;
    if start > table_stream.len() || (lcb as usize) > table_stream.len() - start {
        return out;
    }
    let end = start + lcb as usize;
    if start >= end || end - start < 4 {
        return out;
    }
    let n = (end - start - 4) / 34;
    let data_start = start + 4 * (n + 1);
    let ghost target = ibsts_from(table_stream@, data_start as int, n as int, 0);
    let mut i: usize = 0;
    while i < n
        invariant
            i <= n,
            n * 34 + 4 <= end - start,
            end <= table_stream@.len(),
            data_start == start + 4 * (n + 1),
            len_ok(table_stream@.len() as int),
            out@ + ibsts_from(table_stream@, data_start as int, n as int, i as int) == target,
        decreases n - i,
    {
        assert(data_start + 30 * i + 22 <= usize::MAX) by (nonlinear_arith)
            requires n * 34 + 4 <= end - start, end <= table_stream@.len(), len_ok(table_stream@.len() as int), i < n, data_start == start + 4 * (n + 1);
        let off = data_start + 30 * i + 20;
        if off + 2 <= table_stream.len() {
            let v = read_u16_le(table_stream, off) as usize;
            proof {
                assert(out@.push(v) + ibsts_from(table_stream@, data_start as int, n as int, i + 1) =~= out@ + (seq![v] + ibsts_from(table_stream@, data_start as int, n as int, i + 1)));
            }
            out.push(v);
        }
        i = i + 1;
    }
    proof {
        assert(out@ + ibsts_from(table_stream@, data_start as int, n as int, i as int) =~= out@);
    }
    out
}

/// The view of a comment: its text and its author.
pub open spec fn comment_view(c: ParsedComment) -> (Seq<char>, Option<Seq<char>>) {
    (c.text@, opt_view(c.author))
}

/// The comments of the Comments subdocument: texts from `PlcfandTxt`,
/// authors from `PlcfandRef`'s `ibst` into `authors`; none when
/// `PlcfandTxt` is absent or the two PLCs disagree on the count; empty
/// texts are left out.
pub open spec fn spec_comments(texts: Option<Seq<Seq<char>>>, ibsts: Seq<usize>, authors: Seq<Seq<char>>) -> Seq<(Seq<char>, Option<Seq<char>>)> {
    match texts {
        None => Seq::empty(),
        Some(b) => if b.len() != ibsts.len() { Seq::empty() } else { comments_from(b, ibsts, authors, b.len() as int) },
    }
}

pub open spec fn comments_from(b: Seq<Seq<char>>, ibsts: Seq<usize>, authors: Seq<Seq<char>>, n: int) -> Seq<(Seq<char>, Option<Seq<char>>)>
    decreases n,
{
    if n <= 0 {
        Seq::empty()
    } else {
        let prev = comments_from(b, ibsts, authors, n - 1);
        let text = b[n - 1];
        let k = ibsts[n - 1] as int;
        if text.len() == 0 {
            prev
        } else {
            prev.push((text, if k < authors.len() { Some(authors[k]) } else { None }))
        }
    }
}

/// Split the merged Comments subdocument into comments and attribute
/// each to its author.
pub fn parse_comments(
    table_stream: &[u8],
    raw_comment_text: &str,
    fc_txt: u32,
    lcb_txt: u32,
    fc_ref: u32,
    lcb_ref: u32,
    authors: &[String],
) -> (r: Vec<ParsedComment>)
    requires
        len_ok(table_stream@.len() as int),
    ensures
        r@.map_values(|c: ParsedComment| comment_view(c)) == spec_comments(
            spec_and_txt_ranges(table_stream@, raw_comment_text@, fc_txt, lcb_txt),
            spec_and_ref_ibsts(table_stream@, fc_ref, lcb_ref),
            authors@.map_values(|s: String| s@),
        ),
{
    let mut out: Vec<ParsedComment> = Vec::new();
    let bodies = match parse_plcf_and_txt_ranges(table_stream, raw_comment_text, fc_txt, lcb_txt) {
        Some(b) => b,
        None => {
            return out;
        },
    };
    let ibsts = parse_plcf_and_ref_ibsts(table_stream, fc_ref, lcb_ref);
    if bodies.len() != ibsts.len() {
        return out;
    }
    let ghost bv = bodies@.map_values(|s: String| s@);
    let ghost av = authors@.map_values(|s: String| s@);
    let mut i: usize = 0;
    while i < bodies.len()
        invariant
            i <= bodies@.len(),
            bodies@.len() == ibsts@.len(),
            bv == bodies@.map_values(|s: String| s@),
            av == authors@.map_values(|s: String| s@),
            out@.map_values(|c: ParsedComment| comment_view(c)) == comments_from(bv, ibsts@, av, i as int),
        decreases bodies@.len() - i,
    {
        let text = bodies[i].clone();
        let k = ibsts[i];
        proof {
            assert(bv[i as int] == bodies@[i as int]@);
        }
        if !text.as_str().is_empty() {
            let author = if k < authors.len() { Some(authors[k].clone()) } else { None };
            let ghost before = out@.map_values(|c: ParsedComment| comment_view(c));
            let c = ParsedComment { text, author };
            out.push(c);
            proof {
                assert(out@.map_values(|c: ParsedComment| comment_view(c)) =~= before.push(comment_view(c)));
            }
        } else {
            assert(text@.len() == 0);
        }
        i = i + 1;
    }
    out
}

/// The all-empty header/footer stories.
pub open spec fn no_stories() -> Seq<Option<Seq<char>>> {
    Seq::new(6, |k: int| None::<Seq<char>>)
}

/// The header/footer stories a header document yields.
pub open spec fn hf_of(t: Seq<u8>, raw: Seq<char>, fc: u32, lcb: u32) -> Seq<Option<Seq<char>>> {
    match spec_hdd_stories(t, raw, fc, lcb) {
        Some(v) => v,
        None => no_stories(),
    }
}

/// The subdocument kinds in `ccp*` order.
pub open spec fn kind_at(i: int) -> SubDocumentKind {
    if i == 0 {
        SubDocumentKind::Footnotes
    } else if i == 1 {
        SubDocumentKind::HeadersFooters
    } else if i == 2 {
        SubDocumentKind::Comments
    } else if i == 3 {
        SubDocumentKind::Endnotes
    } else if i == 4 {
        SubDocumentKind::TextBoxes
    } else {
        SubDocumentKind::HeaderTextBoxes
    }
}

/// The declared length of subdocument `i`.
pub open spec fn sub_len(fib: Fib, i: int) -> u32 {
    if i == 0 {
        fib.footnote_len
    } else if i == 1 {
        fib.header_len
    } else if i == 2 {
        fib.comment_len
    } else if i == 3 {
        fib.endnote_len
    } else if i == 4 {
        fib.textbox_len
    } else {
        fib.header_textbox_len
    }
}

/// What reading the subdocuments yields: the non-blank subdocuments, the
/// first section's header/footer stories, and the split comments.
pub struct SubdocModel {
    pub subs: Seq<(SubDocumentKind, Seq<char>)>,
    pub hf: Seq<Option<Seq<char>>>,
    pub comments: Seq<(Seq<char>, Option<Seq<char>>)>,
}

/// The characters of `raw` from `ts` on.
pub open spec fn skip_chars(raw: Seq<char>, ts: int) -> Seq<char> {
    if ts < raw.len() { raw.skip(ts) } else { Seq::empty() }
}

/// Subdocuments `i..6`, from CP `cp` on, each following the previous in
/// the character space: its text extracted over its declared length
/// (saturating), the header document split into stories (and its six
/// separator stories kept out of the flat text), the Comments subdocument
/// split into comments; a subdocument is kept when its sanitised text is
/// not blank.
pub open spec fn subdoc_walk(
    word: Seq<u8>,
    pieces: Seq<Piece>,
    t: Seq<u8>,
    fib: Fib,
    authors: Seq<Seq<char>>,
    i: int,
    cp: int,
    acc: SubdocModel,
) -> SubdocModel
    decreases 6 - i,
{
    if i >= 6 || i < 0 {
        acc
    } else {
        let len = sub_len(fib, i) as int;
        if len == 0 {
            subdoc_walk(word, pieces, t, fib, authors, i + 1, cp, acc)
        } else {
            let end = if cp + len > u32::MAX { u32::MAX as int } else { cp + len };
            let raw = spec_extract(word, pieces, cp, end, fib.lid);
            let kind = kind_at(i);
            let hf = if kind == SubDocumentKind::HeadersFooters { hf_of(t, raw, fib.fc_plcf_hdd, fib.lcb_plcf_hdd) } else { acc.hf };
            let ts = if kind == SubDocumentKind::HeadersFooters {
                match spec_plc_cps(t, fib.fc_plcf_hdd, fib.lcb_plcf_hdd, 12) {
                    Some(cps) => cps[6] as int,
                    None => 0,
                }
            } else {
                0
            };
            let comments = if kind == SubDocumentKind::Comments {
                spec_comments(
                    spec_and_txt_ranges(t, raw, fib.fc_plcf_and_txt, fib.lcb_plcf_and_txt),
                    spec_and_ref_ibsts(t, fib.fc_plcf_and_ref, fib.lcb_plcf_and_ref),
                    authors,
                )
            } else {
                acc.comments
            };
            let sub = if ts > 0 { sanitize_from(skip_chars(raw, ts), Seq::empty()) } else { sanitize_from(raw, Seq::empty()) };
            let subs = if trim_seq(sub).len() > 0 { acc.subs.push((kind, sub)) } else { acc.subs };
            subdoc_walk(word, pieces, t, fib, authors, i + 1, end, SubdocModel { subs, hf, comments })
        }
    }
}

fn kind_exec(i: usize) -> (r: SubDocumentKind)
    ensures
        r == kind_at(i as int),
{
    if i == 0 {
        SubDocumentKind::Footnotes
    } else if i == 1 {
        SubDocumentKind::HeadersFooters
    } else if i == 2 {
        SubDocumentKind::Comments
    } else if i == 3 {
        SubDocumentKind::Endnotes
    } else if i == 4 {
        SubDocumentKind::TextBoxes
    } else {
        SubDocumentKind::HeaderTextBoxes
    }
}

fn sub_len_exec(fib: &Fib, i: usize) -> (r: u32)
    ensures
        r == sub_len(*fib, i as int),
{
    if i == 0 {
        fib.footnote_len
    } else if i == 1 {
        fib.header_len
    } else if i == 2 {
        fib.comment_len
    } else if i == 3 {
        fib.endnote_len
    } else if i == 4 {
        fib.textbox_len
    } else {
        fib.header_textbox_len
    }
}

pub open spec fn subdoc_view(d: SubDocument) -> (SubDocumentKind, Seq<char>) {
    (d.kind, d.text@)
}

/// Read the subdocuments that follow the main text in the character
/// space: footnotes, headers/footers, comments, endnotes, text boxes and
/// header text boxes.
pub fn read_subdocuments(
    word_doc: &[u8],
    pieces: &[Piece],
    table_stream: &[u8],
    fib: &Fib,
    authors: &[String],
) -> (r: (Vec<SubDocument>, HeaderFooterStories, Vec<ParsedComment>))
    requires
        len_ok(word_doc@.len() as int),
        len_ok(table_stream@.len() as int),
    ensures
        ({
            let m = subdoc_walk(
                word_doc@,
                pieces@,
                table_stream@,
                *fib,
                authors@.map_values(|s: String| s@),
                0,
                fib.text_len as int,
                SubdocModel { subs: Seq::empty(), hf: no_stories(), comments: Seq::empty() },
            );
            &&& r.0@.map_values(|d: SubDocument| subdoc_view(d)) == m.subs
            &&& hf_view(r.1) == m.hf
            &&& r.2@.map_values(|c: ParsedComment| comment_view(c)) == m.comments
        }),
{
    let ghost av = authors@.map_values(|s: String| s@);
    let ghost target = subdoc_walk(word_doc@, pieces@, table_stream@, *fib, av, 0, fib.text_len as int,
        SubdocModel { subs: Seq::empty(), hf: no_stories(), comments: Seq::empty() });
    let mut subs: Vec<SubDocument> = Vec::new();
    let mut hf = HeaderFooterStories {
        even_header: None,
        odd_header: None,
        even_footer: None,
        odd_footer: None,
        first_header: None,
        first_footer: None,
    };
    let mut comments: Vec<ParsedComment> = Vec::new();
    let mut cp = fib.text_len;
    let mut i: usize = 0;
    proof {
        assert(hf_view(hf) =~= no_stories());
        assert(subs@.map_values(|d: SubDocument| subdoc_view(d)) =~= Seq::<(SubDocumentKind, Seq<char>)>::empty());
        assert(comments@.map_values(|c: ParsedComment| comment_view(c)) =~= Seq::<(Seq<char>, Option<Seq<char>>)>::empty());
    }
    while i < 6
        invariant
            i <= 6,
            len_ok(word_doc@.len() as int),
            len_ok(table_stream@.len() as int),
            av == authors@.map_values(|s: String| s@),
            subdoc_walk(word_doc@, pieces@, table_stream@, *fib, av, i as int, cp as int, SubdocModel {
                subs: subs@.map_values(|d: SubDocument| subdoc_view(d)),
                hf: hf_view(hf),
                comments: comments@.map_values(|c: ParsedComment| comment_view(c)),
            }) == target,
        decreases 6 - i,
    {
        let len = sub_len_exec(fib, i);
        if len == 0 {
            i = i + 1;
            continue;
        }
        let end = if len > u32::MAX - cp { u32::MAX } else { cp + len };
        let raw = extract_text_range(word_doc, pieces, cp, end, fib.lid);
        let kind = kind_exec(i);
        let mut text_start: usize = 0;
        if i == 1 {
            hf = parse_plcf_hdd_stories(table_stream, raw.as_str(), fib.fc_plcf_hdd, fib.lcb_plcf_hdd);
            text_start = match plcf_hdd_first_section_cp(table_stream, fib.fc_plcf_hdd, fib.lcb_plcf_hdd) {
                Some(c) => c,
                None => 0,
            };
        }
        if i == 2 {
            comments = parse_comments(table_stream, raw.as_str(), fib.fc_plcf_and_txt, fib.lcb_plcf_and_txt, fib.fc_plcf_and_ref, fib.lcb_plcf_and_ref, authors);
        }
        let sub = if text_start > 0 {
            let cs = chars_of(raw.as_str());
            let rest = if text_start < cs.len() {
                let mut v: Vec<char> = Vec::new();
                let mut k = text_start;
                while k < cs.len()
                    invariant
                        text_start <= k <= cs@.len(),
                        v@ == cs@.subrange(text_start as int, k as int),
                    decreases cs@.len() - k,
                {
                    v.push(cs[k]);
                    k = k + 1;
                    assert(v@ =~= cs@.subrange(text_start as int, k as int));
                }
                assert(v@ =~= cs@.skip(text_start as int));
                v
            } else {
                Vec::new()
            };
            let s = string_from_chars(rest.as_slice());
            sanitize_text(s.as_str())
        } else {
            sanitize_text(raw.as_str())
        };
        let cs2 = chars_of(sub.as_str());
        let trimmed = trim_chars(cs2.as_slice());
        if trimmed.len() > 0 {
            let ghost before = subs@.map_values(|d: SubDocument| subdoc_view(d));
            let d = SubDocument { kind, text: sub };
            subs.push(d);
            proof {
                assert(subs@.map_values(|d: SubDocument| subdoc_view(d)) =~= before.push(subdoc_view(d)));
            }
        }
        cp = end;
        i = i + 1;
    }
    (subs, hf, comments)
}

/// Title, author and the other summary properties of a document.
#[derive(Debug, Clone, Default)]
pub struct SummaryProperties {
    pub title: Option<String>,
    pub subject: Option<String>,
    pub author: Option<String>,
    pub keywords: Option<String>,
    pub comments: Option<String>,
    pub created: Option<String>,
    pub modified: Option<String>,
}

/// A parsed legacy Word document.
#[derive(Debug)]
pub struct DocDocument {
    text: String,
    data_stream: Vec<u8>,
    paragraphs: Vec<DocParagraph>,
    subdocuments: Vec<SubDocument>,
    has_macros: bool,
    text_complete: bool,
    summary_properties: Option<SummaryProperties>,
    list_formatting: ListFormatting,
    comment_authors: Vec<String>,
    header_footer: HeaderFooterStories,
    comments: Vec<ParsedComment>,
    ole_objects: Vec<EmbeddedOleObject>,
}

/// What a document holds: its sanitised main text, the `Data` stream its
/// pictures come from, the structured paragraphs, the subdocuments, the
/// macro flag, whether the piece table covers the declared text, the
/// summary properties, the list table, the comment authors, the first
/// section's header/footer stories, the split comments and the embedded
/// objects' identities.
pub struct DocModel {
    pub text: Seq<char>,
    pub data: Seq<u8>,
    pub paragraphs: Seq<ParaView>,
    pub subdocuments: Seq<(SubDocumentKind, Seq<char>)>,
    pub has_macros: bool,
    pub text_complete: bool,
    pub summary: Option<SummaryProperties>,
    pub list: ListModel,
    pub comment_authors: Seq<Seq<char>>,
    pub header_footer: Seq<Option<Seq<char>>>,
    pub comments: Seq<(Seq<char>, Option<Seq<char>>)>,
    pub ole: Seq<Seq<char>>,
}

impl View for DocDocument {
    type V = DocModel;

    closed spec fn view(&self) -> DocModel {
        DocModel {
            text: self.text@,
            data: self.data_stream@,
            paragraphs: out_view(self.paragraphs@),
            subdocuments: self.subdocuments@.map_values(|d: SubDocument| subdoc_view(d)),
            has_macros: self.has_macros,
            text_complete: self.text_complete,
            summary: self.summary_properties,
            list: self.list_formatting@,
            comment_authors: self.comment_authors@.map_values(|s: String| s@),
            header_footer: hf_view(self.header_footer),
            comments: self.comments@.map_values(|c: ParsedComment| comment_view(c)),
            ole: self.ole_objects@.map_values(|o: EmbeddedOleObject| o.description@),
        }
    }
}

/// Whether the root storage holds a `_VBA_PROJECT` entry.
pub open spec fn spec_has_vba(entries: Seq<DirEntry>) -> bool {
    entries.len() > 0 && spec_find(entries, seq![entries[0].child], 0, "_VBA_PROJECT"@) is Some
}

fn has_vba(entries: &[DirEntry]) -> (r: bool)
    ensures
        r == spec_has_vba(entries@),
{
    entries.len() > 0 && find_direct_child(entries, entries[0].child, "_VBA_PROJECT").is_some()
}

/// The FIB of a Word 97 `WordDocument` stream, `Err` when the stream is too
/// short, not Word 97 or encrypted.
pub open spec fn fib_result(d: Seq<u8>) -> Result<Fib, ()> {
    if d.len() < 68 || is_word6_wident(le16(d, 0)) || le16(d, 0) != 0xA5EC || (fib_flags(d) / 256) % 2 == 1 {
        Err(())
    } else {
        Ok(spec_fib(d))
    }
}

/// The table stream the FIB names, falling back to the other one.
pub open spec fn pick_table(fib: Fib, t0: Option<Seq<u8>>, t1: Option<Seq<u8>>) -> Option<Seq<u8>> {
    if fib.use_table1 {
        if t1 is Some { t1 } else { t0 }
    } else {
        if t0 is Some { t0 } else { t1 }
    }
}

/// Whether the CLX pointer cannot be used: empty, or reaching more than
/// 1024 bytes past the table stream's end.
pub open spec fn spec_clx_size_zero_or_oob(clx_size: u32, clx_start: int, stream_len: int) -> bool {
    clx_size == 0 || clx_start + clx_size > stream_len + 1024
}

pub fn clx_size_zero_or_oob(clx_size: u32, clx_start: usize, stream_len: usize) -> (r: bool)
    ensures
        r == spec_clx_size_zero_or_oob(clx_size, clx_start as int, stream_len as int),
{
    clx_size == 0 || clx_start as u128 + clx_size as u128 > stream_len as u128 + 1024
}

/// The message for a CLX pointer outside a table stream of `len` bytes.
pub open spec fn clx_outside_message(fib: Fib, len: nat) -> Seq<char> {
    "CLX at offset "@ + decimal(fib.clx_offset as nat) + " size "@ + decimal(fib.clx_size as nat)
        + " is outside the "@ + decimal(len) + "-byte table stream"@
}

/// The CLX bytes of the table stream, when the FIB's pointer is usable.
pub open spec fn clx_bytes(t: Seq<u8>, fib: Fib) -> Option<Seq<u8>> {
    let start = fib.clx_offset as int;
    if start >= t.len() || spec_clx_size_zero_or_oob(fib.clx_size, start, t.len() as int) {
        None
    } else {
        let e = start + fib.clx_size as int;
        Some(t.subrange(start, if e <= t.len() { e } else { t.len() as int }))
    }
}

/// The piece table of a Word 97 document.
pub open spec fn doc_pieces(t: Seq<u8>, fib: Fib) -> Option<Seq<Piece>> {
    match clx_bytes(t, fib) {
        None => None,
        Some(c) => spec_clx(c, 0),
    }
}

/// The CHPX runs a Word 97 document declares.
pub open spec fn doc_chpx(word: Seq<u8>, t: Seq<u8>, fib: Fib) -> Seq<(u32, u32, Seq<u8>)> {
    if fib.fc_plcf_bte_chpx != 0 && fib.lcb_plcf_bte_chpx != 0 {
        spec_parse_chpx(word, t, fib.fc_plcf_bte_chpx, fib.lcb_plcf_bte_chpx)
    } else {
        Seq::empty()
    }
}

/// A Word 97 document built from its streams, given the intermediate
/// results: CHPX runs `runs`, deleted ranges `del` in canonical form,
/// PAPX runs `fkp` and the sorted paragraph and character runs `pap` and
/// `chp`.
pub open spec fn doc97_with(
    word: Seq<u8>,
    t: Seq<u8>,
    fib: Fib,
    pieces: Seq<Piece>,
    runs: Seq<FkpRun>,
    del: Seq<(u32, u32)>,
    fkp: Seq<FkpParagraph>,
    pap: Seq<(u32, u32, usize)>,
    chp: Seq<(u32, u32, ChpProps)>,
    data: Seq<u8>,
    entries: Seq<DirEntry>,
    summary: Option<SummaryProperties>,
    m: DocModel,
) -> bool {
    let authors = spec_grp_xst_atn_owners(t, fib.fc_grp_xst_atn_owners, fib.lcb_grp_xst_atn_owners);
    let sd = subdoc_walk(word, pieces, t, fib, authors, 0, fib.text_len as int,
        SubdocModel { subs: Seq::empty(), hf: no_stories(), comments: Seq::empty() });
    &&& runs.map_values(|r: FkpRun| r@) == doc_chpx(word, t, fib)
    &&& canonical_ranges(del)
    &&& (forall|x: int| covers(del, x) <==> covers(deleted_cp_ranges(runs, pieces, fib.text_len), x))
    &&& m.text == sanitize_from(spec_extract_excluding(word, pieces, fib.lid, del, 0, fib.text_len as int), Seq::empty())
    &&& m.text_complete == (piece_reach(pieces) >= fib.text_len)
    &&& m.comment_authors == authors
    &&& m.subdocuments == sd.subs
    &&& m.header_footer == sd.hf
    &&& m.comments == sd.comments
    &&& (if fib.fc_plcf_bte_papx != 0 && fib.lcb_plcf_bte_papx != 0 {
        &&& fkp.map_values(|p: FkpParagraph| p@) == spec_parse_papx(word, t, fib.fc_plcf_bte_papx, fib.lcb_plcf_bte_papx)
        &&& sorted_triples(pap)
        &&& pap.to_multiset() == flat_pap(fkp, pieces, fib.text_len, fkp.len() as int).to_multiset()
        &&& sorted_by_start(chp)
        &&& chp.to_multiset() == chp_cp_triples(runs, pieces).to_multiset()
        &&& m.paragraphs == spec_paragraphs(word, pieces, fkp, pap, chp, fib.lid)
    } else {
        m.paragraphs == Seq::<ParaView>::empty()
    })
    &&& m.list == spec_list_formatting(t, fib.fc_plcf_lst, fib.lcb_plcf_lst, fib.fc_plf_lfo, fib.lcb_plf_lfo)
    &&& m.data == data
    &&& m.has_macros == spec_has_vba(entries)
    &&& m.ole == spec_extract_ole(entries)
    &&& m.summary == summary
}

/// The subdocument kind of Word 6/95 story `i`; the macro story (3) and
/// the main text are none.
pub open spec fn word6_kind(i: usize) -> Option<SubDocumentKind> {
    if i == 1 {
        Some(SubDocumentKind::Footnotes)
    } else if i == 2 {
        Some(SubDocumentKind::HeadersFooters)
    } else if i == 4 {
        Some(SubDocumentKind::Comments)
    } else if i == 5 {
        Some(SubDocumentKind::Endnotes)
    } else if i == 6 {
        Some(SubDocumentKind::TextBoxes)
    } else if i == 7 {
        Some(SubDocumentKind::HeaderTextBoxes)
    } else {
        None
    }
}

/// The subdocument kind of Word 1.x/2.0 story `i`.
pub open spec fn word2_kind(i: usize) -> Option<SubDocumentKind> {
    if i == 1 {
        Some(SubDocumentKind::Footnotes)
    } else if i == 2 {
        Some(SubDocumentKind::HeadersFooters)
    } else if i == 4 {
        Some(SubDocumentKind::Comments)
    } else {
        None
    }
}

/// Stories with a subdocument kind under `kind_of`, texts passed through
/// `f`.
pub open spec fn subs_of(stories: Seq<(usize, Seq<char>)>, word2: bool) -> Seq<(SubDocumentKind, Seq<char>)>
    decreases stories.len(),
{
    if stories.len() == 0 {
        Seq::empty()
    } else {
        let prev = subs_of(stories.drop_last(), word2);
        let (i, t) = stories.last();
        let k = if word2 { word2_kind(i) } else { word6_kind(i) };
        match k {
            Some(kind) => prev.push((kind, if word2 { collapse_crlf(t) } else { t })),
            None => prev,
        }
    }
}

/// `s` with every (non-overlapping, left to right) doubled newline made
/// single, as `str::replace("\n\n", "\n")` does.
pub open spec fn collapse_crlf(s: Seq<char>) -> Seq<char>
    decreases s.len(),
{
    if s.len() >= 2 && s[0] == '\n' && s[1] == '\n' {
        seq!['\n'] + collapse_crlf(s.skip(2))
    } else if s.len() > 0 {
        seq![s[0]] + collapse_crlf(s.skip(1))
    } else {
        Seq::empty()
    }
}

fn collapse_crlf_exec(s: &str) -> (r: String)
    ensures
        r@ == collapse_crlf(s@),
{
    let cs = chars_of(s);
    let mut out: Vec<char> = Vec::new();
    let mut i: usize = 0;
    assert(cs@.skip(0) =~= cs@);
    while i < cs.len()
        invariant
            i <= cs@.len(),
            cs@ == s@,
            out@ + collapse_crlf(cs@.skip(i as int)) == collapse_crlf(s@),
        decreases cs@.len() - i,
    {
        let ghost rest = cs@.skip(i as int);
        if i + 1 < cs.len() && cs[i] == '\n' && cs[i + 1] == '\n' {
            proof {
                assert(rest[0] == '\n' && rest[1] == '\n');
                assert(rest.skip(2) =~= cs@.skip(i + 2));
                assert(out@.push('\n') + collapse_crlf(cs@.skip(i + 2)) =~= out@ + (seq!['\n'] + collapse_crlf(rest.skip(2))));
            }
            out.push('\n');
            i = i + 2;
        } else {
            proof {
                assert(rest[0] == cs@[i as int]);
                assert(rest.skip(1) =~= cs@.skip(i + 1));
                assert(out@.push(cs@[i as int]) + collapse_crlf(cs@.skip(i + 1)) =~= out@ + (seq![rest[0]] + collapse_crlf(rest.skip(1))));
            }
            out.push(cs[i]);
            i = i + 1;
        }
    }
    proof {
        assert(cs@.skip(i as int).len() == 0);
        assert(out@ + collapse_crlf(cs@.skip(i as int)) =~= out@);
    }
    string_from_chars(out.as_slice())
}

/// A Word 6/95 or Word 1.x/2.0 document from its FIB and piece table.
pub open spec fn old_doc_model(
    word: Seq<u8>,
    fib: Word6Fib,
    pieces: Seq<Piece>,
    word2: bool,
    has_macros: bool,
    text_complete: bool,
    ole: Seq<Seq<char>>,
    summary: Option<SummaryProperties>,
    m: DocModel,
) -> bool {
    let st = story_walk(word, fib, pieces, max_cp_end(pieces), 0, 0);
    &&& m.text == if word2 { collapse_crlf(st.0) } else { st.0 }
    &&& m.subdocuments == subs_of(st.1, word2)
    &&& m.has_macros == has_macros
    &&& m.text_complete == text_complete
    &&& m.ole == ole
    &&& m.summary == summary
    &&& m.data.len() == 0
    &&& m.paragraphs.len() == 0
    &&& m.list.defs.len() == 0
    &&& m.list.lfos.len() == 0
    &&& m.comment_authors.len() == 0
    &&& m.header_footer == no_stories()
    &&& m.comments.len() == 0
}

impl DocDocument {
    /// The subdocuments of the stories whose index names one.
    fn old_subdocs(stories: Vec<(usize, String)>, word2: bool) -> (r: Vec<SubDocument>)
        ensures
            r@.map_values(|d: SubDocument| subdoc_view(d)) == subs_of(stories@.map_values(|e: (usize, String)| (e.0, e.1@)), word2),
    {
        let ghost sv = stories@.map_values(|e: (usize, String)| (e.0, e.1@));
        let mut out: Vec<SubDocument> = Vec::new();
        let mut i: usize = 0;
        while i < stories.len()
            invariant
                i <= stories@.len(),
                sv == stories@.map_values(|e: (usize, String)| (e.0, e.1@)),
                out@.map_values(|d: SubDocument| subdoc_view(d)) == subs_of(sv.take(i as int), word2),
            decreases stories@.len() - i,
        {
            let story = stories[i].0;
            proof {
                assert(sv.take(i + 1 as int).drop_last() =~= sv.take(i as int));
                assert(sv.take(i + 1 as int).last() == sv[i as int]);
            }
            let kind = if word2 {
                if story == 1 {
                    Some(SubDocumentKind::Footnotes)
                } else if story == 2 {
                    Some(SubDocumentKind::HeadersFooters)
                } else if story == 4 {
                    Some(SubDocumentKind::Comments)
                } else {
                    None
                }
            } else if story == 1 {
                Some(SubDocumentKind::Footnotes)
            } else if story == 2 {
                Some(SubDocumentKind::HeadersFooters)
            } else if story == 4 {
                Some(SubDocumentKind::Comments)
            } else if story == 5 {
                Some(SubDocumentKind::Endnotes)
            } else if story == 6 {
                Some(SubDocumentKind::TextBoxes)
            } else if story == 7 {
                Some(SubDocumentKind::HeaderTextBoxes)
            } else {
                None
            };
            match kind {
                Some(k) => {
                    let text = if word2 {
                        collapse_crlf_exec(stories[i].1.as_str())
                    } else {
                        stories[i].1.clone()
                    };
                    let d = SubDocument { kind: k, text };
                    let ghost before = out@.map_values(|d: SubDocument| subdoc_view(d));
                    out.push(d);
                    proof {
                        assert(out@.map_values(|d: SubDocument| subdoc_view(d)) =~= before.push(subdoc_view(d)));
                    }
                },
                None => {},
            }
            i = i + 1;
        }
        assert(sv.take(sv.len() as int) =~= sv);
        out
    }
}

impl DocDocument {
    /// A Word 6.0/95 document from its `WordDocument` stream: the text of
    /// every story decoded in the document's code page, no paragraph
    /// structure. A too short or encrypted FIB, or an unusable piece
    /// table, is an error.
    pub fn from_word6(word_doc: &[u8], entries: &[DirEntry], summary: Option<SummaryProperties>) -> (r: Result<DocDocument, DocError>)
        requires
            len_ok(word_doc@.len() as int),
        ensures
            word_doc@.len() < FIB_LEN ==> r matches Err(DocError::InvalidFib(_)),
            word_doc@.len() >= FIB_LEN && spec_word6_encrypted(word_doc@) ==> r matches Err(DocError::Encrypted),
            word_doc@.len() >= FIB_LEN && !spec_word6_encrypted(word_doc@) ==> match spec_word6_piece_table(word_doc@, spec_word6_fib(word_doc@)) {
                None => r matches Err(DocError::InvalidPieceTable(_)),
                Some(pieces) => {
                    let fib = spec_word6_fib(word_doc@);
                    r matches Ok(d) && old_doc_model(
                        word_doc@,
                        fib,
                        pieces,
                        false,
                        spec_has_vba(entries@) || fib.ccp[3] != 0,
                        piece_reach(pieces) >= fib.ccp[0],
                        spec_extract_ole(entries@),
                        summary,
                        d@,
                    )
                },
            },
    {
        let fib = super::word6::parse_fib(word_doc)?;
        let pieces = super::word6::pieces(word_doc, &fib)?;
        let text_complete = covers_declared_length(pieces.as_slice(), fib.ccp[0]);
        let (text, subs) = super::word6::stories(word_doc, &fib, pieces.as_slice());
        let subdocuments = Self::old_subdocs(subs, false);
        let has_macros = has_vba(entries) || fib.ccp[3] != 0;
        let d = DocDocument {
            text,
            data_stream: Vec::new(),
            paragraphs: Vec::new(),
            subdocuments,
            has_macros,
            text_complete,
            summary_properties: summary,
            list_formatting: ListFormatting::default(),
            comment_authors: Vec::new(),
            header_footer: HeaderFooterStories {
                even_header: None,
                odd_header: None,
                even_footer: None,
                odd_footer: None,
                first_header: None,
                first_footer: None,
            },
            comments: Vec::new(),
            ole_objects: extract_ole_objects(entries),
        };
        assert(hf_view(d.header_footer) =~= no_stories());
        Ok(d)
    }

    /// A Word 1.x/2.0 flat file: the FIB at byte 0, the text and the
    /// stories it declares read contiguously from `fcMin` (a fast-saved
    /// file's text is flagged incomplete), doubled paragraph ends (CR LF)
    /// made single.
    pub fn from_word2(bytes: &[u8]) -> (r: Result<DocDocument, DocError>)
        requires
            len_ok(bytes@.len() as int),
        ensures
            bytes@.len() < 0x180 ==> r matches Err(DocError::InvalidFib(_)),
            bytes@.len() >= 0x180 && spec_word6_encrypted(bytes@) ==> r matches Err(DocError::Encrypted),
            bytes@.len() >= 0x180 && !spec_word6_encrypted(bytes@) ==> {
                let fib = spec_word2_fib(bytes@);
                let pieces = seq![spec_contiguous_piece(bytes@.len() as int, fib)];
                r matches Ok(d) && old_doc_model(
                    bytes@,
                    fib,
                    pieces,
                    true,
                    fib.ccp[3] != 0,
                    !fib.complex && piece_reach(pieces) >= fib.ccp[0],
                    Seq::empty(),
                    None,
                    d@,
                )
            },
    {
        let fib = super::word6::parse_word2_fib(bytes)?;
        let mut pieces: Vec<Piece> = Vec::new();
        pieces.push(super::word6::contiguous_piece(bytes, &fib));
        let text_complete = !fib.complex && covers_declared_length(pieces.as_slice(), fib.ccp[0]);
        let (text, subs) = super::word6::stories(bytes, &fib, pieces.as_slice());
        let text = collapse_crlf_exec(text.as_str());
        let subdocuments = Self::old_subdocs(subs, true);
        let d = DocDocument {
            text,
            data_stream: Vec::new(),
            paragraphs: Vec::new(),
            subdocuments,
            has_macros: fib.ccp[3] != 0,
            text_complete,
            summary_properties: None,
            list_formatting: ListFormatting::default(),
            comment_authors: Vec::new(),
            header_footer: HeaderFooterStories {
                even_header: None,
                odd_header: None,
                even_footer: None,
                odd_footer: None,
                first_header: None,
                first_footer: None,
            },
            comments: Vec::new(),
            ole_objects: Vec::new(),
        };
        proof {
            assert(hf_view(d.header_footer) =~= no_stories());
            assert(pieces@ =~= seq![spec_contiguous_piece(bytes@.len() as int, fib)]);
            assert(d@.ole =~= Seq::<Seq<char>>::empty());
        }
        Ok(d)
    }
}

/// A Word 97 document built from its streams, for some intermediate
/// results (see `doc97_with`).
pub open spec fn doc97(
    word: Seq<u8>,
    t: Seq<u8>,
    fib: Fib,
    pieces: Seq<Piece>,
    data: Seq<u8>,
    entries: Seq<DirEntry>,
    summary: Option<SummaryProperties>,
    m: DocModel,
) -> bool {
    exists|runs: Seq<FkpRun>, del: Seq<(u32, u32)>, fkp: Seq<FkpParagraph>, pap: Seq<(u32, u32, usize)>, chp: Seq<(u32, u32, ChpProps)>|
        #[trigger] doc97_with(word, t, fib, pieces, runs, del, fkp, pap, chp, data, entries, summary, m)
}

impl DocDocument {
    /// The Word 97 document of a parsed FIB and its table stream.
    #[verifier::rlimit(60)]
    fn from_word97(
        word_doc: &[u8],
        fib: &Fib,
        table_stream: &[u8],
        data_stream: Vec<u8>,
        entries: &[DirEntry],
        summary: Option<SummaryProperties>,
    ) -> (r: Result<DocDocument, DocError>)
        requires
            len_ok(word_doc@.len() as int),
            len_ok(table_stream@.len() as int),
        ensures
            match doc_pieces(table_stream@, *fib) {
                None => r matches Err(DocError::InvalidPieceTable(m)) && (clx_bytes(table_stream@, *fib) is None
                    ==> m@ == clx_outside_message(*fib, table_stream@.len())),
                Some(pieces) => r matches Ok(d) && doc97(word_doc@, table_stream@, *fib, pieces, data_stream@, entries@, summary, d@),
            },
    {
        let clx_start = fib.clx_offset as usize;
        if clx_start >= table_stream.len() || clx_size_zero_or_oob(fib.clx_size, clx_start, table_stream.len()) {
            let mut m = chars_of("CLX at offset ");
            m.append(&mut decimal_usize_chars(clx_start));
            m.append(&mut chars_of(" size "));
            m.append(&mut decimal_chars(fib.clx_size));
            m.append(&mut chars_of(" is outside the "));
            m.append(&mut decimal_usize_chars(table_stream.len()));
            m.append(&mut chars_of("-byte table stream"));
            return Err(DocError::InvalidPieceTable(string_from_chars(m.as_slice())));
        }
        let clx_end = if (fib.clx_size as usize) <= table_stream.len() - clx_start {
            clx_start + fib.clx_size as usize
        } else {
            table_stream.len()
        };
        let clx = vstd::slice::slice_subrange(table_stream, clx_start, clx_end);
        let pieces = parse_clx(clx)?;
        let text_complete = covers_declared_length(pieces.as_slice(), fib.text_len);
        let chpx_runs = if fib.fc_plcf_bte_chpx != 0 && fib.lcb_plcf_bte_chpx != 0 {
            parse_chpx_runs(word_doc, table_stream, fib.fc_plcf_bte_chpx, fib.lcb_plcf_bte_chpx)
        } else {
            Vec::new()
        };
        proof {
            if !(fib.fc_plcf_bte_chpx != 0 && fib.lcb_plcf_bte_chpx != 0) {
                assert(chpx_runs@.map_values(|r: FkpRun| r@) =~= Seq::<(u32, u32, Seq<u8>)>::empty());
            }
        }
        let deleted = resolve_deleted_cp_ranges_from_runs(chpx_runs.as_slice(), pieces.as_slice(), fib.text_len);
        let raw_text = extract_text_range_excluding(word_doc, pieces.as_slice(), 0, fib.text_len, fib.lid, deleted.as_slice());
        let text = sanitize_text(raw_text.as_str());
        let comment_authors = parse_grp_xst_atn_owners(table_stream, fib.fc_grp_xst_atn_owners, fib.lcb_grp_xst_atn_owners);
        let (subdocuments, header_footer, comments) = read_subdocuments(word_doc, pieces.as_slice(), table_stream, fib, comment_authors.as_slice());
        let mut fkp: Vec<FkpParagraph> = Vec::new();
        let paragraphs = if fib.fc_plcf_bte_papx != 0 && fib.lcb_plcf_bte_papx != 0 {
            fkp = parse_papx_paragraphs(word_doc, table_stream, fib.fc_plcf_bte_papx, fib.lcb_plcf_bte_papx);
            build_paragraphs(word_doc, pieces.as_slice(), fkp.as_slice(), fib.text_len, fib.lid, chpx_runs.as_slice())
        } else {
            Vec::new()
        };
        let list_formatting = ListFormatting::parse(table_stream, fib.fc_plcf_lst, fib.lcb_plcf_lst, fib.fc_plf_lfo, fib.lcb_plf_lfo);
        let has_macros = has_vba(entries);
        let ole_objects = extract_ole_objects(entries);
        let d = DocDocument {
            text,
            data_stream,
            paragraphs,
            subdocuments,
            has_macros,
            text_complete,
            summary_properties: summary,
            list_formatting,
            comment_authors,
            header_footer,
            comments,
            ole_objects,
        };
        proof {
            let t = table_stream@;
            let pcs = pieces@;
            if fib.fc_plcf_bte_papx != 0 && fib.lcb_plcf_bte_papx != 0 {
                let (pap, chp) = choose|pap: Seq<(u32, u32, usize)>, chp: Seq<(u32, u32, ChpProps)>|
                    sorted_triples(pap) && pap.to_multiset() == flat_pap(fkp@, pcs, fib.text_len, fkp@.len() as int).to_multiset()
                    && sorted_by_start(chp) && chp.to_multiset() == chp_cp_triples(chpx_runs@, pcs).to_multiset()
                    && out_view(d.paragraphs@) == spec_paragraphs(word_doc@, pcs, fkp@, pap, chp, fib.lid);
                assert(doc97_with(word_doc@, t, *fib, pcs, chpx_runs@, deleted@, fkp@, pap, chp, data_stream@, entries@, summary, d@));
            } else {
                assert(d@.paragraphs =~= Seq::<ParaView>::empty());
                let pap = Seq::<(u32, u32, usize)>::empty();
                let chp = Seq::<(u32, u32, ChpProps)>::empty();
                assert(doc97_with(word_doc@, t, *fib, pcs, chpx_runs@, deleted@, fkp@, pap, chp, data_stream@, entries@, summary, d@));
            }
        }
        Ok(d)
    }

    /// A Word 97 or later document from the streams of its compound file:
    /// `WordDocument`, the `0Table`/`1Table` streams that are present, the
    /// `Data` stream, the directory and the summary properties. A Word
    /// 6.0/95 `WordDocument` is read by `from_word6`. Errors: the FIB's
    /// (propagated), no table stream, a CLX pointer outside the table
    /// stream, a malformed CLX.
    pub fn from_streams(
        word_doc: &[u8],
        table0: Option<&[u8]>,
        table1: Option<&[u8]>,
        data_stream: Vec<u8>,
        entries: &[DirEntry],
        summary: Option<SummaryProperties>,
    ) -> (r: Result<DocDocument, DocError>)
        requires
            len_ok(word_doc@.len() as int),
            table0 matches Some(t) ==> len_ok(t@.len() as int),
            table1 matches Some(t) ==> len_ok(t@.len() as int),
        ensures
            word_doc@.len() >= 2 && spec_is_word6_magic(le16(word_doc@, 0) as u16) ==> (
                (word_doc@.len() < FIB_LEN ==> r matches Err(DocError::InvalidFib(_)))
                && (word_doc@.len() >= FIB_LEN && spec_word6_encrypted(word_doc@) ==> r matches Err(DocError::Encrypted))
                && (word_doc@.len() >= FIB_LEN && !spec_word6_encrypted(word_doc@) ==> match spec_word6_piece_table(word_doc@, spec_word6_fib(word_doc@)) {
                    None => r matches Err(DocError::InvalidPieceTable(_)),
                    Some(pieces) => {
                        let fib = spec_word6_fib(word_doc@);
                        r matches Ok(d) && old_doc_model(word_doc@, fib, pieces, false,
                            spec_has_vba(entries@) || fib.ccp[3] != 0, piece_reach(pieces) >= fib.ccp[0],
                            spec_extract_ole(entries@), summary, d@)
                    },
                })),
            !(word_doc@.len() >= 2 && spec_is_word6_magic(le16(word_doc@, 0) as u16)) ==> match fib_result(word_doc@) {
                Err(()) => r matches Err(e) && fib_error_is(word_doc@, e),
                Ok(fib) => {
                    let t0 = match table0 { Some(t) => Some(t@), None => None };
                    let t1 = match table1 { Some(t) => Some(t@), None => None };
                    match pick_table(fib, t0, t1) {
                        None => r matches Err(DocError::MissingStream(_)),
                        Some(t) => match doc_pieces(t, fib) {
                            None => r matches Err(DocError::InvalidPieceTable(m)) && (clx_bytes(t, fib) is None
                                ==> m@ == clx_outside_message(fib, t.len())),
                            Some(pieces) => r matches Ok(d) && doc97(word_doc@, t, fib, pieces, data_stream@, entries@, summary, d@),
                        },
                    }
                },
            },
    {
        if word_doc.len() >= 2 && is_word6_magic(read_u16_le(word_doc, 0)) {
            return Self::from_word6(word_doc, entries, summary);
        }
        let fib = Fib::parse(word_doc)?;
        let table_stream: &[u8] = if fib.use_table1 {
            match table1 {
                Some(t) => t,
                None => match table0 {
                    Some(t) => t,
                    None => {
                        return Err(DocError::MissingStream("neither 0Table nor 1Table stream is present".to_owned()));
                    },
                },
            }
        } else {
            match table0 {
                Some(t) => t,
                None => match table1 {
                    Some(t) => t,
                    None => {
                        return Err(DocError::MissingStream("neither 0Table nor 1Table stream is present".to_owned()));
                    },
                },
            }
        };
        Self::from_word97(word_doc, &fib, table_stream, data_stream, entries, summary)
    }
}

/// `out` ending with a newline before more text is added.
pub open spec fn line_start(out: Seq<char>) -> Seq<char> {
    if out.len() > 0 && out.last() != '\n' { out.push('\n') } else { out }
}

/// The plain text with the subdocuments' trimmed texts appended, each on
/// its own line; blank ones skipped.
pub open spec fn with_subdocs(out: Seq<char>, subs: Seq<(SubDocumentKind, Seq<char>)>) -> Seq<char>
    decreases subs.len(),
{
    if subs.len() == 0 {
        out
    } else {
        let prev = with_subdocs(out, subs.drop_last());
        let t = trim_seq(subs.last().1);
        if t.len() == 0 { prev } else { line_start(prev) + t + seq!['\n'] }
    }
}

/// The plain text with each embedded object named on its own line, in
/// brackets.
pub open spec fn with_objects(out: Seq<char>, ole: Seq<Seq<char>>) -> Seq<char>
    decreases ole.len(),
{
    if ole.len() == 0 {
        out
    } else {
        let prev = with_objects(out, ole.drop_last());
        line_start(prev) + seq!['['] + ole.last() + seq![']', '\n']
    }
}

/// The plain text of a document: the main text, then every non-blank
/// subdocument, then the embedded objects' names.
pub open spec fn spec_plain_text(m: DocModel) -> Seq<char> {
    with_objects(with_subdocs(m.text, m.subdocuments), m.ole)
}

/// Appending subdocuments keeps what was there as a prefix.
proof fn lemma_with_subdocs_prefix(out: Seq<char>, subs: Seq<(SubDocumentKind, Seq<char>)>)
    ensures
        out.len() <= with_subdocs(out, subs).len(),
        with_subdocs(out, subs).take(out.len() as int) == out,
    decreases subs.len(),
{
    if subs.len() > 0 {
        lemma_with_subdocs_prefix(out, subs.drop_last());
        let prev = with_subdocs(out, subs.drop_last());
        let t = trim_seq(subs.last().1);
        if t.len() > 0 {
            let w = line_start(prev) + t + seq!['\n'];
            assert(w.take(out.len() as int) =~= prev.take(out.len() as int));
        }
    }
}

/// Appending object names keeps what was there as a prefix.
proof fn lemma_with_objects_prefix(out: Seq<char>, ole: Seq<Seq<char>>)
    ensures
        out.len() <= with_objects(out, ole).len(),
        with_objects(out, ole).take(out.len() as int) == out,
    decreases ole.len(),
{
    if ole.len() > 0 {
        lemma_with_objects_prefix(out, ole.drop_last());
        let prev = with_objects(out, ole.drop_last());
        let w = line_start(prev) + seq!['['] + ole.last() + seq![']', '\n'];
        assert(w.take(out.len() as int) =~= prev.take(out.len() as int));
    }
}

/// The full plain text of a document begins with its main text, the
/// text `plain_text_ref` gives.
pub proof fn lemma_plain_text_starts_with_main_text(m: DocModel)
    ensures
        m.text.len() <= spec_plain_text(m).len(),
        spec_plain_text(m).take(m.text.len() as int) == m.text,
{
    let a = with_subdocs(m.text, m.subdocuments);
    lemma_with_subdocs_prefix(m.text, m.subdocuments);
    lemma_with_objects_prefix(a, m.ole);
    assert(spec_plain_text(m).take(m.text.len() as int) =~= spec_plain_text(m).take(a.len() as int).take(
        m.text.len() as int,
    ));
}

fn push_str_chars(out: &mut Vec<char>, s: &[char])
    ensures
        final(out)@ == old(out)@ + s@,
{
    let ghost o = out@;
    let mut i: usize = 0;
    while i < s.len()
        invariant
            i <= s@.len(),
            out@ == o + s@.take(i as int),
        decreases s@.len() - i,
    {
        out.push(s[i]);
        i = i + 1;
        assert(out@ =~= o + s@.take(i as int));
    }
    assert(s@.take(s@.len() as int) =~= s@);
}

impl DocDocument {
    /// The images of the `Data` stream, decoded on each call.
    pub fn images(&self) -> (r: Vec<DocImage>)
        requires
            len_ok(self@.data.len() as int),
        ensures
            r@.len() == scan_images(self@.data, 0).len(),
            forall|k: int| 0 <= k < r@.len() ==> (#[trigger] r@[k]).format == scan_images(self@.data, 0)[k].0
                && r@[k].data@ == scan_images(self@.data, 0)[k].1 && r@[k].index == k,
    {
        extract_images(self.data_stream.as_slice())
    }

    /// Footnotes, headers, comments, endnotes and text boxes, in the order
    /// the file stores them.
    pub fn subdocuments(&self) -> (r: &[SubDocument])
        ensures
            r@.map_values(|d: SubDocument| subdoc_view(d)) == self@.subdocuments,
    {
        self.subdocuments.as_slice()
    }

    /// Comment author names, in file order.
    pub fn comment_authors(&self) -> (r: &[String])
        ensures
            r@.map_values(|s: String| s@) == self@.comment_authors,
    {
        self.comment_authors.as_slice()
    }

    /// The first section's header/footer stories.
    pub fn header_footer(&self) -> (r: &HeaderFooterStories)
        ensures
            hf_view(*r) == self@.header_footer,
    {
        &self.header_footer
    }

    /// The comments, each with its author.
    pub fn comments(&self) -> (r: &[ParsedComment])
        ensures
            r@.map_values(|c: ParsedComment| comment_view(c)) == self@.comments,
    {
        self.comments.as_slice()
    }

    /// The embedded OLE objects found under `ObjectPool`.
    pub fn ole_objects(&self) -> (r: &[EmbeddedOleObject])
        ensures
            r@.map_values(|o: EmbeddedOleObject| o.description@) == self@.ole,
    {
        self.ole_objects.as_slice()
    }

    /// Whether the file carries a `_VBA_PROJECT` storage (or, for Word
    /// 6/95 and 2.0, macro text).
    pub fn has_macros(&self) -> (r: bool)
        ensures
            r == self@.has_macros,
    {
        self.has_macros
    }

    /// `false` when the piece table leaves part of the declared main text
    /// unstored.
    pub fn text_complete(&self) -> (r: bool)
        ensures
            r == self@.text_complete,
    {
        self.text_complete
    }

    /// The summary properties, when the file has them.
    pub fn summary_properties(&self) -> (r: Option<&SummaryProperties>)
        ensures
            r == match self@.summary {
                Some(p) => Some(&p),
                None => None::<&SummaryProperties>,
            },
    {
        match &self.summary_properties {
            Some(p) => Some(p),
            None => None,
        }
    }

    /// The list table.
    pub fn list_formatting(&self) -> (r: &ListFormatting)
        ensures
            r@ == self@.list,
    {
        &self.list_formatting
    }

    /// The structured main-text paragraphs (empty without a PAPX index).
    pub fn paragraphs(&self) -> (r: &[DocParagraph])
        ensures
            out_view(r@) == self@.paragraphs,
    {
        self.paragraphs.as_slice()
    }

    /// The sanitised main text.
    pub fn plain_text_ref(&self) -> (r: &str)
        ensures
            r@ == self@.text,
    {
        self.text.as_str()
    }

    /// The plain text: the main text, then each non-blank subdocument's
    /// trimmed text on its own line, then each embedded object's name in
    /// brackets on its own line.
    pub fn plain_text(&self) -> (r: String)
        ensures
            r@ == spec_plain_text(self@),
    {
        let mut out = chars_of(self.text.as_str());
        let ghost m = self@;
        let mut i: usize = 0;
        while i < self.subdocuments.len()
            invariant
                i <= self.subdocuments@.len(),
                m == self@,
                out@ == with_subdocs(m.text, m.subdocuments.take(i as int)),
            decreases self.subdocuments@.len() - i,
        {
            proof {
                assert(m.subdocuments.take(i + 1 as int).drop_last() =~= m.subdocuments.take(i as int));
                assert(m.subdocuments.take(i + 1 as int).last() == subdoc_view(self.subdocuments@[i as int]));
            }
            let cs = chars_of(self.subdocuments[i].text.as_str());
            let t = trim_chars(cs.as_slice());
            if t.len() > 0 {
                if out.len() > 0 && out[out.len() - 1] != '\n' {
                    out.push('\n');
                }
                push_str_chars(&mut out, t.as_slice());
                out.push('\n');
            }
            i = i + 1;
        }
        proof {
            assert(m.subdocuments.take(m.subdocuments.len() as int) =~= m.subdocuments);
        }
        let ghost base = out@;
        let mut j: usize = 0;
        while j < self.ole_objects.len()
            invariant
                j <= self.ole_objects@.len(),
                m == self@,
                base == with_subdocs(m.text, m.subdocuments),
                out@ == with_objects(base, m.ole.take(j as int)),
            decreases self.ole_objects@.len() - j,
        {
            proof {
                assert(m.ole.take(j + 1 as int).drop_last() =~= m.ole.take(j as int));
                assert(m.ole.take(j + 1 as int).last() == self.ole_objects@[j as int].description@);
            }
            if out.len() > 0 && out[out.len() - 1] != '\n' {
                out.push('\n');
            }
            out.push('[');
            let d = chars_of(self.ole_objects[j].description.as_str());
            push_str_chars(&mut out, d.as_slice());
            out.push(']');
            out.push('\n');
            j = j + 1;
        }
        proof {
            assert(m.ole.take(m.ole.len() as int) =~= m.ole);
        }
        string_from_chars(out.as_slice())
    }
}

} // verus!
