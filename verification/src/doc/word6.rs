//! Word 6.0 / Word 95 (and Word 1.x/2.0) text extraction.
//!
//! The Word 6/95 FIB shares its first 0x18 bytes with Word 97's `FibBase`
//! and then follows its own layout: the `ccp*` story lengths from 0x34 and
//! the piece-table pointer `fcClx`/`lcbClx` at 0x160/0x164. There is no
//! table stream (a complex file's CLX lives in the `WordDocument` stream)
//! and every character is one byte in the document's code page, unless
//! `fExtChar` says UTF-16. A non-complex file's text is the bytes from
//! `fcMin`, story after story.

use vstd::prelude::*;
use crate::bytes::{le16, le32, len_ok, read_u16_le, read_u32_le};
use crate::text::{is_blank, trim_seq};
use super::error::DocError;
use super::piece_table::{
    Piece, parse_clx, spec_clx, extract_text_range, spec_extract, sanitize_text, sanitize_from,
    clear_bit30_u32, clear_bit30,
};

verus! {

/// The `wIdent` magics of Word 6.0/95 for Windows and the three Macintosh
/// Word 6/95 variants.
pub open spec fn spec_is_word6_magic(w: u16) -> bool {
    w == 0xA5DC || (0xA697 <= w && w <= 0xA699)
}

pub fn is_word6_magic(wident: u16) -> (r: bool)
    ensures
        r == spec_is_word6_magic(wident),
{
    wident == 0xA5DC || (0xA697 <= wident && wident <= 0xA699)
}

/// Word for Windows 1.x (`0xA59B`) and 2.0 (`0xA5DB`): flat files, the
/// FIB at byte 0.
pub open spec fn spec_is_word2_magic(w: u16) -> bool {
    w == 0xA59B || w == 0xA5DB
}

pub fn is_word2_magic(wident: u16) -> (r: bool)
    ensures
        r == spec_is_word2_magic(wident),
{
    wident == 0xA59B || wident == 0xA5DB
}

/// The FIB fields the Word 6/95 extractor needs.
#[derive(Debug, Clone, Copy, PartialEq, Eq)]
pub struct Word6Fib {
    pub lid: u16,
    pub complex: bool,
    /// `fExtChar`: the text is stored in UTF-16 code units rather than one
    /// byte per character.
    pub ext_char: bool,
    pub fc_min: u32,
    pub fc_mac: u32,
    /// Story lengths in characters, in piece-table order: main text,
    /// footnotes, headers, macros, comments, endnotes, text boxes, header
    /// text boxes.
    pub ccp: [u32; 8],
    pub fc_clx: u32,
    pub lcb_clx: u32,
}

/// Length of a Word 6/95 FIB.
pub const FIB_LEN: usize = 0x168;

/// The FIB a stream of at least `FIB_LEN` bytes holds.
pub open spec fn spec_word6_fib(d: Seq<u8>) -> Word6Fib {
    let flags = le16(d, 0x0A);
    Word6Fib {
        lid: le16(d, 0x06) as u16,
        complex: (flags / 4) % 2 == 1,
        ext_char: (flags / 0x1000) % 2 == 1,
        fc_min: le32(d, 0x18) as u32,
        fc_mac: le32(d, 0x1C) as u32,
        ccp: [
            le32(d, 0x34) as u32,
            le32(d, 0x38) as u32,
            le32(d, 0x3C) as u32,
            le32(d, 0x40) as u32,
            le32(d, 0x44) as u32,
            le32(d, 0x48) as u32,
            le32(d, 0x4C) as u32,
            le32(d, 0x50) as u32,
        ],
        fc_clx: le32(d, 0x160) as u32,
        lcb_clx: le32(d, 0x164) as u32,
    }
}

/// Whether the FIB's `fEncrypted` flag is set.
pub open spec fn spec_word6_encrypted(d: Seq<u8>) -> bool {
    (le16(d, 0x0A) / 0x100) % 2 == 1
}

/// Parse a Word 6/95 FIB: too short a stream is an invalid FIB, an
/// encrypted file is refused.
pub fn parse_fib(data: &[u8]) -> (r: Result<Word6Fib, DocError>)
    ensures
        data@.len() < FIB_LEN ==> r matches Err(DocError::InvalidFib(_)),
        data@.len() >= FIB_LEN && spec_word6_encrypted(data@) ==> r matches Err(DocError::Encrypted),
        data@.len() >= FIB_LEN && !spec_word6_encrypted(data@) ==> r == Ok::<Word6Fib, DocError>(spec_word6_fib(data@)),
{
    if data.len() < FIB_LEN {
        return Err(DocError::InvalidFib("WordDocument stream too short for a Word 6/95 FIB".to_owned()));
    }
    let flags = read_u16_le(data, 0x0A);
    if (flags / 0x100) % 2 == 1 {
        return Err(DocError::Encrypted);
    }
    let ccp = [
        read_u32_le(data, 0x34),
        read_u32_le(data, 0x38),
        read_u32_le(data, 0x3C),
        read_u32_le(data, 0x40),
        read_u32_le(data, 0x44),
        read_u32_le(data, 0x48),
        read_u32_le(data, 0x4C),
        read_u32_le(data, 0x50),
    ];
    let fib = Word6Fib {
        lid: read_u16_le(data, 0x06),
        complex: (flags / 4) % 2 == 1,
        ext_char: (flags / 0x1000) % 2 == 1,
        fc_min: read_u32_le(data, 0x18),
        fc_mac: read_u32_le(data, 0x1C),
        ccp,
        fc_clx: read_u32_le(data, 0x160),
        lcb_clx: read_u32_le(data, 0x164),
    };
    assert(fib.ccp@ =~= spec_word6_fib(data@).ccp@);
    Ok(fib)
}

/// The Word 1.x/2.0 FIB of a flat file: the Word 6 fields it shares, with
/// `fExtChar` cleared and only the five stories Word 2 has.
pub open spec fn spec_word2_fib(d: Seq<u8>) -> Word6Fib {
    let f = spec_word6_fib(d);
    Word6Fib {
        ext_char: false,
        ccp: [f.ccp[0], f.ccp[1], f.ccp[2], f.ccp[3], f.ccp[4], 0, 0, 0],
        ..f
    }
}

/// Parse a Word 1.x/2.0 FIB (at least 0x180 bytes, else an invalid FIB).
pub fn parse_word2_fib(data: &[u8]) -> (r: Result<Word6Fib, DocError>)
    ensures
        data@.len() < 0x180 ==> r matches Err(DocError::InvalidFib(_)),
        data@.len() >= 0x180 && spec_word6_encrypted(data@) ==> r matches Err(DocError::Encrypted),
        data@.len() >= 0x180 && !spec_word6_encrypted(data@) ==> r == Ok::<Word6Fib, DocError>(spec_word2_fib(data@)),
{
    if data.len() < 0x180 {
        return Err(DocError::InvalidFib("file too short for a Word 2.0 FIB".to_owned()));
    }
    let mut fib = parse_fib(data)?;
    fib.ext_char = false;
    fib.ccp.set(5, 0);
    fib.ccp.set(6, 0);
    fib.ccp.set(7, 0);
    assert(fib.ccp =~= spec_word2_fib(data@).ccp);
    Ok(fib)
}

/// The FC of a compressed piece whose text starts at byte `b`: `2 * b`
/// with bit 30 set, when `2 * b` fits in 32 bits.
pub open spec fn spec_compressed_fc(b: u32) -> Option<u32> {
    let v = 2 * b;
    if v > u32::MAX {
        None
    } else if (v / 0x4000_0000) % 2 == 1 {
        Some(v as u32)
    } else {
        Some((v + 0x4000_0000) as u32)
    }
}

pub fn compressed_fc(byte_offset: u32) -> (r: Option<u32>)
    ensures
        r == spec_compressed_fc(byte_offset),
{
    if byte_offset > 0x7FFF_FFFF {
        return None;
    }
    let v = byte_offset * 2;
    if (v / 0x4000_0000) % 2 == 1 {
        Some(v)
    } else {
        Some(v + 0x4000_0000)
    }
}

/// The declared story lengths added up, `u32::MAX` when they overflow.
pub open spec fn declared_len(ccp: Seq<u32>, n: int) -> int
    decreases n,
{
    if n <= 0 {
        0
    } else {
        let prev = declared_len(ccp, n - 1);
        if prev == u32::MAX as int {
            u32::MAX as int
        } else if prev + ccp[n - 1] > u32::MAX {
            u32::MAX as int
        } else {
            prev + ccp[n - 1]
        }
    }
}

/// One piece covering the stories laid out contiguously from `fcMin`: as
/// many characters as the stories declare, at most as many as lie between
/// `fcMin` and `fcMac` (both clamped to the stream).
pub open spec fn spec_contiguous_piece(len: int, fib: Word6Fib) -> Piece {
    let stream_len = (len % 0x1_0000_0000) as int;
    let unit = if fib.ext_char { 2int } else { 1int };
    let fc_min = if fib.fc_min <= stream_len { fib.fc_min as int } else { stream_len };
    let fc_mac = if fib.fc_mac <= stream_len { fib.fc_mac as int } else { stream_len };
    let available = if fc_mac > fc_min { (fc_mac - fc_min) / unit } else { 0 };
    let declared = declared_len(fib.ccp@, 8);
    let cp_end = if declared <= available { declared } else { available };
    if fib.ext_char {
        Piece { cp_start: 0, cp_end: cp_end as u32, fc: fc_min as u32, is_compressed: false }
    } else {
        Piece {
            cp_start: 0,
            cp_end: cp_end as u32,
            fc: match spec_compressed_fc(fc_min as u32) {
                Some(f) => f,
                None => 0x4000_0000,
            },
            is_compressed: true,
        }
    }
}

/// One piece covering the stories stored contiguously from `fcMin`.
pub fn contiguous_piece(word_doc: &[u8], fib: &Word6Fib) -> (r: Piece)
    ensures
        r == spec_contiguous_piece(word_doc@.len() as int, *fib),
{
    let stream_len = (word_doc.len() as u64 % 0x1_0000_0000) as u32;
    let unit: u32 = if fib.ext_char { 2 } else { 1 };
    let fc_min = if fib.fc_min <= stream_len { fib.fc_min } else { stream_len };
    let fc_mac = if fib.fc_mac <= stream_len { fib.fc_mac } else { stream_len };
    let available = if fc_mac > fc_min { (fc_mac - fc_min) / unit } else { 0 };
    let mut declared: u32 = 0;
    let mut i: usize = 0;
    while i < 8
        invariant
            i <= 8,
            fib.ccp@.len() == 8,
            declared as int == declared_len(fib.ccp@, i as int),
        decreases 8 - i,
    {
        let c = fib.ccp[i];
        if declared == u32::MAX || c > u32::MAX - declared {
            declared = u32::MAX;
        } else {
            declared = declared + c;
        }
        i = i + 1;
    }
    let cp_end = if declared <= available { declared } else { available };
    if fib.ext_char {
        Piece { cp_start: 0, cp_end, fc: fc_min, is_compressed: false }
    } else {
        let fc = match compressed_fc(fc_min) {
            Some(f) => f,
            None => 0x4000_0000,
        };
        Piece { cp_start: 0, cp_end, fc, is_compressed: true }
    }
}

/// A Word 6/95 piece re-expressed for the shared extractor: its byte
/// offset (its `fc` is a plain offset; a bit-30 `fc` is read as the Word 97
/// encoding) clamped to the stream, then stored as UTF-16 when `ext_char`,
/// else as a compressed FC; `None` when the compressed FC overflows.
pub open spec fn spec_word6_piece(p: Piece, stream_len: int, ext_char: bool) -> Option<Piece> {
    let fc0 = if p.is_compressed { clear_bit30(p.fc as int) / 2 } else { p.fc as int };
    let fc = if fc0 <= stream_len { fc0 } else { stream_len };
    if ext_char {
        Some(Piece { fc: fc as u32, is_compressed: false, ..p })
    } else {
        match spec_compressed_fc(fc as u32) {
            Some(f) => Some(Piece { fc: f, is_compressed: true, ..p }),
            None => None,
        }
    }
}

/// The re-expressed pieces, `None` when any overflows.
pub open spec fn spec_word6_pieces(ps: Seq<Piece>, stream_len: int, ext_char: bool) -> Option<Seq<Piece>>
    decreases ps.len(),
{
    if ps.len() == 0 {
        Some(Seq::empty())
    } else {
        match spec_word6_pieces(ps.drop_last(), stream_len, ext_char) {
            None => None,
            Some(prev) => match spec_word6_piece(ps.last(), stream_len, ext_char) {
                None => None,
                Some(p) => Some(prev.push(p)),
            },
        }
    }
}

/// The piece table of a Word 6/95 file: a complex file's CLX (inside the
/// `WordDocument` stream) with each piece re-expressed, or one contiguous
/// piece.
pub open spec fn spec_word6_piece_table(d: Seq<u8>, fib: Word6Fib) -> Option<Seq<Piece>> {
    if fib.complex && fib.lcb_clx != 0 {
        let start = fib.fc_clx as int;
        let end = start + fib.lcb_clx as int;
        if start >= d.len() || end > d.len() {
            None
        } else {
            match spec_clx(d.subrange(start, end), 0) {
                None => None,
                Some(ps) => spec_word6_pieces(ps, (d.len() % 0x1_0000_0000) as int, fib.ext_char),
            }
        }
    } else {
        Some(seq![spec_contiguous_piece(d.len() as int, fib)])
    }
}

/// The piece table for the whole character space: every piece 8-bit, or
/// every piece UTF-16 when the FIB says `fExtChar`. A CLX outside the
/// stream, a malformed CLX or an out-of-range piece offset is an invalid
/// piece table.
pub fn pieces(word_doc: &[u8], fib: &Word6Fib) -> (r: Result<Vec<Piece>, DocError>)
    requires
        len_ok(word_doc@.len() as int),
    ensures
        r matches Ok(v) ==> spec_word6_piece_table(word_doc@, *fib) == Some(v@),
        r is Err ==> spec_word6_piece_table(word_doc@, *fib) is None,
        r matches Err(e) ==> e is InvalidPieceTable,
{
    let stream_len = (word_doc.len() as u64 % 0x1_0000_0000) as u32;
    if fib.complex && fib.lcb_clx != 0 {
        let start = fib.fc_clx as usize;
        if start >= word_doc.len() || fib.lcb_clx as usize > word_doc.len() - start {
            return Err(DocError::InvalidPieceTable("CLX is outside the WordDocument stream".to_owned()));
        }
        let end = start + fib.lcb_clx as usize;
        let clx = vstd::slice::slice_subrange(word_doc, start, end);
        let ps = parse_clx(clx)?;
        let mut out: Vec<Piece> = Vec::new();
        let mut i: usize = 0;
        while i < ps.len()
            invariant
                i <= ps@.len(),
                stream_len == word_doc@.len() % 0x1_0000_0000,
                spec_clx(clx@, 0) == Some(ps@),
                fib.complex && fib.lcb_clx != 0,
                start == fib.fc_clx,
                end == start + fib.lcb_clx,
                start < word_doc@.len(),
                end <= word_doc@.len(),
                clx@ == word_doc@.subrange(start as int, end as int),
                spec_word6_pieces(ps@.take(i as int), stream_len as int, fib.ext_char) == Some(out@),
            decreases ps@.len() - i,
        {
            let p = ps[i];
            proof {
                assert(ps@.take(i + 1 as int).drop_last() =~= ps@.take(i as int));
            }
            let fc0 = if p.is_compressed { clear_bit30_u32(p.fc) / 2 } else { p.fc };
            let fc = if fc0 <= stream_len { fc0 } else { stream_len };
            if fib.ext_char {
                out.push(Piece { fc, is_compressed: false, ..p });
            } else {
                match compressed_fc(fc) {
                    Some(f) => {
                        out.push(Piece { fc: f, is_compressed: true, ..p });
                    },
                    None => {
                        proof {
                            let k = (i + 1) as int;
                            assert(ps@.take(k).last() == p);
                            assert(spec_word6_piece(p, stream_len as int, fib.ext_char) is None);
                            assert(spec_word6_pieces(ps@.take(k), stream_len as int, fib.ext_char) is None);
                            lemma_word6_pieces_none(ps@, k, stream_len as int, fib.ext_char);
                            assert(ps@.take(ps@.len() as int) =~= ps@);
                            assert(spec_clx(clx@, 0) == Some(ps@));
                            assert(clx@ == word_doc@.subrange(start as int, end as int));
                        }
                        return Err(DocError::InvalidPieceTable("piece offset is out of range".to_owned()));
                    },
                }
            }
            i = i + 1;
        }
        assert(ps@.take(ps@.len() as int) =~= ps@);
        return Ok(out);
    }
    let mut v: Vec<Piece> = Vec::new();
    v.push(contiguous_piece(word_doc, fib));
    assert(v@ =~= seq![spec_contiguous_piece(word_doc@.len() as int, *fib)]);
    Ok(v)
}

proof fn lemma_word6_pieces_none(ps: Seq<Piece>, k: int, stream_len: int, ext_char: bool)
    requires
        0 <= k <= ps.len(),
        spec_word6_pieces(ps.take(k), stream_len, ext_char) is None,
    ensures
        spec_word6_pieces(ps, stream_len, ext_char) is None,
    decreases ps.len() - k,
{
    if k < ps.len() {
        assert(ps.take(k + 1).drop_last() =~= ps.take(k));
        lemma_word6_pieces_none(ps, k + 1, stream_len, ext_char);
    } else {
        assert(ps.take(k) =~= ps);
    }
}

/// The character space the pieces reach: the largest `cp_end`.
pub open spec fn max_cp_end(pieces: Seq<Piece>) -> int
    decreases pieces.len(),
{
    if pieces.len() == 0 {
        0
    } else {
        let m = max_cp_end(pieces.drop_last());
        if pieces.last().cp_end > m { pieces.last().cp_end as int } else { m }
    }
}

/// Stories `i..8` from CP `cp` on: each non-empty story that starts
/// inside the covered space is extracted (up to its declared length,
/// within the covered space) and sanitised; the main text (story 0) is
/// kept whatever it holds, other stories only when not blank.
pub open spec fn story_walk(
    d: Seq<u8>,
    fib: Word6Fib,
    pieces: Seq<Piece>,
    covered: int,
    i: int,
    cp: int,
) -> (Seq<char>, Seq<(usize, Seq<char>)>)
    decreases 8 - i,
{
    if i >= 8 || i < 0 {
        (Seq::empty(), Seq::empty())
    } else {
        let len = fib.ccp[i] as int;
        if len == 0 || cp >= covered {
            story_walk(d, fib, pieces, covered, i + 1, cp)
        } else {
            let e0 = if cp + len > u32::MAX { u32::MAX as int } else { cp + len };
            let end = if e0 <= covered { e0 } else { covered };
            let text = sanitize_from(spec_extract(d, pieces, cp, end, fib.lid), Seq::empty());
            let rest = story_walk(d, fib, pieces, covered, i + 1, end);
            if i == 0 {
                (text, rest.1)
            } else if trim_seq(text).len() > 0 {
                (rest.0, seq![(i as usize, text)] + rest.1)
            } else {
                rest
            }
        }
    }
}

/// The main text and each non-blank subdocument, sanitised, with its
/// story index.
pub fn stories(word_doc: &[u8], fib: &Word6Fib, pieces: &[Piece]) -> (r: (String, Vec<(usize, String)>))
    requires
        len_ok(word_doc@.len() as int),
    ensures
        r.0@ == story_walk(word_doc@, *fib, pieces@, max_cp_end(pieces@), 0, 0).0,
        r.1@.map_values(|e: (usize, String)| (e.0, e.1@)) == story_walk(word_doc@, *fib, pieces@, max_cp_end(pieces@), 0, 0).1,
{
    let mut covered: u32 = 0;
    let mut k: usize = 0;
    while k < pieces.len()
        invariant
            k <= pieces@.len(),
            covered == max_cp_end(pieces@.take(k as int)),
        decreases pieces@.len() - k,
    {
        proof {
            assert(pieces@.take(k + 1 as int).drop_last() =~= pieces@.take(k as int));
        }
        if pieces[k].cp_end > covered {
            covered = pieces[k].cp_end;
        }
        k = k + 1;
    }
    assert(pieces@.take(pieces@.len() as int) =~= pieces@);
    let ghost target = story_walk(word_doc@, *fib, pieces@, covered as int, 0, 0);
    let mut cp: u32 = 0;
    let mut main = String::new();
    let mut main_set = false;
    let mut subs: Vec<(usize, String)> = Vec::new();
    let mut i: usize = 0;
    while i < 8
        invariant
            len_ok(word_doc@.len() as int),
            i <= 8,
            fib.ccp@.len() == 8,
            target == story_walk(word_doc@, *fib, pieces@, covered as int, 0, 0),
            !main_set ==> i == 0 || target.0 == story_walk(word_doc@, *fib, pieces@, covered as int, i as int, cp as int).0,
            main_set ==> main@ == target.0,
            !main_set ==> main@ == Seq::<char>::empty(),
            i == 0 ==> cp == 0 && !main_set,
            i > 0 && !main_set ==> target.0 == Seq::<char>::empty() || target.0 == story_walk(word_doc@, *fib, pieces@, covered as int, i as int, cp as int).0,
            subs@.map_values(|e: (usize, String)| (e.0, e.1@)) + story_walk(word_doc@, *fib, pieces@, covered as int, i as int, cp as int).1 == target.1,
        decreases 8 - i,
    {
        let len = fib.ccp[i];
        if len == 0 || cp >= covered {
            i = i + 1;
            continue;
        }
        let e0 = if len > u32::MAX - cp { u32::MAX } else { cp + len };
        let end = if e0 <= covered { e0 } else { covered };
        let raw = extract_text_range(word_doc, pieces, cp, end, fib.lid);
        let text = sanitize_text(raw.as_str());
        let ghost rest = story_walk(word_doc@, *fib, pieces@, covered as int, i + 1, end as int);
        if i == 0 {
            main = text;
            main_set = true;
        } else if !is_blank(text.as_str()) {
            let ghost before = subs@.map_values(|e: (usize, String)| (e.0, e.1@));
            subs.push((i, text));
            proof {
                assert(subs@.map_values(|e: (usize, String)| (e.0, e.1@)) =~= before.push((i, text@)));
                assert(before.push((i, text@)) + rest.1 =~= before + (seq![(i, text@)] + rest.1));
            }
        }
        cp = end;
        i = i + 1;
    }
    (main, subs)
}

} // verus!
