//! The piece table: where each run of the document's character space
//! (CPs) is stored in the WordDocument stream (FCs), and the conversions
//! between the two.

use vstd::prelude::*;
use crate::bytes::{as_signed16, le16, le32, len_ok, read_u16_le, read_u32_le};
use crate::text::{string_from_chars, utf16_decode, utf16_to_chars, trim_start_seq, utf8_len, char_utf8_len, is_whitespace, chars_of};
use super::sprm::ChpProps;
use super::codepage::{decode_byte, spec_decode_byte};
use super::error::DocError;

verus! {

/// One piece: CPs `[cp_start, cp_end)` stored from `fc` on, one byte per
/// character when `is_compressed` (with `fc` carrying `byte_offset * 2` and
/// bit 30 set), else two bytes per character from byte `fc`.
#[derive(Debug, Clone, Copy, PartialEq, Eq, Structural)]
pub struct Piece {
    /// First CP of the piece.
    pub cp_start: u32,
    /// CP just past the piece.
    pub cp_end: u32,
    /// Storage position, in the encoding `is_compressed` selects.
    pub fc: u32,
    /// One byte per character (8-bit codepage text) rather than UTF-16.
    pub is_compressed: bool,
}

/// `fc` with bit 30 cleared.
pub open spec fn clear_bit30(fc: int) -> int {
    if (fc / 0x4000_0000) % 2 == 1 {
        fc - 0x4000_0000
    } else {
        fc
    }
}

pub fn clear_bit30_u32(fc: u32) -> (r: u32)
    ensures
        r as int == clear_bit30(fc as int),
{
    if (fc / 0x4000_0000) % 2 == 1 {
        fc - 0x4000_0000
    } else {
        fc
    }
}

/// A file position with the compressed flag (bit 30) decoded to its real
/// byte offset.
pub open spec fn fc_norm(fc: int) -> int {
    if (fc / 0x4000_0000) % 2 == 1 {
        clear_bit30(fc) / 2
    } else {
        fc
    }
}

/// Real byte offset of a piece's first character.
pub open spec fn piece_base(p: Piece) -> int {
    if p.is_compressed {
        clear_bit30(p.fc as int) / 2
    } else {
        p.fc as int
    }
}

/// Bytes per character of a piece.
pub open spec fn piece_stride(p: Piece) -> int {
    if p.is_compressed {
        1
    } else {
        2
    }
}

/// Piece `i` of a `PlcPcd` of `n` pieces starting at `start`: CPs from the
/// CP array, and the PCD's `FcCompressed` (bit 30 the compressed flag, bit
/// 31 reserved and cleared).
pub open spec fn spec_piece(d: Seq<u8>, start: int, n: int, i: int) -> Piece {
    let raw = le32(d, start + 4 * (n + 1) + 8 * i + 2);
    Piece {
        cp_start: le32(d, start + 4 * i) as u32,
        cp_end: le32(d, start + 4 * (i + 1)) as u32,
        fc: (raw % 0x8000_0000) as u32,
        is_compressed: (raw / 0x4000_0000) % 2 == 1,
    }
}

/// The pieces of the CLX from `pos` on: `Prc` entries (`clxt` 1, an `i16`
/// length, that many bytes) are skipped; the `Pcdt` (`clxt` 2, a `u32`
/// length, a `PlcPcd` of `n + 1` CPs and `n` 8-byte PCDs) gives the
/// pieces. `None` for anything else: another `clxt`, a negative or
/// overrunning length, a `PlcPcd` length that is not `4 + 12 n`, or no
/// `Pcdt` at all.
pub open spec fn spec_clx(d: Seq<u8>, pos: int) -> Option<Seq<Piece>>
    decreases d.len() - pos,
{
    if pos < 0 || pos >= d.len() {
        None
    } else if d[pos] == 1 {
        if pos + 3 > d.len() {
            None
        } else {
            let cb = as_signed16(le16(d, pos + 1));
            if cb < 0 || pos + 3 + cb >= d.len() {
                None
            } else {
                spec_clx(d, pos + 3 + cb)
            }
        }
    } else if d[pos] == 2 {
        if pos + 5 > d.len() {
            None
        } else {
            let lcb = le32(d, pos + 1);
            if lcb > d.len() - (pos + 5) || lcb < 4 || (lcb - 4) % 12 != 0 {
                None
            } else {
                let n = (lcb - 4) / 12;
                Some(Seq::new(n as nat, |i: int| spec_piece(d, pos + 5, n, i)))
            }
        }
    } else {
        None
    }
}

/// Parse a CLX into its pieces.
pub fn parse_clx(clx: &[u8]) -> (r: Result<Vec<Piece>, DocError>)
    requires
        len_ok(clx@.len() as int),
    ensures
        r matches Ok(v) ==> spec_clx(clx@, 0) == Some(v@),
        r is Err ==> spec_clx(clx@, 0) is None,
        r matches Err(e) ==> e is InvalidPieceTable,
{
    let mut pos: usize = 0;
    while pos < clx.len()
        invariant
            len_ok(clx@.len() as int),
            spec_clx(clx@, pos as int) == spec_clx(clx@, 0),
        decreases clx@.len() - pos,
    {
        let clxt = clx[pos];
        if clxt == 1 {
            if clx.len() - pos < 3 {
                return Err(DocError::InvalidPieceTable("truncated Prc in CLX".to_owned()));
            }
            let raw = read_u16_le(clx, pos + 1);
            if raw >= 0x8000 {
                return Err(DocError::InvalidPieceTable("negative Prc length in CLX".to_owned()));
            }
            if raw as usize >= clx.len() - pos - 3 {
                return Err(DocError::InvalidPieceTable("CLX holds no Pcdt".to_owned()));
            }
            pos = pos + 3 + raw as usize;
        } else if clxt == 2 {
            if clx.len() - pos < 5 {
                return Err(DocError::InvalidPieceTable("truncated Pcdt in CLX".to_owned()));
            }
            let lcb = read_u32_le(clx, pos + 1) as usize;
            let start = pos + 5;
            if lcb > clx.len() - start || lcb < 4 || (lcb - 4) % 12 != 0 {
                return Err(DocError::InvalidPieceTable("malformed PlcPcd in CLX".to_owned()));
            }
            let n = (lcb - 4) / 12;
            let mut pieces: Vec<Piece> = Vec::new();
            let mut i: usize = 0;
            while i < n
                invariant
                    i <= n,
                    len_ok(clx@.len() as int),
                    n * 12 + 4 == lcb,
                    start + lcb <= clx@.len(),
                    pieces@.len() == i,
                    forall|k: int| 0 <= k < i ==> #[trigger] pieces@[k] == spec_piece(clx@, start as int, n as int, k),
                decreases n - i,
            {
                assert(start + 4 * (n + 1) + 8 * i + 6 <= clx@.len() && start + 4 * (i + 1) + 4 <= clx@.len()) by (nonlinear_arith)
                    requires n * 12 + 4 == lcb, start + lcb <= clx@.len(), i < n;
                let cp_start = read_u32_le(clx, start + 4 * i);
                let cp_end = read_u32_le(clx, start + 4 * (i + 1));
                let raw = read_u32_le(clx, start + 4 * (n + 1) + 8 * i + 2);
                pieces.push(Piece {
                    cp_start,
                    cp_end,
                    fc: raw % 0x8000_0000,
                    is_compressed: (raw / 0x4000_0000) % 2 == 1,
                });
                i = i + 1;
            }
            proof {
                assert(pieces@ =~= Seq::new(n as nat, |k: int| spec_piece(clx@, start as int, n as int, k)));
            }
            return Ok(pieces);
        } else {
            return Err(DocError::InvalidPieceTable("unknown clxt in CLX".to_owned()));
        }
    }
    Err(DocError::InvalidPieceTable("CLX holds no Pcdt".to_owned()))
}

/// How far the pieces, taken in order, cover the character space from
/// CP 0 without a gap: each piece that starts at or before the reach so
/// far and ends after it extends it.
pub open spec fn piece_reach(pieces: Seq<Piece>) -> int
    decreases pieces.len(),
{
    if pieces.len() == 0 {
        0
    } else {
        let r = piece_reach(pieces.drop_last());
        let p = pieces.last();
        if p.cp_start <= r && p.cp_end > r {
            p.cp_end as int
        } else {
            r
        }
    }
}

/// Whether the pieces cover the declared text length `[0, text_len)`
/// without a gap.
pub fn covers_declared_length(pieces: &[Piece], text_len: u32) -> (r: bool)
    ensures
        r == (piece_reach(pieces@) >= text_len),
{
    let mut reach: u32 = 0;
    let mut i: usize = 0;
    while i < pieces.len()
        invariant
            i <= pieces@.len(),
            reach == piece_reach(pieces@.take(i as int)),
        decreases pieces@.len() - i,
    {
        let p = pieces[i];
        proof {
            assert(pieces@.take(i + 1 as int).drop_last() =~= pieces@.take(i as int));
        }
        if p.cp_start <= reach && p.cp_end > reach {
            reach = p.cp_end;
        }
        i = i + 1;
    }
    assert(pieces@.take(pieces@.len() as int) =~= pieces@);
    reach >= text_len
}

/// Whether some piece holds CP `x`.
pub open spec fn cp_in_pieces(pieces: Seq<Piece>, x: int) -> bool {
    exists|k: int| 0 <= k < pieces.len() && (#[trigger] pieces[k]).cp_start <= x && x < pieces[k].cp_end
}

/// Every CP below the pieces' reach lies in some piece: when
/// `covers_declared_length` holds, every CP of the declared text is stored.
pub proof fn lemma_reach_is_covered(pieces: Seq<Piece>, x: int)
    requires
        0 <= x < piece_reach(pieces),
    ensures
        cp_in_pieces(pieces, x),
    decreases pieces.len(),
{
    let r = piece_reach(pieces.drop_last());
    let p = pieces.last();
    if x < r {
        lemma_reach_is_covered(pieces.drop_last(), x);
        let k = choose|k: int| 0 <= k < pieces.drop_last().len() && (#[trigger] pieces.drop_last()[k]).cp_start <= x && x < pieces.drop_last()[k].cp_end;
        assert(pieces[k] == pieces.drop_last()[k]);
    } else {
        assert(pieces[pieces.len() - 1] == p);
    }
}

/// How many characters of piece `p` from CP `lo` on the stream holds:
/// `stride` bytes each from the piece's base.
pub open spec fn stored_units(len: int, p: Piece, lo: int) -> int {
    let at = piece_base(p) + piece_stride(p) * (lo - p.cp_start);
    if at >= len { 0 } else { (len - at) / piece_stride(p) }
}

/// The characters of CPs `[cp_start, cp_end)` that piece `p` holds and
/// the stream stores: 8-bit text decoded in the `lid`'s codepage, or
/// UTF-16 decoded with unpaired surrogates as U+FFFD; characters past the
/// stream's end are left out.
pub open spec fn piece_text(d: Seq<u8>, p: Piece, cp_start: int, cp_end: int, lid: u16) -> Seq<char> {
    let lo = if cp_start >= p.cp_start { cp_start } else { p.cp_start as int };
    let hi = if cp_end <= p.cp_end { cp_end } else { p.cp_end as int };
    if lo >= hi {
        Seq::empty()
    } else {
        let avail = stored_units(d.len() as int, p, lo);
        let n = if hi - lo <= avail { hi - lo } else { avail };
        let at = piece_base(p) + piece_stride(p) * (lo - p.cp_start);
        if p.is_compressed {
            Seq::new(n as nat, |j: int| spec_decode_byte(d[at + j], lid))
        } else {
            utf16_decode(Seq::new(n as nat, |j: int| le16(d, at + 2 * j) as u16))
        }
    }
}

/// The text of CPs `[cp_start, cp_end)`: each piece's share, piece after
/// piece.
pub open spec fn spec_extract(d: Seq<u8>, pieces: Seq<Piece>, cp_start: int, cp_end: int, lid: u16) -> Seq<char>
    decreases pieces.len(),
{
    if pieces.len() == 0 {
        Seq::empty()
    } else {
        spec_extract(d, pieces.drop_last(), cp_start, cp_end, lid) + piece_text(d, pieces.last(), cp_start, cp_end, lid)
    }
}

fn piece_chars(word_doc: &[u8], p: Piece, cp_start: u32, cp_end: u32, lid: u16, out: &mut Vec<char>)
    requires
        len_ok(word_doc@.len() as int),
    ensures
        final(out)@ == old(out)@ + piece_text(word_doc@, p, cp_start as int, cp_end as int, lid),
{
    let lo = if cp_start >= p.cp_start { cp_start } else { p.cp_start };
    let hi = if cp_end <= p.cp_end { cp_end } else { p.cp_end };
    if lo >= hi {
        assert(old(out)@ + piece_text(word_doc@, p, cp_start as int, cp_end as int, lid) =~= out@);
        return;
    }
    let base: u64 = if p.is_compressed { (clear_bit30_u32(p.fc) / 2) as u64 } else { p.fc as u64 };
    let stride: u64 = if p.is_compressed { 1 } else { 2 };
    let at: u64 = base + stride * ((lo - p.cp_start) as u64);
    let len = word_doc.len() as u64;
    let avail: u64 = if at >= len { 0 } else { (len - at) / stride };
    let n: u64 = if ((hi - lo) as u64) <= avail { (hi - lo) as u64 } else { avail };
    proof {
        assert(at as int == piece_base(p) + piece_stride(p) * (lo - p.cp_start));
        assert(avail as int == stored_units(word_doc@.len() as int, p, lo as int));
        if n > 0 {
            assert(at + stride * n <= len) by (nonlinear_arith)
                requires n <= avail, avail as int == (len as int - at as int) / (stride as int), at < len, stride == 1 || stride == 2;
        }
    }
    let ghost before = out@;
    if p.is_compressed {
        let mut j: u64 = 0;
        while j < n
            invariant
                j <= n,
                n > 0 ==> at + n <= len,
                len == word_doc@.len(),
                len_ok(word_doc@.len() as int),
                out@ == before + Seq::new(j as nat, |k: int| spec_decode_byte(word_doc@[at + k], lid)),
            decreases n - j,
        {
            let b = word_doc[(at + j) as usize];
            out.push(decode_byte(b, lid));
            j = j + 1;
            assert(out@ =~= before + Seq::new(j as nat, |k: int| spec_decode_byte(word_doc@[at + k], lid)));
        }
    } else {
        let mut units: Vec<u16> = Vec::new();
        let mut j: u64 = 0;
        while j < n
            invariant
                j <= n,
                n > 0 ==> at + 2 * n <= len,
                len == word_doc@.len(),
                len_ok(word_doc@.len() as int),
                units@ == Seq::new(j as nat, |k: int| le16(word_doc@, at + 2 * k) as u16),
            decreases n - j,
        {
            let u = read_u16_le(word_doc, (at + 2 * j) as usize);
            units.push(u);
            j = j + 1;
            assert(units@ =~= Seq::new(j as nat, |k: int| le16(word_doc@, at + 2 * k) as u16));
        }
        let cs = utf16_to_chars(units.as_slice());
        let mut k: usize = 0;
        while k < cs.len()
            invariant
                k <= cs@.len(),
                out@ == before + cs@.take(k as int),
            decreases cs@.len() - k,
        {
            out.push(cs[k]);
            k = k + 1;
            assert(out@ =~= before + cs@.take(k as int));
        }
        assert(cs@.take(cs@.len() as int) =~= cs@);
    }
}

/// The raw text of CPs `[cp_start, cp_end)` through the piece table, in
/// piece order; no sanitising.
pub fn extract_text_range(word_doc: &[u8], pieces: &[Piece], cp_start: u32, cp_end: u32, lid: u16) -> (r: String)
    requires
        len_ok(word_doc@.len() as int),
    ensures
        r@ == spec_extract(word_doc@, pieces@, cp_start as int, cp_end as int, lid),
{
    let mut out: Vec<char> = Vec::new();
    let mut i: usize = 0;
    while i < pieces.len()
        invariant
            len_ok(word_doc@.len() as int),
            i <= pieces@.len(),
            out@ == spec_extract(word_doc@, pieces@.take(i as int), cp_start as int, cp_end as int, lid),
        decreases pieces@.len() - i,
    {
        proof {
            assert(pieces@.take(i + 1 as int).drop_last() =~= pieces@.take(i as int));
        }
        piece_chars(word_doc, pieces[i], cp_start, cp_end, lid, &mut out);
        i = i + 1;
    }
    assert(pieces@.take(pieces@.len() as int) =~= pieces@);
    string_from_chars(out.as_slice())
}

/// The text of `[cursor, end)` outside the ranges `ex`, taken in order:
/// the stretch before each range is kept, the cursor then moves past it.
pub open spec fn spec_extract_excluding(
    d: Seq<u8>,
    pieces: Seq<Piece>,
    lid: u16,
    ex: Seq<(u32, u32)>,
    cursor: int,
    end: int,
) -> Seq<char>
    decreases ex.len(),
{
    if ex.len() == 0 {
        if cursor < end { spec_extract(d, pieces, cursor, end, lid) } else { Seq::empty() }
    } else {
        let (a, b) = ex[0];
        let kept = if a > cursor {
            spec_extract(d, pieces, cursor, if (a as int) <= end { a as int } else { end }, lid)
        } else {
            Seq::empty()
        };
        let next = if (b as int) > cursor { b as int } else { cursor };
        kept + spec_extract_excluding(d, pieces, lid, ex.drop_first(), next, end)
    }
}

/// The raw text of `[cp_start, cp_end)` leaving out the CPs of the
/// `excluded` ranges (sorted, as `resolve_deleted_cp_ranges_from_runs`
/// gives them).
pub fn extract_text_range_excluding(
    word_doc: &[u8],
    pieces: &[Piece],
    cp_start: u32,
    cp_end: u32,
    lid: u16,
    excluded: &[(u32, u32)],
) -> (r: String)
    requires
        len_ok(word_doc@.len() as int),
    ensures
        r@ == spec_extract_excluding(word_doc@, pieces@, lid, excluded@, cp_start as int, cp_end as int),
{
    let mut out = String::new();
    let mut cursor = cp_start;
    let mut i: usize = 0;
    let ghost target = spec_extract_excluding(word_doc@, pieces@, lid, excluded@, cp_start as int, cp_end as int);
    assert(excluded@.skip(0) =~= excluded@);
    while i < excluded.len()
        invariant
            len_ok(word_doc@.len() as int),
            i <= excluded@.len(),
            out@ + spec_extract_excluding(word_doc@, pieces@, lid, excluded@.skip(i as int), cursor as int, cp_end as int) == target,
        decreases excluded@.len() - i,
    {
        let (a, b) = excluded[i];
        proof {
            assert(excluded@.skip(i as int)[0] == excluded@[i as int]);
            assert(excluded@.skip(i as int).drop_first() =~= excluded@.skip(i + 1));
        }
        let ghost kept = if a > cursor {
            spec_extract(word_doc@, pieces@, cursor as int, if a <= cp_end { a as int } else { cp_end as int }, lid)
        } else {
            Seq::empty()
        };
        let ghost before = out@;
        if a > cursor {
            let stop = if a <= cp_end { a } else { cp_end };
            let t = extract_text_range(word_doc, pieces, cursor, stop, lid);
            out = concat(out, &t);
        }
        assert(out@ == before + kept);
        if b > cursor {
            cursor = b;
        }
        i = i + 1;
    }
    if cursor < cp_end {
        let t = extract_text_range(word_doc, pieces, cursor, cp_end, lid);
        out = concat(out, &t);
    } else {
        assert(out@ + Seq::<char>::empty() =~= out@);
    }
    out
}

/// `a` followed by `b`.
fn concat(a: String, b: &String) -> (r: String)
    ensures
        r@ == a@ + b@,
{
    let mut a = a;
    let cs = crate::text::chars_of(b.as_str());
    let ghost a0 = a@;
    let mut k: usize = 0;
    while k < cs.len()
        invariant
            k <= cs@.len(),
            cs@ == b@,
            a@ == a0 + cs@.take(k as int),
        decreases cs@.len() - k,
    {
        crate::text::push_char(&mut a, cs[k]);
        k = k + 1;
        assert(a@ =~= a0 + cs@.take(k as int));
    }
    assert(cs@.take(cs@.len() as int) =~= cs@);
    a
}

/// Field begin (`0x13`), separator (`0x14`) and end (`0x15`) marks.
pub open spec fn is_field_mark(c: char) -> bool {
    c == '\u{13}' || c == '\u{14}' || c == '\u{15}'
}

/// What a visible character becomes in plain text: paragraph marks,
/// line breaks and page breaks end a line, a cell mark separates with a
/// tab, a non-breaking hyphen is a hyphen; optional hyphens and object
/// anchors (`0x01`, `0x08`) vanish; everything else stays.
pub open spec fn plain_char(c: char) -> Seq<char> {
    if c == '\r' || c == '\u{b}' || c == '\u{c}' {
        seq!['\n']
    } else if c == '\u{7}' {
        seq!['\t']
    } else if c == '\u{1e}' {
        seq!['-']
    } else if c == '\u{1f}' || c == '\u{1}' || c == '\u{8}' {
        Seq::empty()
    } else {
        seq![c]
    }
}

/// The open fields after character `c`, each `true` while still in its
/// instruction (before its separator): a begin mark opens one, a separator
/// moves the innermost to its result, an end mark closes it.
pub open spec fn next_fields(stack: Seq<bool>, c: char) -> Seq<bool> {
    if c == '\u{13}' {
        stack.push(true)
    } else if c == '\u{14}' {
        if stack.len() > 0 { stack.drop_last().push(false) } else { stack }
    } else if c == '\u{15}' {
        if stack.len() > 0 { stack.drop_last() } else { stack }
    } else {
        stack
    }
}

/// Plain text of `s` with the fields `stack` open: field marks and every
/// character inside a field instruction (at any nesting depth) are left
/// out; the rest goes through `plain_char`.
pub open spec fn sanitize_from(s: Seq<char>, stack: Seq<bool>) -> Seq<char>
    decreases s.len(),
{
    if s.len() == 0 {
        Seq::empty()
    } else {
        let c = s[0];
        let out = if is_field_mark(c) || stack.contains(true) { Seq::empty() } else { plain_char(c) };
        out + sanitize_from(s.drop_first(), next_fields(stack, c))
    }
}

/// How many fields of `stack` are still in their instruction.
pub open spec fn count_instr(stack: Seq<bool>) -> int
    decreases stack.len(),
{
    if stack.len() == 0 {
        0
    } else {
        count_instr(stack.drop_last()) + if stack.last() { 1int } else { 0int }
    }
}

proof fn lemma_count_instr(stack: Seq<bool>)
    ensures
        count_instr(stack) >= 0,
        count_instr(stack) <= stack.len(),
        (count_instr(stack) > 0) == stack.contains(true),
    decreases stack.len(),
{
    if stack.len() > 0 {
        lemma_count_instr(stack.drop_last());
        if stack.drop_last().contains(true) {
            let k = choose|k: int| 0 <= k < stack.drop_last().len() && stack.drop_last()[k] == true;
            assert(stack[k] == true);
        }
        if stack.contains(true) && !stack.last() {
            let k = choose|k: int| 0 <= k < stack.len() && stack[k] == true;
            assert(stack.drop_last()[k] == true);
        }
        if stack.last() {
            assert(stack[stack.len() - 1] == true);
        }
    }
}

proof fn lemma_count_push(stack: Seq<bool>, b: bool)
    ensures
        count_instr(stack.push(b)) == count_instr(stack) + if b { 1int } else { 0int },
{
    assert(stack.push(b).drop_last() =~= stack);
}

/// Plain text of a stretch of document text: field instructions and field
/// marks removed, paragraph/line/page marks as newlines, cell marks as
/// tabs.
pub fn sanitize_text(raw: &str) -> (r: String)
    ensures
        r@ == sanitize_from(raw@, Seq::empty()),
{
    let cs = crate::text::chars_of(raw);
    let mut out: Vec<char> = Vec::new();
    let mut stack: Vec<bool> = Vec::new();
    let mut n_instr: usize = 0;
    let mut i: usize = 0;
    let ghost target = sanitize_from(raw@, Seq::empty());
    assert(cs@.skip(0) =~= cs@);
    assert(stack@ =~= Seq::<bool>::empty());
    while i < cs.len()
        invariant
            i <= cs@.len(),
            cs@ == raw@,
            n_instr == count_instr(stack@),
            stack@.len() <= i,
            out@ + sanitize_from(cs@.skip(i as int), stack@) == target,
        decreases cs@.len() - i,
    {
        let c = cs[i];
        let ghost rest = cs@.skip(i as int);
        let ghost old_stack = stack@;
        proof {
            assert(rest[0] == c);
            assert(rest.drop_first() =~= cs@.skip(i + 1));
            lemma_count_instr(stack@);
        }
        let ghost emitted = if is_field_mark(c) || old_stack.contains(true) { Seq::empty() } else { plain_char(c) };
        let ghost before = out@;
        if c == '\u{13}' {
            proof { lemma_count_push(stack@, true); }
            stack.push(true);
            n_instr = n_instr + 1;
        } else if c == '\u{14}' {
            if stack.len() > 0 {
                let top = stack.pop().unwrap();
                proof {
                    assert(old_stack.drop_last() =~= stack@);
                    lemma_count_push(stack@, top);
                    lemma_count_push(stack@, false);
                }
                if top {
                    n_instr = n_instr - 1;
                }
                stack.push(false);
            }
        } else if c == '\u{15}' {
            if stack.len() > 0 {
                let top = stack.pop().unwrap();
                proof {
                    assert(old_stack.drop_last() =~= stack@);
                    lemma_count_push(stack@, top);
                }
                if top {
                    n_instr = n_instr - 1;
                }
            }
        } else if n_instr == 0 {
            if c == '\r' || c == '\u{b}' || c == '\u{c}' {
                out.push('\n');
            } else if c == '\u{7}' {
                out.push('\t');
            } else if c == '\u{1e}' {
                out.push('-');
            } else if c == '\u{1f}' || c == '\u{1}' || c == '\u{8}' {
            } else {
                out.push(c);
            }
        }
        proof {
            assert(stack@ =~= next_fields(old_stack, c));
            assert(out@ =~= before + emitted);
        }
        i = i + 1;
    }
    proof {
        assert(cs@.skip(i as int).len() == 0);
        assert(out@ + sanitize_from(cs@.skip(i as int), stack@) =~= out@);
    }
    string_from_chars(out.as_slice())
}

/// A `HYPERLINK` field's display text in a paragraph's sanitised text
/// (a byte range) and the link target.
#[derive(Debug, Clone, PartialEq, Eq)]
pub struct HyperlinkSpan {
    /// First byte of the display text.
    pub start: usize,
    /// Byte just past the display text.
    pub end: usize,
    /// The link target.
    pub url: String,
}

/// The first index at or after `from` where `s` holds `c`.
pub open spec fn find_char(s: Seq<char>, c: char, from: int) -> Option<int>
    decreases s.len() - from,
{
    if from < 0 || from >= s.len() {
        None
    } else if s[from] == c {
        Some(from)
    } else {
        find_char(s, c, from + 1)
    }
}

/// The target of a field whose instruction is `code`: for an instruction
/// that starts (after leading whitespace) with `HYPERLINK`, the text
/// between the first two double quotes after that word.
pub open spec fn hyperlink_url(code: Seq<char>) -> Option<Seq<char>> {
    let t = trim_start_seq(code);
    if t.len() >= 9 && t.take(9) == "HYPERLINK"@ {
        let rest = t.skip(9);
        match find_char(rest, '"', 0) {
            None => None,
            Some(i) => match find_char(rest, '"', i + 1) {
                None => None,
                Some(j) => Some(rest.subrange(i + 1, j)),
            },
        }
    } else {
        None
    }
}

/// The state of the paragraph sanitiser: the open fields (whether still
/// in the instruction, the instruction read so far, the output byte where
/// the result began), the text, its length in UTF-8 bytes, the hyperlink
/// spans and the character-property runs so far.
pub struct RichState {
    pub frames: Seq<(bool, Seq<char>, int)>,
    pub text: Seq<char>,
    pub bytes: int,
    pub links: Seq<(int, int, Seq<char>)>,
    pub runs: Seq<(int, int, ChpProps)>,
}

pub open spec fn frame_flags(frames: Seq<(bool, Seq<char>, int)>) -> Seq<bool> {
    frames.map_values(|f: (bool, Seq<char>, int)| f.0)
}

/// Append the visible character `c` with properties `p`: the last run
/// grows when it has the same properties, else a new run starts.
pub open spec fn emit(st: RichState, c: char, p: ChpProps) -> RichState {
    let len = utf8_len(c);
    RichState {
        text: st.text.push(c),
        bytes: st.bytes + len,
        runs: if st.runs.len() > 0 && st.runs.last().2 == p {
            st.runs.drop_last().push((st.runs.last().0, st.runs.last().1 + len, p))
        } else {
            st.runs.push((st.bytes, st.bytes + len, p))
        },
        ..st
    }
}

/// One character of the paragraph with its properties.
pub open spec fn rich_step(st: RichState, c: char, p: ChpProps) -> RichState {
    let fr = st.frames;
    if c == '\u{13}' {
        RichState { frames: fr.push((true, Seq::empty(), st.bytes)), ..st }
    } else if c == '\u{14}' {
        if fr.len() > 0 {
            RichState { frames: fr.drop_last().push((false, fr.last().1, st.bytes)), ..st }
        } else {
            st
        }
    } else if c == '\u{15}' {
        if fr.len() > 0 {
            let t = fr.last();
            let links = match hyperlink_url(t.1) {
                Some(u) => if !t.0 && st.bytes > t.2 { st.links.push((t.2, st.bytes, u)) } else { st.links },
                None => st.links,
            };
            RichState { frames: fr.drop_last(), links: links, ..st }
        } else {
            st
        }
    } else if frame_flags(fr).contains(true) {
        if fr.last().0 {
            RichState { frames: fr.drop_last().push((true, fr.last().1.push(c), fr.last().2)), ..st }
        } else {
            st
        }
    } else {
        let out = plain_char(c);
        if out.len() == 0 { st } else { emit(st, out[0], p) }
    }
}

/// The sanitiser run over `s` with properties `ps` from state `st`.
pub open spec fn rich_from(s: Seq<char>, ps: Seq<ChpProps>, st: RichState) -> RichState
    decreases s.len(),
{
    if s.len() == 0 || ps.len() == 0 {
        st
    } else {
        rich_from(s.drop_first(), ps.drop_first(), rich_step(st, s[0], ps[0]))
    }
}

/// The state before the first character.
pub open spec fn rich_init() -> RichState {
    RichState { frames: Seq::empty(), text: Seq::empty(), bytes: 0, links: Seq::empty(), runs: Seq::empty() }
}

/// The runs `s` tile the bytes `[lo, hi)`: each non-empty, each starting
/// where the one before ended, the first at `lo`, the last ending at `hi`.
pub open spec fn byte_tiles(s: Seq<(int, int, ChpProps)>, lo: int, hi: int) -> bool
    decreases s.len(),
{
    if s.len() == 0 {
        lo == hi
    } else {
        s[0].0 == lo && s[0].0 < s[0].1 && byte_tiles(s.drop_first(), s[0].1, hi)
    }
}

proof fn lemma_byte_tiles_push(s: Seq<(int, int, ChpProps)>, lo: int, mid: int, seg: (int, int, ChpProps))
    requires
        byte_tiles(s, lo, mid),
        seg.0 == mid,
        seg.0 < seg.1,
    ensures
        byte_tiles(s.push(seg), lo, seg.1),
    decreases s.len(),
{
    if s.len() > 0 {
        lemma_byte_tiles_push(s.drop_first(), s[0].1, mid, seg);
        assert(s.push(seg).drop_first() =~= s.drop_first().push(seg));
        assert(s.push(seg)[0] == s[0]);
    } else {
        assert(s.push(seg).drop_first() =~= Seq::<(int, int, ChpProps)>::empty());
        assert(s.push(seg)[0] == seg);
        assert(byte_tiles(s.push(seg).drop_first(), seg.1, seg.1));
    }
}

proof fn lemma_byte_tiles_grow(s: Seq<(int, int, ChpProps)>, lo: int, mid: int, len: int)
    requires
        byte_tiles(s, lo, mid),
        s.len() > 0,
        len > 0,
    ensures
        byte_tiles(s.drop_last().push((s.last().0, s.last().1 + len, s.last().2)), lo, mid + len),
        s.last().1 == mid,
    decreases s.len(),
{
    let g = s.drop_last().push((s.last().0, s.last().1 + len, s.last().2));
    if s.len() == 1 {
        assert(s.drop_first() =~= Seq::<(int, int, ChpProps)>::empty());
        assert(byte_tiles(s.drop_first(), s[0].1, mid));
        assert(s[0].1 == mid);
        assert(s.last() == s[0]);
        assert(s.drop_last() =~= Seq::<(int, int, ChpProps)>::empty());
        assert(g.drop_first() =~= Seq::<(int, int, ChpProps)>::empty());
        assert(g[0] == (s[0].0, s[0].1 + len, s[0].2));
        assert(byte_tiles(g.drop_first(), mid + len, mid + len));
    } else {
        lemma_byte_tiles_grow(s.drop_first(), s[0].1, mid, len);
        assert(s.drop_first().drop_last() =~= s.drop_last().drop_first());
        assert(g.drop_first() =~= s.drop_first().drop_last().push((s.last().0, s.last().1 + len, s.last().2)));
        assert(g[0] == s[0]);
        assert(s.drop_first().last() == s.last());
    }
}

/// Total UTF-8 length of `s`.
pub open spec fn utf8_total(s: Seq<char>) -> int
    decreases s.len(),
{
    if s.len() == 0 { 0 } else { utf8_total(s.drop_last()) + utf8_len(s.last()) }
}

/// Whether the executable sanitiser's frames hold `fr`.
pub open spec fn frames_view(v: Seq<(bool, Vec<char>, usize)>) -> Seq<(bool, Seq<char>, int)> {
    v.map_values(|f: (bool, Vec<char>, usize)| (f.0, f.1@, f.2 as int))
}

/// Sanitise one paragraph's text (as `sanitize_text` does) while keeping
/// track of each `HYPERLINK` field's display text and target, and of the
/// character properties `props` (one per character of `content`) as byte
/// runs over the result. The runs tile the whole result.
pub fn sanitize_text_with_hyperlinks_and_chp(content: &str, props: &[ChpProps]) -> (r: (String, Vec<HyperlinkSpan>, Vec<(usize, usize, ChpProps)>))
    requires
        props@.len() == content@.len(),
        content@.len() <= usize::MAX / 4,
    ensures
        r.0@ == sanitize_from(content@, Seq::empty()),
        r.0@ == rich_from(content@, props@, rich_init()).text,
        r.1@.map_values(|h: HyperlinkSpan| (h.start as int, h.end as int, h.url@)) == rich_from(content@, props@, rich_init()).links,
        r.2@.map_values(|x: (usize, usize, ChpProps)| (x.0 as int, x.1 as int, x.2)) == rich_from(content@, props@, rich_init()).runs,
        byte_tiles(r.2@.map_values(|x: (usize, usize, ChpProps)| (x.0 as int, x.1 as int, x.2)), 0, utf8_total(r.0@)),
{
    let cs = chars_of(content);
    sanitize_chars_with_hyperlinks_and_chp(cs.as_slice(), props)
}

/// `sanitize_text_with_hyperlinks_and_chp` on the characters `cs`.
pub fn sanitize_chars_with_hyperlinks_and_chp(cs: &[char], props: &[ChpProps]) -> (r: (String, Vec<HyperlinkSpan>, Vec<(usize, usize, ChpProps)>))
    requires
        props@.len() == cs@.len(),
        cs@.len() <= usize::MAX / 4,
    ensures
        r.0@ == sanitize_from(cs@, Seq::empty()),
        r.0@ == rich_from(cs@, props@, rich_init()).text,
        r.1@.map_values(|h: HyperlinkSpan| (h.start as int, h.end as int, h.url@)) == rich_from(cs@, props@, rich_init()).links,
        r.2@.map_values(|x: (usize, usize, ChpProps)| (x.0 as int, x.1 as int, x.2)) == rich_from(cs@, props@, rich_init()).runs,
        byte_tiles(r.2@.map_values(|x: (usize, usize, ChpProps)| (x.0 as int, x.1 as int, x.2)), 0, utf8_total(r.0@)),
{
    let ghost content = cs@;
    let mut text: Vec<char> = Vec::new();
    let mut bytes: usize = 0;
    let mut frames: Vec<(bool, Vec<char>, usize)> = Vec::new();
    let mut n_instr: usize = 0;
    let mut links: Vec<HyperlinkSpan> = Vec::new();
    let mut runs: Vec<(usize, usize, ChpProps)> = Vec::new();
    let ghost plain = sanitize_from(content, Seq::empty());
    let ghost fin = rich_from(content, props@, rich_init());
    let mut i: usize = 0;
    proof {
        assert(cs@.skip(0) =~= cs@);
        assert(props@.skip(0) =~= props@);
        assert(frame_flags(frames_view(frames@)) =~= Seq::<bool>::empty());
        assert(frames_view(frames@) =~= Seq::<(bool, Seq<char>, int)>::empty());
        assert(links@.map_values(|h: HyperlinkSpan| (h.start as int, h.end as int, h.url@)) =~= Seq::<(int, int, Seq<char>)>::empty());
        assert(runs@.map_values(|x: (usize, usize, ChpProps)| (x.0 as int, x.1 as int, x.2)) =~= Seq::<(int, int, ChpProps)>::empty());
        assert(text@ =~= Seq::<char>::empty());
    }
    while i < cs.len()
        invariant
            i <= cs@.len(),
            cs@ == content,
            props@.len() == cs@.len(),
            cs@.len() <= usize::MAX / 4,
            bytes <= 4 * i,
            frames@.len() <= i,
            n_instr == count_instr(frame_flags(frames_view(frames@))),
            text@ + sanitize_from(cs@.skip(i as int), frame_flags(frames_view(frames@))) == plain,
            rich_from(cs@.skip(i as int), props@.skip(i as int), RichState {
                frames: frames_view(frames@),
                text: text@,
                bytes: bytes as int,
                links: links@.map_values(|h: HyperlinkSpan| (h.start as int, h.end as int, h.url@)),
                runs: runs@.map_values(|x: (usize, usize, ChpProps)| (x.0 as int, x.1 as int, x.2)),
            }) == fin,
            byte_tiles(runs@.map_values(|x: (usize, usize, ChpProps)| (x.0 as int, x.1 as int, x.2)), 0, bytes as int),
            bytes == utf8_total(text@),
            forall|k: int| 0 <= k < frames@.len() ==> (#[trigger] frames@[k]).2 <= bytes,
        decreases cs@.len() - i,
    {
        let c = cs[i];
        let p = props[i];
        let ghost st = RichState {
            frames: frames_view(frames@),
            text: text@,
            bytes: bytes as int,
            links: links@.map_values(|h: HyperlinkSpan| (h.start as int, h.end as int, h.url@)),
            runs: runs@.map_values(|x: (usize, usize, ChpProps)| (x.0 as int, x.1 as int, x.2)),
        };
        let ghost nst = rich_step(st, c, p);
        let ghost old_flags = frame_flags(frames_view(frames@));
        let ghost before_text = text@;
        proof {
            assert(cs@.skip(i as int)[0] == c);
            assert(cs@.skip(i as int).drop_first() =~= cs@.skip(i + 1));
            assert(props@.skip(i as int)[0] == p);
            assert(props@.skip(i as int).drop_first() =~= props@.skip(i + 1));
            lemma_count_instr(old_flags);
        }
        if c == '\u{13}' {
            proof { lemma_count_push(old_flags, true); }
            frames.push((true, Vec::new(), bytes));
            n_instr = n_instr + 1;
            proof {
                assert(frames_view(frames@) =~= st.frames.push((true, Seq::empty(), bytes as int)));
                assert(frame_flags(frames_view(frames@)) =~= old_flags.push(true));
            }
        } else if c == '\u{14}' {
            if frames.len() > 0 {
                let ghost old_fr = frames@;
                let (top, code, _st) = frames.pop().unwrap();
                proof {
                    assert(old_fr.drop_last() =~= frames@);
                    assert(old_flags.drop_last() =~= frame_flags(frames_view(frames@)));
                    assert(old_flags.last() == top);
                    lemma_count_push(frame_flags(frames_view(frames@)), top);
                    lemma_count_push(frame_flags(frames_view(frames@)), false);
                    assert(old_flags =~= frame_flags(frames_view(frames@)).push(top));
                }
                if top {
                    n_instr = n_instr - 1;
                }
                frames.push((false, code, bytes));
                proof {
                    assert(frames_view(frames@) =~= st.frames.drop_last().push((false, st.frames.last().1, bytes as int)));
                    assert(frame_flags(frames_view(frames@)) =~= old_flags.drop_last().push(false));
                }
            }
        } else if c == '\u{15}' {
            if frames.len() > 0 {
                let ghost old_fr = frames@;
                let (top, code, start) = frames.pop().unwrap();
                proof {
                    assert(old_fr.drop_last() =~= frames@);
                    assert(old_flags.drop_last() =~= frame_flags(frames_view(frames@)));
                    assert(old_flags =~= frame_flags(frames_view(frames@)).push(top));
                    lemma_count_push(frame_flags(frames_view(frames@)), top);
                    assert(st.frames.last() == (top, code@, start as int));
                    assert(start <= bytes);
                }
                if top {
                    n_instr = n_instr - 1;
                }
                let url = field_hyperlink_url(code.as_slice());
                match url {
                    Some(u) => {
                        if !top && bytes > start {
                            let ghost lv = links@.map_values(|h: HyperlinkSpan| (h.start as int, h.end as int, h.url@));
                            links.push(HyperlinkSpan { start, end: bytes, url: u });
                            proof {
                                assert(links@.map_values(|h: HyperlinkSpan| (h.start as int, h.end as int, h.url@)) =~= lv.push((start as int, bytes as int, u@)));
                            }
                        }
                    },
                    None => {},
                }
                proof {
                    assert(frames_view(frames@) =~= st.frames.drop_last());
                    assert(frame_flags(frames_view(frames@)) =~= old_flags.drop_last());
                }
            }
        } else if n_instr > 0 {
            let nf = frames.len();
            proof {
                assert(old_flags.contains(true));
                assert(nf > 0) by {
                    let k = choose|k: int| 0 <= k < old_flags.len() && old_flags[k] == true;
                };
            }
            if frames[nf - 1].0 {
                let ghost old_fr = frames@;
                let (top, mut code, start) = frames.pop().unwrap();
                code.push(c);
                frames.push((top, code, start));
                proof {
                    assert(old_fr.drop_last() =~= frames@.drop_last());
                    assert(frames_view(frames@) =~= st.frames.drop_last().push((true, st.frames.last().1.push(c), st.frames.last().2)));
                    assert(frame_flags(frames_view(frames@)) =~= old_flags);
                }
            } else {
                proof {
                    assert(st.frames.last().0 == false);
                }
            }
        } else {
            proof {
                assert(!old_flags.contains(true));
            }
            let oc_opt: Option<char> = if c == '\r' || c == '\u{b}' || c == '\u{c}' {
                Some('\n')
            } else if c == '\u{7}' {
                Some('\t')
            } else if c == '\u{1e}' {
                Some('-')
            } else if c == '\u{1f}' || c == '\u{1}' || c == '\u{8}' {
                None
            } else {
                Some(c)
            };
            match oc_opt {
                Some(oc) => {
                    let len = char_utf8_len(oc);
                    let ghost rv = runs@.map_values(|x: (usize, usize, ChpProps)| (x.0 as int, x.1 as int, x.2));
                    text.push(oc);
                    let nr = runs.len();
                    if nr > 0 && super::sprm::chp_props_equal(&runs[nr - 1].2, &p) {
                        let last = runs[nr - 1];
                        proof {
                            lemma_byte_tiles_grow(rv, 0, bytes as int, len as int);
                            assert(rv.last() == (last.0 as int, last.1 as int, last.2));
                        }
                        runs.set(nr - 1, (last.0, last.1 + len, p));
                        proof {
                            assert(runs@.map_values(|x: (usize, usize, ChpProps)| (x.0 as int, x.1 as int, x.2)) =~= rv.drop_last().push((rv.last().0, rv.last().1 + len, p)));
                        }
                    } else {
                        proof {
                            lemma_byte_tiles_push(rv, 0, bytes as int, (bytes as int, bytes + len, p));
                        }
                        runs.push((bytes, bytes + len, p));
                        proof {
                            assert(runs@.map_values(|x: (usize, usize, ChpProps)| (x.0 as int, x.1 as int, x.2)) =~= rv.push((bytes as int, bytes + len, p)));
                        }
                    }
                    bytes = bytes + len;
                    proof {
                        assert(text@.drop_last() =~= before_text);
                    }
                },
                None => {},
            }
        }
        proof {
            assert(rich_step(st, c, p) == RichState {
                frames: frames_view(frames@),
                text: text@,
                bytes: bytes as int,
                links: links@.map_values(|h: HyperlinkSpan| (h.start as int, h.end as int, h.url@)),
                runs: runs@.map_values(|x: (usize, usize, ChpProps)| (x.0 as int, x.1 as int, x.2)),
            });
            assert(frame_flags(frames_view(frames@)) =~= next_fields(old_flags, c));
            let emitted = if is_field_mark(c) || old_flags.contains(true) { Seq::empty() } else { plain_char(c) };
            assert(text@ =~= before_text + emitted);
        }
        i = i + 1;
    }
    proof {
        assert(cs@.skip(i as int).len() == 0);
        assert(text@ + sanitize_from(cs@.skip(i as int), frame_flags(frames_view(frames@))) =~= text@);
    }
    (string_from_chars(text.as_slice()), links, runs)
}

/// `hyperlink_url` of a field instruction.
fn field_hyperlink_url(code: &[char]) -> (r: Option<String>)
    ensures
        r matches Some(u) ==> hyperlink_url(code@) == Some(u@),
        r is None ==> hyperlink_url(code@) is None,
{
    let mut i: usize = 0;
    assert(code@.skip(0) =~= code@);
    while i < code.len() && is_whitespace(code[i])
        invariant
            i <= code@.len(),
            trim_start_seq(code@) == trim_start_seq(code@.skip(i as int)),
        decreases code@.len() - i,
    {
        proof {
            assert(code@.skip(i as int)[0] == code@[i as int]);
            assert(code@.skip(i as int).drop_first() =~= code@.skip(i + 1));
        }
        i = i + 1;
    }
    let ghost t = code@.skip(i as int);
    proof {
        if i < code.len() {
            assert(t[0] == code@[i as int]);
        }
        assert(trim_start_seq(t) == t);
    }
    let word = ['H', 'Y', 'P', 'E', 'R', 'L', 'I', 'N', 'K'];
    proof {
        reveal_strlit("HYPERLINK");
        assert(word@ =~= "HYPERLINK"@);
    }
    if code.len() - i < 9 {
        return None;
    }
    let mut k: usize = 0;
    while k < 9
        invariant
            k <= 9,
            i + 9 <= code.len(),
            code@.len() == code.len(),
            t == code@.skip(i as int),
            trim_start_seq(code@) == t,
            word@ == "HYPERLINK"@,
            forall|m: int| 0 <= m < k ==> code@[i + m] == word@[m],
        decreases 9 - k,
    {
        if code[i + k] != word[k] {
            proof {
                assert(t.take(9)[k as int] != "HYPERLINK"@[k as int]);
            }
            return None;
        }
        k = k + 1;
    }
    proof {
        assert(t.take(9) =~= "HYPERLINK"@);
    }
    let rest_start = i + 9;
    let ghost rest = t.skip(9);
    proof {
        assert(rest =~= code@.skip(rest_start as int));
    }
    let mut a = rest_start;
    while a < code.len() && code[a] != '"'
        invariant
            rest_start <= a <= code@.len(),
            rest == code@.skip(rest_start as int),
            find_char(rest, '"', 0) == find_char(rest, '"', a - rest_start),
        decreases code@.len() - a,
    {
        assert(rest[a - rest_start] == code@[a as int]);
        a = a + 1;
    }
    if a == code.len() {
        return None;
    }
    let mut b = a + 1;
    while b < code.len() && code[b] != '"'
        invariant
            a < b <= code@.len(),
            rest_start <= a,
            rest == code@.skip(rest_start as int),
            find_char(rest, '"', a - rest_start + 1) == find_char(rest, '"', b - rest_start),
        decreases code@.len() - b,
    {
        assert(rest[b - rest_start] == code@[b as int]);
        b = b + 1;
    }
    if b == code.len() {
        return None;
    }
    let mut url: Vec<char> = Vec::new();
    let mut m = a + 1;
    while m < b
        invariant
            a < m <= b < code@.len(),
            url@ == code@.subrange(a + 1, m as int),
        decreases b - m,
    {
        url.push(code[m]);
        m = m + 1;
        assert(url@ =~= code@.subrange(a + 1, m as int));
    }
    proof {
        assert(rest.subrange(a - rest_start + 1, b - rest_start) =~= code@.subrange(a + 1, b as int));
    }
    Some(string_from_chars(url.as_slice()))
}

} // verus!
