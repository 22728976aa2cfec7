//! SPRM (Single Property Modifier) decoding for Word binary documents.
//!
//! A `grpprl` is a flat byte stream of consecutive SPRMs: a 2-byte opcode
//! followed by an operand whose size the opcode's `spra` field (bits 15..13)
//! implies — 1 byte (spra 0, 1), 2 bytes (2, 4, 5), 4 bytes (3), 3 bytes (7),
//! or variable (6) with a 1-byte length prefix. `sprmTDefTable` (`0xD608`)
//! has a 2-byte `cb` prefix (operand length `cb - 1`); `sprmPChgTabs`
//! (`0xC615`) has a 1-byte `cb` whose value 255 means "derive the length
//! from the payload".

use vstd::prelude::*;
use crate::bytes::{as_signed16, le16, len_ok, read_i16_le, read_u16_le};
use crate::ir::{ParagraphAlignment, TabAlignment, TabLeader, TabStop, UnderlineStyle};

verus! {

/// A single decoded SPRM: opcode plus its operand bytes.
#[derive(Debug, Clone, PartialEq, Eq)]
pub struct Sprm {
    /// The 2-byte SPRM opcode.
    pub opcode: u16,
    /// The operand bytes (may be empty for a zero-length variable SPRM).
    pub operand: Vec<u8>,
}

/// The opcode and operand bytes of a decoded SPRM.
pub open spec fn sprm_view(s: Sprm) -> (u16, Seq<u8>) {
    (s.opcode, s.operand@)
}

/// `spra` of an opcode: bits 15..13.
pub open spec fn spec_spra(op: u16) -> int {
    (op as int / 8192) % 8
}

/// `sgc` of an opcode: bits 12..10.
pub open spec fn spec_sgc(op: u16) -> int {
    (op as int / 1024) % 8
}

impl Sprm {
    /// `spra` — operand-size class (bits 15..13 of the opcode).
    pub fn spra(&self) -> (r: u8)
        ensures
            r as int == spec_spra(self.opcode),
    {
        ((self.opcode / 8192) % 8) as u8
    }

    /// `sgc` — property class (bits 12..10): `1` = PAP, `5` = TAP, …
    pub fn sgc(&self) -> (r: u8)
        ensures
            r as int == spec_sgc(self.opcode),
    {
        ((self.opcode / 1024) % 8) as u8
    }
}

/// The fixed operand size of an opcode, or `None` for a variable one.
pub open spec fn spec_fixed_size(op: u16) -> Option<int> {
    let spra = spec_spra(op);
    if spra == 0 || spra == 1 {
        Some(1)
    } else if spra == 2 || spra == 4 || spra == 5 {
        Some(2)
    } else if spra == 3 {
        Some(4)
    } else if spra == 7 {
        Some(3)
    } else {
        None
    }
}

fn operand_size(opcode: u16) -> (r: Option<usize>)
    ensures
        r matches Some(n) ==> spec_fixed_size(opcode) == Some(n as int),
        r is None ==> spec_fixed_size(opcode) is None,
{
    let spra = (opcode / 8192) % 8;
    if spra == 0 || spra == 1 {
        Some(1)
    } else if spra == 2 || spra == 4 || spra == 5 {
        Some(2)
    } else if spra == 3 {
        Some(4)
    } else if spra == 7 {
        Some(3)
    } else {
        None
    }
}

/// Whether an opcode carries a 2-byte `cb` length prefix: only
/// `sprmTDefTable`.
pub open spec fn spec_two_byte_len_prefix(op: u16) -> bool {
    op == 0xD608
}

fn is_two_byte_len_prefix(opcode: u16) -> (r: bool)
    ensures
        r == spec_two_byte_len_prefix(opcode),
{
    opcode == 0xD608
}

/// Length of a `sprmPChgTabs` operand whose `cb` is the 255 escape:
/// `cDel` (1) + `4·cDel` + `cAdd` (1) + `3·cAdd`, bounded by what is left
/// when the add block is cut off.
pub open spec fn spec_pchg_tabs_operand_len(g: Seq<u8>, start: int) -> int {
    if start >= g.len() {
        0
    } else {
        let c_del = g[start] as int;
        let add_pos = start + 1 + 4 * c_del;
        if add_pos >= g.len() {
            g.len() - start
        } else {
            let c_add = g[add_pos] as int;
            1 + 4 * c_del + 1 + 3 * c_add
        }
    }
}

pub fn pchg_tabs_operand_len(grpprl: &[u8], start: usize) -> (r: usize)
    requires
        len_ok(grpprl@.len() as int),
    ensures
        r as int == spec_pchg_tabs_operand_len(grpprl@, start as int),
{
    if start >= grpprl.len() {
        return 0;
    }
    let c_del = grpprl[start] as usize;
    let add_pos = start + 1 + 4 * c_del;
    if add_pos >= grpprl.len() {
        return grpprl.len() - start;
    }
    let c_add = grpprl[add_pos] as usize;
    1 + 4 * c_del + 1 + 3 * c_add
}

/// One step of the walk at `p`: the opcode, its operand (clamped to the
/// stream) and where the next SPRM starts; `None` when the length prefix
/// itself is cut off.
pub open spec fn spec_step(g: Seq<u8>, p: int) -> Option<(u16, Seq<u8>, int)> {
    let op = le16(g, p) as u16;
    let len = g.len() as int;
    match spec_fixed_size(op) {
        Some(n) => {
            let start = p + 2;
            Some((op, g.subrange(start, if start + n <= len { start + n } else { len }), start + n))
        },
        None => {
            if spec_two_byte_len_prefix(op) {
                if p + 4 > len {
                    None
                } else {
                    let cb = le16(g, p + 2);
                    let start = p + 4;
                    let n = if cb >= 1 { cb - 1 } else { 0 };
                    Some((op, g.subrange(start, if start + n <= len { start + n } else { len }), start + n))
                }
            } else if op == 0xC615 {
                if p + 3 > len {
                    None
                } else {
                    let cb = g[p + 2] as int;
                    let start = p + 3;
                    let n = if cb == 255 { spec_pchg_tabs_operand_len(g, start) } else { cb };
                    Some((op, g.subrange(start, if start + n <= len { start + n } else { len }), start + n))
                }
            } else {
                if p + 3 > len {
                    None
                } else {
                    let n = g[p + 2] as int;
                    let start = p + 3;
                    Some((op, g.subrange(start, if start + n <= len { start + n } else { len }), start + n))
                }
            }
        },
    }
}

/// Every SPRM decoded from position `p` onwards.
pub open spec fn spec_walk(g: Seq<u8>, p: int) -> Seq<(u16, Seq<u8>)>
    decreases g.len() - p,
{
    if p < 0 || p + 2 > g.len() {
        Seq::empty()
    } else {
        match spec_step(g, p) {
            None => Seq::empty(),
            Some((op, operand, next)) => {
                if next <= g.len() && next > p {
                    seq![(op, operand)] + spec_walk(g, next)
                } else {
                    seq![(op, operand)]
                }
            },
        }
    }
}

/// Every SPRM a `grpprl` holds, in stream order.
pub open spec fn spec_parse_grpprl(g: Seq<u8>) -> Seq<(u16, Seq<u8>)> {
    spec_walk(g, 0)
}

/// The bytes of one SPRM `(opcode, length prefix, operand)`: the opcode
/// little-endian, the length prefix as written, the operand.
pub open spec fn sprm_bytes(u: (u16, Seq<u8>, Seq<u8>)) -> Seq<u8> {
    seq![(u.0 % 256) as u8, (u.0 / 256) as u8] + u.1 + u.2
}

/// A complete SPRM: an operand of the size the opcode's `spra` fixes and
/// no prefix; for `0xD608` a 2-byte `cb` one more than the operand's
/// length; for `0xC615` a 1-byte `cb` other than 255 giving the length,
/// or 255 before a whole `PChgTabs` body; for any other variable-size
/// opcode a 1-byte length.
pub open spec fn sprm_well_formed(u: (u16, Seq<u8>, Seq<u8>)) -> bool {
    let (op, prefix, d) = u;
    match spec_fixed_size(op) {
        Some(n) => prefix.len() == 0 && d.len() == n,
        None => if op == 0xD608 {
            prefix.len() == 2 && prefix[0] as int + prefix[1] as int * 256 == d.len() + 1
        } else if op == 0xC615 {
            prefix.len() == 1 && if prefix[0] != 255 {
                d.len() == prefix[0]
            } else {
                d.len() >= 1 && 1 + 4 * d[0] < d.len() && d.len() == 1 + 4 * d[0] + 1 + 3 * d[1
                    + 4 * d[0]]
            }
        } else {
            prefix.len() == 1 && d.len() == prefix[0]
        },
    }
}

/// The bytes of a run of SPRMs, one after another.
pub open spec fn grpprl_bytes(us: Seq<(u16, Seq<u8>, Seq<u8>)>) -> Seq<u8>
    decreases us.len(),
{
    if us.len() == 0 {
        Seq::empty()
    } else {
        sprm_bytes(us[0]) + grpprl_bytes(us.drop_first())
    }
}

proof fn lemma_walk_units(g: Seq<u8>, p: int, us: Seq<(u16, Seq<u8>, Seq<u8>)>)
    requires
        0 <= p <= g.len(),
        g.subrange(p, g.len() as int) == grpprl_bytes(us),
        forall|i: int| 0 <= i < us.len() ==> sprm_well_formed(#[trigger] us[i]),
    ensures
        spec_walk(g, p) == us.map_values(|u: (u16, Seq<u8>, Seq<u8>)| (u.0, u.2)),
    decreases us.len(),
{
    if us.len() == 0 {
        assert(g.subrange(p, g.len() as int).len() == 0);
        assert(p == g.len());
        assert(us.map_values(|u: (u16, Seq<u8>, Seq<u8>)| (u.0, u.2)) =~= Seq::empty());
    } else {
        let u = us[0];
        let (op, prefix, d) = u;
        assert(sprm_well_formed(u));
        let b = sprm_bytes(u);
        let rest = us.drop_first();
        let tailb = grpprl_bytes(rest);
        let len = g.len() as int;
        assert(g.subrange(p, len) == b + tailb);
        let next = p + b.len();
        assert forall|i: int| 0 <= i < b.len() implies g[p + i] == #[trigger] b[i] by {
            assert(g.subrange(p, len)[i] == g[p + i]);
        }
        assert(g.subrange(next, len) =~= tailb) by {
            assert forall|i: int| 0 <= i < tailb.len() implies g.subrange(next, len)[i] == tailb[i] by {
                assert(g.subrange(p, len)[b.len() + i] == g[next + i]);
            }
        }
        assert(b[0] == (op % 256) as u8 && b[1] == (op / 256) as u8);
        assert(le16(g, p) == op);
        let start = p + 2 + prefix.len();
        assert(g.subrange(start, start + d.len()) =~= d) by {
            assert forall|i: int| 0 <= i < d.len() implies g.subrange(start, start + d.len())[i] == d[i] by {
                assert(b[2 + prefix.len() + i] == d[i]);
            }
        }
        if spec_fixed_size(op) is None && op != 0xD608 {
            assert(b[2] == prefix[0]);
        }
        if spec_fixed_size(op) is None && op == 0xD608 {
            assert(b[2] == prefix[0] && b[3] == prefix[1]);
            assert(le16(g, p + 2) == d.len() + 1);
        }
        if spec_fixed_size(op) is None && op == 0xC615 && prefix[0] == 255 {
            let c_del = d[0] as int;
            assert(g[start] == d[0]);
            assert(g[start + 1 + 4 * c_del] == d[1 + 4 * c_del]);
            assert(spec_pchg_tabs_operand_len(g, start) == d.len());
        }
        assert(spec_step(g, p) == Some((op, d, next)));
        assert forall|i: int| 0 <= i < rest.len() implies sprm_well_formed(#[trigger] rest[i]) by {
            assert(rest[i] == us[i + 1]);
        }
        lemma_walk_units(g, next, rest);
        assert(b.len() >= 2 && next <= len && p + 2 <= len);
        assert(spec_walk(g, p) == seq![(op, d)] + spec_walk(g, next));
        assert(us.map_values(|u: (u16, Seq<u8>, Seq<u8>)| (u.0, u.2)) =~= seq![(op, d)]
            + rest.map_values(|u: (u16, Seq<u8>, Seq<u8>)| (u.0, u.2)));
    }
}

/// A `grpprl` made of complete SPRMs is read back as exactly those SPRMs,
/// one per SPRM, in order, each its opcode with its operand without the
/// length prefix; writing each back with its prefix gives the `grpprl`
/// byte for byte.
pub proof fn lemma_grpprl_round_trip(us: Seq<(u16, Seq<u8>, Seq<u8>)>)
    requires
        forall|i: int| 0 <= i < us.len() ==> sprm_well_formed(#[trigger] us[i]),
    ensures
        spec_parse_grpprl(grpprl_bytes(us)) == us.map_values(|u: (u16, Seq<u8>, Seq<u8>)| (u.0, u.2)),
{
    let g = grpprl_bytes(us);
    assert(g.subrange(0, g.len() as int) =~= g);
    lemma_walk_units(g, 0, us);
}

/// Walk a `grpprl` and decode every SPRM it contains.
///
/// Truncated operands are returned with whatever bytes remain; a truncated
/// length prefix stops the walk.
pub fn parse_grpprl(grpprl: &[u8]) -> (r: Vec<Sprm>)
    requires
        len_ok(grpprl@.len() as int),
    ensures
        r@.map_values(|s: Sprm| sprm_view(s)) == spec_parse_grpprl(grpprl@),
{
    let mut out: Vec<Sprm> = Vec::new();
    let mut p: usize = 0;
    let len = grpprl.len();
    while p + 2 <= len
        invariant
            len == grpprl@.len(),
            len_ok(len as int),
            p <= len + 65540 + 1000,
            spec_walk(grpprl@, 0) == out@.map_values(|s: Sprm| sprm_view(s)) + spec_walk(
                grpprl@,
                p as int,
            ),
        ensures
            spec_walk(grpprl@, 0) == out@.map_values(|s: Sprm| sprm_view(s)),
        decreases len + 65540 + 1000 - p,
    {
        let opcode = read_u16_le(grpprl, p);
        let ghost step = spec_step(grpprl@, p as int);
        let start: usize;
        let n: usize;
        match operand_size(opcode) {
            Some(k) => {
                start = p + 2;
                n = k;
            },
            None => {
                if is_two_byte_len_prefix(opcode) {
                    if p + 4 > len {
                        proof {
                            assert(spec_step(grpprl@, p as int) is None);
                            assert(spec_walk(grpprl@, p as int) =~= Seq::<(u16, Seq<u8>)>::empty());
                        }
                        break;
                    }
                    let cb = read_u16_le(grpprl, p + 2) as usize;
                    start = p + 4;
                    n = if cb >= 1 { cb - 1 } else { 0 };
                } else if opcode == 0xC615 {
                    if p + 3 > len {
                        proof {
                            assert(spec_step(grpprl@, p as int) is None);
                            assert(spec_walk(grpprl@, p as int) =~= Seq::<(u16, Seq<u8>)>::empty());
                        }
                        break;
                    }
                    let cb = grpprl[p + 2] as usize;
                    start = p + 3;
                    n = if cb == 255 { pchg_tabs_operand_len(grpprl, start) } else { cb };
                } else {
                    if p + 3 > len {
                        proof {
                            assert(spec_step(grpprl@, p as int) is None);
                            assert(spec_walk(grpprl@, p as int) =~= Seq::<(u16, Seq<u8>)>::empty());
                        }
                        break;
                    }
                    n = grpprl[p + 2] as usize;
                    start = p + 3;
                }
            },
        }
        let end = if start + n <= len { start + n } else { len };
        let operand = crate::bytes::copy_range(grpprl, start, end);
        let ghost old_out = out@;
        out.push(Sprm { opcode, operand });
        let next = start + n;
        proof {
            assert(step == Some((opcode, grpprl@.subrange(start as int, end as int), next as int)));
            assert(out@.map_values(|s: Sprm| sprm_view(s)) == old_out.map_values(|s: Sprm| sprm_view(s)).push(
                (opcode, grpprl@.subrange(start as int, end as int)),
            ));
            if next <= len {
                assert(spec_walk(grpprl@, p as int) == seq![(opcode, grpprl@.subrange(start as int, end as int))]
                    + spec_walk(grpprl@, next as int));
            } else {
                assert(spec_walk(grpprl@, p as int) == seq![(opcode, grpprl@.subrange(start as int, end as int))]);
                assert(spec_walk(grpprl@, next as int) == Seq::<(u16, Seq<u8>)>::empty());
            }
        }
        p = next;
    }
    out
}

} // verus!

verus! {

/// One table cell descriptor (TKBKTAP) distilled from a row definition.
#[derive(Debug, Clone, Copy, Default, PartialEq, Eq, Structural)]
pub struct TapCellInfo {
    /// `rgf` flags (`TCGRF`); bits 5-6 are `fVertMerge`.
    pub rgf: u16,
    /// Preferred cell width in twips (0 = derive from `rgdxaCenter`).
    pub w_width: u16,
}

/// A table row definition (`sprmTDefTable` operand).
#[derive(Debug, Clone, Default, PartialEq, Eq)]
pub struct TapInfo {
    /// Number of cells in the row (`itcMac`).
    pub itc_mac: u8,
    /// Column boundary positions in twips, `itcMac + 1` entries.
    pub centers: Vec<i16>,
    /// Per-cell descriptors, `itcMac` entries.
    pub cells: Vec<TapCellInfo>,
}

/// What a row definition holds.
pub struct TapModel {
    pub itc_mac: u8,
    pub centers: Seq<i16>,
    pub cells: Seq<TapCellInfo>,
}

impl View for TapInfo {
    type V = TapModel;

    open spec fn view(&self) -> TapModel {
        TapModel { itc_mac: self.itc_mac, centers: self.centers@, cells: self.cells@ }
    }
}

/// Offset of the cell descriptors in a row definition with `itc` cells.
pub open spec fn tdef_cells_offset(itc: int) -> int {
    1 + (itc + 1) * 2
}

/// The row definition an operand encodes: `[itcMac][rgdxaCenter: itcMac+1
/// × i16][rgtc: itcMac × 20 bytes]`, or `None` when it is too short.
pub open spec fn spec_tdef_table(o: Seq<u8>) -> Option<TapModel> {
    if o.len() < 3 {
        None
    } else {
        let itc = o[0] as int;
        let off = tdef_cells_offset(itc);
        if off + itc * 20 > o.len() {
            None
        } else {
            Some(
                TapModel {
                    itc_mac: o[0],
                    centers: Seq::new((itc + 1) as nat, |i: int| as_signed16(le16(o, 1 + i * 2)) as i16),
                    cells: Seq::new(
                        itc as nat,
                        |i: int|
                            TapCellInfo {
                                rgf: le16(o, off + i * 20) as u16,
                                w_width: le16(o, off + i * 20 + 2) as u16,
                            },
                    ),
                },
            )
        }
    }
}

/// The size rule of a `sprmTDefTable` operand: it is read exactly when
/// it holds the cell count `k` (its first byte), `k + 1` boundaries of 2
/// bytes and `k` cell records of 20 bytes, that is `3 + 22·k` bytes at
/// least; then boundary `i` is the signed 16-bit value at `1 + 2i`, and
/// cell `i`'s flags and width are the 16-bit values at `3 + 2k + 20i` and
/// `5 + 2k + 20i`.
pub proof fn lemma_tdef_table_size_rule(o: Seq<u8>)
    ensures
        spec_tdef_table(o) is Some <==> (o.len() > 0 && o.len() >= 3 + 22 * o[0]),
        spec_tdef_table(o) matches Some(t) ==> {
            let k = o[0] as int;
            &&& t.itc_mac == o[0]
            &&& t.centers.len() == k + 1
            &&& t.cells.len() == k
            &&& forall|i: int| 0 <= i <= k ==> #[trigger] t.centers[i] == as_signed16(le16(o, 1 + 2 * i)) as i16
            &&& forall|i: int|
                0 <= i < k ==> (#[trigger] t.cells[i]).rgf == le16(o, 3 + 2 * k + 20 * i) as u16
                    && t.cells[i].w_width == le16(o, 5 + 2 * k + 20 * i) as u16
        },
{
    if o.len() > 0 {
        let k = o[0] as int;
        assert(tdef_cells_offset(k) == 3 + 2 * k);
        if let Some(t) = spec_tdef_table(o) {
            assert forall|i: int| 0 <= i < k implies (#[trigger] t.cells[i]).rgf == le16(o, 3 + 2 * k + 20 * i) as u16
                && t.cells[i].w_width == le16(o, 5 + 2 * k + 20 * i) as u16 by {
                assert(3 + 2 * k + i * 20 == 3 + 2 * k + 20 * i);
            }
            assert forall|i: int| 0 <= i <= k implies #[trigger] t.centers[i] == as_signed16(le16(o, 1 + 2 * i)) as i16 by {
                assert(1 + i * 2 == 1 + 2 * i);
            }
        }
    }
}

/// Parse a `sprmTDefTable` operand into a row definition; `None` when the
/// operand is truncated.
pub fn parse_tdef_table(operand: &[u8]) -> (r: Option<TapInfo>)
    ensures
        r matches Some(t) ==> spec_tdef_table(operand@) == Some(t@),
        r is None ==> spec_tdef_table(operand@) is None,
{
    if operand.len() < 3 {
        return None;
    }
    let itc_mac = operand[0] as usize;
    let tcs_off = 1 + (itc_mac + 1) * 2;
    if tcs_off + itc_mac * 20 > operand.len() {
        return None;
    }
    let mut centers: Vec<i16> = Vec::new();
    let mut i: usize = 0;
    while i <= itc_mac
        invariant
            i <= itc_mac + 1,
            itc_mac == operand@[0] as int,
            tcs_off == tdef_cells_offset(itc_mac as int),
            tcs_off + itc_mac * 20 <= operand@.len(),
            centers@.len() == i,
            forall|j: int| 0 <= j < i ==> centers@[j] == as_signed16(le16(operand@, 1 + j * 2)) as i16,
        decreases itc_mac + 1 - i,
    {
        centers.push(read_i16_le(operand, 1 + i * 2));
        i = i + 1;
    }
    let mut cells: Vec<TapCellInfo> = Vec::new();
    let mut k: usize = 0;
    while k < itc_mac
        invariant
            k <= itc_mac,
            itc_mac == operand@[0] as int,
            tcs_off == tdef_cells_offset(itc_mac as int),
            tcs_off + itc_mac * 20 <= operand@.len(),
            cells@.len() == k,
            forall|j: int|
                0 <= j < k ==> cells@[j] == (TapCellInfo {
                    rgf: le16(operand@, tcs_off + j * 20) as u16,
                    w_width: le16(operand@, tcs_off + j * 20 + 2) as u16,
                }),
        decreases itc_mac - k,
    {
        let off = tcs_off + k * 20;
        cells.push(
            TapCellInfo { rgf: read_u16_le(operand, off), w_width: read_u16_le(operand, off + 2) },
        );
        k = k + 1;
    }
    let t = TapInfo { itc_mac: itc_mac as u8, centers, cells };
    proof {
        let m = spec_tdef_table(operand@)->Some_0;
        assert(m.centers =~= t.centers@);
        assert(m.cells =~= t.cells@);
    }
    Some(t)
}

/// The tab stop a twips position and a `TBD` byte (`jc` in bits 0..2,
/// `tlc` in bits 3..5) describe.
pub open spec fn spec_tab_from_tbd(pos: int, tbd: u8) -> TabStop {
    let jc = tbd as int % 8;
    let tlc = (tbd as int / 8) % 8;
    TabStop {
        position_twips: pos as i32,
        alignment: if jc == 1 {
            TabAlignment::Center
        } else if jc == 2 {
            TabAlignment::Right
        } else if jc == 3 {
            TabAlignment::Decimal
        } else if jc == 4 {
            TabAlignment::Bar
        } else {
            TabAlignment::Left
        },
        leader: if tlc == 1 {
            TabLeader::Dot
        } else if tlc == 2 {
            TabLeader::Hyphen
        } else if tlc == 3 {
            TabLeader::Underscore
        } else if tlc == 4 {
            TabLeader::Heavy
        } else if tlc == 5 {
            TabLeader::MiddleDot
        } else {
            TabLeader::NoLeader
        },
    }
}

fn tab_from_tbd(position_twips: i32, tbd: u8) -> (r: TabStop)
    ensures
        r == spec_tab_from_tbd(position_twips as int, tbd),
{
    let jc = tbd % 8;
    let tlc = (tbd / 8) % 8;
    TabStop {
        position_twips,
        alignment: if jc == 1 {
            TabAlignment::Center
        } else if jc == 2 {
            TabAlignment::Right
        } else if jc == 3 {
            TabAlignment::Decimal
        } else if jc == 4 {
            TabAlignment::Bar
        } else {
            TabAlignment::Left
        },
        leader: if tlc == 1 {
            TabLeader::Dot
        } else if tlc == 2 {
            TabLeader::Hyphen
        } else if tlc == 3 {
            TabLeader::Underscore
        } else if tlc == 4 {
            TabLeader::Heavy
        } else if tlc == 5 {
            TabLeader::MiddleDot
        } else {
            TabLeader::NoLeader
        },
    }
}

/// The added tab stops from index `i` on, stopping at the first one whose
/// position or descriptor lies past the operand.
pub open spec fn spec_added_tabs(o: Seq<u8>, base: int, tbd_base: int, c_add: int, i: int) -> Seq<
    TabStop,
>
    decreases c_add - i,
{
    if i >= c_add || base + 2 * i + 2 > o.len() || tbd_base + i >= o.len() || i < 0 {
        Seq::empty()
    } else {
        seq![spec_tab_from_tbd(as_signed16(le16(o, base + 2 * i)), o[tbd_base + i])]
            + spec_added_tabs(o, base, tbd_base, c_add, i + 1)
    }
}

/// The tab stops a `PChgTabs` operand adds: skip the delete block (`cDel`
/// then `stride` bytes per tab — 4 for `0xC615`, 2 for `0xC60D`), then read
/// `cAdd` positions followed by `cAdd` descriptors.
pub open spec fn spec_pchg_tabs_operand(op: u16, o: Seq<u8>) -> Seq<TabStop> {
    let stride = if op == 0xC615 { 4int } else { 2int };
    if o.len() == 0 {
        Seq::empty()
    } else {
        let pos = 1 + o[0] as int * stride;
        if pos >= o.len() {
            Seq::empty()
        } else {
            let c_add = o[pos] as int;
            spec_added_tabs(o, pos + 1, pos + 1 + 2 * c_add, c_add, 0)
        }
    }
}

/// The tab stops of a `sprmPChgTabs` / `sprmPChgTabsPapx` operand; none for
/// any other opcode.
pub open spec fn spec_pchg_tabs(op: u16, o: Seq<u8>) -> Seq<TabStop> {
    if op == 0xC615 || op == 0xC60D {
        spec_pchg_tabs_operand(op, o)
    } else {
        Seq::empty()
    }
}

fn decode_pchg_tabs_operand(opcode: u16, operand: &[u8]) -> (r: Vec<TabStop>)
    requires
        len_ok(operand@.len() as int),
    ensures
        r@ == spec_pchg_tabs_operand(opcode, operand@),
{
    let mut tabs: Vec<TabStop> = Vec::new();
    let del_stride: usize = if opcode == 0xC615 { 4 } else { 2 };
    if operand.len() == 0 {
        return tabs;
    }
    let c_del = operand[0] as usize;
    let pos = 1 + c_del * del_stride;
    if pos >= operand.len() {
        return tabs;
    }
    let c_add = operand[pos] as usize;
    let base = pos + 1;
    let tbd_base = base + c_add * 2;
    let mut i: usize = 0;
    while i < c_add
        invariant
            len_ok(operand@.len() as int),
            base == pos + 1,
            pos < operand@.len(),
            c_add <= 255,
            tbd_base == base + 2 * c_add,
            i <= c_add,
            spec_added_tabs(operand@, base as int, tbd_base as int, c_add as int, 0) == tabs@
                + spec_added_tabs(operand@, base as int, tbd_base as int, c_add as int, i as int),
        ensures
            spec_added_tabs(operand@, base as int, tbd_base as int, c_add as int, 0) == tabs@,
        decreases c_add - i,
    {
        let xas_at = base + 2 * i;
        if xas_at + 2 > operand.len() {
            break;
        }
        let tbd_at = tbd_base + i;
        if tbd_at >= operand.len() {
            break;
        }
        let dxp = read_i16_le(operand, xas_at) as i32;
        let ghost old_tabs = tabs@;
        tabs.push(tab_from_tbd(dxp, operand[tbd_at]));
        proof {
            assert(tabs@ == old_tabs.push(spec_tab_from_tbd(dxp as int, operand@[tbd_at as int])));
            assert(seq![spec_tab_from_tbd(dxp as int, operand@[tbd_at as int])] + spec_added_tabs(
                operand@,
                base as int,
                tbd_base as int,
                c_add as int,
                i + 1,
            ) == spec_added_tabs(operand@, base as int, tbd_base as int, c_add as int, i as int));
            assert(old_tabs.push(spec_tab_from_tbd(dxp as int, operand@[tbd_at as int])) + spec_added_tabs(
                operand@,
                base as int,
                tbd_base as int,
                c_add as int,
                i + 1,
            ) =~= old_tabs + (seq![spec_tab_from_tbd(dxp as int, operand@[tbd_at as int])] + spec_added_tabs(
                operand@,
                base as int,
                tbd_base as int,
                c_add as int,
                i + 1,
            )));
        }
        i = i + 1;
    }
    tabs
}

/// Decode a `sprmPChgTabs` (`0xC615`) / `sprmPChgTabsPapx` (`0xC60D`)
/// operand into the tab stops it adds. Malformed input yields no tabs.
pub fn decode_pchg_tabs(opcode: u16, operand: &[u8]) -> (r: Vec<TabStop>)
    requires
        len_ok(operand@.len() as int),
    ensures
        r@ == spec_pchg_tabs(opcode, operand@),
{
    if opcode == 0xC615 || opcode == 0xC60D {
        decode_pchg_tabs_operand(opcode, operand)
    } else {
        Vec::new()
    }
}

} // verus!

verus! {

/// Paragraph-property flags distilled from a PAP grpprl.
#[derive(Debug, Clone, PartialEq, Eq)]
pub struct PapProps {
    /// `sprmPFInTable` (0x2416): this paragraph lives inside a table.
    pub f_in_table: bool,
    /// The paragraph carries a row definition (`sprmTDefTable`): it is the
    /// row terminator, not itself a cell.
    pub is_table_trailing_mark: bool,
    /// `sprmPItap` (0x6649): table nesting depth.
    pub itap: u8,
    /// `sprmPIlvl` (0x260A): list level (0-based).
    pub ilvl: Option<u8>,
    /// `sprmPIlfo` (0x460B): list format override id, signed.
    pub ilfo: Option<i16>,
    /// Parsed row definition for row-terminator paragraphs.
    pub tap: Option<TapInfo>,
    /// Tab stops from `sprmPChgTabs` / `sprmPChgTabsPapx`.
    pub tabs: Vec<TabStop>,
    /// `sprmPOutLvl` (0x2640): outline level 0–8 (Heading 1–9).
    pub outline_level: Option<u8>,
    /// `sprmPJc` / `sprmPJc80`: paragraph alignment.
    pub alignment: Option<ParagraphAlignment>,
    /// `sprmPDxaLeft` / `sprmPDxaLeft80`, in twips.
    pub indent_left_twips: Option<i32>,
    /// `sprmPDxaRight` / `sprmPDxaRight80`, in twips.
    pub indent_right_twips: Option<i32>,
    /// `sprmPDxaLeft1` / `sprmPDxaLeft180`, in twips (negative = hanging).
    pub first_line_indent_twips: Option<i32>,
    /// `sprmPDyaBefore` (0xA413), in twips.
    pub space_before_twips: Option<u32>,
    /// `sprmPDyaAfter` (0xA414), in twips.
    pub space_after_twips: Option<u32>,
}

/// What a paragraph's properties hold.
pub struct PapModel {
    pub f_in_table: bool,
    pub is_table_trailing_mark: bool,
    pub itap: u8,
    pub ilvl: Option<u8>,
    pub ilfo: Option<i16>,
    pub tap: Option<TapModel>,
    pub tabs: Seq<TabStop>,
    pub outline_level: Option<u8>,
    pub alignment: Option<ParagraphAlignment>,
    pub indent_left_twips: Option<i32>,
    pub indent_right_twips: Option<i32>,
    pub first_line_indent_twips: Option<i32>,
    pub space_before_twips: Option<u32>,
    pub space_after_twips: Option<u32>,
}

impl View for PapProps {
    type V = PapModel;

    open spec fn view(&self) -> PapModel {
        PapModel {
            f_in_table: self.f_in_table,
            is_table_trailing_mark: self.is_table_trailing_mark,
            itap: self.itap,
            ilvl: self.ilvl,
            ilfo: self.ilfo,
            tap: match self.tap {
                Some(t) => Some(t@),
                None => None,
            },
            tabs: self.tabs@,
            outline_level: self.outline_level,
            alignment: self.alignment,
            indent_left_twips: self.indent_left_twips,
            indent_right_twips: self.indent_right_twips,
            first_line_indent_twips: self.first_line_indent_twips,
            space_before_twips: self.space_before_twips,
            space_after_twips: self.space_after_twips,
        }
    }
}

/// Properties of a paragraph that carries no SPRM at all: ordinary prose.
pub open spec fn pap_default() -> PapModel {
    PapModel {
        f_in_table: false,
        is_table_trailing_mark: false,
        itap: 0,
        ilvl: None,
        ilfo: None,
        tap: None,
        tabs: Seq::empty(),
        outline_level: None,
        alignment: None,
        indent_left_twips: None,
        indent_right_twips: None,
        first_line_indent_twips: None,
        space_before_twips: None,
        space_after_twips: None,
    }
}

impl Default for PapProps {
    fn default() -> (r: Self)
        ensures
            r@ == pap_default(),
    {
        PapProps {
            f_in_table: false,
            is_table_trailing_mark: false,
            itap: 0,
            ilvl: None,
            ilfo: None,
            tap: None,
            tabs: Vec::new(),
            outline_level: None,
            alignment: None,
            indent_left_twips: None,
            indent_right_twips: None,
            first_line_indent_twips: None,
            space_before_twips: None,
            space_after_twips: None,
        }
    }
}

/// The signed 16-bit operand value, when the operand holds two bytes.
pub open spec fn spec_xas(o: Seq<u8>) -> Option<i32> {
    if o.len() >= 2 {
        Some(as_signed16(le16(o, 0)) as i32)
    } else {
        None
    }
}

/// A spacing operand (`0..=0x7BC0` twips), or `None` when absent or out of range.
pub open spec fn spec_spacing(o: Seq<u8>) -> Option<u32> {
    if o.len() >= 2 && le16(o, 0) <= 0x7BC0 {
        Some(le16(o, 0) as u32)
    } else {
        None
    }
}

/// `sprmPJc`'s alignment: 0 left, 1 center, 2 right, 4 distribute,
/// everything else justify.
pub open spec fn spec_jc(jc: u8) -> ParagraphAlignment {
    if jc == 0 {
        ParagraphAlignment::Left
    } else if jc == 1 {
        ParagraphAlignment::Center
    } else if jc == 2 {
        ParagraphAlignment::Right
    } else if jc == 4 {
        ParagraphAlignment::Distribute
    } else {
        ParagraphAlignment::Justify
    }
}

/// `sprmPJc80`'s alignment: 0 left, 1 center, 2 right, everything else justify.
pub open spec fn spec_jc80(jc: u8) -> ParagraphAlignment {
    if jc == 0 {
        ParagraphAlignment::Left
    } else if jc == 1 {
        ParagraphAlignment::Center
    } else if jc == 2 {
        ParagraphAlignment::Right
    } else {
        ParagraphAlignment::Justify
    }
}

/// The effect of one paragraph SPRM on the properties decoded so far.
/// Unknown opcodes, and operands too short for their opcode, change nothing.
pub open spec fn pap_apply(m: PapModel, op: u16, o: Seq<u8>) -> PapModel {
    if op == 0x2640 {
        if o.len() >= 1 && o[0] <= 8 {
            PapModel { outline_level: Some(o[0]), ..m }
        } else {
            m
        }
    } else if op == 0x2416 {
        if o.len() >= 1 {
            PapModel { f_in_table: o[0] % 2 == 1, ..m }
        } else {
            m
        }
    } else if op == 0x6649 {
        if o.len() >= 4 {
            PapModel { itap: o[0], ..m }
        } else {
            m
        }
    } else if op == 0xD608 {
        PapModel { is_table_trailing_mark: true, tap: spec_tdef_table(o), ..m }
    } else if op == 0x460B {
        if o.len() >= 2 {
            PapModel { ilfo: Some(as_signed16(le16(o, 0)) as i16), ..m }
        } else {
            m
        }
    } else if op == 0x260A {
        if o.len() >= 1 {
            PapModel { ilvl: Some(o[0]), ..m }
        } else {
            m
        }
    } else if op == 0xC615 || op == 0xC60D {
        if o.len() >= 1 {
            PapModel { tabs: spec_pchg_tabs(op, o), ..m }
        } else {
            m
        }
    } else if op == 0x2461 {
        if o.len() >= 1 {
            PapModel { alignment: Some(spec_jc(o[0])), ..m }
        } else {
            m
        }
    } else if op == 0x2403 {
        if o.len() >= 1 {
            PapModel { alignment: Some(spec_jc80(o[0])), ..m }
        } else {
            m
        }
    } else if op == 0x845E || op == 0x840F {
        if o.len() >= 2 {
            PapModel { indent_left_twips: spec_xas(o), ..m }
        } else {
            m
        }
    } else if op == 0x845D || op == 0x840E {
        if o.len() >= 2 {
            PapModel { indent_right_twips: spec_xas(o), ..m }
        } else {
            m
        }
    } else if op == 0x8460 || op == 0x8411 {
        if o.len() >= 2 {
            PapModel { first_line_indent_twips: spec_xas(o), ..m }
        } else {
            m
        }
    } else if op == 0xA413 {
        if spec_spacing(o) is Some {
            PapModel { space_before_twips: spec_spacing(o), ..m }
        } else {
            m
        }
    } else if op == 0xA414 {
        if spec_spacing(o) is Some {
            PapModel { space_after_twips: spec_spacing(o), ..m }
        } else {
            m
        }
    } else {
        m
    }
}

/// The properties after applying every SPRM of `s` in order.
pub open spec fn pap_fold(m: PapModel, s: Seq<(u16, Seq<u8>)>) -> PapModel
    decreases s.len(),
{
    if s.len() == 0 {
        m
    } else {
        pap_apply(pap_fold(m, s.drop_last()), s.last().0, s.last().1)
    }
}

/// The paragraph properties a PAP `grpprl` declares.
pub open spec fn spec_pap_props(g: Seq<u8>) -> PapModel {
    pap_fold(pap_default(), spec_parse_grpprl(g))
}

fn read_xas(o: &[u8]) -> (r: i32)
    requires
        o@.len() >= 2,
    ensures
        Some(r) == spec_xas(o@),
{
    read_i16_le(o, 0) as i32
}

fn dispatch_pap_sprm(props: &mut PapProps, opcode: u16, operand: &[u8])
    requires
        len_ok(operand@.len() as int),
    ensures
        final(props)@ == pap_apply(old(props)@, opcode, operand@),
{
    let n = operand.len();
    if opcode == 0x2640 {
        if n >= 1 && operand[0] <= 8 {
            props.outline_level = Some(operand[0]);
        }
    } else if opcode == 0x2416 {
        if n >= 1 {
            props.f_in_table = operand[0] % 2 == 1;
        }
    } else if opcode == 0x6649 {
        if n >= 4 {
            props.itap = operand[0];
        }
    } else if opcode == 0xD608 {
        props.is_table_trailing_mark = true;
        props.tap = parse_tdef_table(operand);
    } else if opcode == 0x460B {
        if n >= 2 {
            props.ilfo = Some(read_i16_le(operand, 0));
        }
    } else if opcode == 0x260A {
        if n >= 1 {
            props.ilvl = Some(operand[0]);
        }
    } else if opcode == 0xC615 || opcode == 0xC60D {
        if n >= 1 {
            props.tabs = decode_pchg_tabs(opcode, operand);
        }
    } else if opcode == 0x2461 {
        if n >= 1 {
            let jc = operand[0];
            props.alignment = Some(
                if jc == 0 {
                    ParagraphAlignment::Left
                } else if jc == 1 {
                    ParagraphAlignment::Center
                } else if jc == 2 {
                    ParagraphAlignment::Right
                } else if jc == 4 {
                    ParagraphAlignment::Distribute
                } else {
                    ParagraphAlignment::Justify
                },
            );
        }
    } else if opcode == 0x2403 {
        if n >= 1 {
            let jc = operand[0];
            props.alignment = Some(
                if jc == 0 {
                    ParagraphAlignment::Left
                } else if jc == 1 {
                    ParagraphAlignment::Center
                } else if jc == 2 {
                    ParagraphAlignment::Right
                } else {
                    ParagraphAlignment::Justify
                },
            );
        }
    } else if opcode == 0x845E || opcode == 0x840F {
        if n >= 2 {
            props.indent_left_twips = Some(read_xas(operand));
        }
    } else if opcode == 0x845D || opcode == 0x840E {
        if n >= 2 {
            props.indent_right_twips = Some(read_xas(operand));
        }
    } else if opcode == 0x8460 || opcode == 0x8411 {
        if n >= 2 {
            props.first_line_indent_twips = Some(read_xas(operand));
        }
    } else if opcode == 0xA413 {
        if n >= 2 {
            let v = read_u16_le(operand, 0);
            if v <= 0x7BC0 {
                props.space_before_twips = Some(v as u32);
            }
        }
    } else if opcode == 0xA414 {
        if n >= 2 {
            let v = read_u16_le(operand, 0);
            if v <= 0x7BC0 {
                props.space_after_twips = Some(v as u32);
            }
        }
    }
}

/// Decode a PAP `grpprl` into the paragraph flags it declares. Unknown
/// SPRMs are ignored; an empty `grpprl` is ordinary prose.
pub fn extract_pap_props(grpprl: &[u8]) -> (r: PapProps)
    requires
        len_ok(grpprl@.len() as int),
    ensures
        r@ == spec_pap_props(grpprl@),
{
    let mut props = PapProps::default();
    let sprms = parse_grpprl(grpprl);
    let ghost sv = sprms@.map_values(|s: Sprm| sprm_view(s));
    let mut i: usize = 0;
    while i < sprms.len()
        invariant
            i <= sprms@.len(),
            sv == sprms@.map_values(|s: Sprm| sprm_view(s)),
            sv == spec_parse_grpprl(grpprl@),
            len_ok(grpprl@.len() as int),
            props@ == pap_fold(pap_default(), sv.take(i as int)),
        decreases sprms@.len() - i,
    {
        let s = &sprms[i];
        proof {
            assert(sv.take(i + 1 as int).drop_last() == sv.take(i as int));
            assert(sv[i as int] == sprm_view(sprms@[i as int]));
            assert(s.operand@.len() <= grpprl@.len()) by {
                lemma_walk_operands_bounded(grpprl@, 0, i as int);
            }
        }
        dispatch_pap_sprm(&mut props, s.opcode, s.operand.as_slice());
        i = i + 1;
    }
    assert(sv.take(sv.len() as int) == sv);
    props
}

/// Every operand the walk yields is a slice of the stream.
pub proof fn lemma_walk_operands_bounded(g: Seq<u8>, p: int, i: int)
    requires
        0 <= i < spec_walk(g, p).len(),
    ensures
        spec_walk(g, p)[i].1.len() <= g.len(),
    decreases g.len() - p,
{
    if p < 0 || p + 2 > g.len() {
    } else {
        match spec_step(g, p) {
            None => {},
            Some((op, operand, next)) => {
                if next <= g.len() && next > p {
                    if i > 0 {
                        lemma_walk_operands_bounded(g, next, i - 1);
                    }
                }
            },
        }
    }
}

} // verus!

verus! {

/// Character-property flags distilled from a CHP grpprl.
#[derive(Debug, Clone, Copy, PartialEq, Eq)]
pub struct ChpProps {
    /// `sprmCFRMarkDel` (0x0800): deleted revision-mark text.
    pub f_rmark_del: bool,
    /// `sprmCFRMarkIns` (0x0801): inserted revision-mark text.
    pub f_rmark_ins: bool,
    /// `sprmCFBold` (0x0835).
    pub bold: bool,
    /// `sprmCFItalic` (0x0836).
    pub italic: bool,
    /// `sprmCKul` (0x2A3E): underline style; `None` for no underline.
    pub underline: Option<UnderlineStyle>,
    /// `sprmCCv` (0x6870): true RGB text color; `None` for automatic.
    pub color: Option<[u8; 3]>,
    /// `sprmCHps` (0x4A43): font size in half-points.
    pub font_size_half_pt: Option<u32>,
}

/// Whether two character-property sets are the same.
pub fn chp_props_equal(a: &ChpProps, b: &ChpProps) -> (r: bool)
    ensures
        r == (*a == *b),
{
    let same_underline = match (a.underline, b.underline) {
        (None, None) => true,
        (Some(x), Some(y)) => x == y,
        _ => false,
    };
    let same_color = match (a.color, b.color) {
        (None, None) => true,
        (Some(x), Some(y)) => {
            let r = x[0] == y[0] && x[1] == y[1] && x[2] == y[2];
            proof {
                if r {
                    assert(x =~= y);
                }
            }
            r
        },
        _ => false,
    };
    a.f_rmark_del == b.f_rmark_del && a.f_rmark_ins == b.f_rmark_ins && a.bold == b.bold
        && a.italic == b.italic && same_underline && same_color
        && a.font_size_half_pt == b.font_size_half_pt
}

/// Character properties of a run with no CHP SPRM: ordinary text.
pub open spec fn chp_default() -> ChpProps {
    ChpProps {
        f_rmark_del: false,
        f_rmark_ins: false,
        bold: false,
        italic: false,
        underline: None,
        color: None,
        font_size_half_pt: None,
    }
}

impl Default for ChpProps {
    fn default() -> (r: Self)
        ensures
            r == chp_default(),
    {
        ChpProps {
            f_rmark_del: false,
            f_rmark_ins: false,
            bold: false,
            italic: false,
            underline: None,
            color: None,
            font_size_half_pt: None,
        }
    }
}

/// The underline a `Kul` value names: 0 is none; unrecognized values are
/// a single underline.
pub open spec fn spec_kul(kul: u8) -> Option<UnderlineStyle> {
    if kul == 0 {
        None
    } else if kul == 3 {
        Some(UnderlineStyle::Double)
    } else if kul == 4 {
        Some(UnderlineStyle::Dotted)
    } else if kul == 6 {
        Some(UnderlineStyle::Thick)
    } else if kul == 7 {
        Some(UnderlineStyle::Dash)
    } else if kul == 9 {
        Some(UnderlineStyle::DotDash)
    } else if kul == 10 {
        Some(UnderlineStyle::DotDotDash)
    } else if kul == 11 {
        Some(UnderlineStyle::Wave)
    } else if kul == 2 {
        Some(UnderlineStyle::Words)
    } else {
        Some(UnderlineStyle::Single)
    }
}

/// The effect of one character SPRM on the properties decoded so far.
pub open spec fn chp_apply(m: ChpProps, op: u16, o: Seq<u8>) -> ChpProps {
    if op == 0x0800 {
        if o.len() >= 1 {
            ChpProps { f_rmark_del: o[0] != 0, ..m }
        } else {
            m
        }
    } else if op == 0x0801 {
        if o.len() >= 1 {
            ChpProps { f_rmark_ins: o[0] != 0, ..m }
        } else {
            m
        }
    } else if op == 0x0835 {
        if o.len() >= 1 {
            ChpProps { bold: o[0] != 0, ..m }
        } else {
            m
        }
    } else if op == 0x0836 {
        if o.len() >= 1 {
            ChpProps { italic: o[0] != 0, ..m }
        } else {
            m
        }
    } else if op == 0x2A3E {
        if o.len() >= 1 {
            ChpProps { underline: spec_kul(o[0]), ..m }
        } else {
            m
        }
    } else if op == 0x6870 {
        if o.len() >= 4 {
            ChpProps {
                color: if o[3] != 0 {
                    None
                } else {
                    Some([o[0], o[1], o[2]])
                },
                ..m
            }
        } else {
            m
        }
    } else if op == 0x4A43 {
        if o.len() >= 2 && 2 <= le16(o, 0) <= 3276 {
            ChpProps { font_size_half_pt: Some(le16(o, 0) as u32), ..m }
        } else {
            m
        }
    } else {
        m
    }
}

/// The properties after applying every SPRM of `s` in order.
pub open spec fn chp_fold(m: ChpProps, s: Seq<(u16, Seq<u8>)>) -> ChpProps
    decreases s.len(),
{
    if s.len() == 0 {
        m
    } else {
        chp_apply(chp_fold(m, s.drop_last()), s.last().0, s.last().1)
    }
}

/// The character properties a CHP `grpprl` declares.
pub open spec fn spec_chp_props(g: Seq<u8>) -> ChpProps {
    chp_fold(chp_default(), spec_parse_grpprl(g))
}

fn dispatch_chp_sprm(props: &mut ChpProps, opcode: u16, operand: &[u8])
    ensures
        *final(props) == chp_apply(*old(props), opcode, operand@),
{
    let n = operand.len();
    if opcode == 0x0800 {
        if n >= 1 {
            props.f_rmark_del = operand[0] != 0;
        }
    } else if opcode == 0x0801 {
        if n >= 1 {
            props.f_rmark_ins = operand[0] != 0;
        }
    } else if opcode == 0x0835 {
        if n >= 1 {
            props.bold = operand[0] != 0;
        }
    } else if opcode == 0x0836 {
        if n >= 1 {
            props.italic = operand[0] != 0;
        }
    } else if opcode == 0x2A3E {
        if n >= 1 {
            let kul = operand[0];
            props.underline = if kul == 0 {
                None
            } else if kul == 3 {
                Some(UnderlineStyle::Double)
            } else if kul == 4 {
                Some(UnderlineStyle::Dotted)
            } else if kul == 6 {
                Some(UnderlineStyle::Thick)
            } else if kul == 7 {
                Some(UnderlineStyle::Dash)
            } else if kul == 9 {
                Some(UnderlineStyle::DotDash)
            } else if kul == 10 {
                Some(UnderlineStyle::DotDotDash)
            } else if kul == 11 {
                Some(UnderlineStyle::Wave)
            } else if kul == 2 {
                Some(UnderlineStyle::Words)
            } else {
                Some(UnderlineStyle::Single)
            };
        }
    } else if opcode == 0x6870 {
        if n >= 4 {
            props.color = if operand[3] != 0 {
                None
            } else {
                Some([operand[0], operand[1], operand[2]])
            };
        }
    } else if opcode == 0x4A43 {
        if n >= 2 {
            let hps = read_u16_le(operand, 0);
            if 2 <= hps && hps <= 3276 {
                props.font_size_half_pt = Some(hps as u32);
            }
        }
    }
}

/// Decode a CHP `grpprl` into the character flags it declares. Unknown
/// SPRMs are ignored; an empty `grpprl` is ordinary text.
pub fn extract_chp_props(grpprl: &[u8]) -> (r: ChpProps)
    requires
        len_ok(grpprl@.len() as int),
    ensures
        r == spec_chp_props(grpprl@),
{
    let mut props = ChpProps::default();
    let sprms = parse_grpprl(grpprl);
    let ghost sv = sprms@.map_values(|s: Sprm| sprm_view(s));
    let mut i: usize = 0;
    while i < sprms.len()
        invariant
            i <= sprms@.len(),
            sv == sprms@.map_values(|s: Sprm| sprm_view(s)),
            sv == spec_parse_grpprl(grpprl@),
            props == chp_fold(chp_default(), sv.take(i as int)),
        decreases sprms@.len() - i,
    {
        let s = &sprms[i];
        proof {
            assert(sv.take(i + 1 as int).drop_last() == sv.take(i as int));
            assert(sv[i as int] == sprm_view(sprms@[i as int]));
        }
        dispatch_chp_sprm(&mut props, s.opcode, s.operand.as_slice());
        i = i + 1;
    }
    assert(sv.take(sv.len() as int) == sv);
    props
}

/// Every paragraph SPRM this crate decodes: `(opcode, spec name, [MS-DOC]
/// section)`.
pub fn pap_sprm_registry() -> (r: Vec<(u16, &'static str, &'static str)>)
    ensures
        r@.map_values(|e: (u16, &'static str, &'static str)| e.0) == seq![
            0x2640u16, 0x2416, 0x6649, 0xD608, 0x460B, 0x260A, 0xC615, 0xC60D, 0x2461, 0x2403,
            0x845E, 0x840F, 0x845D, 0x840E, 0x8460, 0x8411, 0xA413, 0xA414,
        ],
{
    let r = vec![
        (0x2640u16, "sprmPOutLvl", "2.6.2"),
        (0x2416, "sprmPFInTable", "2.6.2"),
        (0x6649, "sprmPItap", "2.6.2"),
        (0xD608, "sprmTDefTable", "2.6.3"),
        (0x460B, "sprmPIlfo", "2.6.2"),
        (0x260A, "sprmPIlvl", "2.6.2"),
        (0xC615, "sprmPChgTabs", "2.6.2"),
        (0xC60D, "sprmPChgTabsPapx", "2.6.2"),
        (0x2461, "sprmPJc", "2.6.2"),
        (0x2403, "sprmPJc80", "2.6.2"),
        (0x845E, "sprmPDxaLeft", "2.6.2"),
        (0x840F, "sprmPDxaLeft80", "2.6.2"),
        (0x845D, "sprmPDxaRight", "2.6.2"),
        (0x840E, "sprmPDxaRight80", "2.6.2"),
        (0x8460, "sprmPDxaLeft1", "2.6.2"),
        (0x8411, "sprmPDxaLeft180", "2.6.2"),
        (0xA413, "sprmPDyaBefore", "2.6.2"),
        (0xA414, "sprmPDyaAfter", "2.6.2"),
    ];
    assert(r@.map_values(|e: (u16, &'static str, &'static str)| e.0) =~= seq![
        0x2640u16, 0x2416, 0x6649, 0xD608, 0x460B, 0x260A, 0xC615, 0xC60D, 0x2461, 0x2403,
        0x845E, 0x840F, 0x845D, 0x840E, 0x8460, 0x8411, 0xA413, 0xA414,
    ]);
    r
}

/// Every character SPRM this crate decodes: `(opcode, spec name, [MS-DOC]
/// section)`.
pub fn chp_sprm_registry() -> (r: Vec<(u16, &'static str, &'static str)>)
    ensures
        r@.map_values(|e: (u16, &'static str, &'static str)| e.0) == seq![
            0x0800u16, 0x0801, 0x0835, 0x0836, 0x2A3E, 0x6870, 0x4A43,
        ],
{
    let r = vec![
        (0x0800u16, "sprmCFRMarkDel", "2.6.1"),
        (0x0801, "sprmCFRMarkIns", "2.6.1"),
        (0x0835, "sprmCFBold", "2.6.1"),
        (0x0836, "sprmCFItalic", "2.6.1"),
        (0x2A3E, "sprmCKul", "2.6.1"),
        (0x6870, "sprmCCv", "2.6.1"),
        (0x4A43, "sprmCHps", "2.6.1"),
    ];
    assert(r@.map_values(|e: (u16, &'static str, &'static str)| e.0) =~= seq![
        0x0800u16, 0x0801, 0x0835, 0x0836, 0x2A3E, 0x6870, 0x4A43,
    ]);
    r
}

} // verus!
