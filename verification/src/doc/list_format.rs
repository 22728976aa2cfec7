//! `.doc` list formatting: `PlfLst` (list definitions) and `PlfLfo` (list
//! format overrides).
//!
//! A paragraph's `ilfo` (`sprmPIlfo`) is a 1-based index into `PlfLfo`'s
//! `LFO` array; `LFO.lsid` selects the matching `LSTF` in `PlfLst`, whose
//! `LVL` array (one entry per level, nine unless `fSimpleList`) carries each
//! level's start-at value and number-format code. An `LFOLVL` with
//! `fStartAt` set (and no full formatting override) replaces a level's
//! start-at value for that `LFO`.

use vstd::prelude::*;
use crate::bytes::{as_signed32, le16, le32, len_ok, read_i32_le, read_u16_le, read_u32_le};

verus! {

/// One list level's declared numbering, from an `LVL`'s `LVLF`.
#[derive(Debug, Clone, Copy, PartialEq, Eq, Structural)]
pub struct ListLevel {
    /// `LVLF.iStartAt`: the number sequence's start-at value.
    pub start_at: i32,
    /// `LVLF.nfc`: the number-format code; `0xFF` is a bullet level.
    pub nfc: u8,
}

impl ListLevel {
    /// `true` when this level has a real number sequence (`nfc != 0xFF`).
    pub fn is_numbered(&self) -> (r: bool)
        ensures
            r == (self.nfc != 0xFF),
    {
        self.nfc != 0xFF
    }
}

/// One list definition: an `LSTF`'s `lsid` and its levels.
#[derive(Debug, Clone)]
struct ListDef {
    lsid: i32,
    levels: Vec<ListLevel>,
}

/// One `LFO`: the `lsid` it points at and its `(ilvl, start_at)` overrides.
#[derive(Debug, Clone)]
struct LfoEntry {
    lsid: i32,
    start_overrides: Vec<(u8, i32)>,
}

/// Combined `PlfLst` + `PlfLfo` lookup: resolves a paragraph's `(ilfo,
/// ilvl)` to the `ListLevel` that governs its numbering.
#[derive(Debug, Clone)]
pub struct ListFormatting {
    list_defs: Vec<ListDef>,
    lfos: Vec<LfoEntry>,
}

/// The model of a list table: `(lsid, levels)` per list definition, and
/// `(lsid, start-at overrides)` per `LFO`, in file order.
pub struct ListModel {
    pub defs: Seq<(i32, Seq<ListLevel>)>,
    pub lfos: Seq<(i32, Seq<(u8, i32)>)>,
}

impl View for ListFormatting {
    type V = ListModel;

    closed spec fn view(&self) -> ListModel {
        ListModel {
            defs: self.list_defs@.map_values(|d: ListDef| (d.lsid, d.levels@)),
            lfos: self.lfos@.map_values(|l: LfoEntry| (l.lsid, l.start_overrides@)),
        }
    }
}

impl Default for ListFormatting {
    fn default() -> (r: Self)
        ensures
            r@.defs.len() == 0,
            r@.lfos.len() == 0,
    {
        ListFormatting { list_defs: Vec::new(), lfos: Vec::new() }
    }
}

/// One `LVL` at `pos`: its `LVLF` start-at and `nfc`, and the `LVL`'s total
/// length (28-byte `LVLF`, both grpprls, the `Xst`'s length and its UTF-16
/// units); `None` when the `LVLF` or the `Xst` length is cut off.
pub open spec fn spec_lvl(d: Seq<u8>, pos: int) -> Option<(ListLevel, int)> {
    if pos + 28 > d.len() {
        None
    } else {
        let after = pos + 28 + d[pos + 25] as int + d[pos + 24] as int;
        if after + 2 > d.len() {
            None
        } else {
            let level = ListLevel { start_at: as_signed32(le32(d, pos)) as i32, nfc: d[pos + 4] };
            Some((level, after + 2 + 2 * le16(d, after) - pos))
        }
    }
}

/// Up to `count` consecutive `LVL`s from `pos`, stopping at the first one
/// cut off; with the position after the last one read.
pub open spec fn spec_levels(d: Seq<u8>, pos: int, count: nat) -> (Seq<ListLevel>, int)
    decreases count,
{
    if count == 0 {
        (Seq::empty(), pos)
    } else {
        match spec_lvl(d, pos) {
            None => (Seq::empty(), pos),
            Some((l, c)) => {
                let rest = spec_levels(d, pos + c, (count - 1) as nat);
                (seq![l] + rest.0, rest.1)
            },
        }
    }
}

/// How many 28-byte `LSTF`s of the declared `cLst` fit in `d`.
pub open spec fn lstf_count(d: Seq<u8>) -> int {
    let c = le16(d, 0);
    let fit = (d.len() - 2) / 28;
    if c <= fit { c } else { fit }
}

/// `LSTF` `i`: its `lsid` and its level count (1 for a simple list, else 9).
pub open spec fn lstf_info(d: Seq<u8>, i: int) -> (i32, nat) {
    let p = 2 + 28 * i;
    (as_signed32(le32(d, p)) as i32, if d[p + 24] % 2 == 1 { 1nat } else { 9nat })
}

/// The list definitions of `LSTF`s `i..`, their levels read from `pos` on.
pub open spec fn spec_defs_from(d: Seq<u8>, i: int, n: int, pos: int) -> Seq<(i32, Seq<ListLevel>)>
    decreases n - i,
{
    if i >= n {
        Seq::empty()
    } else {
        let (lsid, cnt) = lstf_info(d, i);
        let lv = spec_levels(d, pos, cnt);
        seq![(lsid, lv.0)] + spec_defs_from(d, i + 1, n, lv.1)
    }
}

/// The list definitions of a `PlfLst` at the start of `d`.
pub open spec fn spec_plf_lst(d: Seq<u8>) -> Seq<(i32, Seq<ListLevel>)> {
    if d.len() < 2 {
        Seq::empty()
    } else {
        let n = lstf_count(d);
        spec_defs_from(d, 0, n, 2 + 28 * n)
    }
}

proof fn lemma_lvl_bounds(d: Seq<u8>, pos: int)
    requires
        spec_lvl(d, pos) is Some,
    ensures
        pos + 28 <= d.len(),
        match spec_lvl(d, pos) {
            Some((_, c)) => 0 < c <= 0x30000,
            None => false,
        },
{
}

/// Parse one `LVL` at `pos`.
fn parse_one_lvl(data: &[u8], pos: usize) -> (r: Option<(ListLevel, usize)>)
    requires
        len_ok(data@.len() as int),
    ensures
        r matches Some((l, c)) ==> spec_lvl(data@, pos as int) == Some((l, c as int)),
        r is None ==> spec_lvl(data@, pos as int) is None,
{
    if pos > data.len() || data.len() - pos < 28 {
        return None;
    }
    let start_at = read_i32_le(data, pos);
    let nfc = data[pos + 4];
    let cb_grpprl_chpx = data[pos + 24] as usize;
    let cb_grpprl_papx = data[pos + 25] as usize;
    let after_grpprls = pos + 28 + cb_grpprl_papx + cb_grpprl_chpx;
    if after_grpprls > data.len() || data.len() - after_grpprls < 2 {
        return None;
    }
    let cch = read_u16_le(data, after_grpprls) as usize;
    let total = after_grpprls + 2 + cch * 2 - pos;
    Some((ListLevel { start_at, nfc }, total))
}

/// Parse the `PlfLst` structure: `cLst`, `cLst` 28-byte `LSTF`s, then the
/// flat `LVL` array in `LSTF` order.
fn parse_plf_lst(data: &[u8]) -> (r: Vec<ListDef>)
    requires
        len_ok(data@.len() as int),
    ensures
        r@.map_values(|d: ListDef| (d.lsid, d.levels@)) == spec_plf_lst(data@),
{
    let mut defs: Vec<ListDef> = Vec::new();
    if data.len() < 2 {
        return defs;
    }
    let c_lst = read_u16_le(data, 0) as usize;
    let fit = (data.len() - 2) / 28;
    let n = if c_lst <= fit { c_lst } else { fit };
    let ghost target = spec_plf_lst(data@);
    let mut pos: usize = 2 + 28 * n;
    let mut i: usize = 0;
    while i < n
        invariant
            len_ok(data@.len() as int),
            data@.len() >= 2,
            n == lstf_count(data@),
            n * 28 + 2 <= data@.len(),
            i <= n,
            pos <= data@.len() + 0x40000,
            target == spec_plf_lst(data@),
            defs@.map_values(|d: ListDef| (d.lsid, d.levels@)) + spec_defs_from(data@, i as int, n as int, pos as int) == target,
        decreases n - i,
    {
        let p = 2 + 28 * i;
        let lsid = read_i32_le(data, p);
        let count: usize = if data[p + 24] % 2 == 1 { 1 } else { 9 };
        let ghost cnt = lstf_info(data@, i as int).1;
        let ghost lv = spec_levels(data@, pos as int, cnt);
        let mut levels: Vec<ListLevel> = Vec::new();
        let mut k: usize = 0;
        let mut done = false;
        while k < count && !done
            invariant
                len_ok(data@.len() as int),
                k <= count,
                count == cnt,
                pos <= data@.len() + 0x40000,
                !done ==> levels@ + spec_levels(data@, pos as int, (count - k) as nat).0 == lv.0,
                !done ==> spec_levels(data@, pos as int, (count - k) as nat).1 == lv.1,
                done ==> levels@ == lv.0 && pos == lv.1,
            decreases count - k + if done { 0int } else { 1int },
        {
            match parse_one_lvl(data, pos) {
                Some((level, consumed)) => {
                    proof {
                        lemma_lvl_bounds(data@, pos as int);
                        assert(seq![level] + spec_levels(data@, pos + consumed, (count - k - 1) as nat).0
                            == spec_levels(data@, pos as int, (count - k) as nat).0);
                        assert(levels@.push(level) =~= levels@ + seq![level]);
                    }
                    levels.push(level);
                    pos = pos + consumed;
                    k = k + 1;
                    proof {
                        assert(levels@ + spec_levels(data@, pos as int, (count - k) as nat).0 =~= lv.0);
                    }
                },
                None => {
                    done = true;
                    proof {
                        assert(levels@ =~= lv.0);
                    }
                },
            }
        }
        proof {
            if !done {
                assert(levels@ =~= lv.0);
            }
        }
        let ghost before = defs@.map_values(|d: ListDef| (d.lsid, d.levels@));
        defs.push(ListDef { lsid, levels });
        proof {
            assert(defs@.map_values(|d: ListDef| (d.lsid, d.levels@)) =~= before + seq![(lsid, lv.0)]);
        }
        i = i + 1;
    }
    proof {
        assert(spec_defs_from(data@, i as int, n as int, pos as int) =~= Seq::empty());
        assert(defs@.map_values(|d: ListDef| (d.lsid, d.levels@)) =~= target);
    }
    defs
}

/// One `LFOLVL` at `pos`: `iStartAt`, then a u32 whose bits 0..4 are
/// `iLvl`, bit 4 `fStartAt` and bit 5 `fFormatting`; with `fFormatting` a
/// whole `LVL` follows. Yields `(iLvl, the start-at override when fStartAt
/// is set without fFormatting, total length)`.
pub open spec fn spec_lfolvl(d: Seq<u8>, pos: int) -> Option<(u8, Option<i32>, int)> {
    if pos + 8 > d.len() {
        None
    } else {
        let flags = le32(d, pos + 4);
        let i_lvl = (flags % 16) as u8;
        let f_start_at = (flags / 16) % 2 == 1;
        let f_formatting = (flags / 32) % 2 == 1;
        let sa = if f_start_at && !f_formatting {
            Some(as_signed32(le32(d, pos)) as i32)
        } else {
            None
        };
        if f_formatting {
            match spec_lvl(d, pos + 8) {
                None => None,
                Some((_, c)) => Some((i_lvl, sa, 8 + c)),
            }
        } else {
            Some((i_lvl, sa, 8))
        }
    }
}

/// Up to `count` `LFOLVL`s from `pos`, stopping at the first one cut off:
/// the start-at overrides they declare, and the position after them.
pub open spec fn spec_overrides(d: Seq<u8>, pos: int, count: nat) -> (Seq<(u8, i32)>, int)
    decreases count,
{
    if count == 0 {
        (Seq::empty(), pos)
    } else {
        match spec_lfolvl(d, pos) {
            None => (Seq::empty(), pos),
            Some((ilvl, sa, c)) => {
                let rest = spec_overrides(d, pos + c, (count - 1) as nat);
                match sa {
                    Some(v) => (seq![(ilvl, v)] + rest.0, rest.1),
                    None => (rest.0, rest.1),
                }
            },
        }
    }
}

/// How many 16-byte `LFO`s of the declared `lfoMac` fit in `d`.
pub open spec fn lfo_count(d: Seq<u8>) -> int {
    let c = le32(d, 0);
    let fit = (d.len() - 4) / 16;
    if c <= fit { c } else { fit }
}

/// `LFO` `i`: its `lsid` and its `LFOLVL` count.
pub open spec fn lfo_info(d: Seq<u8>, i: int) -> (i32, nat) {
    let p = 4 + 16 * i;
    (as_signed32(le32(d, p)) as i32, d[p + 12] as nat)
}

/// The entries of `LFO`s `i..`, their `LFOData` read from `pos` on (a
/// 4-byte `cp`, then the `LFOLVL`s).
pub open spec fn spec_lfos_from(d: Seq<u8>, i: int, n: int, pos: int) -> Seq<(i32, Seq<(u8, i32)>)>
    decreases n - i,
{
    if i >= n {
        Seq::empty()
    } else {
        let (lsid, cnt) = lfo_info(d, i);
        let ov = spec_overrides(d, pos + 4, cnt);
        seq![(lsid, ov.0)] + spec_lfos_from(d, i + 1, n, ov.1)
    }
}

/// The `LFO` entries of a `PlfLfo` at the start of `d`.
pub open spec fn spec_plf_lfo(d: Seq<u8>) -> Seq<(i32, Seq<(u8, i32)>)> {
    if d.len() < 4 {
        Seq::empty()
    } else {
        let n = lfo_count(d);
        spec_lfos_from(d, 0, n, 4 + 16 * n)
    }
}

proof fn lemma_lfolvl_bounds(d: Seq<u8>, pos: int)
    requires
        spec_lfolvl(d, pos) is Some,
    ensures
        pos + 8 <= d.len(),
        match spec_lfolvl(d, pos) {
            Some((_, _, c)) => 0 < c <= 0x30008,
            None => false,
        },
{
    if spec_lfolvl(d, pos) is Some && (le32(d, pos + 4) / 32) % 2 == 1 {
        lemma_lvl_bounds(d, pos + 8);
    }
}

/// Parse one `LFOLVL` at `pos`.
fn parse_one_lfolvl(data: &[u8], pos: usize) -> (r: Option<(u8, Option<i32>, usize)>)
    requires
        len_ok(data@.len() as int),
    ensures
        r matches Some((a, b, c)) ==> spec_lfolvl(data@, pos as int) == Some((a, b, c as int)),
        r is None ==> spec_lfolvl(data@, pos as int) is None,
{
    if pos > data.len() || data.len() - pos < 8 {
        return None;
    }
    let start_at_raw = read_i32_le(data, pos);
    let flags = read_u32_le(data, pos + 4);
    let i_lvl = (flags % 16) as u8;
    let f_start_at = (flags / 16) % 2 == 1;
    let f_formatting = (flags / 32) % 2 == 1;
    let mut total: usize = 8;
    if f_formatting {
        match parse_one_lvl(data, pos + 8) {
            Some((_, lvl_len)) => {
                total = total + lvl_len;
            },
            None => {
                return None;
            },
        }
    }
    let start_at = if f_start_at && !f_formatting { Some(start_at_raw) } else { None };
    Some((i_lvl, start_at, total))
}

/// Parse the `PlfLfo` structure: `lfoMac`, `lfoMac` 16-byte `LFO`s, then
/// one `LFOData` per `LFO`.
fn parse_plf_lfo(data: &[u8]) -> (r: Vec<LfoEntry>)
    requires
        len_ok(data@.len() as int),
    ensures
        r@.map_values(|l: LfoEntry| (l.lsid, l.start_overrides@)) == spec_plf_lfo(data@),
{
    let mut result: Vec<LfoEntry> = Vec::new();
    if data.len() < 4 {
        return result;
    }
    let lfo_mac = read_u32_le(data, 0) as usize;
    let fit = (data.len() - 4) / 16;
    let n = if lfo_mac <= fit { lfo_mac } else { fit };
    let ghost target = spec_plf_lfo(data@);
    let mut pos: usize = 4 + 16 * n;
    let mut i: usize = 0;
    while i < n
        invariant
            len_ok(data@.len() as int),
            data@.len() >= 4,
            n == lfo_count(data@),
            n * 16 + 4 <= data@.len(),
            i <= n,
            pos <= data@.len() + 0x40000 + 4 * i,
            target == spec_plf_lfo(data@),
            result@.map_values(|l: LfoEntry| (l.lsid, l.start_overrides@)) + spec_lfos_from(data@, i as int, n as int, pos as int) == target,
        decreases n - i,
    {
        let p = 4 + 16 * i;
        let lsid = read_i32_le(data, p);
        let count = data[p + 12] as usize;
        let ghost ov = spec_overrides(data@, pos + 4, count as nat);
        pos = pos + 4;
        let mut overrides: Vec<(u8, i32)> = Vec::new();
        let mut k: usize = 0;
        let mut done = false;
        while k < count && !done
            invariant
                len_ok(data@.len() as int),
                k <= count,
                n * 16 + 4 <= data@.len(),
                i < n,
                pos <= data@.len() + 0x40000 + 4 * (i + 1),
                !done ==> overrides@ + spec_overrides(data@, pos as int, (count - k) as nat).0 == ov.0,
                !done ==> spec_overrides(data@, pos as int, (count - k) as nat).1 == ov.1,
                done ==> overrides@ == ov.0 && pos == ov.1,
            decreases count - k + if done { 0int } else { 1int },
        {
            assert(4 * (i + 1) <= data@.len()) by (nonlinear_arith)
                requires n * 16 + 4 <= data@.len(), i < n;
            match parse_one_lfolvl(data, pos) {
                Some((ilvl, sa, consumed)) => {
                    proof {
                        lemma_lfolvl_bounds(data@, pos as int);
                    }
                    match sa {
                        Some(v) => {
                            proof {
                                assert(overrides@.push((ilvl, v)) =~= overrides@ + seq![(ilvl, v)]);
                            }
                            overrides.push((ilvl, v));
                        },
                        None => {},
                    }
                    pos = pos + consumed;
                    k = k + 1;
                    proof {
                        assert(overrides@ + spec_overrides(data@, pos as int, (count - k) as nat).0 =~= ov.0);
                    }
                },
                None => {
                    done = true;
                    proof {
                        assert(overrides@ =~= ov.0);
                    }
                },
            }
        }
        proof {
            if !done {
                assert(overrides@ =~= ov.0);
            }
        }
        let ghost before = result@.map_values(|l: LfoEntry| (l.lsid, l.start_overrides@));
        result.push(LfoEntry { lsid, start_overrides: overrides });
        proof {
            assert(result@.map_values(|l: LfoEntry| (l.lsid, l.start_overrides@)) =~= before + seq![(lsid, ov.0)]);
        }
        i = i + 1;
    }
    proof {
        assert(spec_lfos_from(data@, i as int, n as int, pos as int) =~= Seq::empty());
        assert(result@.map_values(|l: LfoEntry| (l.lsid, l.start_overrides@)) =~= target);
    }
    result
}

/// The list table a Table stream holds: `PlfLst` read from `fc_plf_lst`
/// when `lcb_plf_lst` is positive and the table starts inside the stream,
/// `PlfLfo` from `fc_plf_lfo` likewise; each runs on to the stream's end,
/// since the `LVL` array and the `LFOData` follow their fixed parts.
pub open spec fn spec_list_formatting(t: Seq<u8>, fc_lst: u32, lcb_lst: u32, fc_lfo: u32, lcb_lfo: u32) -> ListModel {
    ListModel {
        defs: if lcb_lst > 0 && (fc_lst as int) < t.len() {
            spec_plf_lst(t.subrange(fc_lst as int, t.len() as int))
        } else {
            Seq::empty()
        },
        lfos: if lcb_lfo > 0 && (fc_lfo as int) < t.len() {
            spec_plf_lfo(t.subrange(fc_lfo as int, t.len() as int))
        } else {
            Seq::empty()
        },
    }
}

/// Index of the first list definition with `lsid`.
pub open spec fn first_def(defs: Seq<(i32, Seq<ListLevel>)>, lsid: i32) -> Option<int>
    decreases defs.len(),
{
    if defs.len() == 0 {
        None
    } else if defs[0].0 == lsid {
        Some(0)
    } else {
        match first_def(defs.drop_first(), lsid) {
            Some(k) => Some(k + 1),
            None => None,
        }
    }
}

/// The first start-at override for level `ilvl`.
pub open spec fn first_override(ovs: Seq<(u8, i32)>, ilvl: u8) -> Option<i32>
    decreases ovs.len(),
{
    if ovs.len() == 0 {
        None
    } else if ovs[0].0 == ilvl {
        Some(ovs[0].1)
    } else {
        first_override(ovs.drop_first(), ilvl)
    }
}

/// The level governing `(ilfo, ilvl)`: `LFO` `ilfo - 1`, the first list
/// definition with its `lsid`, that list's level `ilvl` (or its first
/// level when it has fewer), with the `LFO`'s start-at override for `ilvl`
/// in place of the list's own where there is one.
pub open spec fn spec_level_for(m: ListModel, ilfo: i16, ilvl: u8) -> Option<ListLevel> {
    if ilfo <= 0 || ilfo - 1 >= m.lfos.len() {
        None
    } else {
        let lfo = m.lfos[ilfo - 1];
        match first_def(m.defs, lfo.0) {
            None => None,
            Some(k) => {
                let levels = m.defs[k].1;
                if levels.len() == 0 {
                    None
                } else {
                    let base = if (ilvl as int) < levels.len() { levels[ilvl as int] } else { levels[0] };
                    match first_override(lfo.1, ilvl) {
                        Some(v) => Some(ListLevel { start_at: v, nfc: base.nfc }),
                        None => Some(base),
                    }
                }
            },
        }
    }
}

impl ListFormatting {
    /// Parse `PlfLst` and `PlfLfo` from the Table stream. Malformed or
    /// truncated data degrades to fewer entries, never to an error.
    pub fn parse(table_stream: &[u8], fc_plf_lst: u32, lcb_plf_lst: u32, fc_plf_lfo: u32, lcb_plf_lfo: u32) -> (r: Self)
        requires
            len_ok(table_stream@.len() as int),
        ensures
            r@ == spec_list_formatting(table_stream@, fc_plf_lst, lcb_plf_lst, fc_plf_lfo, lcb_plf_lfo),
    {
        let list_defs = if lcb_plf_lst > 0 && (fc_plf_lst as usize) < table_stream.len() {
            let d = vstd::slice::slice_subrange(table_stream, fc_plf_lst as usize, table_stream.len());
            parse_plf_lst(d)
        } else {
            Vec::new()
        };
        let lfos = if lcb_plf_lfo > 0 && (fc_plf_lfo as usize) < table_stream.len() {
            let d = vstd::slice::slice_subrange(table_stream, fc_plf_lfo as usize, table_stream.len());
            parse_plf_lfo(d)
        } else {
            Vec::new()
        };
        let r = ListFormatting { list_defs, lfos };
        proof {
            assert(r@.defs =~= spec_list_formatting(table_stream@, fc_plf_lst, lcb_plf_lst, fc_plf_lfo, lcb_plf_lfo).defs);
            assert(r@.lfos =~= spec_list_formatting(table_stream@, fc_plf_lst, lcb_plf_lst, fc_plf_lfo, lcb_plf_lfo).lfos);
        }
        r
    }

    /// Resolve a paragraph's list level from its `ilfo` (1-based; zero,
    /// negative or out of range means "not in a list") and `ilvl`.
    pub fn level_for(&self, ilfo: i16, ilvl: u8) -> (r: Option<ListLevel>)
        ensures
            r == spec_level_for(self@, ilfo, ilvl),
    {
        if ilfo <= 0 || (ilfo - 1) as usize >= self.lfos.len() {
            return None;
        }
        let lfo = &self.lfos[(ilfo - 1) as usize];
        let ghost m = self@;
        proof {
            assert(m.lfos[ilfo - 1] == (lfo.lsid, lfo.start_overrides@));
            assert(m.defs.subrange(0, m.defs.len() as int) =~= m.defs);
        }
        let mut k: usize = 0;
        while k < self.list_defs.len() && self.list_defs[k].lsid != lfo.lsid
            invariant
                k <= self.list_defs@.len(),
                m == self@,
                forall|j: int| 0 <= j < k ==> (#[trigger] self.list_defs@[j]).lsid != lfo.lsid,
                first_def(m.defs, lfo.lsid) == match first_def(m.defs.subrange(k as int, m.defs.len() as int), lfo.lsid) {
                    Some(x) => Some(x + k),
                    None => None,
                },
            decreases self.list_defs@.len() - k,
        {
            proof {
                let tail = m.defs.subrange(k as int, m.defs.len() as int);
                assert(tail[0] == m.defs[k as int]);
                assert(tail.drop_first() =~= m.defs.subrange(k + 1, m.defs.len() as int));
            }
            k = k + 1;
        }
        if k == self.list_defs.len() {
            proof {
                assert(m.defs.subrange(k as int, m.defs.len() as int).len() == 0);
            }
            return None;
        }
        proof {
            let tail = m.defs.subrange(k as int, m.defs.len() as int);
            assert(tail[0] == m.defs[k as int]);
        }
        let def = &self.list_defs[k];
        if def.levels.len() == 0 {
            return None;
        }
        let mut level = if (ilvl as usize) < def.levels.len() { def.levels[ilvl as usize] } else { def.levels[0] };
        let ovs = &lfo.start_overrides;
        let mut j: usize = 0;
        proof {
            assert(ovs@.subrange(0, ovs@.len() as int) =~= ovs@);
        }
        while j < ovs.len() && ovs[j].0 != ilvl
            invariant
                j <= ovs@.len(),
                first_override(ovs@, ilvl) == first_override(ovs@.subrange(j as int, ovs@.len() as int), ilvl),
            decreases ovs@.len() - j,
        {
            proof {
                let tail = ovs@.subrange(j as int, ovs@.len() as int);
                assert(tail[0] == ovs@[j as int]);
                assert(tail.drop_first() =~= ovs@.subrange(j + 1, ovs@.len() as int));
            }
            j = j + 1;
        }
        if j < ovs.len() {
            proof {
                let tail = ovs@.subrange(j as int, ovs@.len() as int);
                assert(tail[0] == ovs@[j as int]);
            }
            level.start_at = ovs[j].1;
        } else {
            proof {
                assert(ovs@.subrange(j as int, ovs@.len() as int).len() == 0);
            }
        }
        Some(level)
    }
}

/// An `LFO`'s start-at override for a level wins over the list's own
/// start-at value, and leaves the level's number format alone.
pub proof fn lemma_override_takes_precedence(m: ListModel, ilfo: i16, ilvl: u8, v: i32)
    requires
        spec_level_for(m, ilfo, ilvl) is Some,
        0 < ilfo <= m.lfos.len(),
        first_override(m.lfos[ilfo - 1].1, ilvl) == Some(v),
    ensures
        spec_level_for(m, ilfo, ilvl)->0.start_at == v,
{
}

/// A list table with no list definitions or no list overrides, such as
/// one parsed from empty or absent `PlfLst`/`PlfLfo` data, places no
/// paragraph in a list.
pub proof fn lemma_empty_list_table_has_no_levels(m: ListModel, ilfo: i16, ilvl: u8)
    requires
        m.defs.len() == 0 || m.lfos.len() == 0,
    ensures
        spec_level_for(m, ilfo, ilvl) is None,
{
    if m.lfos.len() > 0 && 0 < ilfo <= m.lfos.len() {
        assert(first_def(m.defs, m.lfos[ilfo - 1].0) is None);
    }
}

/// Absent or unreachable list data degrades to an empty list table:
/// where either `PlfLst` or `PlfLfo` has length zero or starts past the
/// end of the Table stream, no paragraph is placed in a list.
pub proof fn lemma_list_table_degrades_to_empty(
    t: Seq<u8>,
    fc_plf_lst: u32,
    lcb_plf_lst: u32,
    fc_plf_lfo: u32,
    lcb_plf_lfo: u32,
    ilfo: i16,
    ilvl: u8,
)
    requires
        lcb_plf_lst == 0 || lcb_plf_lfo == 0 || fc_plf_lst as int >= t.len() || fc_plf_lfo as int
            >= t.len(),
    ensures
        spec_level_for(
            spec_list_formatting(t, fc_plf_lst, lcb_plf_lst, fc_plf_lfo, lcb_plf_lfo),
            ilfo,
            ilvl,
        ) is None,
{
    lemma_empty_list_table_has_no_levels(
        spec_list_formatting(t, fc_plf_lst, lcb_plf_lst, fc_plf_lfo, lcb_plf_lfo),
        ilfo,
        ilvl,
    );
}

} // verus!
