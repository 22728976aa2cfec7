//! Reading the body of a WordprocessingML part: drawings, runs,
//! paragraphs and tables, each from the events of its element.
//!
//! Every reader starts just after the start tag of its element and stops
//! just after the matching end tag (at `Eof` where the document ends
//! first). Each is specified by a scan over the event sequence.

use vstd::prelude::*;
use crate::docx::formatting::{
    copy_sect, lemma_sect_scan, parse_section_properties, sect_empty, sect_scan, SectModel,
    SectionProperties, HeaderFooterRef, HeaderFooterType,
    lemma_ppr_scan, lemma_rpr_scan, parse_paragraph_properties_fast, parse_run_properties_fast,
    ppr_empty, ppr_scan, rpr_empty, rpr_scan, InvalidNumber, PprModel, RunProperties,
    int_attr_or, justification_of, parse_justification_value, parse_shading, pick, read_int_attr_or,
    read_uint_attr, shading_of, uint_attr, Twip,
};
use crate::docx::document::{BlockElement, Body};
use crate::docx::table::{
    Table, TableCell, TableRow,
    MergeType, TableCellProperties, TableProperties, TableRowProperties,
    TableWidth, TableWidthType,
};
use crate::docx::hyperlink::{Hyperlink, HyperlinkTarget};
use crate::docx::paragraph::{BreakType, Paragraph, ParagraphContent, Run, RunContent};
use crate::docx::image::{AnchorFrame, AnchorPosition, DrawingInfo, Emu, ShapeInfo, ShapeKind};
use crate::docx::{anchor_frame_of, hex_rgb_of, parse_anchor_frame, parse_hex_rgb};
use crate::docx::xml::{
    read_xml_events, well_ended, xml_events_of, event_models,
    attr, attr_str, fwd, get_attr, is_named, past, read_text_content, skip_past, text_scan,
    XmlEvent, XmlTag,
};
use crate::number::{parse_i64, parse_i64_str};
use crate::text::{str_eq, trim_seq, trim_string};

verus! {

// ---------------------------------------------------------------------------
// Colours and shapes
// ---------------------------------------------------------------------------

/// The colour of an `<a:srgbClr val="RRGGBB"/>` tag.
pub open spec fn srgb_of(t: XmlTag) -> Option<(u8, u8, u8)> {
    if t.name@ == "srgbClr"@ {
        match attr(t, "val"@) {
            Some(v) => hex_rgb_of(v),
            None => None,
        }
    } else {
        None
    }
}

fn read_srgb(t: &XmlTag) -> (r: Option<(u8, u8, u8)>)
    ensures
        r == srgb_of(*t),
{
    if !is_named(t, "srgbClr") {
        return None;
    }
    match get_attr(t, "val") {
        Some(v) => parse_hex_rgb(v.as_str()),
        None => None,
    }
}

/// Reading `<a:solidFill>` from `pos` on: the last `srgbClr` colour.
pub open spec fn solid_fill_scan(ev: Seq<XmlEvent>, pos: int, rgb: Option<(u8, u8, u8)>) -> (
    Option<(u8, u8, u8)>,
    int,
)
    decreases ev.len() - pos,
{
    if pos < 0 || pos >= ev.len() {
        (rgb, pos)
    } else {
        match ev[pos] {
            XmlEvent::Start(t) => solid_fill_scan(ev, past(ev, pos), pick(rgb, srgb_of(t))),
            XmlEvent::Empty(t) => solid_fill_scan(ev, pos + 1, pick(rgb, srgb_of(t))),
            XmlEvent::End(n) => if n@ == "solidFill"@ {
                (rgb, pos + 1)
            } else {
                solid_fill_scan(ev, pos + 1, rgb)
            },
            XmlEvent::Eof => (rgb, pos),
            _ => solid_fill_scan(ev, pos + 1, rgb),
        }
    }
}

/// Reads an `<a:solidFill>` element.
pub fn parse_solid_fill_color(ev: &[XmlEvent], pos: usize) -> (r: (Option<(u8, u8, u8)>, usize))
    requires
        pos <= ev@.len(),
        ev@.len() < usize::MAX,
    ensures
        (r.0, r.1 as int) == solid_fill_scan(ev@, pos as int, None),
        pos <= r.1 <= ev@.len(),
{
    let n = ev.len();
    let mut rgb: Option<(u8, u8, u8)> = None;
    let mut p: usize = pos;
    while p < n
        invariant
            n == ev@.len(),
            n < usize::MAX,
            pos <= p <= n,
            solid_fill_scan(ev@, pos as int, None) == solid_fill_scan(ev@, p as int, rgb),
        decreases n - p,
    {
        match &ev[p] {
            XmlEvent::Start(t) => {
                let c = read_srgb(t);
                if c.is_some() {
                    rgb = c;
                }
                p = skip_past(ev, p);
            },
            XmlEvent::Empty(t) => {
                let c = read_srgb(t);
                if c.is_some() {
                    rgb = c;
                }
                p = p + 1;
            },
            XmlEvent::End(name) => {
                if str_eq(name.as_str(), "solidFill") {
                    return (rgb, p + 1);
                }
                p = p + 1;
            },
            XmlEvent::Eof => {
                return (rgb, p);
            },
            _ => {
                p = p + 1;
            },
        }
    }
    (rgb, p)
}

/// Reading `<a:ln>` from `pos` on: the colour of its last `solidFill`
/// that names one.
pub open spec fn line_color_scan(ev: Seq<XmlEvent>, pos: int, rgb: Option<(u8, u8, u8)>) -> (
    Option<(u8, u8, u8)>,
    int,
)
    decreases ev.len() - pos,
{
    if pos < 0 || pos >= ev.len() {
        (rgb, pos)
    } else {
        match ev[pos] {
            XmlEvent::Start(t) => if t.name@ == "solidFill"@ {
                let (c, q) = solid_fill_scan(ev, pos + 1, None);
                line_color_scan(ev, fwd(ev.len() as int, pos, q), pick(rgb, c))
            } else {
                line_color_scan(ev, past(ev, pos), rgb)
            },
            XmlEvent::End(n) => if n@ == "ln"@ {
                (rgb, pos + 1)
            } else {
                line_color_scan(ev, pos + 1, rgb)
            },
            XmlEvent::Eof => (rgb, pos),
            _ => line_color_scan(ev, pos + 1, rgb),
        }
    }
}

/// Reads an `<a:ln>` element for its colour.
pub fn parse_line_color(ev: &[XmlEvent], pos: usize) -> (r: (Option<(u8, u8, u8)>, usize))
    requires
        pos <= ev@.len(),
        ev@.len() < usize::MAX,
    ensures
        (r.0, r.1 as int) == line_color_scan(ev@, pos as int, None),
        pos <= r.1 <= ev@.len(),
{
    let n = ev.len();
    let mut rgb: Option<(u8, u8, u8)> = None;
    let mut p: usize = pos;
    while p < n
        invariant
            n == ev@.len(),
            n < usize::MAX,
            pos <= p <= n,
            line_color_scan(ev@, pos as int, None) == line_color_scan(ev@, p as int, rgb),
        decreases n - p,
    {
        match &ev[p] {
            XmlEvent::Start(t) => {
                if is_named(t, "solidFill") {
                    let (c, q) = parse_solid_fill_color(ev, p + 1);
                    if c.is_some() {
                        rgb = c;
                    }
                    p = if p < q {
                        q
                    } else {
                        n
                    };
                } else {
                    p = skip_past(ev, p);
                }
            },
            XmlEvent::End(name) => {
                if str_eq(name.as_str(), "ln") {
                    return (rgb, p + 1);
                }
                p = p + 1;
            },
            XmlEvent::Eof => {
                return (rgb, p);
            },
            _ => {
                p = p + 1;
            },
        }
    }
    (rgb, p)
}

/// What a vector shape's properties say so far.
#[derive(Clone, Copy)]
pub struct ShapeParts {
    pub kind: Option<ShapeKind>,
    pub stroke_rgb: Option<(u8, u8, u8)>,
    pub fill_rgb: Option<(u8, u8, u8)>,
    pub stroke_w_emu: Option<i64>,
}

pub open spec fn parts_empty() -> ShapeParts {
    ShapeParts { kind: None, stroke_rgb: None, fill_rgb: None, stroke_w_emu: None }
}

/// The shape a `<a:prstGeom prst="..">` names: lines and rectangles;
/// another preset leaves `kind` as it was.
pub open spec fn geom_of(t: XmlTag, kind: Option<ShapeKind>) -> Option<ShapeKind> {
    match attr(t, "prst"@) {
        Some(p) => if p == "line"@ || p == "straightConnector1"@ {
            Some(ShapeKind::Line)
        } else if p == "rect"@ {
            Some(ShapeKind::Rect)
        } else {
            kind
        },
        None => kind,
    }
}

fn read_geom(t: &XmlTag, kind: Option<ShapeKind>) -> (r: Option<ShapeKind>)
    ensures
        r == geom_of(*t, kind),
{
    match get_attr(t, "prst") {
        Some(p) => {
            let s = p.as_str();
            if str_eq(s, "line") || str_eq(s, "straightConnector1") {
                Some(ShapeKind::Line)
            } else if str_eq(s, "rect") {
                Some(ShapeKind::Rect)
            } else {
                kind
            }
        },
        None => kind,
    }
}

/// The stroke width of an `<a:ln w="..">` tag: the number, `None` where
/// it is not one; `w` where the attribute is absent.
pub open spec fn ln_width_of(t: XmlTag, w: Option<i64>) -> Option<i64> {
    match attr(t, "w"@) {
        Some(v) => parse_i64(v),
        None => w,
    }
}

fn read_ln_width(t: &XmlTag, w: Option<i64>) -> (r: Option<i64>)
    ensures
        r == ln_width_of(*t, w),
{
    match get_attr(t, "w") {
        Some(v) => parse_i64_str(v.as_str()),
        None => w,
    }
}

/// Reading `<wps:spPr>` from `pos` on: its preset geometry, line width
/// and colour, and fill colour, over what `s` holds.
pub open spec fn sppr_scan(ev: Seq<XmlEvent>, pos: int, s: ShapeParts) -> (ShapeParts, int)
    decreases ev.len() - pos,
{
    if pos < 0 || pos >= ev.len() {
        (s, pos)
    } else {
        match ev[pos] {
            XmlEvent::Start(t) => if t.name@ == "prstGeom"@ {
                sppr_scan(ev, past(ev, pos), ShapeParts { kind: geom_of(t, s.kind), ..s })
            } else if t.name@ == "ln"@ {
                let (c, q) = line_color_scan(ev, pos + 1, None);
                sppr_scan(
                    ev,
                    fwd(ev.len() as int, pos, q),
                    ShapeParts {
                        stroke_w_emu: ln_width_of(t, s.stroke_w_emu),
                        stroke_rgb: pick(s.stroke_rgb, c),
                        ..s
                    },
                )
            } else if t.name@ == "solidFill"@ {
                let (c, q) = solid_fill_scan(ev, pos + 1, None);
                sppr_scan(
                    ev,
                    fwd(ev.len() as int, pos, q),
                    ShapeParts { fill_rgb: pick(s.fill_rgb, c), ..s },
                )
            } else {
                sppr_scan(ev, past(ev, pos), s)
            },
            XmlEvent::Empty(t) => if t.name@ == "prstGeom"@ {
                sppr_scan(ev, pos + 1, ShapeParts { kind: geom_of(t, s.kind), ..s })
            } else if t.name@ == "ln"@ {
                sppr_scan(ev, pos + 1, ShapeParts { stroke_w_emu: ln_width_of(t, s.stroke_w_emu), ..s })
            } else {
                sppr_scan(ev, pos + 1, s)
            },
            XmlEvent::End(n) => if n@ == "spPr"@ {
                (s, pos + 1)
            } else {
                sppr_scan(ev, pos + 1, s)
            },
            XmlEvent::Eof => (s, pos),
            _ => sppr_scan(ev, pos + 1, s),
        }
    }
}

/// Reads a `<wps:spPr>` element over what `start` holds.
pub fn parse_sp_pr(ev: &[XmlEvent], pos: usize, start: ShapeParts) -> (r: (ShapeParts, usize))
    requires
        pos <= ev@.len(),
        ev@.len() < usize::MAX,
    ensures
        (r.0, r.1 as int) == sppr_scan(ev@, pos as int, start),
        pos <= r.1 <= ev@.len(),
{
    let n = ev.len();
    let mut s = start;
    let mut p: usize = pos;
    while p < n
        invariant
            n == ev@.len(),
            n < usize::MAX,
            pos <= p <= n,
            sppr_scan(ev@, pos as int, start) == sppr_scan(ev@, p as int, s),
        decreases n - p,
    {
        match &ev[p] {
            XmlEvent::Start(t) => {
                if is_named(t, "prstGeom") {
                    s.kind = read_geom(t, s.kind);
                    p = skip_past(ev, p);
                } else if is_named(t, "ln") {
                    s.stroke_w_emu = read_ln_width(t, s.stroke_w_emu);
                    let (c, q) = parse_line_color(ev, p + 1);
                    if c.is_some() {
                        s.stroke_rgb = c;
                    }
                    p = if p < q {
                        q
                    } else {
                        n
                    };
                } else if is_named(t, "solidFill") {
                    let (c, q) = parse_solid_fill_color(ev, p + 1);
                    if c.is_some() {
                        s.fill_rgb = c;
                    }
                    p = if p < q {
                        q
                    } else {
                        n
                    };
                } else {
                    p = skip_past(ev, p);
                }
            },
            XmlEvent::Empty(t) => {
                if is_named(t, "prstGeom") {
                    s.kind = read_geom(t, s.kind);
                } else if is_named(t, "ln") {
                    s.stroke_w_emu = read_ln_width(t, s.stroke_w_emu);
                }
                p = p + 1;
            },
            XmlEvent::End(name) => {
                if str_eq(name.as_str(), "spPr") {
                    return (s, p + 1);
                }
                p = p + 1;
            },
            XmlEvent::Eof => {
                return (s, p);
            },
            _ => {
                p = p + 1;
            },
        }
    }
    (s, p)
}

/// The shape that the parts describe, where a geometry was named.
pub open spec fn shape_of(s: ShapeParts) -> Option<ShapeInfo> {
    match s.kind {
        Some(k) => Some(
            ShapeInfo {
                kind: k,
                stroke_rgb: s.stroke_rgb,
                fill_rgb: s.fill_rgb,
                stroke_w_emu: s.stroke_w_emu,
            },
        ),
        None => None,
    }
}

/// Reading `<wps:wsp>` from `pos` on: its `spPr` children, in order.
pub open spec fn wsp_scan(ev: Seq<XmlEvent>, pos: int, s: ShapeParts) -> (ShapeParts, int)
    decreases ev.len() - pos,
{
    if pos < 0 || pos >= ev.len() {
        (s, pos)
    } else {
        match ev[pos] {
            XmlEvent::Start(t) => if t.name@ == "spPr"@ {
                let (s2, q) = sppr_scan(ev, pos + 1, s);
                wsp_scan(ev, fwd(ev.len() as int, pos, q), s2)
            } else {
                wsp_scan(ev, past(ev, pos), s)
            },
            XmlEvent::End(n) => if n@ == "wsp"@ {
                (s, pos + 1)
            } else {
                wsp_scan(ev, pos + 1, s)
            },
            XmlEvent::Eof => (s, pos),
            _ => wsp_scan(ev, pos + 1, s),
        }
    }
}

/// Reads a `<wps:wsp>` vector shape: `None` where no preset geometry
/// was given.
pub fn parse_wsp(ev: &[XmlEvent], pos: usize) -> (r: (Option<ShapeInfo>, usize))
    requires
        pos <= ev@.len(),
        ev@.len() < usize::MAX,
    ensures
        r.0 == shape_of(wsp_scan(ev@, pos as int, parts_empty()).0),
        r.1 == wsp_scan(ev@, pos as int, parts_empty()).1,
        pos <= r.1 <= ev@.len(),
{
    let n = ev.len();
    let mut s = ShapeParts { kind: None, stroke_rgb: None, fill_rgb: None, stroke_w_emu: None };
    let mut p: usize = pos;
    while p < n
        invariant
            n == ev@.len(),
            n < usize::MAX,
            pos <= p <= n,
            wsp_scan(ev@, pos as int, parts_empty()) == wsp_scan(ev@, p as int, s),
        decreases n - p,
    {
        match &ev[p] {
            XmlEvent::Start(t) => {
                if is_named(t, "spPr") {
                    let (s2, q) = parse_sp_pr(ev, p + 1, s);
                    s = s2;
                    p = if p < q {
                        q
                    } else {
                        n
                    };
                } else {
                    p = skip_past(ev, p);
                }
            },
            XmlEvent::End(name) => {
                if str_eq(name.as_str(), "wsp") {
                    return (shape_from(s), p + 1);
                }
                p = p + 1;
            },
            XmlEvent::Eof => {
                return (shape_from(s), p);
            },
            _ => {
                p = p + 1;
            },
        }
    }
    (shape_from(s), p)
}

fn shape_from(s: ShapeParts) -> (r: Option<ShapeInfo>)
    ensures
        r == shape_of(s),
{
    match s.kind {
        Some(k) => Some(
            ShapeInfo {
                kind: k,
                stroke_rgb: s.stroke_rgb,
                fill_rgb: s.fill_rgb,
                stroke_w_emu: s.stroke_w_emu,
            },
        ),
        None => None,
    }
}

// ---------------------------------------------------------------------------
// Pictures and drawings
// ---------------------------------------------------------------------------

/// The `r:embed` relationship id of a `<a:blip>` tag.
pub open spec fn blip_of(t: XmlTag) -> Option<String> {
    if t.name@ == "blip"@ {
        attr_str(t, "r:embed"@)
    } else {
        None
    }
}

fn read_blip(t: &XmlTag) -> (r: Option<String>)
    ensures
        r == blip_of(*t),
{
    if is_named(t, "blip") {
        get_attr(t, "r:embed")
    } else {
        None
    }
}

/// Reading `<pic:pic>` from `pos` on, `depth` elements open: the last
/// blip's relationship id, at any depth.
pub open spec fn pic_scan(ev: Seq<XmlEvent>, pos: int, depth: int, rid: Option<String>) -> (
    Option<String>,
    int,
)
    decreases ev.len() - pos,
{
    if pos < 0 || pos >= ev.len() {
        (rid, pos)
    } else {
        match ev[pos] {
            XmlEvent::Start(t) => if t.name@ == "blip"@ {
                pic_scan(ev, past(ev, pos), depth, pick(rid, blip_of(t)))
            } else {
                pic_scan(ev, pos + 1, depth + 1, rid)
            },
            XmlEvent::Empty(t) => pic_scan(ev, pos + 1, depth, pick(rid, blip_of(t))),
            XmlEvent::End(_) => if depth <= 1 {
                (rid, pos + 1)
            } else {
                pic_scan(ev, pos + 1, depth - 1, rid)
            },
            XmlEvent::Eof => (rid, pos),
            _ => pic_scan(ev, pos + 1, depth, rid),
        }
    }
}

/// Reads a `<pic:pic>` element for the relationship id of its image.
pub fn parse_pic(ev: &[XmlEvent], pos: usize) -> (r: (Option<String>, usize))
    requires
        pos <= ev@.len(),
        ev@.len() < usize::MAX,
    ensures
        (r.0, r.1 as int) == pic_scan(ev@, pos as int, 1, None),
        pos <= r.1 <= ev@.len(),
{
    let n = ev.len();
    let mut rid: Option<String> = None;
    let mut depth: usize = 1;
    let mut p: usize = pos;
    while p < n
        invariant
            n == ev@.len(),
            n < usize::MAX,
            pos <= p <= n,
            1 <= depth <= p - pos + 1,
            pic_scan(ev@, pos as int, 1, None) == pic_scan(ev@, p as int, depth as int, rid),
        decreases n - p,
    {
        match &ev[p] {
            XmlEvent::Start(t) => {
                if is_named(t, "blip") {
                    let b = read_blip(t);
                    if b.is_some() {
                        rid = b;
                    }
                    p = skip_past(ev, p);
                } else {
                    depth = depth + 1;
                    p = p + 1;
                }
            },
            XmlEvent::Empty(t) => {
                let b = read_blip(t);
                if b.is_some() {
                    rid = b;
                }
                p = p + 1;
            },
            XmlEvent::End(_) => {
                if depth <= 1 {
                    return (rid, p + 1);
                }
                depth = depth - 1;
                p = p + 1;
            },
            XmlEvent::Eof => {
                return (rid, p);
            },
            _ => {
                p = p + 1;
            },
        }
    }
    (rid, p)
}

/// Reading `<a:graphic>` from `pos` on: the picture's relationship id
/// and the vector shape, the last of each.
pub open spec fn graphic_scan(
    ev: Seq<XmlEvent>,
    pos: int,
    rid: Option<String>,
    shape: Option<ShapeInfo>,
) -> (Option<String>, Option<ShapeInfo>, int)
    decreases ev.len() - pos,
{
    if pos < 0 || pos >= ev.len() {
        (rid, shape, pos)
    } else {
        match ev[pos] {
            XmlEvent::Start(t) => if t.name@ == "pic"@ {
                let (r, q) = pic_scan(ev, pos + 1, 1, None);
                graphic_scan(ev, fwd(ev.len() as int, pos, q), pick(rid, r), shape)
            } else if t.name@ == "wsp"@ {
                let (sp, q) = wsp_scan(ev, pos + 1, parts_empty());
                graphic_scan(ev, fwd(ev.len() as int, pos, q), rid, pick(shape, shape_of(sp)))
            } else if t.name@ == "graphicData"@ {
                graphic_scan(ev, pos + 1, rid, shape)
            } else {
                graphic_scan(ev, past(ev, pos), rid, shape)
            },
            XmlEvent::End(n) => if n@ == "graphic"@ {
                (rid, shape, pos + 1)
            } else {
                graphic_scan(ev, pos + 1, rid, shape)
            },
            XmlEvent::Eof => (rid, shape, pos),
            _ => graphic_scan(ev, pos + 1, rid, shape),
        }
    }
}

/// Reads an `<a:graphic>` element: an embedded picture's relationship
/// id and a vector shape, where present.
pub fn parse_graphic(ev: &[XmlEvent], pos: usize) -> (r: (Option<String>, Option<ShapeInfo>, usize))
    requires
        pos <= ev@.len(),
        ev@.len() < usize::MAX,
    ensures
        (r.0, r.1, r.2 as int) == graphic_scan(ev@, pos as int, None, None),
        pos <= r.2 <= ev@.len(),
{
    let n = ev.len();
    let mut rid: Option<String> = None;
    let mut shape: Option<ShapeInfo> = None;
    let mut p: usize = pos;
    while p < n
        invariant
            n == ev@.len(),
            n < usize::MAX,
            pos <= p <= n,
            graphic_scan(ev@, pos as int, None, None) == graphic_scan(ev@, p as int, rid, shape),
        decreases n - p,
    {
        match &ev[p] {
            XmlEvent::Start(t) => {
                if is_named(t, "pic") {
                    let (r, q) = parse_pic(ev, p + 1);
                    if r.is_some() {
                        rid = r;
                    }
                    p = if p < q {
                        q
                    } else {
                        n
                    };
                } else if is_named(t, "wsp") {
                    let (sp, q) = parse_wsp(ev, p + 1);
                    if sp.is_some() {
                        shape = sp;
                    }
                    p = if p < q {
                        q
                    } else {
                        n
                    };
                } else if is_named(t, "graphicData") {
                    p = p + 1;
                } else {
                    p = skip_past(ev, p);
                }
            },
            XmlEvent::End(name) => {
                if str_eq(name.as_str(), "graphic") {
                    return (rid, shape, p + 1);
                }
                p = p + 1;
            },
            XmlEvent::Eof => {
                return (rid, shape, p);
            },
            _ => {
                p = p + 1;
            },
        }
    }
    (rid, shape, p)
}

/// Reading `<wp:positionH>` or `<wp:positionV>` (ended by `end`) from
/// `pos` on: the last `posOffset` whose trimmed text is a number.
pub open spec fn offset_scan(ev: Seq<XmlEvent>, pos: int, end: Seq<char>, off: Option<i64>) -> (
    Option<i64>,
    int,
)
    decreases ev.len() - pos,
{
    if pos < 0 || pos >= ev.len() {
        (off, pos)
    } else {
        match ev[pos] {
            XmlEvent::Start(t) => if t.name@ == "posOffset"@ {
                let (txt, q) = text_scan(ev, pos + 1);
                offset_scan(
                    ev,
                    fwd(ev.len() as int, pos, q),
                    end,
                    pick(off, parse_i64(trim_seq(txt))),
                )
            } else {
                offset_scan(ev, past(ev, pos), end, off)
            },
            XmlEvent::End(n) => if n@ == end {
                (off, pos + 1)
            } else {
                offset_scan(ev, pos + 1, end, off)
            },
            XmlEvent::Eof => (off, pos),
            _ => offset_scan(ev, pos + 1, end, off),
        }
    }
}

/// Reads a `<wp:positionH>` or `<wp:positionV>` element for its offset.
pub fn parse_position_offset(ev: &[XmlEvent], pos: usize, end: &str) -> (r: (Option<i64>, usize))
    requires
        pos <= ev@.len(),
        ev@.len() < usize::MAX,
    ensures
        (r.0, r.1 as int) == offset_scan(ev@, pos as int, end@, None),
        pos <= r.1 <= ev@.len(),
{
    let n = ev.len();
    let mut off: Option<i64> = None;
    let mut p: usize = pos;
    while p < n
        invariant
            n == ev@.len(),
            n < usize::MAX,
            pos <= p <= n,
            offset_scan(ev@, pos as int, end@, None) == offset_scan(ev@, p as int, end@, off),
        decreases n - p,
    {
        match &ev[p] {
            XmlEvent::Start(t) => {
                if is_named(t, "posOffset") {
                    let (txt, q) = read_text_content(ev, p + 1);
                    let trimmed = trim_string(txt.as_str());
                    let v = parse_i64_str(trimmed.as_str());
                    if v.is_some() {
                        off = v;
                    }
                    p = if p < q {
                        q
                    } else {
                        n
                    };
                } else {
                    p = skip_past(ev, p);
                }
            },
            XmlEvent::End(name) => {
                if str_eq(name.as_str(), end) {
                    return (off, p + 1);
                }
                p = p + 1;
            },
            XmlEvent::Eof => {
                return (off, p);
            },
            _ => {
                p = p + 1;
            },
        }
    }
    (off, p)
}

/// What an `<wp:inline>` or `<wp:anchor>` element says so far.
pub struct DrawParts {
    pub width: i64,
    pub height: i64,
    pub description: Option<String>,
    pub relationship_id: Option<String>,
    pub shape: Option<ShapeInfo>,
    pub anchor_x: Option<i64>,
    pub anchor_y: Option<i64>,
    pub h_frame: AnchorFrame,
    pub v_frame: AnchorFrame,
}

pub open spec fn draw_empty() -> DrawParts {
    DrawParts {
        width: 0,
        height: 0,
        description: None,
        relationship_id: None,
        shape: None,
        anchor_x: None,
        anchor_y: None,
        h_frame: AnchorFrame::Page,
        v_frame: AnchorFrame::Page,
    }
}

/// An extent attribute (`cx` or `cy`): the number, 0 where it is not
/// one; `d` where it is absent.
pub open spec fn extent_of(t: XmlTag, key: Seq<char>, d: i64) -> i64 {
    match attr(t, key) {
        Some(v) => match parse_i64(v) {
            Some(x) => x,
            None => 0,
        },
        None => d,
    }
}

fn read_extent(t: &XmlTag, key: &str, d: i64) -> (r: i64)
    ensures
        r == extent_of(*t, key@, d),
{
    match get_attr(t, key) {
        Some(v) => match parse_i64_str(v.as_str()) {
            Some(x) => x,
            None => 0,
        },
        None => d,
    }
}

/// The frame a `relativeFrom` attribute names; `d` where it is absent.
pub open spec fn frame_attr(t: XmlTag, d: AnchorFrame) -> AnchorFrame {
    match attr(t, "relativeFrom"@) {
        Some(rf) => anchor_frame_of(rf),
        None => d,
    }
}

fn read_frame(t: &XmlTag, d: AnchorFrame) -> (r: AnchorFrame)
    ensures
        r == frame_attr(*t, d),
{
    match get_attr(t, "relativeFrom") {
        Some(rf) => parse_anchor_frame(rf.as_str()),
        None => d,
    }
}

/// `d` with what an `extent` or `docPr` tag says.
pub open spec fn draw_tag(d: DrawParts, t: XmlTag) -> DrawParts {
    if t.name@ == "extent"@ {
        DrawParts {
            width: extent_of(t, "cx"@, d.width),
            height: extent_of(t, "cy"@, d.height),
            ..d
        }
    } else if t.name@ == "docPr"@ {
        DrawParts { description: pick(d.description, attr_str(t, "descr"@)), ..d }
    } else {
        d
    }
}

fn apply_draw_tag(d: &mut DrawParts, t: &XmlTag)
    ensures
        *final(d) == draw_tag(*old(d), *t),
{
    if is_named(t, "extent") {
        d.width = read_extent(t, "cx", d.width);
        d.height = read_extent(t, "cy", d.height);
    } else if is_named(t, "docPr") {
        let desc = get_attr(t, "descr");
        if desc.is_some() {
            d.description = desc;
        }
    }
}

/// Reading the body of `<wp:inline>` or `<wp:anchor>` (ended by `end`)
/// from `pos` on: extent, description, position and graphic.
pub open spec fn body_scan(ev: Seq<XmlEvent>, pos: int, end: Seq<char>, d: DrawParts) -> (
    DrawParts,
    int,
)
    decreases ev.len() - pos,
{
    if pos < 0 || pos >= ev.len() {
        (d, pos)
    } else {
        match ev[pos] {
            XmlEvent::Start(t) => if t.name@ == "extent"@ || t.name@ == "docPr"@ {
                body_scan(ev, past(ev, pos), end, draw_tag(d, t))
            } else if t.name@ == "positionH"@ {
                let (o, q) = offset_scan(ev, pos + 1, "positionH"@, None);
                body_scan(
                    ev,
                    fwd(ev.len() as int, pos, q),
                    end,
                    DrawParts { h_frame: frame_attr(t, d.h_frame), anchor_x: o, ..d },
                )
            } else if t.name@ == "positionV"@ {
                let (o, q) = offset_scan(ev, pos + 1, "positionV"@, None);
                body_scan(
                    ev,
                    fwd(ev.len() as int, pos, q),
                    end,
                    DrawParts { v_frame: frame_attr(t, d.v_frame), anchor_y: o, ..d },
                )
            } else if t.name@ == "graphic"@ {
                let (r, sh, q) = graphic_scan(ev, pos + 1, None, None);
                body_scan(
                    ev,
                    fwd(ev.len() as int, pos, q),
                    end,
                    DrawParts {
                        relationship_id: pick(d.relationship_id, r),
                        shape: pick(d.shape, sh),
                        ..d
                    },
                )
            } else {
                body_scan(ev, past(ev, pos), end, d)
            },
            XmlEvent::Empty(t) => body_scan(ev, pos + 1, end, draw_tag(d, t)),
            XmlEvent::End(n) => if n@ == end {
                (d, pos + 1)
            } else {
                body_scan(ev, pos + 1, end, d)
            },
            XmlEvent::Eof => (d, pos),
            _ => body_scan(ev, pos + 1, end, d),
        }
    }
}

/// Where a floating drawing sits: only for an anchored drawing with an
/// offset on either axis, the other axis at 0.
pub open spec fn anchor_of(d: DrawParts, inline: bool) -> Option<AnchorPosition> {
    if !inline && (d.anchor_x is Some || d.anchor_y is Some) {
        Some(
            AnchorPosition {
                x_emu: match d.anchor_x {
                    Some(x) => x,
                    None => 0,
                },
                y_emu: match d.anchor_y {
                    Some(y) => y,
                    None => 0,
                },
                h_relative_from: d.h_frame,
                v_relative_from: d.v_frame,
            },
        )
    } else {
        None
    }
}

/// The relationship id of a drawing: empty where only a shape was given.
pub open spec fn rid_chars(d: DrawParts) -> Seq<char> {
    match d.relationship_id {
        Some(s) => s@,
        None => Seq::<char>::empty(),
    }
}

/// The package path of the image a relationship id names, by the first
/// relationship with that id.
pub open spec fn media_of(media: Seq<Relationship>, id: Seq<char>) -> Option<String> {
    match rel_from(media, id, 0) {
        Some(r) => Some(r.target),
        None => None,
    }
}

fn media_lookup(media: &[Relationship], id: &str) -> (r: Option<String>)
    ensures
        r == media_of(media@, id@),
{
    let mut i: usize = 0;
    while i < media.len()
        invariant
            i <= media@.len(),
            rel_from(media@, id@, 0) == rel_from(media@, id@, i as int),
        decreases media@.len() - i,
    {
        if str_eq(media[i].id.as_str(), id) {
            return Some(media[i].target.clone());
        }
        i = i + 1;
    }
    None
}

/// Whether the parts describe a drawing: a picture or a shape.
pub open spec fn has_drawing(d: DrawParts) -> bool {
    d.relationship_id is Some || d.shape is Some
}

/// Whether `o` is the drawing that `d` describes: `None` where it names
/// neither a picture nor a shape; the relationship id empty where only
/// a shape was given; the image's package path from `media`.
pub open spec fn drawing_made(
    o: Option<DrawingInfo>,
    d: DrawParts,
    inline: bool,
    media: Seq<Relationship>,
) -> bool {
    if has_drawing(d) {
        &&& o matches Some(info)
        &&& info.relationship_id@ == rid_chars(d)
        &&& info.media_path == media_of(media, rid_chars(d))
        &&& info.description == d.description
        &&& info.width == Emu(d.width)
        &&& info.height == Emu(d.height)
        &&& info.inline == inline
        &&& info.anchor_position == anchor_of(d, inline)
        &&& info.shape == d.shape
    } else {
        o is None
    }
}

fn make_drawing(d: DrawParts, inline: bool, media: &[Relationship]) -> (r: Option<DrawingInfo>)
    ensures
        drawing_made(r, d, inline, media@),
{
    if d.relationship_id.is_none() && d.shape.is_none() {
        return None;
    }
    let anchor_position = if !inline && (d.anchor_x.is_some() || d.anchor_y.is_some()) {
        Some(
            AnchorPosition {
                x_emu: match d.anchor_x {
                    Some(x) => x,
                    None => 0,
                },
                y_emu: match d.anchor_y {
                    Some(y) => y,
                    None => 0,
                },
                h_relative_from: d.h_frame,
                v_relative_from: d.v_frame,
            },
        )
    } else {
        None
    };
    let relationship_id = match d.relationship_id {
        Some(s) => s,
        None => String::new(),
    };
    let media_path = media_lookup(media, relationship_id.as_str());
    Some(
        DrawingInfo {
            relationship_id,
            media_path,
            description: d.description,
            width: Emu(d.width),
            height: Emu(d.height),
            inline,
            anchor_position,
            shape: d.shape,
        },
    )
}

/// Reads the body of a `<wp:inline>` (`inline`) or `<wp:anchor>`
/// element, ended by `end`.
pub fn parse_inline_or_anchor_body(
    ev: &[XmlEvent],
    pos: usize,
    inline: bool,
    end: &str,
    media: &[Relationship],
) -> (r: (
    Option<DrawingInfo>,
    usize,
))
    requires
        pos <= ev@.len(),
        ev@.len() < usize::MAX,
    ensures
        r.1 == body_scan(ev@, pos as int, end@, draw_empty()).1,
        drawing_made(r.0, body_scan(ev@, pos as int, end@, draw_empty()).0, inline, media@),
        pos <= r.1 <= ev@.len(),
{
    let n = ev.len();
    let mut d = DrawParts {
        width: 0,
        height: 0,
        description: None,
        relationship_id: None,
        shape: None,
        anchor_x: None,
        anchor_y: None,
        h_frame: AnchorFrame::Page,
        v_frame: AnchorFrame::Page,
    };
    let mut p: usize = pos;
    while p < n
        invariant
            n == ev@.len(),
            n < usize::MAX,
            pos <= p <= n,
            body_scan(ev@, pos as int, end@, draw_empty()) == body_scan(ev@, p as int, end@, d),
        decreases n - p,
    {
        match &ev[p] {
            XmlEvent::Start(t) => {
                if is_named(t, "extent") || is_named(t, "docPr") {
                    apply_draw_tag(&mut d, t);
                    p = skip_past(ev, p);
                } else if is_named(t, "positionH") {
                    d.h_frame = read_frame(t, d.h_frame);
                    let (o, q) = parse_position_offset(ev, p + 1, "positionH");
                    d.anchor_x = o;
                    p = if p < q {
                        q
                    } else {
                        n
                    };
                } else if is_named(t, "positionV") {
                    d.v_frame = read_frame(t, d.v_frame);
                    let (o, q) = parse_position_offset(ev, p + 1, "positionV");
                    d.anchor_y = o;
                    p = if p < q {
                        q
                    } else {
                        n
                    };
                } else if is_named(t, "graphic") {
                    let (r, sh, q) = parse_graphic(ev, p + 1);
                    if r.is_some() {
                        d.relationship_id = r;
                    }
                    if sh.is_some() {
                        d.shape = sh;
                    }
                    p = if p < q {
                        q
                    } else {
                        n
                    };
                } else {
                    p = skip_past(ev, p);
                }
            },
            XmlEvent::Empty(t) => {
                apply_draw_tag(&mut d, t);
                p = p + 1;
            },
            XmlEvent::End(name) => {
                if str_eq(name.as_str(), end) {
                    return (make_drawing(d, inline, media), p + 1);
                }
                p = p + 1;
            },
            XmlEvent::Eof => {
                return (make_drawing(d, inline, media), p);
            },
            _ => {
                p = p + 1;
            },
        }
    }
    (make_drawing(d, inline, media), p)
}

/// The drawing an inline or anchor body gives, with its placement.
pub open spec fn made(d: DrawParts, inline: bool) -> Option<(DrawParts, bool)> {
    if has_drawing(d) {
        Some((d, inline))
    } else {
        None
    }
}

/// Reading `<w:drawing>` from `pos` on: what its last `wp:inline` or
/// `wp:anchor` child describes.
pub open spec fn drawing_scan(ev: Seq<XmlEvent>, pos: int, cur: Option<(DrawParts, bool)>) -> (
    Option<(DrawParts, bool)>,
    int,
)
    decreases ev.len() - pos,
{
    if pos < 0 || pos >= ev.len() {
        (cur, pos)
    } else {
        match ev[pos] {
            XmlEvent::Start(t) => if t.name@ == "inline"@ {
                let (d, q) = body_scan(ev, pos + 1, "inline"@, draw_empty());
                drawing_scan(ev, fwd(ev.len() as int, pos, q), made(d, true))
            } else if t.name@ == "anchor"@ {
                let (d, q) = body_scan(ev, pos + 1, "anchor"@, draw_empty());
                drawing_scan(ev, fwd(ev.len() as int, pos, q), made(d, false))
            } else {
                drawing_scan(ev, past(ev, pos), cur)
            },
            XmlEvent::End(n) => if n@ == "drawing"@ {
                (cur, pos + 1)
            } else {
                drawing_scan(ev, pos + 1, cur)
            },
            XmlEvent::Eof => (cur, pos),
            _ => drawing_scan(ev, pos + 1, cur),
        }
    }
}

/// Whether `o` is the drawing that `m` describes.
pub open spec fn drawing_is(
    o: Option<DrawingInfo>,
    m: Option<(DrawParts, bool)>,
    media: Seq<Relationship>,
) -> bool {
    match m {
        Some((d, inline)) => has_drawing(d) && drawing_made(o, d, inline, media),
        None => o is None,
    }
}

/// Reads a `<w:drawing>` element.
pub fn parse_drawing(ev: &[XmlEvent], pos: usize, media: &[Relationship]) -> (r: (
    Option<DrawingInfo>,
    usize,
))
    requires
        pos <= ev@.len(),
        ev@.len() < usize::MAX,
    ensures
        r.1 == drawing_scan(ev@, pos as int, None).1,
        drawing_is(r.0, drawing_scan(ev@, pos as int, None).0, media@),
        pos <= r.1 <= ev@.len(),
{
    let n = ev.len();
    let mut info: Option<DrawingInfo> = None;
    let ghost mut cur: Option<(DrawParts, bool)> = None;
    let mut p: usize = pos;
    while p < n
        invariant
            n == ev@.len(),
            n < usize::MAX,
            pos <= p <= n,
            drawing_scan(ev@, pos as int, None) == drawing_scan(ev@, p as int, cur),
            drawing_is(info, cur, media@),
        decreases n - p,
    {
        match &ev[p] {
            XmlEvent::Start(t) => {
                if is_named(t, "inline") || is_named(t, "anchor") {
                    let inline = is_named(t, "inline");
                    let end = if inline {
                        "inline"
                    } else {
                        "anchor"
                    };
                    let (o, q) = parse_inline_or_anchor_body(ev, p + 1, inline, end, media);
                    proof {
                        let (d, _) = body_scan(ev@, p + 1, end@, draw_empty());
                        cur = made(d, inline);
                    }
                    info = o;
                    p = if p < q {
                        q
                    } else {
                        n
                    };
                } else {
                    p = skip_past(ev, p);
                }
            },
            XmlEvent::End(name) => {
                if str_eq(name.as_str(), "drawing") {
                    return (info, p + 1);
                }
                p = p + 1;
            },
            XmlEvent::Eof => {
                return (info, p);
            },
            _ => {
                p = p + 1;
            },
        }
    }
    (info, p)
}

// ---------------------------------------------------------------------------
// Table properties
// ---------------------------------------------------------------------------

/// The kind of a width, by its `w:type`; `dxa` where it is absent or
/// unknown.
pub open spec fn width_type_of(v: Option<Seq<char>>) -> TableWidthType {
    match v {
        Some(s) => if s == "pct"@ {
            TableWidthType::Pct
        } else if s == "auto"@ {
            TableWidthType::Auto
        } else if s == "nil"@ {
            TableWidthType::Nil
        } else {
            TableWidthType::Dxa
        },
        None => TableWidthType::Dxa,
    }
}

/// A `tblW` or `tcW` tag: present where `w:w` is, its value 0 where it
/// is not a number.
pub open spec fn table_width_of(t: XmlTag) -> Option<TableWidth> {
    match attr(t, "w:w"@) {
        Some(_) => Some(
            TableWidth {
                value: int_attr_or(t, "w:w"@, 0),
                width_type: width_type_of(attr(t, "w:type"@)),
            },
        ),
        None => None,
    }
}

/// Reads a `tblW` or `tcW` tag.
pub fn parse_table_width(t: &XmlTag) -> (r: Option<TableWidth>)
    ensures
        r == table_width_of(*t),
{
    match get_attr(t, "w:w") {
        Some(_) => {
            let value = read_int_attr_or(t, "w:w", 0);
            let width_type = match get_attr(t, "w:type") {
                Some(v) => {
                    let s = v.as_str();
                    if str_eq(s, "pct") {
                        TableWidthType::Pct
                    } else if str_eq(s, "auto") {
                        TableWidthType::Auto
                    } else if str_eq(s, "nil") {
                        TableWidthType::Nil
                    } else {
                        TableWidthType::Dxa
                    }
                },
                None => TableWidthType::Dxa,
            };
            Some(TableWidth { value, width_type })
        },
        None => None,
    }
}

/// `p` with what one child of `w:tblPr` says: width, alignment, style.
pub open spec fn tblpr_tag(p: TableProperties, t: XmlTag) -> TableProperties {
    if t.name@ == "tblW"@ {
        TableProperties { width: table_width_of(t), ..p }
    } else if t.name@ == "jc"@ {
        match attr(t, "w:val"@) {
            Some(v) => TableProperties { justification: Some(justification_of(v)), ..p },
            None => p,
        }
    } else if t.name@ == "tblStyle"@ {
        match attr_str(t, "w:val"@) {
            Some(v) => TableProperties { style_id: Some(v), ..p },
            None => p,
        }
    } else {
        p
    }
}

fn apply_tblpr_tag(p: &mut TableProperties, t: &XmlTag)
    ensures
        *final(p) == tblpr_tag(*old(p), *t),
{
    if is_named(t, "tblW") {
        p.width = parse_table_width(t);
    } else if is_named(t, "jc") {
        match get_attr(t, "w:val") {
            Some(v) => {
                p.justification = Some(parse_justification_value(v.as_str()));
            },
            None => {},
        }
    } else if is_named(t, "tblStyle") {
        match get_attr(t, "w:val") {
            Some(v) => {
                p.style_id = Some(v);
            },
            None => {},
        }
    }
}

pub open spec fn tblpr_empty() -> TableProperties {
    TableProperties {
        width: None,
        justification: None,
        style_id: None,
        borders: None,
        cell_margins: None,
        indent: None,
        caption: None,
    }
}

/// Reading `w:tblPr` from `pos` on.
pub open spec fn tblpr_scan(ev: Seq<XmlEvent>, pos: int, p: TableProperties) -> (
    TableProperties,
    int,
)
    decreases ev.len() - pos,
{
    if pos < 0 || pos >= ev.len() {
        (p, pos)
    } else {
        match ev[pos] {
            XmlEvent::Start(t) => tblpr_scan(ev, past(ev, pos), tblpr_tag(p, t)),
            XmlEvent::Empty(t) => tblpr_scan(ev, pos + 1, tblpr_tag(p, t)),
            XmlEvent::End(n) => if n@ == "tblPr"@ {
                (p, pos + 1)
            } else {
                tblpr_scan(ev, pos + 1, p)
            },
            XmlEvent::Eof => (p, pos),
            _ => tblpr_scan(ev, pos + 1, p),
        }
    }
}

/// Reads a `w:tblPr` element.
pub fn parse_table_properties(ev: &[XmlEvent], pos: usize) -> (r: (TableProperties, usize))
    requires
        pos <= ev@.len(),
        ev@.len() < usize::MAX,
    ensures
        (r.0, r.1 as int) == tblpr_scan(ev@, pos as int, tblpr_empty()),
        pos <= r.1 <= ev@.len(),
{
    let n = ev.len();
    let mut props = TableProperties::default();
    let mut p: usize = pos;
    while p < n
        invariant
            n == ev@.len(),
            n < usize::MAX,
            pos <= p <= n,
            tblpr_scan(ev@, pos as int, tblpr_empty()) == tblpr_scan(ev@, p as int, props),
        decreases n - p,
    {
        match &ev[p] {
            XmlEvent::Start(t) => {
                apply_tblpr_tag(&mut props, t);
                p = skip_past(ev, p);
            },
            XmlEvent::Empty(t) => {
                apply_tblpr_tag(&mut props, t);
                p = p + 1;
            },
            XmlEvent::End(name) => {
                if str_eq(name.as_str(), "tblPr") {
                    return (props, p + 1);
                }
                p = p + 1;
            },
            XmlEvent::Eof => {
                return (props, p);
            },
            _ => {
                p = p + 1;
            },
        }
    }
    (props, p)
}

/// A `<w:gridCol w:w="..">` column width; 0 where it is not a number.
pub open spec fn grid_col_of(t: XmlTag) -> Option<Twip> {
    if t.name@ == "gridCol"@ {
        match attr(t, "w:w"@) {
            Some(_) => Some(Twip(int_attr_or(t, "w:w"@, 0))),
            None => None,
        }
    } else {
        None
    }
}

fn read_grid_col(t: &XmlTag) -> (r: Option<Twip>)
    ensures
        r == grid_col_of(*t),
{
    if !is_named(t, "gridCol") {
        return None;
    }
    match get_attr(t, "w:w") {
        Some(_) => Some(Twip(read_int_attr_or(t, "w:w", 0))),
        None => None,
    }
}

/// Reading `w:tblGrid` from `pos` on: its column widths in order.
pub open spec fn grid_scan(ev: Seq<XmlEvent>, pos: int, cols: Seq<Twip>) -> (Seq<Twip>, int)
    decreases ev.len() - pos,
{
    if pos < 0 || pos >= ev.len() {
        (cols, pos)
    } else {
        match ev[pos] {
            XmlEvent::Start(t) => match grid_col_of(t) {
                Some(c) => grid_scan(ev, pos + 1, cols.push(c)),
                None => grid_scan(ev, pos + 1, cols),
            },
            XmlEvent::Empty(t) => match grid_col_of(t) {
                Some(c) => grid_scan(ev, pos + 1, cols.push(c)),
                None => grid_scan(ev, pos + 1, cols),
            },
            XmlEvent::End(n) => if n@ == "tblGrid"@ {
                (cols, pos + 1)
            } else {
                grid_scan(ev, pos + 1, cols)
            },
            XmlEvent::Eof => (cols, pos),
            _ => grid_scan(ev, pos + 1, cols),
        }
    }
}

/// Reads a `w:tblGrid` element: the column widths.
pub fn parse_table_grid(ev: &[XmlEvent], pos: usize) -> (r: (Vec<Twip>, usize))
    requires
        pos <= ev@.len(),
        ev@.len() < usize::MAX,
    ensures
        (r.0@, r.1 as int) == grid_scan(ev@, pos as int, Seq::empty()),
        pos <= r.1 <= ev@.len(),
{
    let n = ev.len();
    let mut cols: Vec<Twip> = Vec::new();
    let mut p: usize = pos;
    while p < n
        invariant
            n == ev@.len(),
            n < usize::MAX,
            pos <= p <= n,
            grid_scan(ev@, pos as int, Seq::empty()) == grid_scan(ev@, p as int, cols@),
        decreases n - p,
    {
        match &ev[p] {
            XmlEvent::Start(t) => {
                match read_grid_col(t) {
                    Some(c) => cols.push(c),
                    None => {},
                }
            },
            XmlEvent::Empty(t) => {
                match read_grid_col(t) {
                    Some(c) => cols.push(c),
                    None => {},
                }
            },
            XmlEvent::End(name) => {
                if str_eq(name.as_str(), "tblGrid") {
                    return (cols, p + 1);
                }
            },
            XmlEvent::Eof => {
                return (cols, p);
            },
            _ => {},
        }
        p = p + 1;
    }
    (cols, p)
}

/// Reading `w:trPr` from `pos` on: whether a `tblHeader` child marks
/// the row as a header.
pub open spec fn trpr_scan(ev: Seq<XmlEvent>, pos: int, header: bool) -> (bool, int)
    decreases ev.len() - pos,
{
    if pos < 0 || pos >= ev.len() {
        (header, pos)
    } else {
        match ev[pos] {
            XmlEvent::Start(t) => trpr_scan(ev, pos + 1, header || t.name@ == "tblHeader"@),
            XmlEvent::Empty(t) => trpr_scan(ev, pos + 1, header || t.name@ == "tblHeader"@),
            XmlEvent::End(n) => if n@ == "trPr"@ {
                (header, pos + 1)
            } else {
                trpr_scan(ev, pos + 1, header)
            },
            XmlEvent::Eof => (header, pos),
            _ => trpr_scan(ev, pos + 1, header),
        }
    }
}

/// Reads a `w:trPr` element: a header row where it has a `tblHeader`.
pub fn parse_table_row_properties(ev: &[XmlEvent], pos: usize) -> (r: (TableRowProperties, usize))
    requires
        pos <= ev@.len(),
        ev@.len() < usize::MAX,
    ensures
        r.0 == (TableRowProperties {
            is_header: trpr_scan(ev@, pos as int, false).0,
            height: None,
            height_rule: None,
            cant_split: false,
        }),
        r.1 == trpr_scan(ev@, pos as int, false).1,
        pos <= r.1 <= ev@.len(),
{
    let n = ev.len();
    let mut header = false;
    let mut p: usize = pos;
    while p < n
        invariant
            n == ev@.len(),
            n < usize::MAX,
            pos <= p <= n,
            trpr_scan(ev@, pos as int, false) == trpr_scan(ev@, p as int, header),
        decreases n - p,
    {
        match &ev[p] {
            XmlEvent::Start(t) => {
                if is_named(t, "tblHeader") {
                    header = true;
                }
            },
            XmlEvent::Empty(t) => {
                if is_named(t, "tblHeader") {
                    header = true;
                }
            },
            XmlEvent::End(name) => {
                if str_eq(name.as_str(), "trPr") {
                    return (
                        TableRowProperties {
                            is_header: header,
                            height: None,
                            height_rule: None,
                            cant_split: false,
                        },
                        p + 1,
                    );
                }
            },
            XmlEvent::Eof => {
                return (
                    TableRowProperties {
                        is_header: header,
                        height: None,
                        height_rule: None,
                        cant_split: false,
                    },
                    p,
                );
            },
            _ => {},
        }
        p = p + 1;
    }
    (TableRowProperties { is_header: header, height: None, height_rule: None, cant_split: false }, p)
}

/// `p` with what one child of `w:tcPr` says: width, vertical merge,
/// span, shading.
pub open spec fn tcpr_tag(p: TableCellProperties, t: XmlTag) -> TableCellProperties {
    if t.name@ == "tcW"@ {
        TableCellProperties { width: table_width_of(t), ..p }
    } else if t.name@ == "vMerge"@ {
        TableCellProperties {
            vertical_merge: Some(
                if attr(t, "w:val"@) == Some("restart"@) {
                    MergeType::Restart
                } else {
                    MergeType::Continue
                },
            ),
            ..p
        }
    } else if t.name@ == "gridSpan"@ {
        match attr(t, "w:val"@) {
            Some(_) => TableCellProperties { grid_span: uint_attr(t, "w:val"@), ..p },
            None => p,
        }
    } else if t.name@ == "shd"@ {
        TableCellProperties { shading: Some(Box::new(shading_of(t))), ..p }
    } else {
        p
    }
}

fn apply_tcpr_tag(p: &mut TableCellProperties, t: &XmlTag)
    ensures
        *final(p) == tcpr_tag(*old(p), *t),
{
    if is_named(t, "tcW") {
        p.width = parse_table_width(t);
    } else if is_named(t, "vMerge") {
        let restart = match get_attr(t, "w:val") {
            Some(v) => str_eq(v.as_str(), "restart"),
            None => false,
        };
        p.vertical_merge = Some(
            if restart {
                MergeType::Restart
            } else {
                MergeType::Continue
            },
        );
    } else if is_named(t, "gridSpan") {
        match get_attr(t, "w:val") {
            Some(_) => {
                p.grid_span = read_uint_attr(t, "w:val");
            },
            None => {},
        }
    } else if is_named(t, "shd") {
        p.shading = Some(Box::new(parse_shading(t)));
    }
}

pub open spec fn tcpr_empty() -> TableCellProperties {
    TableCellProperties {
        width: None,
        vertical_merge: None,
        grid_span: None,
        shading: None,
        borders: None,
        v_align: None,
        text_direction: None,
        margins: None,
        deleted: false,
    }
}

/// Reading `w:tcPr` from `pos` on.
pub open spec fn tcpr_scan(ev: Seq<XmlEvent>, pos: int, p: TableCellProperties) -> (
    TableCellProperties,
    int,
)
    decreases ev.len() - pos,
{
    if pos < 0 || pos >= ev.len() {
        (p, pos)
    } else {
        match ev[pos] {
            XmlEvent::Start(t) => tcpr_scan(ev, past(ev, pos), tcpr_tag(p, t)),
            XmlEvent::Empty(t) => tcpr_scan(ev, pos + 1, tcpr_tag(p, t)),
            XmlEvent::End(n) => if n@ == "tcPr"@ {
                (p, pos + 1)
            } else {
                tcpr_scan(ev, pos + 1, p)
            },
            XmlEvent::Eof => (p, pos),
            _ => tcpr_scan(ev, pos + 1, p),
        }
    }
}

/// Reads a `w:tcPr` element.
pub fn parse_table_cell_properties(ev: &[XmlEvent], pos: usize) -> (r: (TableCellProperties, usize))
    requires
        pos <= ev@.len(),
        ev@.len() < usize::MAX,
    ensures
        (r.0, r.1 as int) == tcpr_scan(ev@, pos as int, tcpr_empty()),
        pos <= r.1 <= ev@.len(),
{
    let n = ev.len();
    let mut props = TableCellProperties::default();
    let mut p: usize = pos;
    while p < n
        invariant
            n == ev@.len(),
            n < usize::MAX,
            pos <= p <= n,
            tcpr_scan(ev@, pos as int, tcpr_empty()) == tcpr_scan(ev@, p as int, props),
        decreases n - p,
    {
        match &ev[p] {
            XmlEvent::Start(t) => {
                apply_tcpr_tag(&mut props, t);
                p = skip_past(ev, p);
            },
            XmlEvent::Empty(t) => {
                apply_tcpr_tag(&mut props, t);
                p = p + 1;
            },
            XmlEvent::End(name) => {
                if str_eq(name.as_str(), "tcPr") {
                    return (props, p + 1);
                }
                p = p + 1;
            },
            XmlEvent::Eof => {
                return (props, p);
            },
            _ => {
                p = p + 1;
            },
        }
    }
    (props, p)
}

// ---------------------------------------------------------------------------
// Runs, hyperlinks and paragraphs
// ---------------------------------------------------------------------------

/// What one piece of a run's content is read as.
pub ghost enum RunItem {
    Text(Seq<char>),
    Break(BreakType),
    Tab,
    Drawing(DrawParts, bool),
}

/// Whether `c` is the content item `m`.
pub open spec fn run_item_is(c: RunContent, m: RunItem, links: PartLinks) -> bool {
    match m {
        RunItem::Text(t) => c matches RunContent::Text(s) && s@ == t,
        RunItem::Break(b) => c == RunContent::Break(b),
        RunItem::Tab => c is Tab,
        RunItem::Drawing(d, inline) => c matches RunContent::Drawing(info) && drawing_made(
            Some(*info),
            d,
            inline,
            links.media@,
        ),
    }
}

pub open spec fn run_items_are(v: Seq<RunContent>, m: Seq<RunItem>, links: PartLinks) -> bool {
    &&& v.len() == m.len()
    &&& forall|i: int| 0 <= i < v.len() ==> run_item_is(#[trigger] v[i], m[i], links)
}

/// A run as read: its properties and content.
pub ghost struct RunModel {
    pub props: Option<RunProperties>,
    pub items: Seq<RunItem>,
}

pub open spec fn run_is(r: Run, m: RunModel, links: PartLinks) -> bool {
    r.properties == m.props && run_items_are(r.content@, m.items, links)
}

pub open spec fn runs_are(v: Seq<Run>, m: Seq<RunModel>, links: PartLinks) -> bool {
    &&& v.len() == m.len()
    &&& forall|i: int| 0 <= i < v.len() ==> run_is(#[trigger] v[i], m[i], links)
}

/// The kind of a `<w:br>`: page and column breaks by `w:type`, a line
/// break otherwise.
pub open spec fn break_of(t: XmlTag) -> BreakType {
    match attr(t, "w:type"@) {
        Some(v) => if v == "page"@ {
            BreakType::Page
        } else if v == "column"@ {
            BreakType::Column
        } else {
            BreakType::Line
        },
        None => BreakType::Line,
    }
}

fn read_break(t: &XmlTag) -> (r: BreakType)
    ensures
        r == break_of(*t),
{
    match get_attr(t, "w:type") {
        Some(v) => {
            let s = v.as_str();
            if str_eq(s, "page") {
                BreakType::Page
            } else if str_eq(s, "column") {
                BreakType::Column
            } else {
                BreakType::Line
            }
        },
        None => BreakType::Line,
    }
}

/// Reading `<w:r>` from `pos` on: its properties, its text (empty text
/// left out), breaks, tabs and drawings, in order.
pub open spec fn run_scan(
    ev: Seq<XmlEvent>,
    pos: int,
    props: Option<RunProperties>,
    items: Seq<RunItem>,
) -> Result<(Option<RunProperties>, Seq<RunItem>, int), InvalidNumber>
    decreases ev.len() - pos,
{
    if pos < 0 || pos >= ev.len() {
        Ok((props, items, pos))
    } else {
        match ev[pos] {
            XmlEvent::Start(t) => if t.name@ == "rPr"@ {
                match rpr_scan(ev, pos + 1, rpr_empty()) {
                    Err(e) => Err(e),
                    Ok((rp, q)) => run_scan(ev, fwd(ev.len() as int, pos, q), Some(rp), items),
                }
            } else if t.name@ == "t"@ {
                let (txt, q) = text_scan(ev, pos + 1);
                run_scan(
                    ev,
                    fwd(ev.len() as int, pos, q),
                    props,
                    if txt.len() > 0 {
                        items.push(RunItem::Text(txt))
                    } else {
                        items
                    },
                )
            } else if t.name@ == "br"@ {
                run_scan(ev, past(ev, pos), props, items.push(RunItem::Break(break_of(t))))
            } else if t.name@ == "drawing"@ {
                let (m, q) = drawing_scan(ev, pos + 1, None);
                run_scan(
                    ev,
                    fwd(ev.len() as int, pos, q),
                    props,
                    match m {
                        Some((d, inline)) => items.push(RunItem::Drawing(d, inline)),
                        None => items,
                    },
                )
            } else {
                run_scan(ev, past(ev, pos), props, items)
            },
            XmlEvent::Empty(t) => if t.name@ == "br"@ {
                run_scan(ev, pos + 1, props, items.push(RunItem::Break(break_of(t))))
            } else if t.name@ == "tab"@ {
                run_scan(ev, pos + 1, props, items.push(RunItem::Tab))
            } else {
                run_scan(ev, pos + 1, props, items)
            },
            XmlEvent::End(n) => if n@ == "r"@ {
                Ok((props, items, pos + 1))
            } else {
                run_scan(ev, pos + 1, props, items)
            },
            XmlEvent::Eof => Ok((props, items, pos)),
            _ => run_scan(ev, pos + 1, props, items),
        }
    }
}

/// The run that reading `<w:r>` from `pos` on gives, and the position
/// after it.
pub open spec fn run_at(ev: Seq<XmlEvent>, pos: int) -> Result<(RunModel, int), InvalidNumber> {
    match run_scan(ev, pos, None, Seq::empty()) {
        Ok((p, it, q)) => Ok((RunModel { props: p, items: it }, q)),
        Err(e) => Err(e),
    }
}

proof fn lemma_push_item(v: Seq<RunContent>, m: Seq<RunItem>, c: RunContent, i: RunItem, links: PartLinks)
    requires
        run_items_are(v, m, links),
        run_item_is(c, i, links),
    ensures
        run_items_are(v.push(c), m.push(i), links),
{
    assert forall|k: int| 0 <= k < v.push(c).len() implies run_item_is(
        #[trigger] v.push(c)[k],
        m.push(i)[k],
        links,
    ) by {
        if k < v.len() {
            assert(v.push(c)[k] == v[k]);
        }
    }
}

/// Reads a `<w:r>` element.
pub fn parse_run(ev: &[XmlEvent], pos: usize, links: &PartLinks) -> (r: Result<
    (Run, usize),
    InvalidNumber,
>)
    requires
        pos <= ev@.len(),
        ev@.len() < usize::MAX,
    ensures
        match r {
            Ok((run, n)) => run_at(ev@, pos as int) matches Ok((m, q)) && run_is(run, m, *links) && q
                == n && pos <= n <= ev@.len(),
            Err(e) => run_at(ev@, pos as int) == Err::<(RunModel, int), InvalidNumber>(e),
        },
{
    let n = ev.len();
    let mut props: Option<RunProperties> = None;
    let mut content: Vec<RunContent> = Vec::new();
    let ghost mut items: Seq<RunItem> = Seq::empty();
    let mut p: usize = pos;
    while p < n
        invariant
            n == ev@.len(),
            n < usize::MAX,
            pos <= p <= n,
            run_scan(ev@, pos as int, None, Seq::empty()) == run_scan(ev@, p as int, props, items),
            run_items_are(content@, items, *links),
        decreases n - p,
    {
        match &ev[p] {
            XmlEvent::Start(t) => {
                if is_named(t, "rPr") {
                    proof {
                        lemma_rpr_scan(ev@, p + 1, rpr_empty());
                    }
                    let (rp, q) = parse_run_properties_fast(ev, p + 1)?;
                    props = Some(rp);
                    p = if p < q {
                        q
                    } else {
                        n
                    };
                } else if is_named(t, "t") {
                    let (txt, q) = read_text_content(ev, p + 1);
                    if !txt.as_str().is_empty() {
                        proof {
                            lemma_push_item(content@, items, RunContent::Text(txt), RunItem::Text(txt@), *links);
                            items = items.push(RunItem::Text(txt@));
                        }
                        content.push(RunContent::Text(txt));
                    }
                    p = if p < q {
                        q
                    } else {
                        n
                    };
                } else if is_named(t, "br") {
                    let b = read_break(t);
                    proof {
                        lemma_push_item(content@, items, RunContent::Break(b), RunItem::Break(b), *links);
                        items = items.push(RunItem::Break(b));
                    }
                    content.push(RunContent::Break(b));
                    p = skip_past(ev, p);
                } else if is_named(t, "drawing") {
                    let (d, q) = parse_drawing(ev, p + 1, links.media.as_slice());
                    match d {
                        Some(info) => {
                            proof {
                                let (m, _) = drawing_scan(ev@, p + 1, None);
                                let (dp, inline) = m->0;
                                lemma_push_item(
                                    content@,
                                    items,
                                    RunContent::Drawing(Box::new(info)),
                                    RunItem::Drawing(dp, inline),
                                    *links,
                                );
                                items = items.push(RunItem::Drawing(dp, inline));
                            }
                            content.push(RunContent::Drawing(Box::new(info)));
                        },
                        None => {},
                    }
                    p = if p < q {
                        q
                    } else {
                        n
                    };
                } else {
                    p = skip_past(ev, p);
                }
            },
            XmlEvent::Empty(t) => {
                if is_named(t, "br") {
                    let b = read_break(t);
                    proof {
                        lemma_push_item(content@, items, RunContent::Break(b), RunItem::Break(b), *links);
                        items = items.push(RunItem::Break(b));
                    }
                    content.push(RunContent::Break(b));
                } else if is_named(t, "tab") {
                    proof {
                        lemma_push_item(content@, items, RunContent::Tab, RunItem::Tab, *links);
                        items = items.push(RunItem::Tab);
                    }
                    content.push(RunContent::Tab);
                }
                p = p + 1;
            },
            XmlEvent::End(name) => {
                if str_eq(name.as_str(), "r") {
                    return Ok((Run { properties: props, content }, p + 1));
                }
                p = p + 1;
            },
            XmlEvent::Eof => {
                return Ok((Run { properties: props, content }, p));
            },
            _ => {
                p = p + 1;
            },
        }
    }
    Ok((Run { properties: props, content }, p))
}

/// A relationship of the part: its id, its target, and whether the
/// target lies outside the package.
#[derive(Debug, Clone)]
pub struct Relationship {
    pub id: String,
    pub target: String,
    pub external: bool,
}

/// What a part's relationships resolve while it is read: hyperlink
/// targets, and the package paths of images, each by relationship id.
#[derive(Debug, Clone)]
pub struct PartLinks {
    pub hyperlinks: Vec<Relationship>,
    pub media: Vec<Relationship>,
}

/// The first relationship from position `i` on whose id is `id`.
pub open spec fn rel_from(rels: Seq<Relationship>, id: Seq<char>, i: int) -> Option<Relationship>
    decreases rels.len() - i,
{
    if i < 0 || i >= rels.len() {
        None
    } else if rels[i].id@ == id {
        Some(rels[i])
    } else {
        rel_from(rels, id, i + 1)
    }
}

/// Where a hyperlink's relationship id leads: to the relationship's
/// target, outside the package or inside it; to the id itself where no
/// relationship has it.
pub open spec fn resolve_rid(r: String, rels: Seq<Relationship>) -> HyperlinkTarget {
    match rel_from(rels, r@, 0) {
        Some(rel) => if rel.external {
            HyperlinkTarget::External(rel.target)
        } else {
            HyperlinkTarget::Internal(rel.target)
        },
        None => HyperlinkTarget::External(r),
    }
}

fn resolve_rel(r: String, rels: &[Relationship]) -> (t: HyperlinkTarget)
    ensures
        t == resolve_rid(r, rels@),
{
    let mut i: usize = 0;
    while i < rels.len()
        invariant
            i <= rels@.len(),
            rel_from(rels@, r@, 0) == rel_from(rels@, r@, i as int),
        decreases rels@.len() - i,
    {
        if str_eq(rels[i].id.as_str(), r.as_str()) {
            let target = rels[i].target.clone();
            if rels[i].external {
                return HyperlinkTarget::External(target);
            } else {
                return HyperlinkTarget::Internal(target);
            }
        }
        i = i + 1;
    }
    HyperlinkTarget::External(r)
}

/// A relationship of a package part with its type, as the part's
/// relationships file lists it.
#[derive(Debug, Clone)]
pub struct PackageRelationship {
    pub id: String,
    pub rel_type: String,
    pub target: String,
    pub external: bool,
}

/// The relationship type of an image.
pub open spec fn image_rel_type() -> Seq<char> {
    "http://schemas.openxmlformats.org/officeDocument/2006/relationships/image"@
}

/// The image relationships among `rels` that point inside the package,
/// in order, by id and target.
pub open spec fn media_rels_of(rels: Seq<PackageRelationship>) -> Seq<(Seq<char>, Seq<char>)>
    decreases rels.len(),
{
    if rels.len() == 0 {
        Seq::empty()
    } else {
        let r = rels.last();
        media_rels_of(rels.drop_last()) + if r.rel_type@ == image_rel_type() && !r.external {
            seq![(r.id@, r.target@)]
        } else {
            Seq::empty()
        }
    }
}

/// The media links of a part: its image relationships that point inside
/// the package, in order, ready for `PartLinks::media` once each target
/// is resolved to its package path.
pub fn media_relationships(rels: &[PackageRelationship]) -> (r: Vec<Relationship>)
    ensures
        r@.map_values(|x: Relationship| (x.id@, x.target@)) == media_rels_of(rels@),
        forall|i: int| 0 <= i < r@.len() ==> !(#[trigger] r@[i]).external,
{
    let image = "http://schemas.openxmlformats.org/officeDocument/2006/relationships/image";
    let mut out: Vec<Relationship> = Vec::new();
    let mut i: usize = 0;
    while i < rels.len()
        invariant
            i <= rels@.len(),
            image@ == image_rel_type(),
            out@.map_values(|x: Relationship| (x.id@, x.target@)) == media_rels_of(rels@.take(i as int)),
            forall|k: int| 0 <= k < out@.len() ==> !(#[trigger] out@[k]).external,
        decreases rels@.len() - i,
    {
        let ghost before = out@.map_values(|x: Relationship| (x.id@, x.target@));
        proof {
            assert(rels@.take(i + 1).drop_last() =~= rels@.take(i as int));
            assert(rels@.take(i + 1).last() == rels@[i as int]);
        }
        if str_eq(rels[i].rel_type.as_str(), image) && !rels[i].external {
            let link = Relationship {
                id: rels[i].id.clone(),
                target: rels[i].target.clone(),
                external: false,
            };
            out.push(link);
            proof {
                assert(out@.map_values(|x: Relationship| (x.id@, x.target@)) =~= before + seq![
                    (rels@[i as int].id@, rels@[i as int].target@),
                ]);
            }
        } else {
            proof {
                assert(before + Seq::<(Seq<char>, Seq<char>)>::empty() =~= before);
            }
        }
        i = i + 1;
    }
    proof {
        assert(rels@.take(rels@.len() as int) =~= rels@);
    }
    out
}

/// A header or footer part that a section refers to: its kind, the
/// target of its relationship, and whether it is a header.
#[derive(Debug, Clone)]
pub struct HeaderFooterPart {
    pub hf_type: HeaderFooterType,
    pub target: String,
    pub is_header: bool,
}

/// `p` as plain values.
pub open spec fn hf_part_view(p: HeaderFooterPart) -> (HeaderFooterType, Seq<char>, bool) {
    (p.hf_type, p.target@, p.is_header)
}

/// The part that `r` names, where a relationship has its id and points
/// inside the package.
pub open spec fn hf_part_of(r: HeaderFooterRef, is_header: bool, rels: Seq<Relationship>) -> Seq<
    (HeaderFooterType, Seq<char>, bool),
> {
    match rel_from(rels, r.relationship_id@, 0) {
        Some(rel) => if rel.external {
            Seq::empty()
        } else {
            seq![(r.hf_type, rel.target@, is_header)]
        },
        None => Seq::empty(),
    }
}

/// The parts that the references `refs` name, in order.
pub open spec fn hf_refs_parts(refs: Seq<HeaderFooterRef>, is_header: bool, rels: Seq<Relationship>) -> Seq<
    (HeaderFooterType, Seq<char>, bool),
>
    decreases refs.len(),
{
    if refs.len() == 0 {
        Seq::empty()
    } else {
        hf_refs_parts(refs.drop_last(), is_header, rels) + hf_part_of(refs.last(), is_header, rels)
    }
}

/// The header and footer parts of the sections `secs`: section by
/// section, its headers, then its footers.
pub open spec fn sections_hf_parts(secs: Seq<SectionProperties>, rels: Seq<Relationship>) -> Seq<
    (HeaderFooterType, Seq<char>, bool),
>
    decreases secs.len(),
{
    if secs.len() == 0 {
        Seq::empty()
    } else {
        sections_hf_parts(secs.drop_last(), rels) + hf_refs_parts(secs.last().header_refs@, true, rels)
            + hf_refs_parts(secs.last().footer_refs@, false, rels)
    }
}

/// The position of the first relationship whose id is `id`.
fn find_rel(rels: &[Relationship], id: &str) -> (r: Option<usize>)
    ensures
        match r {
            Some(i) => i < rels@.len() && rel_from(rels@, id@, 0) == Some(rels@[i as int]),
            None => rel_from(rels@, id@, 0) is None,
        },
{
    let mut i: usize = 0;
    while i < rels.len()
        invariant
            i <= rels@.len(),
            rel_from(rels@, id@, 0) == rel_from(rels@, id@, i as int),
        decreases rels@.len() - i,
    {
        if str_eq(rels[i].id.as_str(), id) {
            return Some(i);
        }
        i = i + 1;
    }
    None
}

/// Adds to `out` the parts that `refs` name.
fn push_hf_parts(
    out: &mut Vec<HeaderFooterPart>,
    refs: &[HeaderFooterRef],
    is_header: bool,
    rels: &[Relationship],
)
    ensures
        final(out)@.map_values(|p: HeaderFooterPart| hf_part_view(p)) == old(out)@.map_values(
            |p: HeaderFooterPart| hf_part_view(p),
        ) + hf_refs_parts(refs@, is_header, rels@),
{
    let ghost start = old(out)@.map_values(|p: HeaderFooterPart| hf_part_view(p));
    let mut k: usize = 0;
    while k < refs.len()
        invariant
            k <= refs@.len(),
            out@.map_values(|p: HeaderFooterPart| hf_part_view(p)) == start + hf_refs_parts(
                refs@.take(k as int),
                is_header,
                rels@,
            ),
        decreases refs@.len() - k,
    {
        let r = &refs[k];
        let ghost prev = out@.map_values(|p: HeaderFooterPart| hf_part_view(p));
        proof {
            assert(refs@.take(k + 1).drop_last() =~= refs@.take(k as int));
            assert(refs@.take(k + 1).last() == refs@[k as int]);
            assert(hf_refs_parts(refs@.take(k + 1), is_header, rels@) == hf_refs_parts(
                refs@.take(k as int),
                is_header,
                rels@,
            ) + hf_part_of(refs@[k as int], is_header, rels@));
        }
        match find_rel(rels, r.relationship_id.as_str()) {
            Some(i) => {
                if !rels[i].external {
                    let part = HeaderFooterPart {
                        hf_type: r.hf_type,
                        target: rels[i].target.clone(),
                        is_header,
                    };
                    let ghost pv = hf_part_view(part);
                    out.push(part);
                    proof {
                        assert(out@.map_values(|p: HeaderFooterPart| hf_part_view(p)) =~= prev.push(
                            pv,
                        ));
                        assert(hf_part_of(refs@[k as int], is_header, rels@) =~= seq![pv]);
                    }
                } else {
                    proof {
                        assert(hf_part_of(refs@[k as int], is_header, rels@) =~= Seq::empty());
                    }
                }
            },
            None => {
                proof {
                    assert(hf_part_of(refs@[k as int], is_header, rels@) =~= Seq::empty());
                }
            },
        }
        proof {
            assert(out@.map_values(|p: HeaderFooterPart| hf_part_view(p)) =~= start + hf_refs_parts(
                refs@.take(k + 1),
                is_header,
                rels@,
            ));
        }
        k = k + 1;
    }
    proof {
        assert(refs@.take(refs@.len() as int) =~= refs@);
    }
}

/// The header and footer parts that the sections refer to, in order:
/// section by section, its header references, then its footer
/// references, each whose relationship is found and points inside the
/// package.
pub fn header_footer_parts(sections: &[SectionProperties], rels: &[Relationship]) -> (r: Vec<
    HeaderFooterPart,
>)
    ensures
        r@.map_values(|p: HeaderFooterPart| hf_part_view(p)) == sections_hf_parts(sections@, rels@),
{
    let mut out: Vec<HeaderFooterPart> = Vec::new();
    let mut s: usize = 0;
    proof {
        assert(out@.map_values(|p: HeaderFooterPart| hf_part_view(p)) =~= Seq::empty());
    }
    while s < sections.len()
        invariant
            s <= sections@.len(),
            out@.map_values(|p: HeaderFooterPart| hf_part_view(p)) == sections_hf_parts(
                sections@.take(s as int),
                rels@,
            ),
        decreases sections@.len() - s,
    {
        proof {
            assert(sections@.take(s + 1).drop_last() =~= sections@.take(s as int));
            assert(sections@.take(s + 1).last() == sections@[s as int]);
        }
        push_hf_parts(&mut out, sections[s].header_refs.as_slice(), true, rels);
        push_hf_parts(&mut out, sections[s].footer_refs.as_slice(), false, rels);
        s = s + 1;
    }
    proof {
        assert(sections@.take(sections@.len() as int) =~= sections@);
    }
    out
}

/// Where a `<w:hyperlink>` start tag points: with an `r:id`, at that
/// relationship, `w:anchor` then being a fragment of it; otherwise at
/// the bookmark `w:anchor` names (an empty name where there is none).
pub open spec fn target_is(
    target: HyperlinkTarget,
    fragment: Option<String>,
    t: XmlTag,
    links: PartLinks,
) -> bool {
    match attr_str(t, "r:id"@) {
        Some(r) => target == resolve_rid(r, links.hyperlinks@) && fragment == attr_str(t, "w:anchor"@),
        None => fragment is None && match attr_str(t, "w:anchor"@) {
            Some(a) => target == HyperlinkTarget::Internal(a),
            None => target matches HyperlinkTarget::Internal(s) && s@.len() == 0,
        },
    }
}

/// `h` as read from the start tag `t` and the runs `runs`.
pub open spec fn hyperlink_is(h: Hyperlink, t: XmlTag, runs: Seq<RunModel>, links: PartLinks) -> bool {
    &&& target_is(h.target, h.fragment, t, links)
    &&& h.tooltip == attr_str(t, "w:tooltip"@)
    &&& runs_are(h.runs@, runs, links)
}

/// Reading `<w:hyperlink>` from `pos` on: its runs.
pub open spec fn hl_scan(ev: Seq<XmlEvent>, pos: int, runs: Seq<RunModel>) -> Result<
    (Seq<RunModel>, int),
    InvalidNumber,
>
    decreases ev.len() - pos,
{
    if pos < 0 || pos >= ev.len() {
        Ok((runs, pos))
    } else {
        match ev[pos] {
            XmlEvent::Start(t) => if t.name@ == "r"@ {
                match run_at(ev, pos + 1) {
                    Err(e) => Err(e),
                    Ok((m, q)) => hl_scan(ev, fwd(ev.len() as int, pos, q), runs.push(m)),
                }
            } else {
                hl_scan(ev, past(ev, pos), runs)
            },
            XmlEvent::End(n) => if n@ == "hyperlink"@ {
                Ok((runs, pos + 1))
            } else {
                hl_scan(ev, pos + 1, runs)
            },
            XmlEvent::Eof => Ok((runs, pos)),
            _ => hl_scan(ev, pos + 1, runs),
        }
    }
}

proof fn lemma_push_run(v: Seq<Run>, m: Seq<RunModel>, c: Run, i: RunModel, links: PartLinks)
    requires
        runs_are(v, m, links),
        run_is(c, i, links),
    ensures
        runs_are(v.push(c), m.push(i), links),
{
    assert forall|k: int| 0 <= k < v.push(c).len() implies run_is(
        #[trigger] v.push(c)[k],
        m.push(i)[k],
        links,
    ) by {
        if k < v.len() {
            assert(v.push(c)[k] == v[k]);
        }
    }
}

/// Reads a `<w:hyperlink>` element whose start tag `start` was read
/// just before `pos`.
pub fn parse_hyperlink(ev: &[XmlEvent], pos: usize, start: &XmlTag, links: &PartLinks) -> (r: Result<
    (Hyperlink, usize),
    InvalidNumber,
>)
    requires
        pos <= ev@.len(),
        ev@.len() < usize::MAX,
    ensures
        match r {
            Ok((h, n)) => hl_scan(ev@, pos as int, Seq::empty()) matches Ok((runs, q))
                && hyperlink_is(h, *start, runs, *links) && q == n && pos <= n <= ev@.len(),
            Err(e) => hl_scan(ev@, pos as int, Seq::empty()) == Err::<
                (Seq<RunModel>, int),
                InvalidNumber,
            >(e),
        },
{
    let r_id = get_attr(start, "r:id");
    let anchor = get_attr(start, "w:anchor");
    let tooltip = get_attr(start, "w:tooltip");
    let (target, fragment) = match r_id {
        Some(r) => (resolve_rel(r, links.hyperlinks.as_slice()), anchor),
        None => match anchor {
            Some(a) => (HyperlinkTarget::Internal(a), None),
            None => (HyperlinkTarget::Internal(String::new()), None),
        },
    };
    let n = ev.len();
    let mut runs: Vec<Run> = Vec::new();
    let ghost mut models: Seq<RunModel> = Seq::empty();

    let mut p: usize = pos;
    while p < n
        invariant
            n == ev@.len(),
            n < usize::MAX,
            pos <= p <= n,
            hl_scan(ev@, pos as int, Seq::empty()) == hl_scan(ev@, p as int, models),
            runs_are(runs@, models, *links),
            target_is(target, fragment, *start, *links),
            tooltip == attr_str(*start, "w:tooltip"@),
        decreases n - p,
    {
        match &ev[p] {
            XmlEvent::Start(t) => {
                if is_named(t, "r") {
                    let (run, q) = parse_run(ev, p + 1, links)?;
                    proof {
                        let m = run_at(ev@, p + 1)->Ok_0.0;
                        lemma_push_run(runs@, models, run, m, *links);
                        models = models.push(m);
                    }
                    runs.push(run);
                    p = if p < q {
                        q
                    } else {
                        n
                    };
                } else {
                    p = skip_past(ev, p);
                }
            },
            XmlEvent::End(name) => {
                if str_eq(name.as_str(), "hyperlink") {
                    return Ok((Hyperlink { target, fragment, tooltip, runs }, p + 1));
                }
                p = p + 1;
            },
            XmlEvent::Eof => {
                return Ok((Hyperlink { target, fragment, tooltip, runs }, p));
            },
            _ => {
                p = p + 1;
            },
        }
    }
    Ok((Hyperlink { target, fragment, tooltip, runs }, p))
}

/// One piece of a paragraph as read.
pub ghost enum PieceModel {
    Run(RunModel),
    Hyperlink(XmlTag, Seq<RunModel>),
}

pub open spec fn piece_is(c: ParagraphContent, m: PieceModel, links: PartLinks) -> bool {
    match m {
        PieceModel::Run(rm) => c matches ParagraphContent::Run(r) && run_is(r, rm, links),
        PieceModel::Hyperlink(t, runs) => c matches ParagraphContent::Hyperlink(h)
            && hyperlink_is(h, t, runs, links),
    }
}

pub open spec fn pieces_are(v: Seq<ParagraphContent>, m: Seq<PieceModel>, links: PartLinks) -> bool {
    &&& v.len() == m.len()
    &&& forall|i: int| 0 <= i < v.len() ==> piece_is(#[trigger] v[i], m[i], links)
}

/// A paragraph as read: its properties and content.
pub ghost struct ParaModel {
    pub props: Option<PprModel>,
    pub pieces: Seq<PieceModel>,
}

pub open spec fn opt_ppr_view(o: Option<crate::docx::formatting::ParagraphProperties>) -> Option<
    PprModel,
> {
    match o {
        Some(p) => Some(p@),
        None => None,
    }
}

pub open spec fn paragraph_is(p: Paragraph, m: ParaModel, links: PartLinks) -> bool {
    opt_ppr_view(p.properties) == m.props && pieces_are(p.content@, m.pieces, links)
}

/// Reading `<w:p>` from `pos` on: its properties, and its runs and
/// hyperlinks in order; other children are skipped.
pub open spec fn para_scan(
    ev: Seq<XmlEvent>,
    pos: int,
    props: Option<PprModel>,
    pieces: Seq<PieceModel>,
) -> Result<(Option<PprModel>, Seq<PieceModel>, int), InvalidNumber>
    decreases ev.len() - pos,
{
    if pos < 0 || pos >= ev.len() {
        Ok((props, pieces, pos))
    } else {
        match ev[pos] {
            XmlEvent::Start(t) => if t.name@ == "pPr"@ {
                match ppr_scan(ev, pos + 1, ppr_empty()) {
                    Err(e) => Err(e),
                    Ok((m, q)) => para_scan(ev, fwd(ev.len() as int, pos, q), Some(m), pieces),
                }
            } else if t.name@ == "r"@ {
                match run_at(ev, pos + 1) {
                    Err(e) => Err(e),
                    Ok((m, q)) => para_scan(
                        ev,
                        fwd(ev.len() as int, pos, q),
                        props,
                        pieces.push(PieceModel::Run(m)),
                    ),
                }
            } else if t.name@ == "hyperlink"@ {
                match hl_scan(ev, pos + 1, Seq::empty()) {
                    Err(e) => Err(e),
                    Ok((runs, q)) => para_scan(
                        ev,
                        fwd(ev.len() as int, pos, q),
                        props,
                        pieces.push(PieceModel::Hyperlink(t, runs)),
                    ),
                }
            } else {
                para_scan(ev, past(ev, pos), props, pieces)
            },
            XmlEvent::End(n) => if n@ == "p"@ {
                Ok((props, pieces, pos + 1))
            } else {
                para_scan(ev, pos + 1, props, pieces)
            },
            XmlEvent::Eof => Ok((props, pieces, pos)),
            _ => para_scan(ev, pos + 1, props, pieces),
        }
    }
}

/// The paragraph that reading `<w:p>` from `pos` on gives, and the
/// position after it.
pub open spec fn para_at(ev: Seq<XmlEvent>, pos: int) -> Result<(ParaModel, int), InvalidNumber> {
    match para_scan(ev, pos, None, Seq::empty()) {
        Ok((p, pc, q)) => Ok((ParaModel { props: p, pieces: pc }, q)),
        Err(e) => Err(e),
    }
}

proof fn lemma_push_piece(
    v: Seq<ParagraphContent>,
    m: Seq<PieceModel>,
    c: ParagraphContent,
    i: PieceModel,
    links: PartLinks,
)
    requires
        pieces_are(v, m, links),
        piece_is(c, i, links),
    ensures
        pieces_are(v.push(c), m.push(i), links),
{
    assert forall|k: int| 0 <= k < v.push(c).len() implies piece_is(
        #[trigger] v.push(c)[k],
        m.push(i)[k],
        links,
    ) by {
        if k < v.len() {
            assert(v.push(c)[k] == v[k]);
        }
    }
}

/// Reads a `<w:p>` element.
pub fn parse_paragraph(ev: &[XmlEvent], pos: usize, links: &PartLinks) -> (r: Result<
    (Paragraph, usize),
    InvalidNumber,
>)
    requires
        pos <= ev@.len(),
        ev@.len() < usize::MAX,
    ensures
        match r {
            Ok((para, n)) => para_at(ev@, pos as int) matches Ok((m, q)) && paragraph_is(para, m, *links)
                && q == n && pos <= n <= ev@.len(),
            Err(e) => para_at(ev@, pos as int) == Err::<(ParaModel, int), InvalidNumber>(e),
        },
{
    let n = ev.len();
    let mut props: Option<crate::docx::formatting::ParagraphProperties> = None;
    let mut content: Vec<ParagraphContent> = Vec::new();
    let ghost mut pieces: Seq<PieceModel> = Seq::empty();
    let mut p: usize = pos;
    while p < n
        invariant
            n == ev@.len(),
            n < usize::MAX,
            pos <= p <= n,
            para_scan(ev@, pos as int, None, Seq::empty()) == para_scan(
                ev@,
                p as int,
                opt_ppr_view(props),
                pieces,
            ),
            pieces_are(content@, pieces, *links),
        decreases n - p,
    {
        match &ev[p] {
            XmlEvent::Start(t) => {
                if is_named(t, "pPr") {
                    proof {
                        lemma_ppr_scan(ev@, p + 1, ppr_empty());
                    }
                    let (pp, q) = parse_paragraph_properties_fast(ev, p + 1)?;
                    props = Some(pp);
                    p = if p < q {
                        q
                    } else {
                        n
                    };
                } else if is_named(t, "r") {
                    let (run, q) = parse_run(ev, p + 1, links)?;
                    proof {
                        let m = run_at(ev@, p + 1)->Ok_0.0;
                        lemma_push_piece(
                            content@,
                            pieces,
                            ParagraphContent::Run(run),
                            PieceModel::Run(m),
                            *links,
                        );
                        pieces = pieces.push(PieceModel::Run(m));
                    }
                    content.push(ParagraphContent::Run(run));
                    p = if p < q {
                        q
                    } else {
                        n
                    };
                } else if is_named(t, "hyperlink") {
                    let (h, q) = parse_hyperlink(ev, p + 1, t, links)?;
                    proof {
                        let runs = hl_scan(ev@, p + 1, Seq::empty())->Ok_0.0;
                        lemma_push_piece(
                            content@,
                            pieces,
                            ParagraphContent::Hyperlink(h),
                            PieceModel::Hyperlink(*t, runs),
                            *links,
                        );
                        pieces = pieces.push(PieceModel::Hyperlink(*t, runs));
                    }
                    content.push(ParagraphContent::Hyperlink(h));
                    p = if p < q {
                        q
                    } else {
                        n
                    };
                } else {
                    p = skip_past(ev, p);
                }
            },
            XmlEvent::End(name) => {
                if str_eq(name.as_str(), "p") {
                    return Ok((Paragraph { properties: props, content }, p + 1));
                }
                p = p + 1;
            },
            XmlEvent::Eof => {
                return Ok((Paragraph { properties: props, content }, p));
            },
            _ => {
                p = p + 1;
            },
        }
    }
    Ok((Paragraph { properties: props, content }, p))
}

// ---------------------------------------------------------------------------
// Tables and block elements
// ---------------------------------------------------------------------------

/// A block element as read.
pub ghost enum BlockModel {
    Paragraph(ParaModel),
    Table(TableModel),
}

/// A table as read.
pub ghost struct TableModel {
    pub props: Option<TableProperties>,
    pub grid: Seq<Twip>,
    pub rows: Seq<RowModel>,
}

/// A table row as read.
pub ghost struct RowModel {
    pub props: Option<TableRowProperties>,
    pub cells: Seq<CellModel>,
}

/// A table cell as read.
pub ghost struct CellModel {
    pub props: Option<TableCellProperties>,
    pub blocks: Seq<BlockModel>,
}

pub open spec fn block_is(b: BlockElement, m: BlockModel, links: PartLinks) -> bool
    decreases m, 0int,
{
    match m {
        BlockModel::Paragraph(pm) => b matches BlockElement::Paragraph(p) && paragraph_is(p, pm, links),
        BlockModel::Table(tm) => b matches BlockElement::Table(t) && table_is(t, tm, links),
    }
}

pub open spec fn table_is(t: Table, m: TableModel, links: PartLinks) -> bool
    decreases m, 0int,
{
    &&& t.properties == m.props
    &&& t.grid@ == m.grid
    &&& t.rows@.len() == m.rows.len()
    &&& forall|i: int| 0 <= i < m.rows.len() ==> row_is(#[trigger] t.rows@[i], m.rows[i], links)
}

pub open spec fn row_is(r: TableRow, m: RowModel, links: PartLinks) -> bool
    decreases m, 0int,
{
    &&& r.properties == m.props
    &&& r.cells@.len() == m.cells.len()
    &&& forall|i: int| 0 <= i < m.cells.len() ==> cell_is(#[trigger] r.cells@[i], m.cells[i], links)
}

pub open spec fn cell_is(c: TableCell, m: CellModel, links: PartLinks) -> bool
    decreases m, 0int,
{
    &&& c.properties == m.props
    &&& c.content@.len() == m.blocks.len()
    &&& forall|i: int| 0 <= i < m.blocks.len() ==> block_is(#[trigger] c.content@[i], m.blocks[i], links)
}

pub open spec fn blocks_are(v: Seq<BlockElement>, m: Seq<BlockModel>, links: PartLinks) -> bool {
    &&& v.len() == m.len()
    &&& forall|i: int| 0 <= i < m.len() ==> block_is(#[trigger] v[i], m[i], links)
}

/// The properties of a `w:trPr` element as read.
pub open spec fn row_props(header: bool) -> TableRowProperties {
    TableRowProperties { is_header: header, height: None, height_rule: None, cant_split: false }
}

/// Reading `<w:tbl>` from `pos` on: its properties, grid and rows.
pub open spec fn table_scan(
    ev: Seq<XmlEvent>,
    pos: int,
    props: Option<TableProperties>,
    grid: Seq<Twip>,
    rows: Seq<RowModel>,
) -> Result<(TableModel, int), InvalidNumber>
    decreases ev.len() - pos, 0int,
{
    if pos < 0 || pos >= ev.len() {
        Ok((TableModel { props, grid, rows }, pos))
    } else {
        match ev[pos] {
            XmlEvent::Start(t) => if t.name@ == "tblPr"@ {
                let (tp, q) = tblpr_scan(ev, pos + 1, tblpr_empty());
                table_scan(ev, fwd(ev.len() as int, pos, q), Some(tp), grid, rows)
            } else if t.name@ == "tblGrid"@ {
                let (g, q) = grid_scan(ev, pos + 1, Seq::empty());
                table_scan(ev, fwd(ev.len() as int, pos, q), props, g, rows)
            } else if t.name@ == "tr"@ {
                match row_scan(ev, pos + 1, None, Seq::empty()) {
                    Err(e) => Err(e),
                    Ok((rm, q)) => table_scan(
                        ev,
                        fwd(ev.len() as int, pos, q),
                        props,
                        grid,
                        rows.push(rm),
                    ),
                }
            } else {
                table_scan(ev, past(ev, pos), props, grid, rows)
            },
            XmlEvent::End(n) => if n@ == "tbl"@ {
                Ok((TableModel { props, grid, rows }, pos + 1))
            } else {
                table_scan(ev, pos + 1, props, grid, rows)
            },
            XmlEvent::Eof => Ok((TableModel { props, grid, rows }, pos)),
            _ => table_scan(ev, pos + 1, props, grid, rows),
        }
    }
}

/// Reading `<w:tr>` from `pos` on: its properties and cells.
pub open spec fn row_scan(
    ev: Seq<XmlEvent>,
    pos: int,
    props: Option<TableRowProperties>,
    cells: Seq<CellModel>,
) -> Result<(RowModel, int), InvalidNumber>
    decreases ev.len() - pos, 0int,
{
    if pos < 0 || pos >= ev.len() {
        Ok((RowModel { props, cells }, pos))
    } else {
        match ev[pos] {
            XmlEvent::Start(t) => if t.name@ == "trPr"@ {
                let (h, q) = trpr_scan(ev, pos + 1, false);
                row_scan(ev, fwd(ev.len() as int, pos, q), Some(row_props(h)), cells)
            } else if t.name@ == "tc"@ {
                match cell_scan(ev, pos + 1, None, Seq::empty()) {
                    Err(e) => Err(e),
                    Ok((cm, q)) => row_scan(ev, fwd(ev.len() as int, pos, q), props, cells.push(cm)),
                }
            } else {
                row_scan(ev, past(ev, pos), props, cells)
            },
            XmlEvent::End(n) => if n@ == "tr"@ {
                Ok((RowModel { props, cells }, pos + 1))
            } else {
                row_scan(ev, pos + 1, props, cells)
            },
            XmlEvent::Eof => Ok((RowModel { props, cells }, pos)),
            _ => row_scan(ev, pos + 1, props, cells),
        }
    }
}

/// Reading `<w:tc>` from `pos` on: its properties, and its paragraphs
/// and tables in order.
pub open spec fn cell_scan(
    ev: Seq<XmlEvent>,
    pos: int,
    props: Option<TableCellProperties>,
    blocks: Seq<BlockModel>,
) -> Result<(CellModel, int), InvalidNumber>
    decreases ev.len() - pos, 0int,
{
    if pos < 0 || pos >= ev.len() {
        Ok((CellModel { props, blocks }, pos))
    } else {
        match ev[pos] {
            XmlEvent::Start(t) => if t.name@ == "tcPr"@ {
                let (cp, q) = tcpr_scan(ev, pos + 1, tcpr_empty());
                cell_scan(ev, fwd(ev.len() as int, pos, q), Some(cp), blocks)
            } else if t.name@ == "p"@ {
                match para_at(ev, pos + 1) {
                    Err(e) => Err(e),
                    Ok((pm, q)) => cell_scan(
                        ev,
                        fwd(ev.len() as int, pos, q),
                        props,
                        blocks.push(BlockModel::Paragraph(pm)),
                    ),
                }
            } else if t.name@ == "tbl"@ {
                match table_scan(ev, pos + 1, None, Seq::empty(), Seq::empty()) {
                    Err(e) => Err(e),
                    Ok((tm, q)) => cell_scan(
                        ev,
                        fwd(ev.len() as int, pos, q),
                        props,
                        blocks.push(BlockModel::Table(tm)),
                    ),
                }
            } else {
                cell_scan(ev, past(ev, pos), props, blocks)
            },
            XmlEvent::End(n) => if n@ == "tc"@ {
                Ok((CellModel { props, blocks }, pos + 1))
            } else {
                cell_scan(ev, pos + 1, props, blocks)
            },
            XmlEvent::Eof => Ok((CellModel { props, blocks }, pos)),
            _ => cell_scan(ev, pos + 1, props, blocks),
        }
    }
}

pub open spec fn rows_are(v: Seq<TableRow>, m: Seq<RowModel>, links: PartLinks) -> bool {
    &&& v.len() == m.len()
    &&& forall|i: int| 0 <= i < m.len() ==> row_is(#[trigger] v[i], m[i], links)
}

pub open spec fn cells_are(v: Seq<TableCell>, m: Seq<CellModel>, links: PartLinks) -> bool {
    &&& v.len() == m.len()
    &&& forall|i: int| 0 <= i < m.len() ==> cell_is(#[trigger] v[i], m[i], links)
}

/// The table that reading `<w:tbl>` from `pos` on gives.
pub open spec fn table_at(ev: Seq<XmlEvent>, pos: int) -> Result<(TableModel, int), InvalidNumber> {
    table_scan(ev, pos, None, Seq::empty(), Seq::empty())
}

/// The row that reading `<w:tr>` from `pos` on gives.
pub open spec fn row_at(ev: Seq<XmlEvent>, pos: int) -> Result<(RowModel, int), InvalidNumber> {
    row_scan(ev, pos, None, Seq::empty())
}

/// The cell that reading `<w:tc>` from `pos` on gives.
pub open spec fn cell_at(ev: Seq<XmlEvent>, pos: int) -> Result<(CellModel, int), InvalidNumber> {
    cell_scan(ev, pos, None, Seq::empty())
}

proof fn lemma_push_row(v: Seq<TableRow>, m: Seq<RowModel>, c: TableRow, i: RowModel, links: PartLinks)
    requires
        rows_are(v, m, links),
        row_is(c, i, links),
    ensures
        rows_are(v.push(c), m.push(i), links),
{
    assert forall|k: int| 0 <= k < m.push(i).len() implies row_is(
        #[trigger] v.push(c)[k],
        m.push(i)[k],
        links,
    ) by {
        if k < v.len() {
            assert(v.push(c)[k] == v[k]);
        }
    }
}

proof fn lemma_push_cell(v: Seq<TableCell>, m: Seq<CellModel>, c: TableCell, i: CellModel, links: PartLinks)
    requires
        cells_are(v, m, links),
        cell_is(c, i, links),
    ensures
        cells_are(v.push(c), m.push(i), links),
{
    assert forall|k: int| 0 <= k < m.push(i).len() implies cell_is(
        #[trigger] v.push(c)[k],
        m.push(i)[k],
        links,
    ) by {
        if k < v.len() {
            assert(v.push(c)[k] == v[k]);
        }
    }
}

proof fn lemma_push_block(
    v: Seq<BlockElement>,
    m: Seq<BlockModel>,
    c: BlockElement,
    i: BlockModel,
    links: PartLinks,
)
    requires
        blocks_are(v, m, links),
        block_is(c, i, links),
    ensures
        blocks_are(v.push(c), m.push(i), links),
{
    assert forall|k: int| 0 <= k < m.push(i).len() implies block_is(
        #[trigger] v.push(c)[k],
        m.push(i)[k],
        links,
    ) by {
        if k < v.len() {
            assert(v.push(c)[k] == v[k]);
        }
    }
}

/// Reads a `<w:tbl>` element.
pub fn parse_table(ev: &[XmlEvent], pos: usize, links: &PartLinks) -> (r: Result<
    (Table, usize),
    InvalidNumber,
>)
    requires
        pos <= ev@.len(),
        ev@.len() < usize::MAX,
    ensures
        match r {
            Ok((t, n)) => table_at(ev@, pos as int) matches Ok((m, q)) && table_is(t, m, *links) && q == n
                && pos <= n <= ev@.len(),
            Err(e) => table_at(ev@, pos as int) == Err::<(TableModel, int), InvalidNumber>(e),
        },
    decreases ev@.len() - pos,
{
    let n = ev.len();
    let mut props: Option<TableProperties> = None;
    let mut grid: Vec<Twip> = Vec::new();
    let mut rows: Vec<TableRow> = Vec::new();
    let ghost mut rms: Seq<RowModel> = Seq::empty();
    let mut p: usize = pos;
    while p < n
        invariant
            n == ev@.len(),
            n < usize::MAX,
            pos <= p <= n,
            table_at(ev@, pos as int) == table_scan(ev@, p as int, props, grid@, rms),
            rows_are(rows@, rms, *links),
        decreases n - p,
    {
        match &ev[p] {
            XmlEvent::Start(t) => {
                if is_named(t, "tblPr") {
                    let (tp, q) = parse_table_properties(ev, p + 1);
                    props = Some(tp);
                    p = if p < q {
                        q
                    } else {
                        n
                    };
                } else if is_named(t, "tblGrid") {
                    let (g, q) = parse_table_grid(ev, p + 1);
                    grid = g;
                    p = if p < q {
                        q
                    } else {
                        n
                    };
                } else if is_named(t, "tr") {
                    let (row, q) = parse_table_row(ev, p + 1, links)?;
                    proof {
                        let m = row_at(ev@, p + 1)->Ok_0.0;
                        lemma_push_row(rows@, rms, row, m, *links);
                        rms = rms.push(m);
                    }
                    rows.push(row);
                    p = if p < q {
                        q
                    } else {
                        n
                    };
                } else {
                    p = skip_past(ev, p);
                }
            },
            XmlEvent::End(name) => {
                if str_eq(name.as_str(), "tbl") {
                    return Ok((Table { properties: props, grid, rows }, p + 1));
                }
                p = p + 1;
            },
            XmlEvent::Eof => {
                return Ok((Table { properties: props, grid, rows }, p));
            },
            _ => {
                p = p + 1;
            },
        }
    }
    Ok((Table { properties: props, grid, rows }, p))
}

/// Reads a `<w:tr>` element.
pub fn parse_table_row(ev: &[XmlEvent], pos: usize, links: &PartLinks) -> (r: Result<
    (TableRow, usize),
    InvalidNumber,
>)
    requires
        pos <= ev@.len(),
        ev@.len() < usize::MAX,
    ensures
        match r {
            Ok((row, n)) => row_at(ev@, pos as int) matches Ok((m, q)) && row_is(row, m, *links) && q == n
                && pos <= n <= ev@.len(),
            Err(e) => row_at(ev@, pos as int) == Err::<(RowModel, int), InvalidNumber>(e),
        },
    decreases ev@.len() - pos,
{
    let n = ev.len();
    let mut props: Option<TableRowProperties> = None;
    let mut cells: Vec<TableCell> = Vec::new();
    let ghost mut cms: Seq<CellModel> = Seq::empty();
    let mut p: usize = pos;
    while p < n
        invariant
            n == ev@.len(),
            n < usize::MAX,
            pos <= p <= n,
            row_at(ev@, pos as int) == row_scan(ev@, p as int, props, cms),
            cells_are(cells@, cms, *links),
        decreases n - p,
    {
        match &ev[p] {
            XmlEvent::Start(t) => {
                if is_named(t, "trPr") {
                    let (rp, q) = parse_table_row_properties(ev, p + 1);
                    props = Some(rp);
                    p = if p < q {
                        q
                    } else {
                        n
                    };
                } else if is_named(t, "tc") {
                    let (cell, q) = parse_table_cell(ev, p + 1, links)?;
                    proof {
                        let m = cell_at(ev@, p + 1)->Ok_0.0;
                        lemma_push_cell(cells@, cms, cell, m, *links);
                        cms = cms.push(m);
                    }
                    cells.push(cell);
                    p = if p < q {
                        q
                    } else {
                        n
                    };
                } else {
                    p = skip_past(ev, p);
                }
            },
            XmlEvent::End(name) => {
                if str_eq(name.as_str(), "tr") {
                    return Ok((TableRow { properties: props, cells }, p + 1));
                }
                p = p + 1;
            },
            XmlEvent::Eof => {
                return Ok((TableRow { properties: props, cells }, p));
            },
            _ => {
                p = p + 1;
            },
        }
    }
    Ok((TableRow { properties: props, cells }, p))
}

/// Reads a `<w:tc>` element.
pub fn parse_table_cell(ev: &[XmlEvent], pos: usize, links: &PartLinks) -> (r: Result<
    (TableCell, usize),
    InvalidNumber,
>)
    requires
        pos <= ev@.len(),
        ev@.len() < usize::MAX,
    ensures
        match r {
            Ok((cell, n)) => cell_at(ev@, pos as int) matches Ok((m, q)) && cell_is(cell, m, *links) && q
                == n && pos <= n <= ev@.len(),
            Err(e) => cell_at(ev@, pos as int) == Err::<(CellModel, int), InvalidNumber>(e),
        },
    decreases ev@.len() - pos,
{
    let n = ev.len();
    let mut props: Option<TableCellProperties> = None;
    let mut content: Vec<BlockElement> = Vec::new();
    let ghost mut bms: Seq<BlockModel> = Seq::empty();
    let mut p: usize = pos;
    while p < n
        invariant
            n == ev@.len(),
            n < usize::MAX,
            pos <= p <= n,
            cell_at(ev@, pos as int) == cell_scan(ev@, p as int, props, bms),
            blocks_are(content@, bms, *links),
        decreases n - p,
    {
        match &ev[p] {
            XmlEvent::Start(t) => {
                if is_named(t, "tcPr") {
                    let (cp, q) = parse_table_cell_properties(ev, p + 1);
                    props = Some(cp);
                    p = if p < q {
                        q
                    } else {
                        n
                    };
                } else if is_named(t, "p") {
                    let (para, q) = parse_paragraph(ev, p + 1, links)?;
                    proof {
                        let m = para_at(ev@, p + 1)->Ok_0.0;
                        lemma_push_block(
                            content@,
                            bms,
                            BlockElement::Paragraph(para),
                            BlockModel::Paragraph(m),
                            *links,
                        );
                        bms = bms.push(BlockModel::Paragraph(m));
                    }
                    content.push(BlockElement::Paragraph(para));
                    p = if p < q {
                        q
                    } else {
                        n
                    };
                } else if is_named(t, "tbl") {
                    let (table, q) = parse_table(ev, p + 1, links)?;
                    proof {
                        let m = table_at(ev@, p + 1)->Ok_0.0;
                        lemma_push_block(
                            content@,
                            bms,
                            BlockElement::Table(table),
                            BlockModel::Table(m),
                            *links,
                        );
                        bms = bms.push(BlockModel::Table(m));
                    }
                    content.push(BlockElement::Table(table));
                    p = if p < q {
                        q
                    } else {
                        n
                    };
                } else {
                    p = skip_past(ev, p);
                }
            },
            XmlEvent::End(name) => {
                if str_eq(name.as_str(), "tc") {
                    return Ok((TableCell { properties: props, content }, p + 1));
                }
                p = p + 1;
            },
            XmlEvent::Eof => {
                return Ok((TableCell { properties: props, content }, p));
            },
            _ => {
                p = p + 1;
            },
        }
    }
    Ok((TableCell { properties: props, content }, p))
}

// ---------------------------------------------------------------------------
// Bodies and documents
// ---------------------------------------------------------------------------

/// A part could not be read.
#[derive(Debug, Clone, Copy, PartialEq, Eq)]
pub enum ReadError {
    /// The XML is malformed.
    Xml,
    /// A number in a formatting attribute is malformed.
    InvalidNumber,
}

/// Reading the block elements of a part from `pos` on: every `w:p` and
/// `w:tbl` met outside another one, at any depth.
pub open spec fn blocks_scan(ev: Seq<XmlEvent>, pos: int, blocks: Seq<BlockModel>) -> Result<
    (Seq<BlockModel>, int),
    InvalidNumber,
>
    decreases ev.len() - pos,
{
    if pos < 0 || pos >= ev.len() {
        Ok((blocks, pos))
    } else {
        match ev[pos] {
            XmlEvent::Start(t) => if t.name@ == "p"@ {
                match para_at(ev, pos + 1) {
                    Err(e) => Err(e),
                    Ok((pm, q)) => blocks_scan(
                        ev,
                        fwd(ev.len() as int, pos, q),
                        blocks.push(BlockModel::Paragraph(pm)),
                    ),
                }
            } else if t.name@ == "tbl"@ {
                match table_at(ev, pos + 1) {
                    Err(e) => Err(e),
                    Ok((tm, q)) => blocks_scan(
                        ev,
                        fwd(ev.len() as int, pos, q),
                        blocks.push(BlockModel::Table(tm)),
                    ),
                }
            } else {
                blocks_scan(ev, pos + 1, blocks)
            },
            XmlEvent::Eof => Ok((blocks, pos)),
            _ => blocks_scan(ev, pos + 1, blocks),
        }
    }
}

/// The block elements of a header, footer or other part with a body's
/// structure, from its events.
pub fn body_elements(ev: &[XmlEvent], links: &PartLinks) -> (r: Result<Vec<BlockElement>, InvalidNumber>)
    requires
        ev@.len() < usize::MAX,
    ensures
        match r {
            Ok(v) => blocks_scan(ev@, 0, Seq::empty()) matches Ok((m, _)) && blocks_are(
                v@,
                m,
                *links,
            ),
            Err(e) => blocks_scan(ev@, 0, Seq::empty()) matches Err(f) && e == f,
        },
{
    let n = ev.len();
    let mut blocks: Vec<BlockElement> = Vec::new();
    let ghost mut bms: Seq<BlockModel> = Seq::empty();
    let mut p: usize = 0;
    while p < n
        invariant
            n == ev@.len(),
            n < usize::MAX,
            p <= n,
            blocks_scan(ev@, 0, Seq::empty()) == blocks_scan(ev@, p as int, bms),
            blocks_are(blocks@, bms, *links),
        decreases n - p,
    {
        match &ev[p] {
            XmlEvent::Start(t) => {
                if is_named(t, "p") {
                    let (para, q) = parse_paragraph(ev, p + 1, links)?;
                    proof {
                        let m = para_at(ev@, p + 1)->Ok_0.0;
                        lemma_push_block(
                            blocks@,
                            bms,
                            BlockElement::Paragraph(para),
                            BlockModel::Paragraph(m),
                            *links,
                        );
                        bms = bms.push(BlockModel::Paragraph(m));
                    }
                    blocks.push(BlockElement::Paragraph(para));
                    p = if p < q {
                        q
                    } else {
                        n
                    };
                } else if is_named(t, "tbl") {
                    let (table, q) = parse_table(ev, p + 1, links)?;
                    proof {
                        let m = table_at(ev@, p + 1)->Ok_0.0;
                        lemma_push_block(
                            blocks@,
                            bms,
                            BlockElement::Table(table),
                            BlockModel::Table(m),
                            *links,
                        );
                        bms = bms.push(BlockModel::Table(m));
                    }
                    blocks.push(BlockElement::Table(table));
                    p = if p < q {
                        q
                    } else {
                        n
                    };
                } else {
                    p = p + 1;
                }
            },
            XmlEvent::Eof => {
                return Ok(blocks);
            },
            _ => {
                p = p + 1;
            },
        }
    }
    Ok(blocks)
}

/// The block elements of a header, footer or other part with a body's
/// structure, from its XML.
pub fn parse_body_elements(xml_data: &[u8], links: &PartLinks) -> (r: Result<
    Vec<BlockElement>,
    ReadError,
>)
    ensures
        match xml_events_of(xml_data@) {
            None => r matches Err(ReadError::Xml),
            Some(evm) => exists|ev: Seq<XmlEvent>|
                #![trigger blocks_scan(ev, 0, Seq::empty())]
                event_models(ev) == evm && well_ended(ev) && match blocks_scan(ev, 0, Seq::empty()) {
                    Ok((m, _)) => r matches Ok(v) && blocks_are(v@, m, *links),
                    Err(_) => r matches Err(ReadError::InvalidNumber),
                },
        },
{
    let ev = match read_xml_events(xml_data) {
        Ok(ev) => ev,
        Err(_) => {
            return Err(ReadError::Xml);
        },
    };
    match body_elements(ev.as_slice(), links) {
        Ok(v) => Ok(v),
        Err(_) => Err(ReadError::InvalidNumber),
    }
}

/// Reading `word/document.xml` from `pos` on: the paragraphs and tables
/// inside `w:body` (`in_body`), and its `w:sectPr` elements.
pub open spec fn doc_scan(
    ev: Seq<XmlEvent>,
    pos: int,
    in_body: bool,
    blocks: Seq<BlockModel>,
    sects: Seq<SectModel>,
) -> Result<(Seq<BlockModel>, Seq<SectModel>, int), InvalidNumber>
    decreases ev.len() - pos,
{
    if pos < 0 || pos >= ev.len() {
        Ok((blocks, sects, pos))
    } else {
        match ev[pos] {
            XmlEvent::Start(t) => if t.name@ == "body"@ {
                doc_scan(ev, pos + 1, true, blocks, sects)
            } else if in_body && t.name@ == "p"@ {
                match para_at(ev, pos + 1) {
                    Err(e) => Err(e),
                    Ok((pm, q)) => doc_scan(
                        ev,
                        fwd(ev.len() as int, pos, q),
                        in_body,
                        blocks.push(BlockModel::Paragraph(pm)),
                        sects,
                    ),
                }
            } else if in_body && t.name@ == "tbl"@ {
                match table_at(ev, pos + 1) {
                    Err(e) => Err(e),
                    Ok((tm, q)) => doc_scan(
                        ev,
                        fwd(ev.len() as int, pos, q),
                        in_body,
                        blocks.push(BlockModel::Table(tm)),
                        sects,
                    ),
                }
            } else if in_body && t.name@ == "sectPr"@ {
                let (sm, q) = sect_scan(ev, pos + 1, sect_empty());
                doc_scan(ev, fwd(ev.len() as int, pos, q), in_body, blocks, sects.push(sm))
            } else {
                doc_scan(ev, pos + 1, in_body, blocks, sects)
            },
            XmlEvent::End(n) => if n@ == "body"@ {
                doc_scan(ev, pos + 1, false, blocks, sects)
            } else {
                doc_scan(ev, pos + 1, in_body, blocks, sects)
            },
            XmlEvent::Eof => Ok((blocks, sects, pos)),
            _ => doc_scan(ev, pos + 1, in_body, blocks, sects),
        }
    }
}

/// The section that a block ends, where it is a paragraph whose
/// properties hold a `w:sectPr`.
pub open spec fn ends_section(b: BlockModel) -> Option<SectModel> {
    match b {
        BlockModel::Paragraph(pm) => match pm.props {
            Some(pp) => pp.section_properties,
            None => None,
        },
        BlockModel::Table(_) => None,
    }
}

/// For each block that ends a section, the index just past it.
pub open spec fn section_breaks_of(m: Seq<BlockModel>) -> Seq<usize>
    decreases m.len(),
{
    if m.len() == 0 {
        Seq::empty()
    } else {
        let rest = section_breaks_of(m.drop_last());
        if ends_section(m.last()) is Some {
            rest.push(m.len() as usize)
        } else {
            rest
        }
    }
}

/// The sections that the blocks end, in order.
pub open spec fn break_sections_of(m: Seq<BlockModel>) -> Seq<SectModel>
    decreases m.len(),
{
    if m.len() == 0 {
        Seq::empty()
    } else {
        let rest = break_sections_of(m.drop_last());
        match ends_section(m.last()) {
            Some(s) => rest.push(s),
            None => rest,
        }
    }
}

pub open spec fn sects_view(v: Seq<SectionProperties>) -> Seq<SectModel> {
    v.map_values(|s: SectionProperties| s@)
}

/// Whether `body` and `sections` are what `word/document.xml` gives
/// from its events: the blocks of its body, with hyperlink targets
/// resolved through `links`; a section break after each paragraph that
/// ends a section; and the sections those paragraphs end, followed by
/// the body's own.
pub open spec fn document_is(
    ev: Seq<XmlEvent>,
    links: PartLinks,
    body: Body,
    sections: Seq<SectionProperties>,
) -> bool {
    doc_scan(ev, 0, false, Seq::empty(), Seq::empty()) matches Ok((bm, sm, _)) && blocks_are(
        body.elements@,
        bm,
        links,
    ) && body.section_breaks@ == section_breaks_of(bm) && sects_view(sections) == break_sections_of(
        bm,
    ) + sm
}

/// The section that a block element ends.
fn section_of(b: &BlockElement, Ghost(m): Ghost<BlockModel>, Ghost(links): Ghost<PartLinks>) -> (r: Option<SectionProperties>)
    requires
        block_is(*b, m, links),
    ensures
        match r {
            Some(s) => ends_section(m) == Some(s@),
            None => ends_section(m) is None,
        },
{
    match b {
        BlockElement::Paragraph(p) => match &p.properties {
            Some(pp) => match &pp.section_properties {
                Some(sp) => Some(copy_sect(sp)),
                None => None,
            },
            None => None,
        },
        BlockElement::Table(_) => None,
    }
}

/// The body and sections of `word/document.xml` from its events,
/// hyperlink targets resolved through `links`.
pub fn parse_document(ev: &[XmlEvent], links: &PartLinks) -> (r: Result<
    (Body, Vec<SectionProperties>),
    InvalidNumber,
>)
    requires
        ev@.len() < usize::MAX,
    ensures
        match r {
            Ok((body, sections)) => document_is(ev@, *links, body, sections@),
            Err(e) => doc_scan(ev@, 0, false, Seq::empty(), Seq::empty()) matches Err(f) && e == f,
        },
{
    let n = ev.len();
    let mut blocks: Vec<BlockElement> = Vec::new();
    let mut sections: Vec<SectionProperties> = Vec::new();
    let ghost mut bms: Seq<BlockModel> = Seq::empty();
    let mut in_body = false;
    let mut p: usize = 0;
    proof {
        assert(sects_view(sections@) =~= Seq::<SectModel>::empty());
    }
    while p < n
        invariant
            n == ev@.len(),
            n < usize::MAX,
            p <= n,
            doc_scan(ev@, 0, false, Seq::empty(), Seq::empty()) == doc_scan(
                ev@,
                p as int,
                in_body,
                bms,
                sects_view(sections@),
            ),
            blocks_are(blocks@, bms, *links),
        decreases n - p,
    {
        match &ev[p] {
            XmlEvent::Start(t) => {
                if is_named(t, "body") {
                    in_body = true;
                    p = p + 1;
                } else if in_body && is_named(t, "p") {
                    let (para, q) = parse_paragraph(ev, p + 1, links)?;
                    proof {
                        let m = para_at(ev@, p + 1)->Ok_0.0;
                        lemma_push_block(
                            blocks@,
                            bms,
                            BlockElement::Paragraph(para),
                            BlockModel::Paragraph(m),
                            *links,
                        );
                        bms = bms.push(BlockModel::Paragraph(m));
                    }
                    blocks.push(BlockElement::Paragraph(para));
                    p = if p < q {
                        q
                    } else {
                        n
                    };
                } else if in_body && is_named(t, "tbl") {
                    let (table, q) = parse_table(ev, p + 1, links)?;
                    proof {
                        let m = table_at(ev@, p + 1)->Ok_0.0;
                        lemma_push_block(
                            blocks@,
                            bms,
                            BlockElement::Table(table),
                            BlockModel::Table(m),
                            *links,
                        );
                        bms = bms.push(BlockModel::Table(m));
                    }
                    blocks.push(BlockElement::Table(table));
                    p = if p < q {
                        q
                    } else {
                        n
                    };
                } else if in_body && is_named(t, "sectPr") {
                    let (sp, q) = parse_section_properties(ev, p + 1);
                    proof {
                        lemma_sect_scan(ev@, p + 1, sect_empty());
                        assert(sects_view(sections@.push(sp)) =~= sects_view(sections@).push(sp@));
                    }
                    sections.push(sp);
                    p = if p < q {
                        q
                    } else {
                        n
                    };
                } else {
                    p = p + 1;
                }
            },
            XmlEvent::End(name) => {
                if str_eq(name.as_str(), "body") {
                    in_body = false;
                }
                p = p + 1;
            },
            XmlEvent::Eof => {
                return Ok(finish_document(blocks, sections, Ghost(bms), Ghost(*links)));
            },
            _ => {
                p = p + 1;
            },
        }
    }
    Ok(finish_document(blocks, sections, Ghost(bms), Ghost(*links)))
}

/// The body made of `blocks`, with its section breaks, and the sections
/// the breaks end followed by `sections`.
fn finish_document(
    blocks: Vec<BlockElement>,
    sections: Vec<SectionProperties>,
    Ghost(bms): Ghost<Seq<BlockModel>>,
    Ghost(links): Ghost<PartLinks>,
) -> (r: (Body, Vec<SectionProperties>))
    requires
        blocks_are(blocks@, bms, links),
    ensures
        blocks_are(r.0.elements@, bms, links),
        r.0.section_breaks@ == section_breaks_of(bms),
        sects_view(r.1@) == break_sections_of(bms) + sects_view(sections@),
{
    let mut breaks: Vec<usize> = Vec::new();
    let mut all: Vec<SectionProperties> = Vec::new();
    let mut i: usize = 0;
    while i < blocks.len()
        invariant
            i <= blocks@.len(),
            blocks@.len() == bms.len(),
            blocks_are(blocks@, bms, links),
            breaks@ == section_breaks_of(bms.take(i as int)),
            sects_view(all@) == break_sections_of(bms.take(i as int)),
        decreases blocks@.len() - i,
    {
        proof {
            assert(bms.take(i + 1).drop_last() =~= bms.take(i as int));
            assert(bms.take(i + 1).last() == bms[i as int]);
        }
        match section_of(&blocks[i], Ghost(bms[i as int]), Ghost(links)) {
            Some(sp) => {
                proof {
                    assert(sects_view(all@.push(sp)) =~= sects_view(all@).push(sp@));
                }
                breaks.push(i + 1);
                all.push(sp);
            },
            None => {},
        }
        i = i + 1;
    }
    proof {
        assert(bms.take(bms.len() as int) =~= bms);
    }
    let ghost head = sects_view(all@);
    let mut k: usize = 0;
    while k < sections.len()
        invariant
            k <= sections@.len(),
            sects_view(all@) == head + sects_view(sections@.take(k as int)),
        decreases sections@.len() - k,
    {
        let c = copy_sect(&sections[k]);
        proof {
            assert(sects_view(all@.push(c)) =~= sects_view(all@).push(c@));
            assert(sects_view(sections@.take(k + 1)) =~= sects_view(sections@.take(k as int)).push(
                c@,
            ));
        }
        all.push(c);
        k = k + 1;
    }
    proof {
        assert(sections@.take(sections@.len() as int) =~= sections@);
    }
    (Body { elements: blocks, section_breaks: breaks }, all)
}

/// The body and sections of `word/document.xml` from its XML, hyperlink
/// targets resolved through `links`.
pub fn read_document(xml_data: &[u8], links: &PartLinks) -> (r: Result<
    (Body, Vec<SectionProperties>),
    ReadError,
>)
    ensures
        match xml_events_of(xml_data@) {
            None => r matches Err(ReadError::Xml),
            Some(evm) => exists|ev: Seq<XmlEvent>|
                #![trigger doc_scan(ev, 0, false, Seq::empty(), Seq::empty())]
                event_models(ev) == evm && well_ended(ev) && match doc_scan(
                    ev,
                    0,
                    false,
                    Seq::empty(),
                    Seq::empty(),
                ) {
                    Ok(_) => r matches Ok((body, sections)) && document_is(ev, *links, body, sections@),
                    Err(_) => r matches Err(ReadError::InvalidNumber),
                },
        },
{
    let ev = match read_xml_events(xml_data) {
        Ok(ev) => ev,
        Err(_) => {
            return Err(ReadError::Xml);
        },
    };
    match parse_document(ev.as_slice(), links) {
        Ok(x) => Ok(x),
        Err(_) => Err(ReadError::InvalidNumber),
    }
}

} // verus!
