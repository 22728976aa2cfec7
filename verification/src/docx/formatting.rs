//! Run and paragraph formatting (`w:rPr`, `w:pPr`): the property sets,
//! how a more specific set overlays a more general one, and how they
//! are read from the events of a document part.

use vstd::prelude::*;
use crate::docx::color::{ColorRef, color_of, parse_color_ref};
use crate::docx::table::Shading;
use crate::docx::xml::{
    XmlTag, XmlEvent, attr, attr_str, get_attr, is_named, toggle, parse_toggle, skip_end,
    lemma_skip_end, skip_element,
};
use crate::number::{
    numeric_u32, numeric_i32, parse_i32, parse_u32, parse_numeric_u32, parse_numeric_i32,
    parse_i32_str, parse_u32_str,
};
use crate::text::{str_eq, trim_seq, trim_string};

verus! {

/// A length in twentieths of a point.
#[derive(Debug, Clone, Copy, PartialEq, Eq)]
pub struct Twip(pub i32);

/// A font size in half points.
#[derive(Debug, Clone, Copy, PartialEq, Eq)]
pub struct HalfPoint(pub u32);

/// Run-level formatting properties (`w:rPr`).
#[derive(Debug, Clone, PartialEq, Eq)]
pub struct RunProperties {
    /// Bold toggle.
    pub bold: Option<bool>,
    /// Italic toggle.
    pub italic: Option<bool>,
    /// Underline style.
    pub underline: Option<UnderlineType>,
    /// Single strikethrough toggle.
    pub strike: Option<bool>,
    /// Double strikethrough toggle.
    pub dstrike: Option<bool>,
    /// Font size in half-points.
    pub font_size: Option<HalfPoint>,
    /// Primary font family name.
    pub font_name: Option<String>,
    /// Text color reference.
    pub color: Option<ColorRef>,
    /// Highlight color name (e.g., `"yellow"`).
    pub highlight: Option<String>,
    /// Vertical alignment (superscript/subscript).
    pub vertical_align: Option<VerticalAlign>,
    /// Character style ID.
    pub style_id: Option<String>,
    /// All-caps toggle.
    pub caps: Option<bool>,
    /// Small-caps toggle.
    pub small_caps: Option<bool>,
    /// Character spacing in twentieths of a point.
    pub char_spacing: Option<i32>,
    /// Run shading fill (`RRGGBB`).
    pub shading_fill: Option<String>,
    /// `<w:vanish/>`: the run is never rendered.
    pub hidden: Option<bool>,
}

/// Paragraph-level formatting properties (`w:pPr`).
#[derive(Debug, Clone)]
pub struct ParagraphProperties {
    /// Paragraph style ID.
    pub style_id: Option<String>,
    /// Text justification.
    pub justification: Option<Justification>,
    /// Paragraph indentation.
    pub indent: Option<ParagraphIndent>,
    /// Paragraph spacing.
    pub spacing: Option<ParagraphSpacing>,
    /// Numbering reference for list paragraphs.
    pub numbering_ref: Option<NumberingRef>,
    /// Outline level (0 = Heading 1, 1 = Heading 2, …).
    pub outline_level: Option<u8>,
    /// Paragraph-mark run properties, boxed because few paragraphs have them.
    pub run_properties: Option<Box<RunProperties>>,
    /// Frame position from `<w:framePr>`.
    pub frame_position: Option<FrameProps>,
    /// Section properties of the section this paragraph ends.
    pub section_properties: Option<Box<SectionProperties>>,
    /// Whether `<w:pBdr>` has a bottom edge (a horizontal rule).
    pub has_bottom_border: bool,
    /// The `<w:pBdr>` edges.
    pub borders: Option<Box<ParagraphBorders>>,
    /// `<w:keepNext/>`
    pub keep_next: Option<bool>,
    /// `<w:keepLines/>`
    pub keep_lines: Option<bool>,
    /// `<w:pageBreakBefore/>`
    pub page_break_before: Option<bool>,
    /// Paragraph shading.
    pub shading: Option<Box<Shading>>,
    /// Custom tab stops from `<w:tabs>`.
    pub tabs: Vec<TabStopDef>,
}

/// One `<w:tab>` entry inside `<w:tabs>`.
#[derive(Debug, Clone, PartialEq, Eq)]
pub struct TabStopDef {
    /// Position in twips (`w:pos`).
    pub position_twips: i32,
    /// Alignment (`w:val`): left/center/right/decimal/bar.
    pub alignment: String,
    /// Leader character style (`w:leader`).
    pub leader: Option<String>,
}

/// A single border edge (`<w:top>`, `<w:left>`, …).
#[derive(Debug, Clone, PartialEq, Eq)]
pub struct BorderEdge {
    /// `w:val`: the line style name.
    pub style: Option<String>,
    /// `w:color`: `RRGGBB` or `auto`.
    pub color: Option<String>,
    /// `w:sz`: line width in eighths of a point.
    pub size: Option<u32>,
    /// `w:space`: padding between border and text, in points.
    pub space: Option<u32>,
}

/// The five paragraph border edges (`<w:pBdr>`).
#[derive(Debug, Clone, PartialEq, Eq)]
pub struct ParagraphBorders {
    pub top: Option<BorderEdge>,
    pub bottom: Option<BorderEdge>,
    pub left: Option<BorderEdge>,
    pub right: Option<BorderEdge>,
    /// Edge drawn between consecutive paragraphs sharing this border set.
    pub between: Option<BorderEdge>,
}

/// Table / cell border edges (`<w:tblBorders>`, `<w:tcBorders>`).
#[derive(Debug, Clone, PartialEq, Eq)]
pub struct TableBorders {
    pub top: Option<BorderEdge>,
    pub bottom: Option<BorderEdge>,
    /// Left (`w:left` / `w:start`) edge.
    pub left: Option<BorderEdge>,
    /// Right (`w:right` / `w:end`) edge.
    pub right: Option<BorderEdge>,
    /// Interior horizontal edges.
    pub inside_h: Option<BorderEdge>,
    /// Interior vertical edges.
    pub inside_v: Option<BorderEdge>,
}

/// `<w:framePr>` attributes: page-anchored frame coordinates in twips.
#[derive(Debug, Clone, Copy, PartialEq, Eq)]
pub struct FrameProps {
    pub x_twips: i32,
    pub y_twips: i32,
    pub width_twips: i32,
    pub height_twips: i32,
}

/// Underline style.
#[derive(Debug, Clone, PartialEq, Eq)]
pub enum UnderlineType {
    Single,
    Double,
    Thick,
    Dotted,
    Dash,
    DotDash,
    DotDotDash,
    Wave,
    /// Underline under words only.
    Words,
    /// No underline (explicit removal).
    NoUnderline,
    /// Any other underline value.
    Other(String),
}

/// Vertical alignment (superscript/subscript).
#[derive(Debug, Clone, Copy, PartialEq, Eq)]
pub enum VerticalAlign {
    Superscript,
    Subscript,
    Baseline,
}

/// Paragraph justification / alignment.
#[derive(Debug, Clone, Copy, PartialEq, Eq)]
pub enum Justification {
    Left,
    Center,
    Right,
    /// Justified (both edges).
    Both,
    /// Distributed (East Asian spacing).
    Distribute,
}

/// Paragraph indentation values, in twips.
#[derive(Debug, Clone, Copy, PartialEq, Eq)]
pub struct ParagraphIndent {
    pub left: Option<Twip>,
    pub right: Option<Twip>,
    /// First-line indent (positive = indent).
    pub first_line: Option<Twip>,
    /// Hanging indent (first-line de-indent).
    pub hanging: Option<Twip>,
}

/// Paragraph spacing.
#[derive(Debug, Clone, Copy, PartialEq, Eq)]
pub struct ParagraphSpacing {
    /// Space before the paragraph in twips.
    pub before: Option<Twip>,
    /// Space after the paragraph in twips.
    pub after: Option<Twip>,
    /// Line spacing value and rule.
    pub line: Option<SpacingLine>,
}

/// Line spacing rule and value.
#[derive(Debug, Clone, Copy, PartialEq, Eq)]
pub struct SpacingLine {
    /// Line spacing value (interpretation depends on `rule`).
    pub value: i32,
    pub rule: Option<LineSpacingRule>,
}

/// Line spacing rule.
#[derive(Debug, Clone, Copy, PartialEq, Eq)]
pub enum LineSpacingRule {
    Auto,
    Exact,
    AtLeast,
}

/// Reference to a numbering definition from a paragraph.
#[derive(Debug, Clone, Copy, PartialEq, Eq)]
pub struct NumberingRef {
    /// Numbering instance ID.
    pub num_id: u32,
    /// Indent level (0-based).
    pub ilvl: u8,
}

/// Page orientation.
#[derive(Debug, Clone, Copy, PartialEq, Eq)]
pub enum PageOrientation {
    Portrait,
    Landscape,
}

/// Page size (`w:pgSz`).
#[derive(Debug, Clone, Copy, PartialEq, Eq)]
pub struct PageSize {
    pub width: Twip,
    pub height: Twip,
    pub orient: Option<PageOrientation>,
}

/// Page margins (`w:pgMar`).
#[derive(Debug, Clone, Copy, PartialEq, Eq)]
pub struct PageMargins {
    pub top: Twip,
    pub bottom: Twip,
    pub left: Twip,
    pub right: Twip,
    pub header: Option<Twip>,
    pub footer: Option<Twip>,
    pub gutter: Option<Twip>,
}

/// Which pages a header or footer applies to.
#[derive(Debug, Clone, Copy, PartialEq, Eq)]
pub enum HeaderFooterType {
    Default,
    First,
    Even,
}

/// A header or footer of a section, by relationship id.
#[derive(Debug, Clone, PartialEq, Eq)]
pub struct HeaderFooterRef {
    pub hf_type: HeaderFooterType,
    pub relationship_id: String,
}

/// Section properties (`w:sectPr`).
#[derive(Debug, Clone, PartialEq, Eq)]
pub struct SectionProperties {
    pub page_size: Option<PageSize>,
    pub margins: Option<PageMargins>,
    pub header_refs: Vec<HeaderFooterRef>,
    pub footer_refs: Vec<HeaderFooterRef>,
    /// Number of text columns (`w:cols w:num`).
    pub columns: Option<u32>,
}

/// The contents of `SectionProperties`, its lists as sequences.
pub ghost struct SectModel {
    pub page_size: Option<PageSize>,
    pub margins: Option<PageMargins>,
    pub header_refs: Seq<HeaderFooterRef>,
    pub footer_refs: Seq<HeaderFooterRef>,
    pub columns: Option<u32>,
}

impl View for SectionProperties {
    type V = SectModel;

    open spec fn view(&self) -> SectModel {
        SectModel {
            page_size: self.page_size,
            margins: self.margins,
            header_refs: self.header_refs@,
            footer_refs: self.footer_refs@,
            columns: self.columns,
        }
    }
}

/// A tab stop by the characters of its strings.
pub ghost struct TabModel {
    pub position_twips: i32,
    pub alignment: Seq<char>,
    pub leader: Option<Seq<char>>,
}

impl View for TabStopDef {
    type V = TabModel;

    open spec fn view(&self) -> TabModel {
        TabModel {
            position_twips: self.position_twips,
            alignment: self.alignment@,
            leader: match self.leader {
                Some(l) => Some(l@),
                None => None,
            },
        }
    }
}

/// Tab stops by their characters.
pub open spec fn tabs_view(v: Seq<TabStopDef>) -> Seq<TabModel> {
    v.map_values(|t: TabStopDef| t@)
}

/// The contents of `ParagraphProperties`, its list and its section as
/// values.
pub ghost struct PprModel {
    pub style_id: Option<String>,
    pub justification: Option<Justification>,
    pub indent: Option<ParagraphIndent>,
    pub spacing: Option<ParagraphSpacing>,
    pub numbering_ref: Option<NumberingRef>,
    pub outline_level: Option<u8>,
    pub run_properties: Option<RunProperties>,
    pub frame_position: Option<FrameProps>,
    pub section_properties: Option<SectModel>,
    pub has_bottom_border: bool,
    pub borders: Option<ParagraphBorders>,
    pub keep_next: Option<bool>,
    pub keep_lines: Option<bool>,
    pub page_break_before: Option<bool>,
    pub shading: Option<Shading>,
    pub tabs: Seq<TabModel>,
}

impl View for ParagraphProperties {
    type V = PprModel;

    open spec fn view(&self) -> PprModel {
        PprModel {
            style_id: self.style_id,
            justification: self.justification,
            indent: self.indent,
            spacing: self.spacing,
            numbering_ref: self.numbering_ref,
            outline_level: self.outline_level,
            run_properties: match self.run_properties {
                Some(b) => Some(*b),
                None => None,
            },
            frame_position: self.frame_position,
            section_properties: match self.section_properties {
                Some(b) => Some(b@),
                None => None,
            },
            has_bottom_border: self.has_bottom_border,
            borders: match self.borders {
                Some(b) => Some(*b),
                None => None,
            },
            keep_next: self.keep_next,
            keep_lines: self.keep_lines,
            page_break_before: self.page_break_before,
            shading: match self.shading {
                Some(b) => Some(*b),
                None => None,
            },
            tabs: tabs_view(self.tabs@),
        }
    }
}

/// Run properties that state nothing.
pub open spec fn rpr_empty() -> RunProperties {
    RunProperties {
        bold: None,
        italic: None,
        underline: None,
        strike: None,
        dstrike: None,
        font_size: None,
        font_name: None,
        color: None,
        highlight: None,
        vertical_align: None,
        style_id: None,
        caps: None,
        small_caps: None,
        char_spacing: None,
        shading_fill: None,
        hidden: None,
    }
}

/// Section properties that state nothing.
pub open spec fn sect_empty() -> SectModel {
    SectModel {
        page_size: None,
        margins: None,
        header_refs: Seq::empty(),
        footer_refs: Seq::empty(),
        columns: None,
    }
}

/// Paragraph properties that state nothing.
pub open spec fn ppr_empty() -> PprModel {
    PprModel {
        style_id: None,
        justification: None,
        indent: None,
        spacing: None,
        numbering_ref: None,
        outline_level: None,
        run_properties: None,
        frame_position: None,
        section_properties: None,
        has_bottom_border: false,
        borders: None,
        keep_next: None,
        keep_lines: None,
        page_break_before: None,
        shading: None,
        tabs: Seq::empty(),
    }
}

impl Default for RunProperties {
    fn default() -> (r: Self)
        ensures
            r == rpr_empty(),
    {
        RunProperties {
            bold: None,
            italic: None,
            underline: None,
            strike: None,
            dstrike: None,
            font_size: None,
            font_name: None,
            color: None,
            highlight: None,
            vertical_align: None,
            style_id: None,
            caps: None,
            small_caps: None,
            char_spacing: None,
            shading_fill: None,
            hidden: None,
        }
    }
}

impl Default for SectionProperties {
    fn default() -> (r: Self)
        ensures
            r@ == sect_empty(),
    {
        SectionProperties {
            page_size: None,
            margins: None,
            header_refs: Vec::new(),
            footer_refs: Vec::new(),
            columns: None,
        }
    }
}

impl Default for ParagraphProperties {
    fn default() -> (r: Self)
        ensures
            r@ == ppr_empty(),
    {
        let r = ParagraphProperties {
            style_id: None,
            justification: None,
            indent: None,
            spacing: None,
            numbering_ref: None,
            outline_level: None,
            run_properties: None,
            frame_position: None,
            section_properties: None,
            has_bottom_border: false,
            borders: None,
            keep_next: None,
            keep_lines: None,
            page_break_before: None,
            shading: None,
            tabs: Vec::new(),
        };
        proof {
            assert(tabs_view(r.tabs@) =~= Seq::<TabModel>::empty());
        }
        r
    }
}

impl Default for BorderEdge {
    fn default() -> (r: Self)
        ensures
            r.style is None && r.color is None && r.size is None && r.space is None,
    {
        BorderEdge { style: None, color: None, size: None, space: None }
    }
}

impl Default for ParagraphBorders {
    fn default() -> (r: Self)
        ensures
            r.top is None && r.bottom is None && r.left is None && r.right is None
                && r.between is None,
    {
        ParagraphBorders { top: None, bottom: None, left: None, right: None, between: None }
    }
}

impl Default for TableBorders {
    fn default() -> (r: Self)
        ensures
            r.top is None && r.bottom is None && r.left is None && r.right is None
                && r.inside_h is None && r.inside_v is None,
    {
        TableBorders {
            top: None,
            bottom: None,
            left: None,
            right: None,
            inside_h: None,
            inside_v: None,
        }
    }
}

impl Default for FrameProps {
    fn default() -> (r: Self)
        ensures
            r.x_twips == 0 && r.y_twips == 0 && r.width_twips == 0 && r.height_twips == 0,
    {
        FrameProps { x_twips: 0, y_twips: 0, width_twips: 0, height_twips: 0 }
    }
}

impl Default for ParagraphIndent {
    fn default() -> (r: Self)
        ensures
            r.left is None && r.right is None && r.first_line is None && r.hanging is None,
    {
        ParagraphIndent { left: None, right: None, first_line: None, hanging: None }
    }
}

impl Default for ParagraphSpacing {
    fn default() -> (r: Self)
        ensures
            r.before is None && r.after is None && r.line is None,
    {
        ParagraphSpacing { before: None, after: None, line: None }
    }
}

/// `src` where it is set, else `dst`.
pub open spec fn pick<T>(dst: Option<T>, src: Option<T>) -> Option<T> {
    if src is Some {
        src
    } else {
        dst
    }
}

/// `src` overlaid on `dst`: every field that `src` sets wins.
pub open spec fn rpr_overlay(dst: RunProperties, src: RunProperties) -> RunProperties {
    RunProperties {
        bold: pick(dst.bold, src.bold),
        italic: pick(dst.italic, src.italic),
        underline: pick(dst.underline, src.underline),
        strike: pick(dst.strike, src.strike),
        dstrike: pick(dst.dstrike, src.dstrike),
        font_size: pick(dst.font_size, src.font_size),
        font_name: pick(dst.font_name, src.font_name),
        color: pick(dst.color, src.color),
        highlight: pick(dst.highlight, src.highlight),
        vertical_align: pick(dst.vertical_align, src.vertical_align),
        style_id: pick(dst.style_id, src.style_id),
        caps: pick(dst.caps, src.caps),
        small_caps: pick(dst.small_caps, src.small_caps),
        char_spacing: pick(dst.char_spacing, src.char_spacing),
        shading_fill: pick(dst.shading_fill, src.shading_fill),
        hidden: pick(dst.hidden, src.hidden),
    }
}

/// Paragraph-mark run properties merged field by field where both set
/// them.
pub open spec fn rpr_merge(dst: Option<RunProperties>, src: Option<RunProperties>) -> Option<
    RunProperties,
> {
    match (dst, src) {
        (Some(d), Some(s)) => Some(rpr_overlay(d, s)),
        (None, Some(s)) => Some(s),
        _ => dst,
    }
}

/// `src` overlaid on `dst`: every field that `src` sets wins, its tabs
/// replace `dst`'s where it has any, a bottom border is kept from either,
/// and the paragraph-mark run properties merge.
pub open spec fn ppr_overlay(dst: PprModel, src: PprModel) -> PprModel {
    PprModel {
        style_id: pick(dst.style_id, src.style_id),
        justification: pick(dst.justification, src.justification),
        indent: pick(dst.indent, src.indent),
        spacing: pick(dst.spacing, src.spacing),
        numbering_ref: pick(dst.numbering_ref, src.numbering_ref),
        outline_level: pick(dst.outline_level, src.outline_level),
        run_properties: rpr_merge(dst.run_properties, src.run_properties),
        frame_position: pick(dst.frame_position, src.frame_position),
        section_properties: pick(dst.section_properties, src.section_properties),
        has_bottom_border: dst.has_bottom_border || src.has_bottom_border,
        borders: pick(dst.borders, src.borders),
        keep_next: pick(dst.keep_next, src.keep_next),
        keep_lines: pick(dst.keep_lines, src.keep_lines),
        page_break_before: pick(dst.page_break_before, src.page_break_before),
        shading: pick(dst.shading, src.shading),
        tabs: if src.tabs.len() > 0 {
            src.tabs
        } else {
            dst.tabs
        },
    }
}

/// A copy of an optional string.
pub fn copy_opt_string(o: &Option<String>) -> (r: Option<String>)
    ensures
        r == *o,
{
    match o {
        Some(s) => Some(s.clone()),
        None => None,
    }
}

/// A copy of an underline style.
pub fn copy_underline(u: &UnderlineType) -> (r: UnderlineType)
    ensures
        r == *u,
{
    match u {
        UnderlineType::Single => UnderlineType::Single,
        UnderlineType::Double => UnderlineType::Double,
        UnderlineType::Thick => UnderlineType::Thick,
        UnderlineType::Dotted => UnderlineType::Dotted,
        UnderlineType::Dash => UnderlineType::Dash,
        UnderlineType::DotDash => UnderlineType::DotDash,
        UnderlineType::DotDotDash => UnderlineType::DotDotDash,
        UnderlineType::Wave => UnderlineType::Wave,
        UnderlineType::Words => UnderlineType::Words,
        UnderlineType::NoUnderline => UnderlineType::NoUnderline,
        UnderlineType::Other(s) => UnderlineType::Other(s.clone()),
    }
}

fn copy_opt_underline(u: &Option<UnderlineType>) -> (r: Option<UnderlineType>)
    ensures
        r == *u,
{
    match u {
        Some(x) => Some(copy_underline(x)),
        None => None,
    }
}

/// A copy of run properties.
pub fn copy_rpr(p: &RunProperties) -> (r: RunProperties)
    ensures
        r == *p,
{
    RunProperties {
        bold: p.bold,
        italic: p.italic,
        underline: copy_opt_underline(&p.underline),
        strike: p.strike,
        dstrike: p.dstrike,
        font_size: p.font_size,
        font_name: copy_opt_string(&p.font_name),
        color: p.color,
        highlight: copy_opt_string(&p.highlight),
        vertical_align: p.vertical_align,
        style_id: copy_opt_string(&p.style_id),
        caps: p.caps,
        small_caps: p.small_caps,
        char_spacing: p.char_spacing,
        shading_fill: copy_opt_string(&p.shading_fill),
        hidden: p.hidden,
    }
}

/// A copy of a border edge.
pub fn copy_edge(e: &BorderEdge) -> (r: BorderEdge)
    ensures
        r == *e,
{
    BorderEdge {
        style: copy_opt_string(&e.style),
        color: copy_opt_string(&e.color),
        size: e.size,
        space: e.space,
    }
}

fn copy_opt_edge(e: &Option<BorderEdge>) -> (r: Option<BorderEdge>)
    ensures
        r == *e,
{
    match e {
        Some(x) => Some(copy_edge(x)),
        None => None,
    }
}

fn copy_borders(b: &ParagraphBorders) -> (r: ParagraphBorders)
    ensures
        r == *b,
{
    ParagraphBorders {
        top: copy_opt_edge(&b.top),
        bottom: copy_opt_edge(&b.bottom),
        left: copy_opt_edge(&b.left),
        right: copy_opt_edge(&b.right),
        between: copy_opt_edge(&b.between),
    }
}

fn copy_shading(s: &Shading) -> (r: Shading)
    ensures
        r == *s,
{
    Shading {
        fill: copy_opt_string(&s.fill),
        color: copy_opt_string(&s.color),
        pattern: copy_opt_string(&s.pattern),
    }
}

fn copy_tabs(v: &Vec<TabStopDef>) -> (r: Vec<TabStopDef>)
    ensures
        r@ == v@,
{
    let mut out: Vec<TabStopDef> = Vec::new();
    let mut i: usize = 0;
    while i < v.len()
        invariant
            i <= v@.len(),
            out@ == v@.take(i as int),
        decreases v@.len() - i,
    {
        let t = &v[i];
        out.push(
            TabStopDef {
                position_twips: t.position_twips,
                alignment: t.alignment.clone(),
                leader: copy_opt_string(&t.leader),
            },
        );
        proof {
            assert(out@ =~= v@.take(i + 1));
        }
        i = i + 1;
    }
    proof {
        assert(v@.take(v@.len() as int) =~= v@);
    }
    out
}

fn copy_refs(v: &Vec<HeaderFooterRef>) -> (r: Vec<HeaderFooterRef>)
    ensures
        r@ == v@,
{
    let mut out: Vec<HeaderFooterRef> = Vec::new();
    let mut i: usize = 0;
    while i < v.len()
        invariant
            i <= v@.len(),
            out@ == v@.take(i as int),
        decreases v@.len() - i,
    {
        out.push(
            HeaderFooterRef { hf_type: v[i].hf_type, relationship_id: v[i].relationship_id.clone() },
        );
        proof {
            assert(out@ =~= v@.take(i + 1));
        }
        i = i + 1;
    }
    proof {
        assert(v@.take(v@.len() as int) =~= v@);
    }
    out
}

pub(crate) fn copy_sect(s: &SectionProperties) -> (r: SectionProperties)
    ensures
        r@ == s@,
{
    SectionProperties {
        page_size: s.page_size,
        margins: s.margins,
        header_refs: copy_refs(&s.header_refs),
        footer_refs: copy_refs(&s.footer_refs),
        columns: s.columns,
    }
}

/// `pick` for a copyable field.
fn pick_copy<T: Copy>(dst: Option<T>, src: Option<T>) -> (r: Option<T>)
    ensures
        r == pick(dst, src),
{
    if src.is_some() {
        src
    } else {
        dst
    }
}

/// `pick` for a string field.
fn pick_string(dst: &Option<String>, src: &Option<String>) -> (r: Option<String>)
    ensures
        r == pick(*dst, *src),
{
    if src.is_some() {
        copy_opt_string(src)
    } else {
        copy_opt_string(dst)
    }
}

fn pick_underline(dst: &Option<UnderlineType>, src: &Option<UnderlineType>) -> (r: Option<
    UnderlineType,
>)
    ensures
        r == pick(*dst, *src),
{
    if src.is_some() {
        copy_opt_underline(src)
    } else {
        copy_opt_underline(dst)
    }
}

impl RunProperties {
    /// Overlays `src` on `self`: every field that `src` states explicitly
    /// wins, everything else is left alone. Folding a style chain
    /// (document defaults, style, parent style, direct `w:rPr`) this way
    /// gives one effective property set.
    pub fn overlay(&mut self, src: &RunProperties)
        ensures
            *final(self) == rpr_overlay(*old(self), *src),
    {
        let merged = RunProperties {
            bold: pick_copy(self.bold, src.bold),
            italic: pick_copy(self.italic, src.italic),
            underline: pick_underline(&self.underline, &src.underline),
            strike: pick_copy(self.strike, src.strike),
            dstrike: pick_copy(self.dstrike, src.dstrike),
            font_size: pick_copy(self.font_size, src.font_size),
            font_name: pick_string(&self.font_name, &src.font_name),
            color: pick_copy(self.color, src.color),
            highlight: pick_string(&self.highlight, &src.highlight),
            vertical_align: pick_copy(self.vertical_align, src.vertical_align),
            style_id: pick_string(&self.style_id, &src.style_id),
            caps: pick_copy(self.caps, src.caps),
            small_caps: pick_copy(self.small_caps, src.small_caps),
            char_spacing: pick_copy(self.char_spacing, src.char_spacing),
            shading_fill: pick_string(&self.shading_fill, &src.shading_fill),
            hidden: pick_copy(self.hidden, src.hidden),
        };
        *self = merged;
    }
}

fn pick_sect(dst: &Option<Box<SectionProperties>>, src: &Option<Box<SectionProperties>>) -> (r:
    Option<Box<SectionProperties>>)
    ensures
        opt_sect_view(r) == pick(opt_sect_view(*dst), opt_sect_view(*src)),
{
    match src {
        Some(s) => Some(Box::new(copy_sect(s))),
        None => match dst {
            Some(d) => Some(Box::new(copy_sect(d))),
            None => None,
        },
    }
}

fn pick_borders(dst: &Option<Box<ParagraphBorders>>, src: &Option<Box<ParagraphBorders>>) -> (r:
    Option<Box<ParagraphBorders>>)
    ensures
        r == pick(*dst, *src),
{
    match src {
        Some(s) => Some(Box::new(copy_borders(s))),
        None => match dst {
            Some(d) => Some(Box::new(copy_borders(d))),
            None => None,
        },
    }
}

fn pick_shading(dst: &Option<Box<Shading>>, src: &Option<Box<Shading>>) -> (r: Option<
    Box<Shading>,
>)
    ensures
        r == pick(*dst, *src),
{
    match src {
        Some(s) => Some(Box::new(copy_shading(s))),
        None => match dst {
            Some(d) => Some(Box::new(copy_shading(d))),
            None => None,
        },
    }
}

fn merge_rpr(dst: &Option<Box<RunProperties>>, src: &Option<Box<RunProperties>>) -> (r: Option<
    Box<RunProperties>,
>)
    ensures
        opt_rpr(r) == rpr_merge(opt_rpr(*dst), opt_rpr(*src)),
{
    match src {
        Some(s) => match dst {
            Some(d) => {
                let mut m = copy_rpr(d);
                m.overlay(s);
                Some(Box::new(m))
            },
            None => Some(Box::new(copy_rpr(s))),
        },
        None => match dst {
            Some(d) => Some(Box::new(copy_rpr(d))),
            None => None,
        },
    }
}

/// Boxed run properties as a value.
pub open spec fn opt_rpr(o: Option<Box<RunProperties>>) -> Option<RunProperties> {
    match o {
        Some(b) => Some(*b),
        None => None,
    }
}

/// Boxed section properties by their contents.
pub open spec fn opt_sect_view(o: Option<Box<SectionProperties>>) -> Option<SectModel> {
    match o {
        Some(b) => Some(b@),
        None => None,
    }
}

impl ParagraphProperties {
    /// Overlays `src` on `self`, as `RunProperties::overlay` does; the
    /// paragraph-mark run properties merge field by field rather than
    /// being replaced, so a style that sets only the font keeps the bold
    /// its parent set.
    pub fn overlay(&mut self, src: &ParagraphProperties)
        ensures
            final(self)@ == ppr_overlay(old(self)@, src@),
    {
        let tabs = if src.tabs.len() > 0 {
            copy_tabs(&src.tabs)
        } else {
            copy_tabs(&self.tabs)
        };
        proof {
            assert(tabs_view(tabs@) =~= (if src.tabs@.len() > 0 {
                tabs_view(src.tabs@)
            } else {
                tabs_view(self.tabs@)
            }));
        }
        let merged = ParagraphProperties {
            style_id: pick_string(&self.style_id, &src.style_id),
            justification: pick_copy(self.justification, src.justification),
            indent: pick_copy(self.indent, src.indent),
            spacing: pick_copy(self.spacing, src.spacing),
            numbering_ref: pick_copy(self.numbering_ref, src.numbering_ref),
            outline_level: pick_copy(self.outline_level, src.outline_level),
            run_properties: merge_rpr(&self.run_properties, &src.run_properties),
            frame_position: pick_copy(self.frame_position, src.frame_position),
            section_properties: pick_sect(&self.section_properties, &src.section_properties),
            has_bottom_border: self.has_bottom_border || src.has_bottom_border,
            borders: pick_borders(&self.borders, &src.borders),
            keep_next: pick_copy(self.keep_next, src.keep_next),
            keep_lines: pick_copy(self.keep_lines, src.keep_lines),
            page_break_before: pick_copy(self.page_break_before, src.page_break_before),
            shading: pick_shading(&self.shading, &src.shading),
            tabs,
        };
        proof {
            assert(merged@ =~= ppr_overlay(self@, src@));
        }
        *self = merged;
    }
}

/// Overlaying nothing leaves run properties as they are, and overlaying
/// on nothing gives what was overlaid.
pub proof fn lemma_rpr_overlay_identity(p: RunProperties)
    ensures
        rpr_overlay(p, rpr_empty()) == p,
        rpr_overlay(rpr_empty(), p) == p,
        rpr_overlay(p, p) == p,
{
}

/// Overlaying is associative: folding a chain gives the same result
/// however the steps are grouped.
pub proof fn lemma_rpr_overlay_assoc(a: RunProperties, b: RunProperties, c: RunProperties)
    ensures
        rpr_overlay(rpr_overlay(a, b), c) == rpr_overlay(a, rpr_overlay(b, c)),
{
}

/// Overlaying nothing leaves paragraph properties as they are, and
/// overlaying on nothing gives what was overlaid.
pub proof fn lemma_ppr_overlay_identity(p: PprModel)
    ensures
        ppr_overlay(p, ppr_empty()) == p,
        ppr_overlay(ppr_empty(), p) == p,
        ppr_overlay(p, p) == p,
{
    match p.run_properties {
        Some(r) => lemma_rpr_overlay_identity(r),
        None => {},
    }
    if p.tabs.len() == 0 {
        assert(p.tabs =~= Seq::<TabModel>::empty());
    }
}

/// Paragraph overlays are associative too.
pub proof fn lemma_ppr_overlay_assoc(a: PprModel, b: PprModel, c: PprModel)
    ensures
        ppr_overlay(ppr_overlay(a, b), c) == ppr_overlay(a, ppr_overlay(b, c)),
{
    match (a.run_properties, b.run_properties, c.run_properties) {
        (Some(x), Some(y), Some(z)) => lemma_rpr_overlay_assoc(x, y, z),
        _ => {},
    }
}

/// A measurement attribute that does not hold a number.
#[derive(Debug, Clone, Copy, PartialEq, Eq)]
pub struct InvalidNumber;

/// The justification a `w:jc` value names; `left` for an unknown one.
pub open spec fn justification_of(v: Seq<char>) -> Justification {
    if v == "left"@ || v == "start"@ {
        Justification::Left
    } else if v == "center"@ {
        Justification::Center
    } else if v == "right"@ || v == "end"@ {
        Justification::Right
    } else if v == "both"@ {
        Justification::Both
    } else if v == "distribute"@ {
        Justification::Distribute
    } else {
        Justification::Left
    }
}

/// The justification a `w:jc` value names.
pub fn parse_justification_value(val: &str) -> (r: Justification)
    ensures
        r == justification_of(val@),
{
    if str_eq(val, "left") || str_eq(val, "start") {
        Justification::Left
    } else if str_eq(val, "center") {
        Justification::Center
    } else if str_eq(val, "right") || str_eq(val, "end") {
        Justification::Right
    } else if str_eq(val, "both") {
        Justification::Both
    } else if str_eq(val, "distribute") {
        Justification::Distribute
    } else {
        Justification::Left
    }
}

/// The underline a `<w:u>` element states: single where `w:val` is
/// absent, the value kept as it is where it names no known style.
pub open spec fn underline_of(t: XmlTag) -> UnderlineType {
    match attr_str(t, "w:val"@) {
        None => UnderlineType::Single,
        Some(v) => if v@ == "single"@ {
            UnderlineType::Single
        } else if v@ == "double"@ {
            UnderlineType::Double
        } else if v@ == "thick"@ {
            UnderlineType::Thick
        } else if v@ == "dotted"@ {
            UnderlineType::Dotted
        } else if v@ == "dash"@ {
            UnderlineType::Dash
        } else if v@ == "dotDash"@ {
            UnderlineType::DotDash
        } else if v@ == "dotDotDash"@ {
            UnderlineType::DotDotDash
        } else if v@ == "wave"@ {
            UnderlineType::Wave
        } else if v@ == "words"@ {
            UnderlineType::Words
        } else if v@ == "none"@ {
            UnderlineType::NoUnderline
        } else {
            UnderlineType::Other(v)
        },
    }
}

/// The underline a `<w:u>` element states.
pub fn parse_underline(t: &XmlTag) -> (r: UnderlineType)
    ensures
        r == underline_of(*t),
{
    match get_attr(t, "w:val") {
        None => UnderlineType::Single,
        Some(v) => {
            let s = v.as_str();
            if str_eq(s, "single") {
                UnderlineType::Single
            } else if str_eq(s, "double") {
                UnderlineType::Double
            } else if str_eq(s, "thick") {
                UnderlineType::Thick
            } else if str_eq(s, "dotted") {
                UnderlineType::Dotted
            } else if str_eq(s, "dash") {
                UnderlineType::Dash
            } else if str_eq(s, "dotDash") {
                UnderlineType::DotDash
            } else if str_eq(s, "dotDotDash") {
                UnderlineType::DotDotDash
            } else if str_eq(s, "wave") {
                UnderlineType::Wave
            } else if str_eq(s, "words") {
                UnderlineType::Words
            } else if str_eq(s, "none") {
                UnderlineType::NoUnderline
            } else {
                UnderlineType::Other(v)
            }
        },
    }
}

/// A twip measurement attribute: absent, a number, or an error.
pub open spec fn twip_attr(t: XmlTag, key: Seq<char>) -> Result<Option<Twip>, InvalidNumber> {
    match attr(t, key) {
        None => Ok(None),
        Some(v) => match numeric_i32(v) {
            Some(x) => Ok(Some(Twip(x))),
            None => Err(InvalidNumber),
        },
    }
}

fn read_twip_attr(t: &XmlTag, key: &str) -> (r: Result<Option<Twip>, InvalidNumber>)
    ensures
        r == twip_attr(*t, key@),
{
    match get_attr(t, key) {
        None => Ok(None),
        Some(v) => match parse_numeric_i32(v.as_str()) {
            Some(x) => Ok(Some(Twip(x))),
            None => Err(InvalidNumber),
        },
    }
}

/// The font size of a `<w:sz>` element.
pub open spec fn half_point_of(t: XmlTag) -> Result<Option<HalfPoint>, InvalidNumber> {
    match attr(t, "w:val"@) {
        None => Ok(None),
        Some(v) => match numeric_u32(v) {
            Some(x) => Ok(Some(HalfPoint(x))),
            None => Err(InvalidNumber),
        },
    }
}

fn parse_half_point_val(t: &XmlTag) -> (r: Result<Option<HalfPoint>, InvalidNumber>)
    ensures
        r == half_point_of(*t),
{
    match get_attr(t, "w:val") {
        None => Ok(None),
        Some(v) => match parse_numeric_u32(v.as_str()) {
            Some(x) => Ok(Some(HalfPoint(x))),
            None => Err(InvalidNumber),
        },
    }
}

/// An integer attribute read as `i32::from_str` reads it; nothing where
/// it is absent or not a number.
pub open spec fn int_attr(t: XmlTag, key: Seq<char>) -> Option<i32> {
    match attr(t, key) {
        Some(v) => parse_i32(v),
        None => None,
    }
}

pub(crate) fn read_int_attr(t: &XmlTag, key: &str) -> (r: Option<i32>)
    ensures
        r == int_attr(*t, key@),
{
    match get_attr(t, key) {
        Some(v) => parse_i32_str(v.as_str()),
        None => None,
    }
}

/// An unsigned attribute read as `u32::from_str` reads it.
pub open spec fn uint_attr(t: XmlTag, key: Seq<char>) -> Option<u32> {
    match attr(t, key) {
        Some(v) => parse_u32(v),
        None => None,
    }
}

pub(crate) fn read_uint_attr(t: &XmlTag, key: &str) -> (r: Option<u32>)
    ensures
        r == uint_attr(*t, key@),
{
    match get_attr(t, key) {
        Some(v) => parse_u32_str(v.as_str()),
        None => None,
    }
}

/// `u8::from_str`.
pub open spec fn parse_u8(v: Seq<char>) -> Option<u8> {
    match parse_u32(v) {
        Some(x) => if x <= 255 {
            Some(x as u8)
        } else {
            None
        },
        None => None,
    }
}

/// A `<w:shd>` element's attributes.
pub open spec fn shading_of(t: XmlTag) -> Shading {
    Shading {
        fill: attr_str(t, "w:fill"@),
        color: attr_str(t, "w:color"@),
        pattern: attr_str(t, "w:val"@),
    }
}

/// A `<w:shd>` element's attributes.
pub fn parse_shading(t: &XmlTag) -> (r: Shading)
    ensures
        r == shading_of(*t),
{
    Shading {
        fill: get_attr(t, "w:fill"),
        color: get_attr(t, "w:color"),
        pattern: get_attr(t, "w:val"),
    }
}

/// One border edge element's attributes.
pub open spec fn edge_of(t: XmlTag) -> BorderEdge {
    BorderEdge {
        style: attr_str(t, "w:val"@),
        color: attr_str(t, "w:color"@),
        size: uint_attr(t, "w:sz"@),
        space: uint_attr(t, "w:space"@),
    }
}

/// One border edge element's attributes.
pub fn parse_border_edge(t: &XmlTag) -> (r: BorderEdge)
    ensures
        r == edge_of(*t),
{
    BorderEdge {
        style: get_attr(t, "w:val"),
        color: get_attr(t, "w:color"),
        size: read_uint_attr(t, "w:sz"),
        space: read_uint_attr(t, "w:space"),
    }
}

/// The outline level a `w:outlineLvl` value gives: 0 to 8; 9 is body
/// text, and that and anything else give none.
pub open spec fn outline_level_of(v: Seq<char>) -> Option<u8> {
    match parse_u32(trim_seq(v)) {
        Some(x) => if x <= 8 {
            Some(x as u8)
        } else {
            None
        },
        None => None,
    }
}

/// The outline level a `w:outlineLvl` value gives.
pub fn parse_outline_level(val: &str) -> (r: Option<u8>)
    ensures
        r == outline_level_of(val@),
{
    let t = trim_string(val);
    match parse_u32_str(t.as_str()) {
        Some(x) => {
            if x <= 8 {
                Some(x as u8)
            } else {
                None
            }
        },
        None => None,
    }
}

/// A `<w:ind>` element: left falls back to `w:start` and right to
/// `w:end`; an error where a present value is not a number.
pub open spec fn indent_of(t: XmlTag) -> Result<ParagraphIndent, InvalidNumber> {
    let l = match twip_attr(t, "w:left"@) {
        Ok(None) => twip_attr(t, "w:start"@),
        o => o,
    };
    let r = match twip_attr(t, "w:right"@) {
        Ok(None) => twip_attr(t, "w:end"@),
        o => o,
    };
    let f = twip_attr(t, "w:firstLine"@);
    let h = twip_attr(t, "w:hanging"@);
    match (l, r, f, h) {
        (Ok(l), Ok(r), Ok(f), Ok(h)) => Ok(
            ParagraphIndent { left: l, right: r, first_line: f, hanging: h },
        ),
        _ => Err(InvalidNumber),
    }
}

/// A `<w:ind>` element.
pub fn parse_indent(t: &XmlTag) -> (r: Result<ParagraphIndent, InvalidNumber>)
    ensures
        r == indent_of(*t),
{
    let left = match read_twip_attr(t, "w:left")? {
        None => read_twip_attr(t, "w:start")?,
        Some(v) => Some(v),
    };
    let right = match read_twip_attr(t, "w:right")? {
        None => read_twip_attr(t, "w:end")?,
        Some(v) => Some(v),
    };
    let first_line = read_twip_attr(t, "w:firstLine")?;
    let hanging = read_twip_attr(t, "w:hanging")?;
    Ok(ParagraphIndent { left, right, first_line, hanging })
}

/// The rule a `w:lineRule` value names; `auto` for an unknown one.
pub open spec fn line_rule_of(v: Seq<char>) -> LineSpacingRule {
    if v == "exact"@ {
        LineSpacingRule::Exact
    } else if v == "atLeast"@ {
        LineSpacingRule::AtLeast
    } else {
        LineSpacingRule::Auto
    }
}

/// A `<w:spacing>` element of paragraph properties.
pub open spec fn spacing_of(t: XmlTag) -> Result<ParagraphSpacing, InvalidNumber> {
    let b = twip_attr(t, "w:before"@);
    let a = twip_attr(t, "w:after"@);
    let line: Result<Option<SpacingLine>, InvalidNumber> = match attr(t, "w:line"@) {
        None => Ok(None),
        Some(v) => match numeric_i32(v) {
            None => Err(InvalidNumber),
            Some(x) => Ok(
                Some(
                    SpacingLine {
                        value: x,
                        rule: match attr(t, "w:lineRule"@) {
                            None => None,
                            Some(r) => Some(line_rule_of(r)),
                        },
                    },
                ),
            ),
        },
    };
    match (b, a, line) {
        (Ok(b), Ok(a), Ok(l)) => Ok(ParagraphSpacing { before: b, after: a, line: l }),
        _ => Err(InvalidNumber),
    }
}

/// A `<w:spacing>` element of paragraph properties.
pub fn parse_spacing(t: &XmlTag) -> (r: Result<ParagraphSpacing, InvalidNumber>)
    ensures
        r == spacing_of(*t),
{
    let before = read_twip_attr(t, "w:before")?;
    let after = read_twip_attr(t, "w:after")?;
    let line = match get_attr(t, "w:line") {
        None => None,
        Some(v) => match parse_numeric_i32(v.as_str()) {
            None => {
                return Err(InvalidNumber);
            },
            Some(x) => {
                let rule = match get_attr(t, "w:lineRule") {
                    None => None,
                    Some(r) => {
                        let rs = r.as_str();
                        Some(
                            if str_eq(rs, "exact") {
                                LineSpacingRule::Exact
                            } else if str_eq(rs, "atLeast") {
                                LineSpacingRule::AtLeast
                            } else {
                                LineSpacingRule::Auto
                            },
                        )
                    },
                };
                Some(SpacingLine { value: x, rule })
            },
        },
    };
    Ok(ParagraphSpacing { before, after, line })
}

/// A `<w:framePr>` element: a frame only where `w:x`, `w:y`, `w:w` and
/// `w:h` are all numbers.
pub open spec fn frame_of(t: XmlTag) -> Option<FrameProps> {
    match (int_attr(t, "w:x"@), int_attr(t, "w:y"@), int_attr(t, "w:w"@), int_attr(t, "w:h"@)) {
        (Some(x), Some(y), Some(w), Some(h)) => Some(
            FrameProps { x_twips: x, y_twips: y, width_twips: w, height_twips: h },
        ),
        _ => None,
    }
}

/// A `<w:framePr>` element.
pub fn parse_frame_pr(t: &XmlTag) -> (r: Option<FrameProps>)
    ensures
        r == frame_of(*t),
{
    let x = read_int_attr(t, "w:x");
    let y = read_int_attr(t, "w:y");
    let w = read_int_attr(t, "w:w");
    let h = read_int_attr(t, "w:h");
    match (x, y, w, h) {
        (Some(x), Some(y), Some(w), Some(h)) => Some(
            FrameProps { x_twips: x, y_twips: y, width_twips: w, height_twips: h },
        ),
        _ => None,
    }
}

/// The vertical alignment a `w:vertAlign` value names.
pub open spec fn vert_align_of(v: Seq<char>) -> VerticalAlign {
    if v == "superscript"@ {
        VerticalAlign::Superscript
    } else if v == "subscript"@ {
        VerticalAlign::Subscript
    } else {
        VerticalAlign::Baseline
    }
}

/// What one child element of `w:rPr` does to the run properties read so
/// far; an error where its size is not a number.
pub open spec fn rpr_tag(p: RunProperties, t: XmlTag) -> Result<RunProperties, InvalidNumber> {
    let n = t.name@;
    if n == "b"@ {
        Ok(RunProperties { bold: Some(toggle(t)), ..p })
    } else if n == "i"@ {
        Ok(RunProperties { italic: Some(toggle(t)), ..p })
    } else if n == "strike"@ {
        Ok(RunProperties { strike: Some(toggle(t)), ..p })
    } else if n == "dstrike"@ {
        Ok(RunProperties { dstrike: Some(toggle(t)), ..p })
    } else if n == "u"@ {
        Ok(RunProperties { underline: Some(underline_of(t)), ..p })
    } else if n == "sz"@ {
        match half_point_of(t) {
            Err(e) => Err(e),
            Ok(None) => Ok(p),
            Ok(Some(v)) => Ok(RunProperties { font_size: Some(v), ..p }),
        }
    } else if n == "rFonts"@ {
        match attr_str(t, "w:ascii"@) {
            Some(a) => Ok(RunProperties { font_name: Some(a), ..p }),
            None => Ok(p),
        }
    } else if n == "color"@ {
        Ok(RunProperties { color: color_of(t), ..p })
    } else if n == "highlight"@ {
        match attr_str(t, "w:val"@) {
            Some(v) => Ok(RunProperties { highlight: Some(v), ..p }),
            None => Ok(p),
        }
    } else if n == "vertAlign"@ {
        match attr(t, "w:val"@) {
            Some(v) => Ok(RunProperties { vertical_align: Some(vert_align_of(v)), ..p }),
            None => Ok(p),
        }
    } else if n == "rStyle"@ {
        match attr_str(t, "w:val"@) {
            Some(v) => Ok(RunProperties { style_id: Some(v), ..p }),
            None => Ok(p),
        }
    } else if n == "caps"@ {
        Ok(RunProperties { caps: Some(toggle(t)), ..p })
    } else if n == "smallCaps"@ {
        Ok(RunProperties { small_caps: Some(toggle(t)), ..p })
    } else if n == "spacing"@ {
        Ok(RunProperties { char_spacing: int_attr(t, "w:val"@), ..p })
    } else if n == "shd"@ {
        Ok(RunProperties { shading_fill: attr_str(t, "w:fill"@), ..p })
    } else if n == "vanish"@ {
        Ok(RunProperties { hidden: Some(toggle(t)), ..p })
    } else {
        Ok(p)
    }
}

/// `rpr_tag` as an executable step.
fn apply_rpr_tag(p: RunProperties, t: &XmlTag) -> (r: Result<RunProperties, InvalidNumber>)
    ensures
        r == rpr_tag(p, *t),
{
    if is_named(t, "b") {
        Ok(RunProperties { bold: Some(parse_toggle(t)), ..p })
    } else if is_named(t, "i") {
        Ok(RunProperties { italic: Some(parse_toggle(t)), ..p })
    } else if is_named(t, "strike") {
        Ok(RunProperties { strike: Some(parse_toggle(t)), ..p })
    } else if is_named(t, "dstrike") {
        Ok(RunProperties { dstrike: Some(parse_toggle(t)), ..p })
    } else if is_named(t, "u") {
        Ok(RunProperties { underline: Some(parse_underline(t)), ..p })
    } else if is_named(t, "sz") {
        match parse_half_point_val(t)? {
            None => Ok(p),
            Some(v) => Ok(RunProperties { font_size: Some(v), ..p }),
        }
    } else if is_named(t, "rFonts") {
        match get_attr(t, "w:ascii") {
            Some(a) => Ok(RunProperties { font_name: Some(a), ..p }),
            None => Ok(p),
        }
    } else if is_named(t, "color") {
        Ok(RunProperties { color: parse_color_ref(t), ..p })
    } else if is_named(t, "highlight") {
        match get_attr(t, "w:val") {
            Some(v) => Ok(RunProperties { highlight: Some(v), ..p }),
            None => Ok(p),
        }
    } else if is_named(t, "vertAlign") {
        match get_attr(t, "w:val") {
            Some(v) => {
                let s = v.as_str();
                let va = if str_eq(s, "superscript") {
                    VerticalAlign::Superscript
                } else if str_eq(s, "subscript") {
                    VerticalAlign::Subscript
                } else {
                    VerticalAlign::Baseline
                };
                Ok(RunProperties { vertical_align: Some(va), ..p })
            },
            None => Ok(p),
        }
    } else if is_named(t, "rStyle") {
        match get_attr(t, "w:val") {
            Some(v) => Ok(RunProperties { style_id: Some(v), ..p }),
            None => Ok(p),
        }
    } else if is_named(t, "caps") {
        Ok(RunProperties { caps: Some(parse_toggle(t)), ..p })
    } else if is_named(t, "smallCaps") {
        Ok(RunProperties { small_caps: Some(parse_toggle(t)), ..p })
    } else if is_named(t, "spacing") {
        Ok(RunProperties { char_spacing: read_int_attr(t, "w:val"), ..p })
    } else if is_named(t, "shd") {
        Ok(RunProperties { shading_fill: get_attr(t, "w:fill"), ..p })
    } else if is_named(t, "vanish") {
        Ok(RunProperties { hidden: Some(parse_toggle(t)), ..p })
    } else {
        Ok(p)
    }
}

/// Reading `w:rPr` children from `pos` on, with `p` read so far: each
/// child element updates the properties (a start tag's content is
/// skipped); the `</w:rPr>` end tag, or the end of the document, stops
/// the read. The result carries the position after it.
pub open spec fn rpr_scan(ev: Seq<XmlEvent>, pos: int, p: RunProperties) -> Result<
    (RunProperties, int),
    InvalidNumber,
>
    decreases ev.len() - pos,
{
    if pos < 0 || pos >= ev.len() {
        Ok((p, pos))
    } else {
        match ev[pos] {
            XmlEvent::Start(t) => match rpr_tag(p, t) {
                Err(e) => Err(e),
                Ok(q) => {
                    proof {
                        lemma_skip_end(ev, pos + 1, 1);
                    }
                    rpr_scan(ev, skip_end(ev, pos + 1, 1), q)
                },
            },
            XmlEvent::Empty(t) => match rpr_tag(p, t) {
                Err(e) => Err(e),
                Ok(q) => rpr_scan(ev, pos + 1, q),
            },
            XmlEvent::End(n) => if n@ == "rPr"@ {
                Ok((p, pos + 1))
            } else {
                rpr_scan(ev, pos + 1, p)
            },
            XmlEvent::Eof => Ok((p, pos)),
            _ => rpr_scan(ev, pos + 1, p),
        }
    }
}

pub proof fn lemma_rpr_scan(ev: Seq<XmlEvent>, pos: int, p: RunProperties)
    requires
        0 <= pos <= ev.len(),
    ensures
        rpr_scan(ev, pos, p) matches Ok((_, n)) ==> pos <= n <= ev.len(),
    decreases ev.len() - pos,
{
    if pos < ev.len() {
        match ev[pos] {
            XmlEvent::Start(t) => {
                lemma_skip_end(ev, pos + 1, 1);
                if let Ok(q) = rpr_tag(p, t) {
                    lemma_rpr_scan(ev, skip_end(ev, pos + 1, 1), q);
                }
            },
            XmlEvent::Empty(t) => {
                if let Ok(q) = rpr_tag(p, t) {
                    lemma_rpr_scan(ev, pos + 1, q);
                }
            },
            XmlEvent::End(n) => {
                if n@ != "rPr"@ {
                    lemma_rpr_scan(ev, pos + 1, p);
                }
            },
            XmlEvent::Eof => {},
            _ => lemma_rpr_scan(ev, pos + 1, p),
        }
    }
}

/// Reads the children of a `w:rPr` element whose start tag was read just
/// before `pos`, and returns them with the position after its end tag.
pub fn parse_run_properties_fast(ev: &[XmlEvent], pos: usize) -> (r: Result<
    (RunProperties, usize),
    InvalidNumber,
>)
    requires
        pos <= ev@.len(),
        ev@.len() < usize::MAX,
    ensures
        match r {
            Ok((p, n)) => rpr_scan(ev@, pos as int, rpr_empty()) == Ok::<
                (RunProperties, int),
                InvalidNumber,
            >((p, n as int)),
            Err(e) => rpr_scan(ev@, pos as int, rpr_empty()) == Err::<
                (RunProperties, int),
                InvalidNumber,
            >(e),
        },
{
    let n = ev.len();
    let mut props = RunProperties::default();
    let mut p: usize = pos;
    while p < n
        invariant
            n == ev@.len(),
            n < usize::MAX,
            pos <= p <= n,
            rpr_scan(ev@, pos as int, rpr_empty()) == rpr_scan(ev@, p as int, props),
        decreases n - p,
    {
        match &ev[p] {
            XmlEvent::Start(t) => {
                props = apply_rpr_tag(props, t)?;
                p = skip_element(ev, p + 1);
            },
            XmlEvent::Empty(t) => {
                props = apply_rpr_tag(props, t)?;
                p = p + 1;
            },
            XmlEvent::End(name) => {
                if str_eq(name.as_str(), "rPr") {
                    return Ok((props, p + 1));
                }
                p = p + 1;
            },
            XmlEvent::Eof => {
                return Ok((props, p));
            },
            _ => {
                p = p + 1;
            },
        }
    }
    Ok((props, p))
}

/// What one child of `w:numPr` does to the identifier and level read so
/// far: an unreadable value counts as 0.
pub open spec fn numpr_tag(id: u32, lvl: u8, t: XmlTag) -> (u32, u8) {
    if t.name@ == "numId"@ {
        match attr(t, "w:val"@) {
            Some(v) => (
                match parse_u32(v) {
                    Some(x) => x,
                    None => 0,
                },
                lvl,
            ),
            None => (id, lvl),
        }
    } else if t.name@ == "ilvl"@ {
        match attr(t, "w:val"@) {
            Some(v) => (
                id,
                match parse_u8(v) {
                    Some(x) => x,
                    None => 0,
                },
            ),
            None => (id, lvl),
        }
    } else {
        (id, lvl)
    }
}

/// Reading `w:numPr` children from `pos` on, up to `</w:numPr>`.
pub open spec fn numpr_scan(ev: Seq<XmlEvent>, pos: int, id: u32, lvl: u8) -> (NumberingRef, int)
    decreases ev.len() - pos,
{
    if pos < 0 || pos >= ev.len() {
        (NumberingRef { num_id: id, ilvl: lvl }, pos)
    } else {
        match ev[pos] {
            XmlEvent::Start(t) => {
                let (a, b) = numpr_tag(id, lvl, t);
                numpr_scan(ev, pos + 1, a, b)
            },
            XmlEvent::Empty(t) => {
                let (a, b) = numpr_tag(id, lvl, t);
                numpr_scan(ev, pos + 1, a, b)
            },
            XmlEvent::End(n) => if n@ == "numPr"@ {
                (NumberingRef { num_id: id, ilvl: lvl }, pos + 1)
            } else {
                numpr_scan(ev, pos + 1, id, lvl)
            },
            XmlEvent::Eof => (NumberingRef { num_id: id, ilvl: lvl }, pos),
            _ => numpr_scan(ev, pos + 1, id, lvl),
        }
    }
}

pub proof fn lemma_numpr_scan(ev: Seq<XmlEvent>, pos: int, id: u32, lvl: u8)
    requires
        0 <= pos <= ev.len(),
    ensures
        pos <= numpr_scan(ev, pos, id, lvl).1 <= ev.len(),
    decreases ev.len() - pos,
{
    if pos < ev.len() {
        match ev[pos] {
            XmlEvent::Start(t) => {
                let (a, b) = numpr_tag(id, lvl, t);
                lemma_numpr_scan(ev, pos + 1, a, b);
            },
            XmlEvent::Empty(t) => {
                let (a, b) = numpr_tag(id, lvl, t);
                lemma_numpr_scan(ev, pos + 1, a, b);
            },
            XmlEvent::End(n) => {
                if n@ != "numPr"@ {
                    lemma_numpr_scan(ev, pos + 1, id, lvl);
                }
            },
            XmlEvent::Eof => {},
            _ => lemma_numpr_scan(ev, pos + 1, id, lvl),
        }
    }
}

fn apply_numpr_tag(id: u32, lvl: u8, t: &XmlTag) -> (r: (u32, u8))
    ensures
        r == numpr_tag(id, lvl, *t),
{
    if is_named(t, "numId") {
        match get_attr(t, "w:val") {
            Some(v) => (
                match parse_u32_str(v.as_str()) {
                    Some(x) => x,
                    None => 0,
                },
                lvl,
            ),
            None => (id, lvl),
        }
    } else if is_named(t, "ilvl") {
        match get_attr(t, "w:val") {
            Some(v) => (
                id,
                match parse_u32_str(v.as_str()) {
                    Some(x) => if x <= 255 {
                        x as u8
                    } else {
                        0
                    },
                    None => 0,
                },
            ),
            None => (id, lvl),
        }
    } else {
        (id, lvl)
    }
}

/// Reads the children of a `w:numPr` element.
pub fn parse_num_pr_fast(ev: &[XmlEvent], pos: usize) -> (r: (NumberingRef, usize))
    requires
        pos <= ev@.len(),
        ev@.len() < usize::MAX,
    ensures
        numpr_scan(ev@, pos as int, 0, 0) == (r.0, r.1 as int),
{
    let n = ev.len();
    let mut id: u32 = 0;
    let mut lvl: u8 = 0;
    let mut p: usize = pos;
    while p < n
        invariant
            n == ev@.len(),
            n < usize::MAX,
            pos <= p <= n,
            numpr_scan(ev@, pos as int, 0, 0) == numpr_scan(ev@, p as int, id, lvl),
        decreases n - p,
    {
        match &ev[p] {
            XmlEvent::Start(t) => {
                let (a, b) = apply_numpr_tag(id, lvl, t);
                id = a;
                lvl = b;
            },
            XmlEvent::Empty(t) => {
                let (a, b) = apply_numpr_tag(id, lvl, t);
                id = a;
                lvl = b;
            },
            XmlEvent::End(name) => {
                if str_eq(name.as_str(), "numPr") {
                    return (NumberingRef { num_id: id, ilvl: lvl }, p + 1);
                }
            },
            XmlEvent::Eof => {
                return (NumberingRef { num_id: id, ilvl: lvl }, p);
            },
            _ => {},
        }
        p = p + 1;
    }
    (NumberingRef { num_id: id, ilvl: lvl }, p)
}

/// Paragraph borders with no edge.
pub open spec fn pbdr_empty() -> ParagraphBorders {
    ParagraphBorders { top: None, bottom: None, left: None, right: None, between: None }
}

/// What one child of `w:pBdr` does to the edges read so far.
pub open spec fn pbdr_tag(b: ParagraphBorders, t: XmlTag) -> ParagraphBorders {
    let n = t.name@;
    let e = Some(edge_of(t));
    if n == "top"@ {
        ParagraphBorders { top: e, ..b }
    } else if n == "bottom"@ {
        ParagraphBorders { bottom: e, ..b }
    } else if n == "left"@ || n == "start"@ {
        ParagraphBorders { left: e, ..b }
    } else if n == "right"@ || n == "end"@ {
        ParagraphBorders { right: e, ..b }
    } else if n == "between"@ {
        ParagraphBorders { between: e, ..b }
    } else {
        b
    }
}

/// Reading `w:pBdr` children from `pos` on, up to `</w:pBdr>`.
pub open spec fn pbdr_scan(ev: Seq<XmlEvent>, pos: int, b: ParagraphBorders) -> (
    ParagraphBorders,
    int,
)
    decreases ev.len() - pos,
{
    if pos < 0 || pos >= ev.len() {
        (b, pos)
    } else {
        match ev[pos] {
            XmlEvent::Start(t) => pbdr_scan(ev, pos + 1, pbdr_tag(b, t)),
            XmlEvent::Empty(t) => pbdr_scan(ev, pos + 1, pbdr_tag(b, t)),
            XmlEvent::End(n) => if n@ == "pBdr"@ {
                (b, pos + 1)
            } else {
                pbdr_scan(ev, pos + 1, b)
            },
            XmlEvent::Eof => (b, pos),
            _ => pbdr_scan(ev, pos + 1, b),
        }
    }
}

pub proof fn lemma_pbdr_scan(ev: Seq<XmlEvent>, pos: int, b: ParagraphBorders)
    requires
        0 <= pos <= ev.len(),
    ensures
        pos <= pbdr_scan(ev, pos, b).1 <= ev.len(),
    decreases ev.len() - pos,
{
    if pos < ev.len() {
        match ev[pos] {
            XmlEvent::Start(t) => lemma_pbdr_scan(ev, pos + 1, pbdr_tag(b, t)),
            XmlEvent::Empty(t) => lemma_pbdr_scan(ev, pos + 1, pbdr_tag(b, t)),
            XmlEvent::End(n) => {
                if n@ != "pBdr"@ {
                    lemma_pbdr_scan(ev, pos + 1, b);
                }
            },
            XmlEvent::Eof => {},
            _ => lemma_pbdr_scan(ev, pos + 1, b),
        }
    }
}

fn apply_pbdr_tag(b: ParagraphBorders, t: &XmlTag) -> (r: ParagraphBorders)
    ensures
        r == pbdr_tag(b, *t),
{
    if is_named(t, "top") {
        ParagraphBorders { top: Some(parse_border_edge(t)), ..b }
    } else if is_named(t, "bottom") {
        ParagraphBorders { bottom: Some(parse_border_edge(t)), ..b }
    } else if is_named(t, "left") || is_named(t, "start") {
        ParagraphBorders { left: Some(parse_border_edge(t)), ..b }
    } else if is_named(t, "right") || is_named(t, "end") {
        ParagraphBorders { right: Some(parse_border_edge(t)), ..b }
    } else if is_named(t, "between") {
        ParagraphBorders { between: Some(parse_border_edge(t)), ..b }
    } else {
        b
    }
}

/// Reads the children of a `w:pBdr` element.
pub fn parse_paragraph_borders_fast(ev: &[XmlEvent], pos: usize) -> (r: (ParagraphBorders, usize))
    requires
        pos <= ev@.len(),
        ev@.len() < usize::MAX,
    ensures
        pbdr_scan(ev@, pos as int, pbdr_empty()) == (r.0, r.1 as int),
{
    let n = ev.len();
    let mut b = ParagraphBorders::default();
    let mut p: usize = pos;
    while p < n
        invariant
            n == ev@.len(),
            n < usize::MAX,
            pos <= p <= n,
            pbdr_scan(ev@, pos as int, pbdr_empty()) == pbdr_scan(ev@, p as int, b),
        decreases n - p,
    {
        match &ev[p] {
            XmlEvent::Start(t) => {
                b = apply_pbdr_tag(b, t);
            },
            XmlEvent::Empty(t) => {
                b = apply_pbdr_tag(b, t);
            },
            XmlEvent::End(name) => {
                if str_eq(name.as_str(), "pBdr") {
                    return (b, p + 1);
                }
            },
            XmlEvent::Eof => {
                return (b, p);
            },
            _ => {},
        }
        p = p + 1;
    }
    (b, p)
}

/// Table borders with no edge.
pub open spec fn tbdr_empty() -> TableBorders {
    TableBorders {
        top: None,
        bottom: None,
        left: None,
        right: None,
        inside_h: None,
        inside_v: None,
    }
}

/// What one child of `w:tblBorders` or `w:tcBorders` does to the edges
/// read so far.
pub open spec fn tbdr_tag(b: TableBorders, t: XmlTag) -> TableBorders {
    let n = t.name@;
    let e = Some(edge_of(t));
    if n == "top"@ {
        TableBorders { top: e, ..b }
    } else if n == "bottom"@ {
        TableBorders { bottom: e, ..b }
    } else if n == "left"@ || n == "start"@ {
        TableBorders { left: e, ..b }
    } else if n == "right"@ || n == "end"@ {
        TableBorders { right: e, ..b }
    } else if n == "insideH"@ {
        TableBorders { inside_h: e, ..b }
    } else if n == "insideV"@ {
        TableBorders { inside_v: e, ..b }
    } else {
        b
    }
}

/// Reading table border children from `pos` on, up to the end tag named
/// `end`.
pub open spec fn tbdr_scan(ev: Seq<XmlEvent>, pos: int, end: Seq<char>, b: TableBorders) -> (
    TableBorders,
    int,
)
    decreases ev.len() - pos,
{
    if pos < 0 || pos >= ev.len() {
        (b, pos)
    } else {
        match ev[pos] {
            XmlEvent::Start(t) => tbdr_scan(ev, pos + 1, end, tbdr_tag(b, t)),
            XmlEvent::Empty(t) => tbdr_scan(ev, pos + 1, end, tbdr_tag(b, t)),
            XmlEvent::End(n) => if n@ == end {
                (b, pos + 1)
            } else {
                tbdr_scan(ev, pos + 1, end, b)
            },
            XmlEvent::Eof => (b, pos),
            _ => tbdr_scan(ev, pos + 1, end, b),
        }
    }
}

fn apply_tbdr_tag(b: TableBorders, t: &XmlTag) -> (r: TableBorders)
    ensures
        r == tbdr_tag(b, *t),
{
    if is_named(t, "top") {
        TableBorders { top: Some(parse_border_edge(t)), ..b }
    } else if is_named(t, "bottom") {
        TableBorders { bottom: Some(parse_border_edge(t)), ..b }
    } else if is_named(t, "left") || is_named(t, "start") {
        TableBorders { left: Some(parse_border_edge(t)), ..b }
    } else if is_named(t, "right") || is_named(t, "end") {
        TableBorders { right: Some(parse_border_edge(t)), ..b }
    } else if is_named(t, "insideH") {
        TableBorders { inside_h: Some(parse_border_edge(t)), ..b }
    } else if is_named(t, "insideV") {
        TableBorders { inside_v: Some(parse_border_edge(t)), ..b }
    } else {
        b
    }
}

/// Reads the children of a `w:tblBorders` or `w:tcBorders` element up to
/// the end tag named `end`.
pub fn parse_table_borders_fast(ev: &[XmlEvent], pos: usize, end: &str) -> (r: (
    TableBorders,
    usize,
))
    requires
        pos <= ev@.len(),
        ev@.len() < usize::MAX,
    ensures
        tbdr_scan(ev@, pos as int, end@, tbdr_empty()) == (r.0, r.1 as int),
{
    let n = ev.len();
    let mut b = TableBorders::default();
    let mut p: usize = pos;
    while p < n
        invariant
            n == ev@.len(),
            n < usize::MAX,
            pos <= p <= n,
            tbdr_scan(ev@, pos as int, end@, tbdr_empty()) == tbdr_scan(ev@, p as int, end@, b),
        decreases n - p,
    {
        match &ev[p] {
            XmlEvent::Start(t) => {
                b = apply_tbdr_tag(b, t);
            },
            XmlEvent::Empty(t) => {
                b = apply_tbdr_tag(b, t);
            },
            XmlEvent::End(name) => {
                if str_eq(name.as_str(), end) {
                    return (b, p + 1);
                }
            },
            XmlEvent::Eof => {
                return (b, p);
            },
            _ => {},
        }
        p = p + 1;
    }
    (b, p)
}

/// The tab stop a `<w:tab>` child of `w:tabs` adds: only where `w:pos`
/// is a number; the alignment is `left` where `w:val` is absent.
pub open spec fn tab_of(t: XmlTag) -> Option<TabModel> {
    if t.name@ == "tab"@ {
        match int_attr(t, "w:pos"@) {
            Some(p) => Some(
                TabModel {
                    position_twips: p,
                    alignment: match attr(t, "w:val"@) {
                        Some(v) => v,
                        None => "left"@,
                    },
                    leader: attr(t, "w:leader"@),
                },
            ),
            None => None,
        }
    } else {
        None
    }
}

/// Reading `w:tabs` children from `pos` on, up to `</w:tabs>`.
pub open spec fn tabs_scan(ev: Seq<XmlEvent>, pos: int, tabs: Seq<TabModel>) -> (
    Seq<TabModel>,
    int,
)
    decreases ev.len() - pos,
{
    if pos < 0 || pos >= ev.len() {
        (tabs, pos)
    } else {
        match ev[pos] {
            XmlEvent::Start(t) => match tab_of(t) {
                Some(m) => tabs_scan(ev, pos + 1, tabs.push(m)),
                None => tabs_scan(ev, pos + 1, tabs),
            },
            XmlEvent::Empty(t) => match tab_of(t) {
                Some(m) => tabs_scan(ev, pos + 1, tabs.push(m)),
                None => tabs_scan(ev, pos + 1, tabs),
            },
            XmlEvent::End(n) => if n@ == "tabs"@ {
                (tabs, pos + 1)
            } else {
                tabs_scan(ev, pos + 1, tabs)
            },
            XmlEvent::Eof => (tabs, pos),
            _ => tabs_scan(ev, pos + 1, tabs),
        }
    }
}

pub proof fn lemma_tabs_scan(ev: Seq<XmlEvent>, pos: int, tabs: Seq<TabModel>)
    requires
        0 <= pos <= ev.len(),
    ensures
        pos <= tabs_scan(ev, pos, tabs).1 <= ev.len(),
    decreases ev.len() - pos,
{
    if pos < ev.len() {
        match ev[pos] {
            XmlEvent::Start(t) => match tab_of(t) {
                Some(m) => lemma_tabs_scan(ev, pos + 1, tabs.push(m)),
                None => lemma_tabs_scan(ev, pos + 1, tabs),
            },
            XmlEvent::Empty(t) => match tab_of(t) {
                Some(m) => lemma_tabs_scan(ev, pos + 1, tabs.push(m)),
                None => lemma_tabs_scan(ev, pos + 1, tabs),
            },
            XmlEvent::End(n) => {
                if n@ != "tabs"@ {
                    lemma_tabs_scan(ev, pos + 1, tabs);
                }
            },
            XmlEvent::Eof => {},
            _ => lemma_tabs_scan(ev, pos + 1, tabs),
        }
    }
}

fn read_tab(t: &XmlTag) -> (r: Option<TabStopDef>)
    ensures
        match r {
            Some(d) => tab_of(*t) == Some(d@),
            None => tab_of(*t) is None,
        },
{
    if !is_named(t, "tab") {
        return None;
    }
    match read_int_attr(t, "w:pos") {
        Some(p) => {
            let alignment = match get_attr(t, "w:val") {
                Some(v) => v,
                None => String::from_str("left"),
            };
            Some(TabStopDef { position_twips: p, alignment, leader: get_attr(t, "w:leader") })
        },
        None => None,
    }
}

/// Reads the children of a `w:tabs` element.
pub fn parse_tabs_fast(ev: &[XmlEvent], pos: usize) -> (r: (Vec<TabStopDef>, usize))
    requires
        pos <= ev@.len(),
        ev@.len() < usize::MAX,
    ensures
        tabs_scan(ev@, pos as int, Seq::empty()) == (tabs_view(r.0@), r.1 as int),
{
    let n = ev.len();
    let mut tabs: Vec<TabStopDef> = Vec::new();
    let mut p: usize = pos;
    proof {
        assert(tabs_view(tabs@) =~= Seq::<TabModel>::empty());
    }
    while p < n
        invariant
            n == ev@.len(),
            n < usize::MAX,
            pos <= p <= n,
            tabs_scan(ev@, pos as int, Seq::empty()) == tabs_scan(ev@, p as int, tabs_view(tabs@)),
        decreases n - p,
    {
        match &ev[p] {
            XmlEvent::Start(t) => {
                match read_tab(t) {
                    Some(d) => {
                        let ghost before = tabs@;
                        tabs.push(d);
                        proof {
                            assert(tabs_view(tabs@) =~= tabs_view(before).push(d@));
                        }
                    },
                    None => {},
                }
            },
            XmlEvent::Empty(t) => {
                match read_tab(t) {
                    Some(d) => {
                        let ghost before = tabs@;
                        tabs.push(d);
                        proof {
                            assert(tabs_view(tabs@) =~= tabs_view(before).push(d@));
                        }
                    },
                    None => {},
                }
            },
            XmlEvent::End(name) => {
                if str_eq(name.as_str(), "tabs") {
                    return (tabs, p + 1);
                }
            },
            XmlEvent::Eof => {
                return (tabs, p);
            },
            _ => {},
        }
        p = p + 1;
    }
    (tabs, p)
}

/// An integer attribute, or `d` where it is absent or not a number.
pub open spec fn int_attr_or(t: XmlTag, key: Seq<char>, d: i32) -> i32 {
    match int_attr(t, key) {
        Some(x) => x,
        None => d,
    }
}

/// An integer attribute as twips.
pub open spec fn twip_opt(t: XmlTag, key: Seq<char>) -> Option<Twip> {
    match int_attr(t, key) {
        Some(x) => Some(Twip(x)),
        None => None,
    }
}

/// The pages a header or footer reference applies to.
pub open spec fn hf_type_of(t: XmlTag) -> HeaderFooterType {
    match attr(t, "w:type"@) {
        Some(v) => if v == "first"@ {
            HeaderFooterType::First
        } else if v == "even"@ {
            HeaderFooterType::Even
        } else {
            HeaderFooterType::Default
        },
        None => HeaderFooterType::Default,
    }
}

/// What one child of `w:sectPr` does to the section read so far: page
/// size (letter portrait where a value is missing), margins (an inch
/// where missing), header and footer references with an `r:id`, and the
/// column count.
pub open spec fn sect_tag(m: SectModel, t: XmlTag) -> SectModel {
    let n = t.name@;
    if n == "pgSz"@ {
        SectModel {
            page_size: Some(
                PageSize {
                    width: Twip(int_attr_or(t, "w:w"@, 12240)),
                    height: Twip(int_attr_or(t, "w:h"@, 15840)),
                    orient: match attr(t, "w:orient"@) {
                        Some(v) => Some(
                            if v == "landscape"@ {
                                PageOrientation::Landscape
                            } else {
                                PageOrientation::Portrait
                            },
                        ),
                        None => None,
                    },
                },
            ),
            ..m
        }
    } else if n == "pgMar"@ {
        SectModel {
            margins: Some(
                PageMargins {
                    top: Twip(int_attr_or(t, "w:top"@, 1440)),
                    bottom: Twip(int_attr_or(t, "w:bottom"@, 1440)),
                    left: Twip(int_attr_or(t, "w:left"@, 1440)),
                    right: Twip(int_attr_or(t, "w:right"@, 1440)),
                    header: twip_opt(t, "w:header"@),
                    footer: twip_opt(t, "w:footer"@),
                    gutter: twip_opt(t, "w:gutter"@),
                },
            ),
            ..m
        }
    } else if n == "headerReference"@ {
        match attr_str(t, "r:id"@) {
            Some(rid) => SectModel {
                header_refs: m.header_refs.push(
                    HeaderFooterRef { hf_type: hf_type_of(t), relationship_id: rid },
                ),
                ..m
            },
            None => m,
        }
    } else if n == "footerReference"@ {
        match attr_str(t, "r:id"@) {
            Some(rid) => SectModel {
                footer_refs: m.footer_refs.push(
                    HeaderFooterRef { hf_type: hf_type_of(t), relationship_id: rid },
                ),
                ..m
            },
            None => m,
        }
    } else if n == "cols"@ {
        match attr(t, "w:num"@) {
            Some(v) => SectModel { columns: parse_u32(v), ..m },
            None => m,
        }
    } else {
        m
    }
}

/// Reading `w:sectPr` children from `pos` on, up to `</w:sectPr>`.
pub open spec fn sect_scan(ev: Seq<XmlEvent>, pos: int, m: SectModel) -> (SectModel, int)
    decreases ev.len() - pos,
{
    if pos < 0 || pos >= ev.len() {
        (m, pos)
    } else {
        match ev[pos] {
            XmlEvent::Start(t) => sect_scan(ev, pos + 1, sect_tag(m, t)),
            XmlEvent::Empty(t) => sect_scan(ev, pos + 1, sect_tag(m, t)),
            XmlEvent::End(n) => if n@ == "sectPr"@ {
                (m, pos + 1)
            } else {
                sect_scan(ev, pos + 1, m)
            },
            XmlEvent::Eof => (m, pos),
            _ => sect_scan(ev, pos + 1, m),
        }
    }
}

pub proof fn lemma_sect_scan(ev: Seq<XmlEvent>, pos: int, m: SectModel)
    requires
        0 <= pos <= ev.len(),
    ensures
        pos <= sect_scan(ev, pos, m).1 <= ev.len(),
    decreases ev.len() - pos,
{
    if pos < ev.len() {
        match ev[pos] {
            XmlEvent::Start(t) => lemma_sect_scan(ev, pos + 1, sect_tag(m, t)),
            XmlEvent::Empty(t) => lemma_sect_scan(ev, pos + 1, sect_tag(m, t)),
            XmlEvent::End(n) => {
                if n@ != "sectPr"@ {
                    lemma_sect_scan(ev, pos + 1, m);
                }
            },
            XmlEvent::Eof => {},
            _ => lemma_sect_scan(ev, pos + 1, m),
        }
    }
}

pub(crate) fn read_int_attr_or(t: &XmlTag, key: &str, d: i32) -> (r: i32)
    ensures
        r == int_attr_or(*t, key@, d),
{
    match read_int_attr(t, key) {
        Some(x) => x,
        None => d,
    }
}

fn read_twip_opt(t: &XmlTag, key: &str) -> (r: Option<Twip>)
    ensures
        r == twip_opt(*t, key@),
{
    match read_int_attr(t, key) {
        Some(x) => Some(Twip(x)),
        None => None,
    }
}

fn parse_hf_type(t: &XmlTag) -> (r: HeaderFooterType)
    ensures
        r == hf_type_of(*t),
{
    match get_attr(t, "w:type") {
        Some(v) => {
            if str_eq(v.as_str(), "first") {
                HeaderFooterType::First
            } else if str_eq(v.as_str(), "even") {
                HeaderFooterType::Even
            } else {
                HeaderFooterType::Default
            }
        },
        None => HeaderFooterType::Default,
    }
}

fn apply_sect_tag(m: &mut SectionProperties, t: &XmlTag)
    ensures
        final(m)@ == sect_tag(old(m)@, *t),
{
    if is_named(t, "pgSz") {
        let orient = match get_attr(t, "w:orient") {
            Some(v) => Some(
                if str_eq(v.as_str(), "landscape") {
                    PageOrientation::Landscape
                } else {
                    PageOrientation::Portrait
                },
            ),
            None => None,
        };
        m.page_size = Some(
            PageSize {
                width: Twip(read_int_attr_or(t, "w:w", 12240)),
                height: Twip(read_int_attr_or(t, "w:h", 15840)),
                orient,
            },
        );
    } else if is_named(t, "pgMar") {
        m.margins = Some(
            PageMargins {
                top: Twip(read_int_attr_or(t, "w:top", 1440)),
                bottom: Twip(read_int_attr_or(t, "w:bottom", 1440)),
                left: Twip(read_int_attr_or(t, "w:left", 1440)),
                right: Twip(read_int_attr_or(t, "w:right", 1440)),
                header: read_twip_opt(t, "w:header"),
                footer: read_twip_opt(t, "w:footer"),
                gutter: read_twip_opt(t, "w:gutter"),
            },
        );
    } else if is_named(t, "headerReference") {
        match get_attr(t, "r:id") {
            Some(rid) => {
                m.header_refs.push(
                    HeaderFooterRef { hf_type: parse_hf_type(t), relationship_id: rid },
                );
            },
            None => {},
        }
    } else if is_named(t, "footerReference") {
        match get_attr(t, "r:id") {
            Some(rid) => {
                m.footer_refs.push(
                    HeaderFooterRef { hf_type: parse_hf_type(t), relationship_id: rid },
                );
            },
            None => {},
        }
    } else if is_named(t, "cols") {
        match get_attr(t, "w:num") {
            Some(v) => {
                m.columns = parse_u32_str(v.as_str());
            },
            None => {},
        }
    }
}

/// Reads the children of a `w:sectPr` element.
pub fn parse_section_properties(ev: &[XmlEvent], pos: usize) -> (r: (SectionProperties, usize))
    requires
        pos <= ev@.len(),
        ev@.len() < usize::MAX,
    ensures
        sect_scan(ev@, pos as int, sect_empty()) == (r.0@, r.1 as int),
{
    let n = ev.len();
    let mut m = SectionProperties::default();
    let mut p: usize = pos;
    while p < n
        invariant
            n == ev@.len(),
            n < usize::MAX,
            pos <= p <= n,
            sect_scan(ev@, pos as int, sect_empty()) == sect_scan(ev@, p as int, m@),
        decreases n - p,
    {
        match &ev[p] {
            XmlEvent::Start(t) => {
                apply_sect_tag(&mut m, t);
            },
            XmlEvent::Empty(t) => {
                apply_sect_tag(&mut m, t);
            },
            XmlEvent::End(name) => {
                if str_eq(name.as_str(), "sectPr") {
                    return (m, p + 1);
                }
            },
            XmlEvent::Eof => {
                return (m, p);
            },
            _ => {},
        }
        p = p + 1;
    }
    (m, p)
}

/// What one child element of `w:pPr` that carries its value in
/// attributes does to the paragraph properties read so far; an error
/// where an indentation or spacing value is not a number.
pub open spec fn ppr_tag(m: PprModel, t: XmlTag) -> Result<PprModel, InvalidNumber> {
    let n = t.name@;
    if n == "pStyle"@ {
        match attr_str(t, "w:val"@) {
            Some(v) => Ok(PprModel { style_id: Some(v), ..m }),
            None => Ok(m),
        }
    } else if n == "jc"@ {
        match attr(t, "w:val"@) {
            Some(v) => Ok(PprModel { justification: Some(justification_of(v)), ..m }),
            None => Ok(m),
        }
    } else if n == "ind"@ {
        match indent_of(t) {
            Err(e) => Err(e),
            Ok(i) => Ok(PprModel { indent: Some(i), ..m }),
        }
    } else if n == "spacing"@ {
        match spacing_of(t) {
            Err(e) => Err(e),
            Ok(sp) => Ok(PprModel { spacing: Some(sp), ..m }),
        }
    } else if n == "outlineLvl"@ {
        match attr(t, "w:val"@) {
            Some(v) => Ok(PprModel { outline_level: outline_level_of(v), ..m }),
            None => Ok(m),
        }
    } else if n == "framePr"@ {
        Ok(PprModel { frame_position: frame_of(t), ..m })
    } else if n == "keepNext"@ {
        Ok(PprModel { keep_next: Some(toggle(t)), ..m })
    } else if n == "keepLines"@ {
        Ok(PprModel { keep_lines: Some(toggle(t)), ..m })
    } else if n == "pageBreakBefore"@ {
        Ok(PprModel { page_break_before: Some(toggle(t)), ..m })
    } else if n == "shd"@ {
        Ok(PprModel { shading: Some(shading_of(t)), ..m })
    } else {
        Ok(m)
    }
}

/// Reading `w:pPr` children from `pos` on, up to `</w:pPr>`: numbering,
/// run properties, section, borders and tabs are read from their start
/// tags' content; other start tags update the properties from their
/// attributes and have their content skipped; empty elements update them
/// too, except those five, which are ignored.
pub open spec fn ppr_scan(ev: Seq<XmlEvent>, pos: int, m: PprModel) -> Result<
    (PprModel, int),
    InvalidNumber,
>
    decreases ev.len() - pos,
{
    if pos < 0 || pos >= ev.len() {
        Ok((m, pos))
    } else {
        match ev[pos] {
            XmlEvent::Start(t) => {
                let n = t.name@;
                if n == "numPr"@ {
                    let (nr, next) = numpr_scan(ev, pos + 1, 0, 0);
                    proof {
                        lemma_numpr_scan(ev, pos + 1, 0, 0);
                    }
                    ppr_scan(ev, next, PprModel { numbering_ref: Some(nr), ..m })
                } else if n == "rPr"@ {
                    match rpr_scan(ev, pos + 1, rpr_empty()) {
                        Err(e) => Err(e),
                        Ok((rp, next)) => {
                            proof {
                                lemma_rpr_scan(ev, pos + 1, rpr_empty());
                            }
                            ppr_scan(ev, next, PprModel { run_properties: Some(rp), ..m })
                        },
                    }
                } else if n == "sectPr"@ {
                    let (sp, next) = sect_scan(ev, pos + 1, sect_empty());
                    proof {
                        lemma_sect_scan(ev, pos + 1, sect_empty());
                    }
                    ppr_scan(ev, next, PprModel { section_properties: Some(sp), ..m })
                } else if n == "pBdr"@ {
                    let (b, next) = pbdr_scan(ev, pos + 1, pbdr_empty());
                    proof {
                        lemma_pbdr_scan(ev, pos + 1, pbdr_empty());
                    }
                    ppr_scan(
                        ev,
                        next,
                        PprModel { has_bottom_border: b.bottom is Some, borders: Some(b), ..m },
                    )
                } else if n == "tabs"@ {
                    let (tb, next) = tabs_scan(ev, pos + 1, Seq::empty());
                    proof {
                        lemma_tabs_scan(ev, pos + 1, Seq::empty());
                    }
                    ppr_scan(ev, next, PprModel { tabs: tb, ..m })
                } else {
                    match ppr_tag(m, t) {
                        Err(e) => Err(e),
                        Ok(q) => {
                            proof {
                                lemma_skip_end(ev, pos + 1, 1);
                            }
                            ppr_scan(ev, skip_end(ev, pos + 1, 1), q)
                        },
                    }
                }
            },
            XmlEvent::Empty(t) => match ppr_tag(m, t) {
                Err(e) => Err(e),
                Ok(q) => ppr_scan(ev, pos + 1, q),
            },
            XmlEvent::End(n) => if n@ == "pPr"@ {
                Ok((m, pos + 1))
            } else {
                ppr_scan(ev, pos + 1, m)
            },
            XmlEvent::Eof => Ok((m, pos)),
            _ => ppr_scan(ev, pos + 1, m),
        }
    }
}

pub proof fn lemma_ppr_scan(ev: Seq<XmlEvent>, pos: int, m: PprModel)
    requires
        0 <= pos <= ev.len(),
    ensures
        ppr_scan(ev, pos, m) matches Ok((_, n)) ==> pos <= n <= ev.len(),
    decreases ev.len() - pos,
{
    if pos < ev.len() {
        match ev[pos] {
            XmlEvent::Start(t) => {
                let n = t.name@;
                if n == "numPr"@ {
                    let (nr, next) = numpr_scan(ev, pos + 1, 0, 0);
                    lemma_numpr_scan(ev, pos + 1, 0, 0);
                    lemma_ppr_scan(ev, next, PprModel { numbering_ref: Some(nr), ..m });
                } else if n == "rPr"@ {
                    lemma_rpr_scan(ev, pos + 1, rpr_empty());
                    if let Ok((rp, next)) = rpr_scan(ev, pos + 1, rpr_empty()) {
                        lemma_ppr_scan(ev, next, PprModel { run_properties: Some(rp), ..m });
                    }
                } else if n == "sectPr"@ {
                    let (sp, next) = sect_scan(ev, pos + 1, sect_empty());
                    lemma_sect_scan(ev, pos + 1, sect_empty());
                    lemma_ppr_scan(ev, next, PprModel { section_properties: Some(sp), ..m });
                } else if n == "pBdr"@ {
                    let (b, next) = pbdr_scan(ev, pos + 1, pbdr_empty());
                    lemma_pbdr_scan(ev, pos + 1, pbdr_empty());
                    lemma_ppr_scan(
                        ev,
                        next,
                        PprModel { has_bottom_border: b.bottom is Some, borders: Some(b), ..m },
                    );
                } else if n == "tabs"@ {
                    let (tb, next) = tabs_scan(ev, pos + 1, Seq::empty());
                    lemma_tabs_scan(ev, pos + 1, Seq::empty());
                    lemma_ppr_scan(ev, next, PprModel { tabs: tb, ..m });
                } else {
                    lemma_skip_end(ev, pos + 1, 1);
                    if let Ok(q) = ppr_tag(m, t) {
                        lemma_ppr_scan(ev, skip_end(ev, pos + 1, 1), q);
                    }
                }
            },
            XmlEvent::Empty(t) => {
                if let Ok(q) = ppr_tag(m, t) {
                    lemma_ppr_scan(ev, pos + 1, q);
                }
            },
            XmlEvent::End(n) => {
                if n@ != "pPr"@ {
                    lemma_ppr_scan(ev, pos + 1, m);
                }
            },
            XmlEvent::Eof => {},
            _ => lemma_ppr_scan(ev, pos + 1, m),
        }
    }
}

/// `ppr_tag` as an executable step.
fn apply_ppr_tag(p: &mut ParagraphProperties, t: &XmlTag) -> (r: Result<(), InvalidNumber>)
    ensures
        match ppr_tag(old(p)@, *t) {
            Ok(q) => r is Ok && final(p)@ == q,
            Err(e) => r == Err::<(), InvalidNumber>(e),
        },
{
    if is_named(t, "pStyle") {
        match get_attr(t, "w:val") {
            Some(v) => {
                p.style_id = Some(v);
            },
            None => {},
        }
    } else if is_named(t, "jc") {
        match get_attr(t, "w:val") {
            Some(v) => {
                p.justification = Some(parse_justification_value(v.as_str()));
            },
            None => {},
        }
    } else if is_named(t, "ind") {
        let i = parse_indent(t)?;
        p.indent = Some(i);
    } else if is_named(t, "spacing") {
        let sp = parse_spacing(t)?;
        p.spacing = Some(sp);
    } else if is_named(t, "outlineLvl") {
        match get_attr(t, "w:val") {
            Some(v) => {
                p.outline_level = parse_outline_level(v.as_str());
            },
            None => {},
        }
    } else if is_named(t, "framePr") {
        p.frame_position = parse_frame_pr(t);
    } else if is_named(t, "keepNext") {
        p.keep_next = Some(parse_toggle(t));
    } else if is_named(t, "keepLines") {
        p.keep_lines = Some(parse_toggle(t));
    } else if is_named(t, "pageBreakBefore") {
        p.page_break_before = Some(parse_toggle(t));
    } else if is_named(t, "shd") {
        p.shading = Some(Box::new(parse_shading(t)));
    }
    Ok(())
}

/// Reads the children of a `w:pPr` element whose start tag was read just
/// before `pos`, and returns them with the position after its end tag.
pub fn parse_paragraph_properties_fast(ev: &[XmlEvent], pos: usize) -> (r: Result<
    (ParagraphProperties, usize),
    InvalidNumber,
>)
    requires
        pos <= ev@.len(),
        ev@.len() < usize::MAX,
    ensures
        match r {
            Ok((p, n)) => ppr_scan(ev@, pos as int, ppr_empty()) == Ok::<
                (PprModel, int),
                InvalidNumber,
            >((p@, n as int)),
            Err(e) => ppr_scan(ev@, pos as int, ppr_empty()) == Err::<
                (PprModel, int),
                InvalidNumber,
            >(e),
        },
{
    let n = ev.len();
    let mut props = ParagraphProperties::default();
    let mut p: usize = pos;
    while p < n
        invariant
            n == ev@.len(),
            n < usize::MAX,
            pos <= p <= n,
            ppr_scan(ev@, pos as int, ppr_empty()) == ppr_scan(ev@, p as int, props@),
        decreases n - p,
    {
        match &ev[p] {
            XmlEvent::Start(t) => {
                if is_named(t, "numPr") {
                    let (nr, next) = parse_num_pr_fast(ev, p + 1);
                    proof {
                        lemma_numpr_scan(ev@, p + 1, 0, 0);
                    }
                    props.numbering_ref = Some(nr);
                    p = next;
                } else if is_named(t, "rPr") {
                    proof {
                        lemma_rpr_scan(ev@, p + 1, rpr_empty());
                    }
                    let (rp, next) = parse_run_properties_fast(ev, p + 1)?;
                    props.run_properties = Some(Box::new(rp));
                    p = next;
                } else if is_named(t, "sectPr") {
                    let (sp, next) = parse_section_properties(ev, p + 1);
                    proof {
                        lemma_sect_scan(ev@, p + 1, sect_empty());
                    }
                    props.section_properties = Some(Box::new(sp));
                    p = next;
                } else if is_named(t, "pBdr") {
                    let (b, next) = parse_paragraph_borders_fast(ev, p + 1);
                    proof {
                        lemma_pbdr_scan(ev@, p + 1, pbdr_empty());
                    }
                    props.has_bottom_border = b.bottom.is_some();
                    props.borders = Some(Box::new(b));
                    p = next;
                } else if is_named(t, "tabs") {
                    let (tb, next) = parse_tabs_fast(ev, p + 1);
                    proof {
                        lemma_tabs_scan(ev@, p + 1, Seq::empty());
                    }
                    props.tabs = tb;
                    p = next;
                } else {
                    apply_ppr_tag(&mut props, t)?;
                    p = skip_element(ev, p + 1);
                }
            },
            XmlEvent::Empty(t) => {
                apply_ppr_tag(&mut props, t)?;
                p = p + 1;
            },
            XmlEvent::End(name) => {
                if str_eq(name.as_str(), "pPr") {
                    return Ok((props, p + 1));
                }
                p = p + 1;
            },
            XmlEvent::Eof => {
                return Ok((props, p));
            },
            _ => {
                p = p + 1;
            },
        }
    }
    Ok((props, p))
}

} // verus!
