//! The format-agnostic intermediate representation of a document.

use vstd::prelude::*;
use crate::format::DocumentFormat;
use crate::doc::images::ImageFormat as BlipFormat;

verus! {

/// The value a defaulted boolean field takes when it is absent.
pub fn default_true() -> (r: bool)
    ensures
        r,
{
    true
}

/// Underline style for a text span.
#[derive(Debug, Clone, Copy, PartialEq, Eq, Structural)]
pub enum UnderlineStyle {
    /// Single underline.
    Single,
    /// Double underline.
    Double,
    /// Thick underline.
    Thick,
    /// Dotted underline.
    Dotted,
    /// Dashed underline.
    Dash,
    /// Dot-dash underline.
    DotDash,
    /// Dot-dot-dash underline.
    DotDotDash,
    /// Wavy underline.
    Wave,
    /// Underline applied only to words (not spaces).
    Words,
    /// No underline.
    NoUnderline,
}

/// Paragraph text alignment.
#[derive(Debug, Clone, Copy, PartialEq, Eq, Structural)]
pub enum ParagraphAlignment {
    /// Left-aligned.
    Left,
    /// Centered.
    Center,
    /// Right-aligned.
    Right,
    /// Justified (both edges).
    Justify,
    /// Distributed (space between characters).
    Distribute,
}

/// Line spacing rule for a paragraph, in twentieths of a point.
#[derive(Debug, Clone, Copy, PartialEq, Eq, Structural)]
pub enum LineSpacing {
    /// Automatic line height scaled by the given value.
    Auto(u32),
    /// Multiple of normal line height (same units as `Auto`).
    Multiple(u32),
    /// Exact line height.
    Exact(u32),
    /// At-least line height.
    AtLeast(u32),
}

/// Border style.
#[derive(Debug, Clone, Copy, PartialEq, Eq, Structural)]
pub enum BorderStyle {
    /// No border.
    NoBorder,
    /// Single-line border.
    Single,
    /// Thick single-line border.
    Thick,
    /// Double-line border.
    Double,
    /// Dotted border.
    Dotted,
    /// Dashed border.
    Dashed,
    /// Wavy border.
    Wave,
    /// Dashed border with small gaps.
    DashSmallGap,
    /// Outset (3-D) border.
    Outset,
    /// Inset (3-D) border.
    Inset,
}

/// Vertical alignment within a table cell.
#[derive(Debug, Clone, Copy, PartialEq, Eq, Structural)]
pub enum CellVerticalAlign {
    /// Top of the cell.
    Top,
    /// Middle of the cell.
    Center,
    /// Bottom of the cell.
    Bottom,
}

/// Horizontal alignment of a table on the page.
#[derive(Debug, Clone, Copy, PartialEq, Eq, Structural)]
pub enum TableAlignment {
    /// Aligned to the left margin.
    Left,
    /// Centered on the page.
    Center,
    /// Aligned to the right margin.
    Right,
}

/// Text direction within a cell or frame.
#[derive(Debug, Clone, Copy, PartialEq, Eq, Structural)]
pub enum TextDirection {
    /// Left-to-right, top-to-bottom (default).
    LrTb,
    /// Top-to-bottom, right-to-left (vertical CJK).
    TbRl,
    /// Bottom-to-top, left-to-right (rotated).
    BtLr,
}

/// Raster / vector image format.
#[derive(Debug, Clone, Copy, PartialEq, Eq, Structural)]
pub enum ImageFormat {
    /// PNG raster image.
    Png,
    /// JPEG raster image.
    Jpeg,
    /// GIF raster image.
    Gif,
    /// TIFF raster image.
    Tiff,
    /// BMP raster image.
    Bmp,
    /// Enhanced Metafile vector image.
    Emf,
    /// Windows Metafile vector image.
    Wmf,
}

/// The image format a BLIP of a legacy Word file holds; none for PICT
/// and unknown records.
pub open spec fn blip_image_format(f: BlipFormat) -> Option<ImageFormat> {
    match f {
        BlipFormat::Emf => Some(ImageFormat::Emf),
        BlipFormat::Wmf => Some(ImageFormat::Wmf),
        BlipFormat::Jpeg => Some(ImageFormat::Jpeg),
        BlipFormat::Png => Some(ImageFormat::Png),
        BlipFormat::Dib => Some(ImageFormat::Bmp),
        BlipFormat::Tiff => Some(ImageFormat::Tiff),
        BlipFormat::Pict => None,
        BlipFormat::Unknown(_) => None,
    }
}

impl ImageFormat {
    /// The image format of a BLIP; `None` for PICT and unknown records.
    pub fn from_blip(f: &BlipFormat) -> (r: Option<Self>)
        ensures
            r == blip_image_format(*f),
    {
        match f {
            BlipFormat::Emf => Some(ImageFormat::Emf),
            BlipFormat::Wmf => Some(ImageFormat::Wmf),
            BlipFormat::Jpeg => Some(ImageFormat::Jpeg),
            BlipFormat::Png => Some(ImageFormat::Png),
            BlipFormat::Dib => Some(ImageFormat::Bmp),
            BlipFormat::Tiff => Some(ImageFormat::Tiff),
            BlipFormat::Pict => None,
            BlipFormat::Unknown(_) => None,
        }
    }

    /// Returns the MIME content-type string for this image format.
    pub fn content_type(&self) -> (r: &'static str)
        ensures
            r@ == match *self {
                ImageFormat::Png => "image/png"@,
                ImageFormat::Jpeg => "image/jpeg"@,
                ImageFormat::Gif => "image/gif"@,
                ImageFormat::Tiff => "image/tiff"@,
                ImageFormat::Bmp => "image/bmp"@,
                ImageFormat::Emf => "image/x-emf"@,
                ImageFormat::Wmf => "image/x-wmf"@,
            },
    {
        match self {
            ImageFormat::Png => "image/png",
            ImageFormat::Jpeg => "image/jpeg",
            ImageFormat::Gif => "image/gif",
            ImageFormat::Tiff => "image/tiff",
            ImageFormat::Bmp => "image/bmp",
            ImageFormat::Emf => "image/x-emf",
            ImageFormat::Wmf => "image/x-wmf",
        }
    }

    /// Returns the file extension (without leading dot) for this image format.
    pub fn extension(&self) -> (r: &'static str)
        ensures
            r@ == match *self {
                ImageFormat::Png => "png"@,
                ImageFormat::Jpeg => "jpg"@,
                ImageFormat::Gif => "gif"@,
                ImageFormat::Tiff => "tiff"@,
                ImageFormat::Bmp => "bmp"@,
                ImageFormat::Emf => "emf"@,
                ImageFormat::Wmf => "wmf"@,
            },
    {
        match self {
            ImageFormat::Png => "png",
            ImageFormat::Jpeg => "jpg",
            ImageFormat::Gif => "gif",
            ImageFormat::Tiff => "tiff",
            ImageFormat::Bmp => "bmp",
            ImageFormat::Emf => "emf",
            ImageFormat::Wmf => "wmf",
        }
    }
}

/// Positioning data for a floating (non-inline) image.
#[derive(Debug, Clone, Copy, PartialEq, Eq, Structural)]
pub struct FloatingImage {
    /// Horizontal offset from the anchor in EMUs.
    pub x_emu: i64,
    /// Vertical offset from the anchor in EMUs.
    pub y_emu: i64,
    /// Display width in EMUs.
    pub width_emu: u64,
    /// Display height in EMUs.
    pub height_emu: u64,
    /// Horizontal anchor reference frame.
    pub h_anchor: FloatAnchor,
    /// Vertical anchor reference frame.
    pub v_anchor: FloatAnchor,
    /// Text wrap mode around the image.
    pub text_wrap: TextWrap,
    /// Whether the image may overlap other floating objects.
    pub allow_overlap: bool,
}

/// How an image is positioned relative to surrounding text.
#[derive(Debug, Clone, Copy, PartialEq, Eq, Structural, Default)]
pub enum ImagePositioning {
    /// Image flows inline with surrounding text.
    #[default]
    Inline,
    /// Image is anchored at a fixed position with text wrap.
    Floating(FloatingImage),
}

/// Section break type.
#[derive(Debug, Clone, Copy, PartialEq, Eq, Structural, Default)]
pub enum SectionBreakType {
    /// Continuous section break (no page break).
    #[default]
    Continuous,
    /// Section starts on the next page.
    NextPage,
    /// Section starts on the next even-numbered page.
    EvenPage,
    /// Section starts on the next odd-numbered page.
    OddPage,
}

/// Vertical text alignment (superscript / subscript).
#[derive(Debug, Clone, Copy, PartialEq, Eq, Structural)]
pub enum VerticalAlign {
    /// Raised above the baseline.
    Superscript,
    /// Lowered below the baseline.
    Subscript,
    /// Normal baseline position.
    Baseline,
}

/// Anchor reference for a floating object.
#[derive(Debug, Clone, Copy, PartialEq, Eq, Structural, Default)]
pub enum FloatAnchor {
    /// Relative to the page.
    #[default]
    Page,
    /// Relative to the page margin.
    Margin,
    /// Relative to the column.
    Column,
    /// Relative to the paragraph.
    Paragraph,
}

/// Text wrap mode around a floating object.
#[derive(Debug, Clone, Copy, PartialEq, Eq, Structural, Default)]
pub enum TextWrap {
    /// Wraps around a rectangular bounding box.
    #[default]
    Square,
    /// Wraps tightly around the contour.
    Tight,
    /// Wraps through the contour.
    Through,
    /// Text only above and below.
    TopAndBottom,
    /// Behind the text layer.
    Behind,
    /// In front of the text layer.
    InFront,
}

/// List marker style.
#[derive(Debug, Clone, Copy, PartialEq, Eq, Structural)]
pub enum ListStyle {
    /// Filled circle bullet.
    Bullet,
    /// Decimal numbers.
    Decimal,
    /// Lowercase Roman numerals.
    LowerRoman,
    /// Uppercase Roman numerals.
    UpperRoman,
    /// Lowercase letters.
    LowerAlpha,
    /// Uppercase letters.
    UpperAlpha,
    /// Dash marker.
    Dash,
    /// Square bullet.
    Square,
    /// Open circle bullet.
    Circle,
}

/// A single border line definition.
#[derive(Debug, Clone, Copy, PartialEq, Eq)]
pub struct BorderLine {
    /// Border line style.
    pub style: BorderStyle,
    /// Border colour (RGB), if specified.
    pub color: Option<[u8; 3]>,
    /// Line width in eighths of a point.
    pub size: Option<u32>,
    /// Spacing between border and content in points.
    pub space: Option<u32>,
}

/// Full border set for a table (all six edges).
#[derive(Debug, Clone, Copy, PartialEq, Eq)]
pub struct TableBorder {
    /// Top border.
    pub top: Option<BorderLine>,
    /// Bottom border.
    pub bottom: Option<BorderLine>,
    /// Left border.
    pub left: Option<BorderLine>,
    /// Right border.
    pub right: Option<BorderLine>,
    /// Horizontal interior borders.
    pub inside_h: Option<BorderLine>,
    /// Vertical interior borders.
    pub inside_v: Option<BorderLine>,
}

/// Page geometry and margins (all values in twips).
#[derive(Debug, Clone, Copy, PartialEq, Eq, Structural)]
pub struct PageSetup {
    /// Page width.
    pub width_twips: u32,
    /// Page height.
    pub height_twips: u32,
    /// Top margin.
    pub margin_top_twips: u32,
    /// Bottom margin.
    pub margin_bottom_twips: u32,
    /// Left margin.
    pub margin_left_twips: u32,
    /// Right margin.
    pub margin_right_twips: u32,
    /// Landscape orientation.
    pub landscape: bool,
    /// Distance from top edge to header.
    pub header_distance_twips: u32,
    /// Distance from bottom edge to footer.
    pub footer_distance_twips: u32,
}

impl Default for PageSetup {
    /// US Letter portrait with one-inch top/bottom and 1.25-inch side margins.
    fn default() -> (r: Self)
        ensures
            r == (PageSetup {
                width_twips: 12240,
                height_twips: 15840,
                margin_top_twips: 1440,
                margin_bottom_twips: 1440,
                margin_left_twips: 1800,
                margin_right_twips: 1800,
                landscape: false,
                header_distance_twips: 720,
                footer_distance_twips: 720,
            }),
    {
        PageSetup {
            width_twips: 12240,
            height_twips: 15840,
            margin_top_twips: 1440,
            margin_bottom_twips: 1440,
            margin_left_twips: 1800,
            margin_right_twips: 1800,
            landscape: false,
            header_distance_twips: 720,
            footer_distance_twips: 720,
        }
    }
}

/// Multi-column layout for a section.
#[derive(Debug, Clone, PartialEq, Eq, Default)]
pub struct ColumnLayout {
    /// Number of columns.
    pub count: u32,
    /// Space between columns in twips.
    pub space_twips: Option<u32>,
    /// Whether a vertical separator line is drawn between columns.
    pub separator: bool,
    /// Per-column widths in twips.
    pub column_widths_twips: Vec<u32>,
}

/// Paragraph border (four sides plus between-paragraph rule).
#[derive(Debug, Clone, Copy, PartialEq, Eq)]
pub struct ParagraphBorder {
    /// Top border.
    pub top: Option<BorderLine>,
    /// Bottom border.
    pub bottom: Option<BorderLine>,
    /// Left border.
    pub left: Option<BorderLine>,
    /// Right border.
    pub right: Option<BorderLine>,
    /// Border between consecutive bordered paragraphs.
    pub between: Option<BorderLine>,
}

/// Per-edge cell padding (all values in twips).
#[derive(Debug, Clone, Copy, PartialEq, Eq, Structural)]
pub struct CellPadding {
    /// Top padding.
    pub top_twips: Option<u32>,
    /// Bottom padding.
    pub bottom_twips: Option<u32>,
    /// Left padding.
    pub left_twips: Option<u32>,
    /// Right padding.
    pub right_twips: Option<u32>,
}

/// An inline reference mark pointing to a footnote or endnote.
#[derive(Debug, Clone, PartialEq, Eq, Default)]
pub struct FootnoteRef {
    /// Numeric identifier of the referenced note.
    pub note_id: u32,
    /// Optional custom marker text.
    pub marker: Option<String>,
}

/// A preformatted code block with an optional language tag.
#[derive(Debug, Clone, PartialEq, Eq, Default)]
pub struct CodeBlock {
    /// Optional language identifier.
    pub language: Option<String>,
    /// The preformatted code text.
    pub content: String,
}

/// A defined name (named range, print area, …) from a workbook.
#[derive(Debug, Clone, PartialEq, Eq, Default)]
pub struct DefinedName {
    /// Name string.
    pub name: String,
    /// Formula or reference value.
    pub value: String,
    /// Sheet scope (0-based), when not workbook-wide.
    pub local_sheet_id: Option<u32>,
    /// Whether the name is hidden in the Name Manager UI.
    pub hidden: bool,
}

/// Document-level metadata extracted from the source file.
#[derive(Debug, Clone, PartialEq, Eq, Default)]
pub struct Metadata {
    /// The source format.
    pub format: DocumentFormat,
    /// Document title.
    pub title: Option<String>,
    /// Document author.
    pub author: Option<String>,
    /// Document subject.
    pub subject: Option<String>,
    /// Keywords / tags.
    pub keywords: Vec<String>,
    /// Creation date (ISO-8601 string).
    pub created: Option<String>,
    /// Last-modified date (ISO-8601 string).
    pub modified: Option<String>,
    /// Document description / comments.
    pub description: Option<String>,
    /// The source carries a macro/VBA project.
    pub has_macros: bool,
    /// Parsing hit a known, detectable cause of missing content.
    pub text_truncated: bool,
}

/// A conditional formatting rule from a worksheet.
#[derive(Debug, Clone, PartialEq, Eq, Default)]
pub struct ConditionalFormat {
    /// The cell range(s) the rule applies to.
    pub range: String,
    /// Rule type, in XLSX's own vocabulary.
    pub rule_type: String,
    /// The comparison operator, when the rule type uses one.
    pub operator: Option<String>,
    /// Formula(s) driving the rule.
    pub formulas: Vec<String>,
}

/// A data validation rule from a worksheet.
#[derive(Debug, Clone, PartialEq, Eq, Default)]
pub struct DataValidation {
    /// The cell range(s) the rule applies to.
    pub range: String,
    /// Validation type, in XLSX's own vocabulary.
    pub validation_type: String,
    /// The comparison operator, when the type uses one.
    pub operator: Option<String>,
    /// The first comparison value / formula / list source.
    pub formula1: Option<String>,
    /// The second comparison value.
    pub formula2: Option<String>,
    /// Whether an empty cell is considered valid.
    pub allow_blank: bool,
}

/// Vector-shape geometry kinds.
#[derive(Debug, Clone, Copy, PartialEq, Eq, Structural, Default)]
pub enum ShapeGeom {
    /// Straight line from `(x, y)` to `(x + width, y + height)`.
    #[default]
    Line,
    /// Axis-aligned rectangle.
    Rect,
}

/// A vector shape anchored at absolute page coordinates.
#[derive(Debug, Clone, Copy, PartialEq, Eq, Default)]
pub struct Shape {
    /// Geometry kind.
    pub kind: ShapeGeom,
    /// X offset from the anchor in EMUs.
    pub x_emu: i64,
    /// Y offset from the anchor in EMUs.
    pub y_emu: i64,
    /// Width in EMUs.
    pub width_emu: u64,
    /// Height in EMUs.
    pub height_emu: u64,
    /// Horizontal anchor reference frame.
    pub h_anchor: FloatAnchor,
    /// Vertical anchor reference frame.
    pub v_anchor: FloatAnchor,
    /// Stroke colour as RGB.
    pub stroke_rgb: Option<[u8; 3]>,
    /// Fill colour as RGB.
    pub fill_rgb: Option<[u8; 3]>,
    /// Stroke width in EMUs.
    pub stroke_w_emu: Option<i64>,
}

/// Alignment of a tab stop.
#[derive(Debug, Clone, Copy, PartialEq, Eq, Structural)]
pub enum TabAlignment {
    /// Text starts at the tab stop.
    Left,
    /// Text is centred on the tab stop.
    Center,
    /// Text ends at the tab stop.
    Right,
    /// Decimal-aligned on the tab stop.
    Decimal,
    /// A vertical bar at the tab stop.
    Bar,
}

/// Leader character drawn in the gap before a tab stop.
#[derive(Debug, Clone, Copy, PartialEq, Eq, Structural)]
pub enum TabLeader {
    /// No leader.
    NoLeader,
    /// Dotted leader.
    Dot,
    /// Hyphenated leader.
    Hyphen,
    /// Underlined leader.
    Underscore,
    /// Heavy line leader.
    Heavy,
    /// Middle-dot leader.
    MiddleDot,
}

/// A paragraph tab stop.
#[derive(Debug, Clone, Copy, PartialEq, Eq, Structural)]
pub struct TabStop {
    /// Position from the paragraph start, in twips.
    pub position_twips: i32,
    /// Alignment of text at the tab stop.
    pub alignment: TabAlignment,
    /// Leader character drawn in the gap before the tab stop.
    pub leader: TabLeader,
}

/// Absolute frame position for a paragraph anchored to the page (twips).
#[derive(Debug, Clone, Copy, PartialEq, Eq, Structural)]
pub struct FramePosition {
    /// X position.
    pub x_twips: i32,
    /// Y position.
    pub y_twips: i32,
    /// Frame width.
    pub width_twips: i32,
    /// Frame height.
    pub height_twips: i32,
}

/// A styled run of text.
#[derive(Debug, Clone, PartialEq, Eq, Default)]
pub struct TextSpan {
    /// The text content.
    pub text: String,
    /// Bold.
    pub bold: bool,
    /// Italic.
    pub italic: bool,
    /// Strikethrough.
    pub strikethrough: bool,
    /// Optional hyperlink URL.
    pub hyperlink: Option<String>,
    /// Font size in half-points.
    pub font_size_half_pt: Option<u32>,
    /// Foreground colour (RGB).
    pub color: Option<[u8; 3]>,
    /// Underline style, if any.
    pub underline: Option<UnderlineStyle>,
    /// Font family name.
    pub font_name: Option<String>,
    /// Highlight / background colour (RGB).
    pub highlight: Option<[u8; 3]>,
    /// Superscript / subscript alignment.
    pub vertical_align: Option<VerticalAlign>,
    /// All characters rendered as uppercase.
    pub all_caps: bool,
    /// Lowercase letters rendered as smaller capitals.
    pub small_caps: bool,
    /// Character spacing in half-points.
    pub char_spacing_half_pt: Option<i32>,
}

/// Whether a span carries no styling beyond its text.
pub open spec fn is_unstyled(s: TextSpan) -> bool {
    &&& !s.bold
    &&& !s.italic
    &&& !s.strikethrough
    &&& s.hyperlink is None
    &&& s.font_size_half_pt is None
    &&& s.color is None
    &&& s.underline is None
    &&& s.font_name is None
    &&& s.highlight is None
    &&& s.vertical_align is None
    &&& !s.all_caps
    &&& !s.small_caps
    &&& s.char_spacing_half_pt is None
}

impl TextSpan {
    /// Create a plain (unformatted) text span.
    pub fn plain(text: String) -> (r: TextSpan)
        ensures
            r.text@ == text@,
            is_unstyled(r),
    {
        TextSpan {
            text,
            bold: false,
            italic: false,
            strikethrough: false,
            hyperlink: None,
            font_size_half_pt: None,
            color: None,
            underline: None,
            font_name: None,
            highlight: None,
            vertical_align: None,
            all_caps: false,
            small_caps: false,
            char_spacing_half_pt: None,
        }
    }
}

/// Inline content within a paragraph or heading.
#[derive(Debug, Clone, PartialEq, Eq)]
pub enum InlineContent {
    /// A styled text span.
    Text(TextSpan),
    /// A line break within a paragraph.
    LineBreak,
    /// An inline footnote reference mark.
    FootnoteRef(FootnoteRef),
    /// An inline endnote reference mark.
    EndnoteRef(FootnoteRef),
}

/// The plain text of inline content: spans verbatim, line breaks as `\n`,
/// note references dropped.
pub open spec fn spec_inline_text(c: Seq<InlineContent>) -> Seq<char>
    decreases c.len(),
{
    if c.len() == 0 {
        Seq::empty()
    } else {
        spec_inline_text(c.drop_last()) + match c.last() {
            InlineContent::Text(span) => span.text@,
            InlineContent::LineBreak => seq!['\n'],
            _ => Seq::empty(),
        }
    }
}

/// Concatenate inline content into plain text: `Text` spans verbatim,
/// `LineBreak` as `\n`, note references dropped.
pub fn inline_to_text(content: &[InlineContent]) -> (r: String)
    ensures
        r@ == spec_inline_text(content@),
{
    let mut out = String::new();
    let mut i: usize = 0;
    while i < content.len()
        invariant
            i <= content@.len(),
            out@ == spec_inline_text(content@.take(i as int)),
        decreases content@.len() - i,
    {
        assert(content@.take(i + 1 as int).drop_last() == content@.take(i as int));
        match &content[i] {
            InlineContent::Text(span) => out.append(span.text.as_str()),
            InlineContent::LineBreak => crate::text::push_char(&mut out, '\n'),
            _ => {},
        }
        i = i + 1;
    }
    assert(content@.take(content@.len() as int) == content@);
    out
}

/// A heading element with a nesting level.
#[derive(Debug, Clone, PartialEq, Eq, Default)]
pub struct Heading {
    /// Heading level 1–6 (1 = largest); read it through `clamped_level`.
    pub level: u8,
    /// Inline content of the heading.
    pub content: Vec<InlineContent>,
    /// Absolute frame position.
    pub frame_position: Option<FramePosition>,
    /// Horizontal alignment.
    pub alignment: Option<ParagraphAlignment>,
    /// Left indent in twips.
    pub indent_left_twips: Option<i32>,
    /// Right indent in twips.
    pub indent_right_twips: Option<i32>,
    /// First-line indent in twips, negative = hanging.
    pub first_line_indent_twips: Option<i32>,
    /// Space before the heading in twips.
    pub space_before_twips: Option<u32>,
    /// Space after the heading in twips.
    pub space_after_twips: Option<u32>,
    /// Line spacing rule.
    pub line_spacing: Option<LineSpacing>,
    /// Background / shading colour.
    pub background_color: Option<[u8; 3]>,
    /// Borders.
    pub border: Option<ParagraphBorder>,
    /// Tab stops.
    pub tabs: Vec<TabStop>,
    /// Keep on the same page as the next paragraph.
    pub keep_with_next: bool,
    /// Prevent a page break within this heading.
    pub keep_together: bool,
    /// Force a page break before this heading.
    pub page_break_before: bool,
}

impl Heading {
    /// The heading level clamped into the documented 1–6 range.
    pub fn clamped_level(&self) -> (r: u8)
        ensures
            1 <= r <= 6,
            1 <= self.level <= 6 ==> r == self.level,
            self.level < 1 ==> r == 1,
            self.level > 6 ==> r == 6,
    {
        if self.level < 1 {
            1
        } else if self.level > 6 {
            6
        } else {
            self.level
        }
    }
}

/// The level a heading takes when none is given.
pub fn default_heading_level() -> (r: u8)
    ensures
        r == 1,
{
    1
}

/// A paragraph of inline content.
#[derive(Debug, Clone, PartialEq, Eq, Default)]
pub struct Paragraph {
    /// Inline runs making up this paragraph.
    pub content: Vec<InlineContent>,
    /// Horizontal alignment.
    pub alignment: Option<ParagraphAlignment>,
    /// Left indent in twips.
    pub indent_left_twips: Option<i32>,
    /// Right indent in twips.
    pub indent_right_twips: Option<i32>,
    /// First-line indent in twips (negative = hanging).
    pub first_line_indent_twips: Option<i32>,
    /// Space before the paragraph in twips.
    pub space_before_twips: Option<u32>,
    /// Space after the paragraph in twips.
    pub space_after_twips: Option<u32>,
    /// Line spacing rule.
    pub line_spacing: Option<LineSpacing>,
    /// Background / shading colour (RGB).
    pub background_color: Option<[u8; 3]>,
    /// Paragraph borders.
    pub border: Option<ParagraphBorder>,
    /// Tab stops.
    pub tabs: Vec<TabStop>,
    /// Keep on the same page as the next paragraph.
    pub keep_with_next: bool,
    /// Prevent a page break within this paragraph.
    pub keep_together: bool,
    /// Force a page break before this paragraph.
    pub page_break_before: bool,
    /// Outline level: `0` is Heading 1 … `9` means body text.
    pub outline_level: Option<u8>,
    /// Absolute frame position.
    pub frame_position: Option<FramePosition>,
    /// Placeholder role this paragraph's content came from.
    pub placeholder_role: Option<String>,
}

/// Semantic data type of a spreadsheet cell.
#[derive(Debug, Clone, Copy, PartialEq, Eq, Structural)]
pub enum CellDataType {
    /// Text / string cell.
    Text,
    /// Numeric cell with no date format applied.
    Number,
    /// Numeric cell whose number format is a date/time format.
    Date,
    /// Boolean cell.
    Boolean,
    /// Error cell.
    Error,
}

/// An embedded image reference.
#[derive(Debug, Clone, PartialEq, Eq, Default)]
pub struct Image {
    /// Optional alt-text description.
    pub alt_text: Option<String>,
    /// Raw image bytes, if extracted.
    pub data: Option<Vec<u8>>,
    /// Pixel format of the image data.
    pub format: Option<ImageFormat>,
    /// Display width in EMUs.
    pub display_width_emu: Option<u64>,
    /// Display height in EMUs.
    pub display_height_emu: Option<u64>,
    /// Source image pixel width.
    pub pixel_width: Option<u32>,
    /// Source image pixel height.
    pub pixel_height: Option<u32>,
    /// Whether the image is purely decorative.
    pub decorative: bool,
    /// Inline vs. floating positioning.
    pub positioning: ImagePositioning,
    /// Click-action target.
    pub hyperlink: Option<String>,
}

} // verus!
