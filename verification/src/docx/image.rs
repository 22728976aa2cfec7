//! Drawings placed in a run.

use vstd::prelude::*;

verus! {

/// A length in English Metric Units (914400 per inch).
#[derive(Debug, Clone, Copy, PartialEq, Eq)]
pub struct Emu(pub i64);

/// A drawing (`w:drawing`) in a run.
#[derive(Debug, Clone)]
pub struct DrawingInfo {
    /// Relationship id of the image part.
    pub relationship_id: String,
    /// Path of the media part the relationship resolves to.
    pub media_path: Option<String>,
    /// Alternative text.
    pub description: Option<String>,
    pub width: Emu,
    pub height: Emu,
    /// Inline (`wp:inline`) rather than anchored.
    pub inline: bool,
    /// Position of an anchored drawing.
    pub anchor_position: Option<AnchorPosition>,
    /// A simple shape drawn instead of a picture.
    pub shape: Option<ShapeInfo>,
}

/// Position of an anchored drawing.
#[derive(Debug, Clone, Copy, PartialEq, Eq)]
pub struct AnchorPosition {
    pub x_emu: i64,
    pub y_emu: i64,
    pub h_relative_from: AnchorFrame,
    pub v_relative_from: AnchorFrame,
}

/// What an anchor position is measured from.
#[derive(Debug, Clone, Copy, PartialEq, Eq)]
pub enum AnchorFrame {
    Page,
    Margin,
    Column,
    Paragraph,
    Line,
    Character,
}

/// A simple shape.
#[derive(Debug, Clone, Copy, PartialEq, Eq)]
pub struct ShapeInfo {
    pub kind: ShapeKind,
    pub stroke_rgb: Option<(u8, u8, u8)>,
    pub fill_rgb: Option<(u8, u8, u8)>,
    pub stroke_w_emu: Option<i64>,
}

/// The kind of a simple shape.
#[derive(Debug, Clone, Copy, PartialEq, Eq)]
pub enum ShapeKind {
    Line,
    Rect,
}

impl Default for AnchorFrame {
    fn default() -> (r: Self)
        ensures
            r == AnchorFrame::Page,
    {
        AnchorFrame::Page
    }
}

impl Default for AnchorPosition {
    fn default() -> (r: Self)
        ensures
            r.x_emu == 0 && r.y_emu == 0 && r.h_relative_from == AnchorFrame::Page
                && r.v_relative_from == AnchorFrame::Page,
    {
        AnchorPosition {
            x_emu: 0,
            y_emu: 0,
            h_relative_from: AnchorFrame::Page,
            v_relative_from: AnchorFrame::Page,
        }
    }
}

} // verus!
