//! Table formatting properties.

use vstd::prelude::*;
use crate::docx::document::BlockElement;
use crate::docx::formatting::{Justification, TableBorders, Twip};

verus! {

/// A table element (`w:tbl`).
#[derive(Debug)]
pub struct Table {
    /// Table-level formatting.
    pub properties: Option<TableProperties>,
    /// Column widths from `w:tblGrid/w:gridCol`.
    pub grid: Vec<Twip>,
    /// Rows in the table.
    pub rows: Vec<TableRow>,
}

/// A table row (`w:tr`).
#[derive(Debug)]
pub struct TableRow {
    /// Row-level formatting.
    pub properties: Option<TableRowProperties>,
    /// Cells in this row.
    pub cells: Vec<TableCell>,
}

/// A table cell (`w:tc`).
#[derive(Debug)]
pub struct TableCell {
    /// Cell-level formatting.
    pub properties: Option<TableCellProperties>,
    /// Block content within the cell.
    pub content: Vec<BlockElement>,
}

/// Table-level properties (`w:tblPr`).
#[derive(Debug, Clone)]
pub struct TableProperties {
    pub width: Option<TableWidth>,
    pub justification: Option<Justification>,
    pub style_id: Option<String>,
    pub borders: Option<TableBorders>,
    pub cell_margins: Option<CellMargins>,
    pub indent: Option<Twip>,
    pub caption: Option<String>,
}

/// Default cell margins, in twips.
#[derive(Debug, Clone, Copy, PartialEq, Eq)]
pub struct CellMargins {
    pub top: Option<i32>,
    pub bottom: Option<i32>,
    pub left: Option<i32>,
    pub right: Option<i32>,
}

/// How a row height applies.
#[derive(Debug, Clone, Copy, PartialEq, Eq)]
pub enum RowHeightRule {
    AtLeast,
    Exact,
    Auto,
}

/// Row-level properties (`w:trPr`).
#[derive(Debug, Clone, Copy, PartialEq, Eq)]
pub struct TableRowProperties {
    pub is_header: bool,
    pub height: Option<i32>,
    pub height_rule: Option<RowHeightRule>,
    pub cant_split: bool,
}

/// Cell-level properties (`w:tcPr`).
#[derive(Debug, Clone)]
pub struct TableCellProperties {
    pub width: Option<TableWidth>,
    pub vertical_merge: Option<MergeType>,
    pub grid_span: Option<u32>,
    pub shading: Option<Box<Shading>>,
    pub borders: Option<Box<TableBorders>>,
    pub v_align: Option<CellVAlign>,
    pub text_direction: Option<String>,
    pub margins: Option<CellMargins>,
    pub deleted: bool,
}

/// Vertical alignment in a cell.
#[derive(Debug, Clone, Copy, PartialEq, Eq)]
pub enum CellVAlign {
    Top,
    Center,
    Bottom,
}

/// A table or cell width.
#[derive(Debug, Clone, Copy, PartialEq, Eq)]
pub struct TableWidth {
    pub value: i32,
    pub width_type: TableWidthType,
}

/// The unit of a `TableWidth`.
#[derive(Debug, Clone, Copy, PartialEq, Eq)]
pub enum TableWidthType {
    Pct,
    Dxa,
    Auto,
    Nil,
}

/// Vertical merge state of a cell.
#[derive(Debug, Clone, Copy, PartialEq, Eq)]
pub enum MergeType {
    Restart,
    Continue,
}

/// Background shading (`w:shd`).
#[derive(Debug, Clone, PartialEq, Eq)]
pub struct Shading {
    pub fill: Option<String>,
    pub color: Option<String>,
    pub pattern: Option<String>,
}

impl Default for TableProperties {
    fn default() -> (r: Self)
        ensures
            r.width is None && r.justification is None && r.style_id is None && r.borders is None
                && r.cell_margins is None && r.indent is None && r.caption is None,
    {
        TableProperties {
            width: None,
            justification: None,
            style_id: None,
            borders: None,
            cell_margins: None,
            indent: None,
            caption: None,
        }
    }
}

impl Default for CellMargins {
    fn default() -> (r: Self)
        ensures
            r.top is None && r.bottom is None && r.left is None && r.right is None,
    {
        CellMargins { top: None, bottom: None, left: None, right: None }
    }
}

impl Default for TableRowProperties {
    fn default() -> (r: Self)
        ensures
            !r.is_header && r.height is None && r.height_rule is None && !r.cant_split,
    {
        TableRowProperties { is_header: false, height: None, height_rule: None, cant_split: false }
    }
}

impl Default for TableCellProperties {
    fn default() -> (r: Self)
        ensures
            r.width is None && r.vertical_merge is None && r.grid_span is None && r.shading is None
                && r.borders is None && r.v_align is None && r.text_direction is None
                && r.margins is None && !r.deleted,
    {
        TableCellProperties {
            width: None,
            vertical_merge: None,
            grid_span: None,
            shading: None,
            borders: None,
            v_align: None,
            text_direction: None,
            margins: None,
            deleted: false,
        }
    }
}

} // verus!
