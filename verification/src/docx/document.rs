//! The document body and its block-level elements.

use vstd::prelude::*;
use crate::docx::formatting::HeaderFooterType;
use crate::docx::paragraph::Paragraph;
use crate::docx::table::Table;

verus! {

/// A block-level element of a body, a table cell, a header or a footer.
#[derive(Debug)]
pub enum BlockElement {
    /// A paragraph (`w:p`).
    Paragraph(Paragraph),
    /// A table (`w:tbl`).
    Table(Table),
}

/// The body of a document.
#[derive(Debug)]
pub struct Body {
    /// Block elements in document order.
    pub elements: Vec<BlockElement>,
    /// For each section that ends inside the body, the index just past
    /// the paragraph that ends it.
    pub section_breaks: Vec<usize>,
}

/// A parsed header or footer part.
#[derive(Debug)]
pub struct HeaderFooter {
    /// Which pages it applies to.
    pub hf_type: HeaderFooterType,
    /// Its block elements.
    pub content: Vec<BlockElement>,
    /// A header (`true`) or a footer.
    pub is_header: bool,
}

} // verus!
