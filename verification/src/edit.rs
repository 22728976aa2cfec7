//! Declarative edit requests for WordprocessingML documents.

use vstd::prelude::*;

verus! {

/// The kind of DOCX block to append.
#[derive(Debug, Clone, Copy, PartialEq, Eq)]
pub enum DocxBlockKind {
    Paragraph,
    Title,
    Heading1,
    Heading2,
    Heading3,
    Bullet,
}

/// Horizontal alignment for a DOCX paragraph.
#[derive(Debug, Clone, Copy, PartialEq, Eq)]
pub enum DocxAlign {
    Left,
    Center,
    Right,
    Justify,
}

/// Formatting to apply to a DOCX paragraph matched by text.
#[derive(Debug, Clone, Copy, PartialEq, Eq)]
pub struct DocxFormat {
    pub alignment: Option<DocxAlign>,
    /// Spacing before the paragraph, in twips.
    pub spacing_before: Option<u32>,
    /// Spacing after the paragraph, in twips.
    pub spacing_after: Option<u32>,
    /// Left indent, in twips.
    pub indent_left: Option<u32>,
    /// Right indent, in twips.
    pub indent_right: Option<u32>,
}

impl Default for DocxFormat {
    fn default() -> (r: Self)
        ensures
            r.alignment is None,
            r.spacing_before is None,
            r.spacing_after is None,
            r.indent_left is None,
            r.indent_right is None,
    {
        DocxFormat {
            alignment: None,
            spacing_before: None,
            spacing_after: None,
            indent_left: None,
            indent_right: None,
        }
    }
}

/// A slide to append to a PPTX deck.
#[derive(Debug, Clone)]
pub struct PptxSlideSpec {
    pub title: String,
    pub body: Vec<String>,
}

} // verus!
