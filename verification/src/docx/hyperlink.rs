//! Hyperlinks in a paragraph.

use vstd::prelude::*;
use crate::docx::paragraph::Run;

verus! {

/// A hyperlink (`w:hyperlink`) and the runs it spans.
#[derive(Debug, Clone)]
pub struct Hyperlink {
    pub target: HyperlinkTarget,
    /// Fragment identifier (`w:anchor` of an external link).
    pub fragment: Option<String>,
    pub tooltip: Option<String>,
    pub runs: Vec<Run>,
}

/// Where a hyperlink points.
#[derive(Debug, Clone, PartialEq, Eq)]
pub enum HyperlinkTarget {
    /// A URL.
    External(String),
    /// A bookmark in the document.
    Internal(String),
}

} // verus!
