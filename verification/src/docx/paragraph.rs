//! Paragraphs, runs and what a run holds.

use vstd::prelude::*;
use crate::docx::formatting::{ParagraphProperties, RunProperties};
use crate::docx::hyperlink::Hyperlink;
use crate::docx::image::DrawingInfo;

verus! {

/// A paragraph (`w:p`).
#[derive(Debug, Clone)]
pub struct Paragraph {
    pub properties: Option<ParagraphProperties>,
    pub content: Vec<ParagraphContent>,
}

/// What a paragraph holds.
#[derive(Debug, Clone)]
pub enum ParagraphContent {
    Run(Run),
    Hyperlink(Hyperlink),
}

/// A run (`w:r`).
#[derive(Debug, Clone)]
pub struct Run {
    pub properties: Option<RunProperties>,
    pub content: Vec<RunContent>,
}

/// What a run holds.
#[derive(Debug, Clone)]
pub enum RunContent {
    Text(String),
    Break(BreakType),
    Tab,
    Drawing(Box<DrawingInfo>),
    /// A footnote reference: its id and whether it uses a custom mark.
    FootnoteRef(u32, bool),
    /// An endnote reference: its id and whether it uses a custom mark.
    EndnoteRef(u32, bool),
    CommentRef(u32),
    FormField(FormField),
    /// Content of another part, read later.
    DeferredPart(String),
}

/// A legacy form field.
#[derive(Debug, Clone, PartialEq, Eq)]
pub struct FormField {
    pub name: Option<String>,
    pub kind: FormFieldKind,
    /// The text shown for the field in the document.
    pub display_text: Option<String>,
}

/// The kind of a form field and its state.
#[derive(Debug, Clone, PartialEq, Eq)]
pub enum FormFieldKind {
    CheckBox { checked: bool },
    DropDown { entries: Vec<String>, selected: usize },
    TextInput { default: Option<String> },
    Unknown,
}

/// A break in a run.
#[derive(Debug, Clone, Copy, PartialEq, Eq)]
pub enum BreakType {
    Line,
    Page,
    Column,
}

impl Default for Paragraph {
    fn default() -> (r: Self)
        ensures
            r.properties is None && r.content@.len() == 0,
    {
        Paragraph { properties: None, content: Vec::new() }
    }
}

impl Default for Run {
    fn default() -> (r: Self)
        ensures
            r.properties is None && r.content@.len() == 0,
    {
        Run { properties: None, content: Vec::new() }
    }
}

impl Default for FormFieldKind {
    fn default() -> (r: Self)
        ensures
            r is Unknown,
    {
        FormFieldKind::Unknown
    }
}

impl Default for FormField {
    fn default() -> (r: Self)
        ensures
            r.name is None && r.kind is Unknown && r.display_text is None,
    {
        FormField { name: None, kind: FormFieldKind::Unknown, display_text: None }
    }
}

/// A non-empty string, by its characters.
pub open spec fn non_empty(s: Option<String>) -> Option<Seq<char>> {
    match s {
        Some(t) => if t@.len() > 0 {
            Some(t@)
        } else {
            None
        },
        None => None,
    }
}

/// The value a form field shows: a ballot box, checked or not; the
/// selected entry of a drop-down (its first where the selection is out
/// of range); the default of a text input; nothing where that is empty.
pub open spec fn value_text_of(f: FormField) -> Option<Seq<char>> {
    match f.kind {
        FormFieldKind::CheckBox { checked } => Some(
            if checked {
                "\u{2612}"@
            } else {
                "\u{2610}"@
            },
        ),
        FormFieldKind::DropDown { entries, selected } => non_empty(
            if selected < entries@.len() {
                Some(entries@[selected as int])
            } else if entries@.len() > 0 {
                Some(entries@[0])
            } else {
                None
            },
        ),
        FormFieldKind::TextInput { default } => non_empty(default),
        FormFieldKind::Unknown => None,
    }
}

impl FormField {
    /// The value the field shows.
    pub fn value_text(&self) -> (r: Option<String>)
        ensures
            match r {
                Some(s) => value_text_of(*self) == Some(s@),
                None => value_text_of(*self) is None,
            },
    {
        match &self.kind {
            FormFieldKind::CheckBox { checked } => {
                if *checked {
                    Some(String::from_str("\u{2612}"))
                } else {
                    Some(String::from_str("\u{2610}"))
                }
            },
            FormFieldKind::DropDown { entries, selected } => {
                let chosen = if *selected < entries.len() {
                    Some(&entries[*selected])
                } else if entries.len() > 0 {
                    Some(&entries[0])
                } else {
                    None
                };
                match chosen {
                    Some(s) => {
                        if !s.as_str().is_empty() {
                            Some(s.clone())
                        } else {
                            None
                        }
                    },
                    None => None,
                }
            },
            FormFieldKind::TextInput { default } => match default {
                Some(s) => {
                    if !s.as_str().is_empty() {
                        Some(s.clone())
                    } else {
                        None
                    }
                },
                None => None,
            },
            FormFieldKind::Unknown => None,
        }
    }
}

} // verus!
