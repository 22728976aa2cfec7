//! Readers and editing helpers for office documents: the legacy Word
//! binary format (`.doc`), WordprocessingML (`.docx`) helpers, and the
//! format-agnostic intermediate representation they feed.

pub mod bytes;
pub mod doc;
pub mod docx;
pub mod edit;
pub mod format;
pub mod ir;
pub mod ir_from_markdown;
pub mod number;
pub mod pattern;
pub mod text;
