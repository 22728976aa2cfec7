# office_oxide

Reading and editing Word documents, with the logic proved by Verus
against its contracts. What quick-xml tokenizes and what encoding_rs
decodes is taken from those crates, named by functions of their inputs.

## Layout

- `src/doc/` — legacy Word binary files: the File Information Block,
  piece tables, character and paragraph property runs (CHPX/PAPX FKPs),
  SPRM decoding, list formatting, embedded pictures and OLE objects,
  Word 6/95 and Word 1.x/2.x variants, and the document assembled from
  its streams.
- `src/docx/` — WordprocessingML: XML events read with quick-xml,
  run/paragraph/section/table properties, styles and their inheritance,
  the body reader (paragraphs, runs, hyperlinks, drawings, tables),
  plain-text and Markdown renderings, and in-place edits of the main
  part (text replacement, paragraph removal and formatting).
- `src/ir.rs`, `src/ir_from_markdown.rs` — the intermediate
  representation's leaf types and a Markdown reader (headings, lists,
  pipe tables, inline emphasis and links, embedded `data:` images).
- `src/format.rs` — document formats by extension and MIME type.
- `src/bytes.rs`, `src/text.rs`, `src/number.rs`, `src/pattern.rs` —
  byte decoding, character sequences, number parsing and substring
  search shared by the readers.
- `app/` — file-level entry points and error types with messages.
- `tests/` — tests over concrete documents and values.

Each reader is specified by a scan over its input (bytes, characters or
XML events); the executable function is proved to compute exactly what
the scan describes. The WordprocessingML readers start from bytes: the
tokens quick-xml reads from them are named by `xml_tokens`, and turning
tokens into events (attributes, references) and events into a body or a
style sheet is verified. Laws relating several operations (overlay
associativity, style inheritance, section and table layout) are stated
as public proof functions next to the code they describe.
