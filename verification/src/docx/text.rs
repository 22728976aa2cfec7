//! Plain-text and Markdown renderings of runs and drawings.

use vstd::prelude::*;
use crate::docx::image::DrawingInfo;
use crate::docx::document::{BlockElement, HeaderFooter};
use crate::docx::hyperlink::HyperlinkTarget;
use crate::docx::paragraph::{BreakType, Paragraph, ParagraphContent, Run, RunContent};
use crate::docx::table::{Table, TableCell, TableRow};
use crate::docx::styles::{outline_up, StyleModel, StyleSheet};
use crate::text::{chars_of, push_char, trim_chars, trim_seq, trim_string};

verus! {

/// Appends the characters of `s`.
fn push_chars(out: &mut String, s: &[char])
    ensures
        final(out)@ == old(out)@ + s@,
{
    let ghost start = out@;
    let mut i: usize = 0;
    while i < s.len()
        invariant
            i <= s@.len(),
            out@ == start + s@.take(i as int),
        decreases s@.len() - i,
    {
        push_char(out, s[i]);
        proof {
            assert(start + s@.take(i + 1) =~= (start + s@.take(i as int)).push(s@[i as int]));
        }
        i = i + 1;
    }
    proof {
        assert(s@.take(s@.len() as int) =~= s@);
    }
}

/// Appends the characters of `s`.
fn push_str(out: &mut String, s: &str)
    ensures
        final(out)@ == old(out)@ + s@,
{
    let v = chars_of(s);
    push_chars(out, v.as_slice());
}

/// What one piece of a run contributes to plain text: text as it is, a
/// newline for any break, a tab for a tab, nothing for the rest.
pub open spec fn content_plain(c: RunContent) -> Seq<char> {
    match c {
        RunContent::Text(t) => t@,
        RunContent::Break(_) => "\n"@,
        RunContent::Tab => "\t"@,
        _ => Seq::empty(),
    }
}

/// The plain text of a run's contents.
pub open spec fn run_plain(cs: Seq<RunContent>) -> Seq<char>
    decreases cs.len(),
{
    if cs.len() == 0 {
        Seq::empty()
    } else {
        run_plain(cs.drop_last()) + content_plain(cs.last())
    }
}

/// The plain text of a list of runs.
pub open spec fn runs_plain(rs: Seq<Run>) -> Seq<char>
    decreases rs.len(),
{
    if rs.len() == 0 {
        Seq::empty()
    } else {
        runs_plain(rs.drop_last()) + run_plain(rs.last().content@)
    }
}

/// Appends the plain text of `run`.
pub fn plain_text_run(run: &Run, out: &mut String)
    ensures
        final(out)@ == old(out)@ + run_plain(run.content@),
{
    let ghost start = out@;
    let mut i: usize = 0;
    while i < run.content.len()
        invariant
            i <= run.content@.len(),
            out@ == start + run_plain(run.content@.take(i as int)),
        decreases run.content@.len() - i,
    {
        let ghost before = out@;
        match &run.content[i] {
            RunContent::Text(t) => push_str(out, t.as_str()),
            RunContent::Break(_) => push_str(out, "\n"),
            RunContent::Tab => push_str(out, "\t"),
            _ => {},
        }
        proof {
            let cs = run.content@.take(i + 1);
            assert(cs.drop_last() =~= run.content@.take(i as int));
            assert(cs.last() == run.content@[i as int]);
            assert(out@ =~= before + content_plain(run.content@[i as int]));
        }
        i = i + 1;
    }
    proof {
        assert(run.content@.take(run.content@.len() as int) =~= run.content@);
    }
}

/// The plain text of `runs`, one after another.
pub fn runs_to_plain_text(runs: &[Run]) -> (r: String)
    ensures
        r@ == runs_plain(runs@),
{
    let mut text = String::new();
    let mut i: usize = 0;
    while i < runs.len()
        invariant
            i <= runs@.len(),
            text@ == runs_plain(runs@.take(i as int)),
        decreases runs@.len() - i,
    {
        plain_text_run(&runs[i], &mut text);
        proof {
            let rs = runs@.take(i + 1);
            assert(rs.drop_last() =~= runs@.take(i as int));
        }
        i = i + 1;
    }
    proof {
        assert(runs@.take(runs@.len() as int) =~= runs@);
    }
    text
}

/// `s` without trailing `c`.
pub open spec fn trim_end_char(s: Seq<char>, c: char) -> Seq<char>
    decreases s.len(),
{
    if s.len() > 0 && s.last() == c {
        trim_end_char(s.drop_last(), c)
    } else {
        s
    }
}

/// `s` without leading `c`.
pub open spec fn trim_start_char(s: Seq<char>, c: char) -> Seq<char>
    decreases s.len(),
{
    if s.len() > 0 && s[0] == c {
        trim_start_char(s.drop_first(), c)
    } else {
        s
    }
}

/// The Markdown image for a drawing: its description as the alternative
/// text, and as the target the base URL joined to the media path with
/// one `/` where both are known, else the relationship id.
pub open spec fn drawing_md(d: DrawingInfo, baseurl: Option<Seq<char>>) -> Seq<char> {
    "!["@ + (match d.description {
        Some(s) => s@,
        None => Seq::empty(),
    }) + "]("@ + (match (baseurl, d.media_path) {
        (Some(b), Some(mp)) => trim_end_char(b, '/') + "/"@ + trim_start_char(mp@, '/'),
        _ => d.relationship_id@,
    }) + ")"@
}

pub open spec fn opt_str(o: Option<&str>) -> Option<Seq<char>> {
    match o {
        Some(s) => Some(s@),
        None => None,
    }
}

/// The length of `s` without trailing `c`.
fn trim_end_len(s: &[char], c: char) -> (n: usize)
    ensures
        n <= s@.len(),
        trim_end_char(s@, c) == s@.take(n as int),
{
    let mut n: usize = s.len();
    proof {
        assert(s@.take(n as int) =~= s@);
    }
    while n > 0 && s[n - 1] == c
        invariant
            n <= s@.len(),
            trim_end_char(s@, c) == trim_end_char(s@.take(n as int), c),
        decreases n,
    {
        proof {
            assert(s@.take(n as int).drop_last() =~= s@.take(n - 1));
        }
        n = n - 1;
    }
    n
}

/// The number of leading `c` in `s`.
fn trim_start_len(s: &[char], c: char) -> (n: usize)
    ensures
        n <= s@.len(),
        trim_start_char(s@, c) == s@.skip(n as int),
{
    let mut n: usize = 0;
    proof {
        assert(s@.skip(0) =~= s@);
    }
    while n < s.len() && s[n] == c
        invariant
            n <= s@.len(),
            trim_start_char(s@, c) == trim_start_char(s@.skip(n as int), c),
        decreases s@.len() - n,
    {
        proof {
            assert(s@.skip(n as int).drop_first() =~= s@.skip(n + 1));
        }
        n = n + 1;
    }
    n
}

/// Appends the Markdown image for `drawing`.
pub fn markdown_drawing(drawing: &DrawingInfo, out: &mut String, baseurl: Option<&str>)
    ensures
        final(out)@ == old(out)@ + drawing_md(*drawing, opt_str(baseurl)),
{
    let ghost start = out@;
    push_str(out, "![");
    match &drawing.description {
        Some(desc) => push_str(out, desc.as_str()),
        None => {},
    }
    push_str(out, "](");
    let ghost before_target = out@;
    match (baseurl, &drawing.media_path) {
        (Some(b), Some(mp)) => {
            let bv = chars_of(b);
            let n = trim_end_len(bv.as_slice(), '/');
            push_chars(out, &bv.as_slice()[0..n]);
            push_str(out, "/");
            let mv = chars_of(mp.as_str());
            let k = trim_start_len(mv.as_slice(), '/');
            push_chars(out, &mv.as_slice()[k..mv.len()]);
            proof {
                assert(bv@.take(n as int) =~= bv@.subrange(0, n as int));
                assert(mv@.skip(k as int) =~= mv@.subrange(k as int, mv@.len() as int));
            }
        },
        _ => push_str(out, drawing.relationship_id.as_str()),
    }
    push_str(out, ")");
    proof {
        assert(out@ =~= start + drawing_md(*drawing, opt_str(baseurl)));
    }
}

/// What one piece of a run contributes to Markdown: text as it is, a
/// hard line break for a line break, a rule for a page or column break,
/// a tab, the image of a drawing, nothing for the rest.
pub open spec fn content_md(c: RunContent, baseurl: Option<Seq<char>>) -> Seq<char> {
    match c {
        RunContent::Text(t) => t@,
        RunContent::Break(BreakType::Line) => "  \n"@,
        RunContent::Break(_) => "\n\n---\n\n"@,
        RunContent::Tab => "\t"@,
        RunContent::Drawing(d) => drawing_md(*d, baseurl),
        _ => Seq::empty(),
    }
}

/// The Markdown text of a run's contents.
pub open spec fn run_md_text(cs: Seq<RunContent>, baseurl: Option<Seq<char>>) -> Seq<char>
    decreases cs.len(),
{
    if cs.len() == 0 {
        Seq::empty()
    } else {
        run_md_text(cs.drop_last(), baseurl) + content_md(cs.last(), baseurl)
    }
}

pub open spec fn flag(o: Option<bool>) -> bool {
    match o {
        Some(b) => b,
        None => false,
    }
}

/// The emphasis marker for bold and italic.
pub open spec fn emphasis(bold: bool, italic: bool) -> Seq<char> {
    if bold && italic {
        "***"@
    } else if bold {
        "**"@
    } else if italic {
        "*"@
    } else {
        Seq::empty()
    }
}

/// The Markdown of a run: its text wrapped in strikethrough (outermost)
/// and emphasis markers; nothing for a run without text.
pub open spec fn run_md(run: Run, baseurl: Option<Seq<char>>) -> Seq<char> {
    let (bold, italic, strike) = match run.properties {
        Some(rp) => (
            flag(rp.bold),
            flag(rp.italic),
            flag(
                if rp.strike is Some {
                    rp.strike
                } else {
                    rp.dstrike
                },
            ),
        ),
        None => (false, false, false),
    };
    let text = run_md_text(run.content@, baseurl);
    let s: Seq<char> = if strike {
        "~~"@
    } else {
        Seq::empty()
    };
    if text.len() == 0 {
        Seq::empty()
    } else {
        s + emphasis(bold, italic) + text + emphasis(bold, italic) + s
    }
}

fn push_emphasis(out: &mut String, bold: bool, italic: bool)
    ensures
        final(out)@ == old(out)@ + emphasis(bold, italic),
{
    if bold && italic {
        push_str(out, "***");
    } else if bold {
        push_str(out, "**");
    } else if italic {
        push_str(out, "*");
    } else {
        assert(out@ =~= out@ + Seq::<char>::empty());
    }
}

/// Appends the Markdown of `run`.
pub fn markdown_run(run: &Run, out: &mut String, baseurl: Option<&str>)
    ensures
        final(out)@ == old(out)@ + run_md(*run, opt_str(baseurl)),
{
    let (bold, italic, strike) = match &run.properties {
        Some(rp) => (
            match rp.bold {
                Some(b) => b,
                None => false,
            },
            match rp.italic {
                Some(b) => b,
                None => false,
            },
            match (if rp.strike.is_some() {
                rp.strike
            } else {
                rp.dstrike
            }) {
                Some(b) => b,
                None => false,
            },
        ),
        None => (false, false, false),
    };
    let mut text = String::new();
    let mut i: usize = 0;
    while i < run.content.len()
        invariant
            i <= run.content@.len(),
            text@ == run_md_text(run.content@.take(i as int), opt_str(baseurl)),
        decreases run.content@.len() - i,
    {
        let ghost before = text@;
        match &run.content[i] {
            RunContent::Text(t) => push_str(&mut text, t.as_str()),
            RunContent::Break(BreakType::Line) => push_str(&mut text, "  \n"),
            RunContent::Break(_) => push_str(&mut text, "\n\n---\n\n"),
            RunContent::Tab => push_str(&mut text, "\t"),
            RunContent::Drawing(d) => markdown_drawing(d, &mut text, baseurl),
            _ => {},
        }
        proof {
            let cs = run.content@.take(i + 1);
            assert(cs.drop_last() =~= run.content@.take(i as int));
            assert(cs.last() == run.content@[i as int]);
            assert(text@ =~= before + content_md(run.content@[i as int], opt_str(baseurl)));
        }
        i = i + 1;
    }
    proof {
        assert(run.content@.take(run.content@.len() as int) =~= run.content@);
    }
    if text.as_str().is_empty() {
        proof {
            assert(out@ =~= out@ + run_md(*run, opt_str(baseurl)));
        }
        return;
    }
    let ghost start = out@;
    if strike {
        push_str(out, "~~");
    }
    push_emphasis(out, bold, italic);
    push_str(out, text.as_str());
    push_emphasis(out, bold, italic);
    if strike {
        push_str(out, "~~");
    }
    proof {
        assert(out@ =~= start + run_md(*run, opt_str(baseurl)));
    }
}

// ---------------------------------------------------------------------------
// Blocks and tables as plain text
// ---------------------------------------------------------------------------

/// The plain text of one piece of a paragraph.
pub open spec fn piece_plain(c: ParagraphContent) -> Seq<char> {
    match c {
        ParagraphContent::Run(r) => run_plain(r.content@),
        ParagraphContent::Hyperlink(h) => runs_plain(h.runs@),
    }
}

/// The plain text of a paragraph's pieces, in order.
pub open spec fn pieces_plain(cs: Seq<ParagraphContent>) -> Seq<char>
    decreases cs.len(),
{
    if cs.len() == 0 {
        Seq::empty()
    } else {
        pieces_plain(cs.drop_last()) + piece_plain(cs.last())
    }
}

/// Every line break in `s` made a space.
pub open spec fn nl_to_space(s: Seq<char>) -> Seq<char> {
    s.map_values(
        |c: char|
            if c == '\n' {
                ' '
            } else {
                c
            },
    )
}

/// The plain text of a block: a paragraph's text and a line break; a
/// table's rows.
pub open spec fn block_plain(b: BlockElement) -> Seq<char>
    decreases b, 0int,
{
    match b {
        BlockElement::Paragraph(p) => pieces_plain(p.content@) + "\n"@,
        BlockElement::Table(t) => rows_plain_from(t.rows@, 0),
    }
}

/// The plain text of `v[i..]`.
pub open spec fn blocks_plain_from(v: Seq<BlockElement>, i: int) -> Seq<char>
    decreases v, v.len() - i,
{
    if 0 <= i < v.len() {
        block_plain(v[i]) + blocks_plain_from(v, i + 1)
    } else {
        Seq::empty()
    }
}

/// The plain text of `rows[i..]`: each row's cells separated by tabs,
/// and a line break.
pub open spec fn rows_plain_from(rows: Seq<TableRow>, i: int) -> Seq<char>
    decreases rows, rows.len() - i,
{
    if 0 <= i < rows.len() {
        cells_line_from(rows[i].cells@, 0) + "\n"@ + rows_plain_from(rows, i + 1)
    } else {
        Seq::empty()
    }
}

/// The text of `cells[i..]` on one line, a tab before every cell but
/// the first of the row.
pub open spec fn cells_line_from(cells: Seq<TableCell>, i: int) -> Seq<char>
    decreases cells, cells.len() - i,
{
    if 0 <= i < cells.len() {
        (if i > 0 {
            "\t"@
        } else {
            Seq::empty()
        }) + cell_plain(cells[i]) + cells_line_from(cells, i + 1)
    } else {
        Seq::empty()
    }
}

/// A cell's text on one line: its blocks' text without trailing line
/// breaks, the line breaks inside it made spaces.
pub open spec fn cell_plain(c: TableCell) -> Seq<char>
    decreases c, 0int,
{
    nl_to_space(trim_end_char(blocks_plain_from(c.content@, 0), '\n'))
}

/// Appends the plain text of a paragraph's pieces.
fn plain_text_pieces(p: &Paragraph, out: &mut String)
    ensures
        final(out)@ == old(out)@ + pieces_plain(p.content@),
{
    let ghost start = out@;
    let mut i: usize = 0;
    while i < p.content.len()
        invariant
            i <= p.content@.len(),
            out@ == start + pieces_plain(p.content@.take(i as int)),
        decreases p.content@.len() - i,
    {
        let ghost before = out@;
        match &p.content[i] {
            ParagraphContent::Run(run) => plain_text_run(run, out),
            ParagraphContent::Hyperlink(hl) => {
                let t = runs_to_plain_text(hl.runs.as_slice());
                push_str(out, t.as_str());
            },
        }
        proof {
            let cs = p.content@.take(i + 1);
            assert(cs.drop_last() =~= p.content@.take(i as int));
            assert(cs.last() == p.content@[i as int]);
            assert(out@ =~= before + piece_plain(p.content@[i as int]));
        }
        i = i + 1;
    }
    proof {
        assert(p.content@.take(p.content@.len() as int) =~= p.content@);
    }
}

/// Appends `s` with its line breaks made spaces.
fn push_spaced(out: &mut String, s: &[char])
    ensures
        final(out)@ == old(out)@ + nl_to_space(s@),
{
    let ghost start = out@;
    let mut i: usize = 0;
    while i < s.len()
        invariant
            i <= s@.len(),
            out@ == start + nl_to_space(s@.take(i as int)),
        decreases s@.len() - i,
    {
        let c = if s[i] == '\n' {
            ' '
        } else {
            s[i]
        };
        proof {
            assert(nl_to_space(s@.take(i + 1)) =~= nl_to_space(s@.take(i as int)).push(c));
        }
        push_char(out, c);
        i = i + 1;
    }
    proof {
        assert(s@.take(s@.len() as int) =~= s@);
    }
}

/// Appends the plain text of block elements: each paragraph's text and
/// a line break, each table's rows.
pub fn plain_text_blocks(elements: &[BlockElement], out: &mut String)
    ensures
        final(out)@ == old(out)@ + blocks_plain_from(elements@, 0),
    decreases elements@, 0int,
{
    let ghost start = out@;
    let mut i: usize = 0;
    let n = elements.len();
    while i < n
        invariant
            n == elements@.len(),
            i <= n,
            out@ + blocks_plain_from(elements@, i as int) == start + blocks_plain_from(elements@, 0),
        decreases n - i,
    {
        let ghost before = out@;
        match &elements[i] {
            BlockElement::Paragraph(p) => {
                plain_text_pieces(p, out);
                push_str(out, "\n");
            },
            BlockElement::Table(t) => {
                plain_text_table(t, out);
            },
        }
        proof {
            assert(out@ =~= before + block_plain(elements@[i as int]));
            assert(before + blocks_plain_from(elements@, i as int) =~= out@ + blocks_plain_from(
                elements@,
                i + 1,
            ));
        }
        i = i + 1;
    }
    proof {
        assert(out@ + blocks_plain_from(elements@, i as int) =~= out@);
    }
}

/// Appends the plain text of a table: for each row, its cells' text on
/// one line separated by tabs, and a line break.
pub fn plain_text_table(table: &Table, out: &mut String)
    ensures
        final(out)@ == old(out)@ + rows_plain_from(table.rows@, 0),
    decreases *table, 0int,
{
    let ghost start = out@;
    let mut r: usize = 0;
    let nr = table.rows.len();
    while r < nr
        invariant
            nr == table.rows@.len(),
            r <= nr,
            out@ + rows_plain_from(table.rows@, r as int) == start + rows_plain_from(table.rows@, 0),
        decreases nr - r,
    {
        let row = &table.rows[r];
        let ghost row_start = out@;
        let mut c: usize = 0;
        let nc = row.cells.len();
        while c < nc
            invariant
                nc == row.cells@.len(),
                c <= nc,
                row == table.rows@[r as int],
                r < nr,
                nr == table.rows@.len(),
                out@ + cells_line_from(row.cells@, c as int) == row_start + cells_line_from(
                    row.cells@,
                    0,
                ),
            decreases nc - c,
        {
            let ghost before = out@;
            if c > 0 {
                push_str(out, "\t");
            }
            let cell = &row.cells[c];
            let mut cell_text = String::new();
            plain_text_blocks(cell.content.as_slice(), &mut cell_text);
            let v = chars_of(cell_text.as_str());
            let k = trim_end_len(v.as_slice(), '\n');
            push_spaced(out, &v.as_slice()[0..k]);
            proof {
                assert(v@.subrange(0, k as int) =~= v@.take(k as int));
                assert(out@ =~= before + (if c > 0 {
                    "\t"@
                } else {
                    Seq::<char>::empty()
                }) + cell_plain(row.cells@[c as int]));
                assert(before + cells_line_from(row.cells@, c as int) =~= out@ + cells_line_from(
                    row.cells@,
                    c + 1,
                ));
            }
            c = c + 1;
        }
        proof {
            assert(out@ + cells_line_from(row.cells@, c as int) =~= out@);
        }
        push_str(out, "\n");
        proof {
            assert(row_start + rows_plain_from(table.rows@, r as int) =~= out@ + rows_plain_from(
                table.rows@,
                r + 1,
            ));
        }
        r = r + 1;
    }
    proof {
        assert(out@ + rows_plain_from(table.rows@, r as int) =~= out@);
    }
}

/// The plain text of block elements, trailing line breaks removed.
pub fn blocks_plain_text(elements: &[BlockElement]) -> (r: String)
    ensures
        r@ == trim_end_char(blocks_plain_from(elements@, 0), '\n'),
{
    let mut out = String::new();
    plain_text_blocks(elements, &mut out);
    let v = chars_of(out.as_str());
    let k = trim_end_len(v.as_slice(), '\n');
    let mut r = String::new();
    push_chars(&mut r, &v.as_slice()[0..k]);
    proof {
        assert(v@.subrange(0, k as int) =~= v@.take(k as int));
    }
    r
}

// ---------------------------------------------------------------------------
// Blocks and tables as Markdown
// ---------------------------------------------------------------------------

/// A cell's text in a Markdown table: its plain text trimmed, line
/// breaks made spaces.
pub open spec fn cell_md(c: TableCell) -> Seq<char> {
    nl_to_space(trim_seq(blocks_plain_from(c.content@, 0)))
}

/// The most cells any of `rows[i..]` has.
pub open spec fn max_cells_from(rows: Seq<TableRow>, i: int) -> int
    decreases rows.len() - i,
{
    if 0 <= i < rows.len() {
        let rest = max_cells_from(rows, i + 1);
        if rows[i].cells@.len() > rest {
            rows[i].cells@.len() as int
        } else {
            rest
        }
    } else {
        0
    }
}

/// Cells `i..width` of a Markdown row, missing cells empty.
pub open spec fn md_cells(cells: Seq<TableCell>, i: int, width: int) -> Seq<char>
    decreases width - i,
{
    if 0 <= i < width {
        " "@ + (if i < cells.len() {
            cell_md(cells[i])
        } else {
            Seq::empty()
        }) + " |"@ + md_cells(cells, i + 1, width)
    } else {
        Seq::empty()
    }
}

pub open spec fn md_row(cells: Seq<TableCell>, width: int) -> Seq<char> {
    "|"@ + md_cells(cells, 0, width) + "\n"@
}

/// Separator cells `i..width`.
pub open spec fn md_sep(i: int, width: int) -> Seq<char>
    decreases width - i,
{
    if 0 <= i < width {
        " --- |"@ + md_sep(i + 1, width)
    } else {
        Seq::empty()
    }
}

pub open spec fn md_rows_from(rows: Seq<TableRow>, i: int, width: int) -> Seq<char>
    decreases rows.len() - i,
{
    if 0 <= i < rows.len() {
        md_row(rows[i].cells@, width) + md_rows_from(rows, i + 1, width)
    } else {
        Seq::empty()
    }
}

/// A table in Markdown: nothing for a table without rows; otherwise the
/// first row as header, a separator, the other rows, every row as wide
/// as the widest, and a blank line.
pub open spec fn table_md(t: Table) -> Seq<char> {
    let rows = t.rows@;
    if rows.len() == 0 {
        Seq::empty()
    } else {
        let w = max_cells_from(rows, 0);
        md_row(rows[0].cells@, w) + "|"@ + md_sep(0, w) + "\n"@ + md_rows_from(rows, 1, w) + "\n"@
    }
}

/// Appends one Markdown row of `width` cells.
fn push_md_row(out: &mut String, cells: &[TableCell], width: usize)
    ensures
        final(out)@ == old(out)@ + md_row(cells@, width as int),
{
    let ghost start = out@;
    push_str(out, "|");
    let ghost row_start = out@;
    let mut i: usize = 0;
    while i < width
        invariant
            i <= width,
            out@ + md_cells(cells@, i as int, width as int) == row_start + md_cells(
                cells@,
                0,
                width as int,
            ),
        decreases width - i,
    {
        let ghost before = out@;
        push_str(out, " ");
        if i < cells.len() {
            let mut t = String::new();
            plain_text_blocks(cells[i].content.as_slice(), &mut t);
            let v = chars_of(t.as_str());
            let tv = trim_chars(v.as_slice());
            push_spaced(out, tv.as_slice());
        }
        push_str(out, " |");
        proof {
            assert(before + md_cells(cells@, i as int, width as int) =~= out@ + md_cells(
                cells@,
                i + 1,
                width as int,
            ));
        }
        i = i + 1;
    }
    proof {
        assert(out@ + md_cells(cells@, i as int, width as int) =~= out@);
    }
    push_str(out, "\n");
    proof {
        assert(out@ =~= start + md_row(cells@, width as int));
    }
}

/// Appends a table in Markdown.
pub fn markdown_table(table: &Table, out: &mut String)
    ensures
        final(out)@ == old(out)@ + table_md(*table),
{
    let rows = table.rows.as_slice();
    let nr = rows.len();
    if nr == 0 {
        proof {
            assert(out@ =~= out@ + table_md(*table));
        }
        return;
    }
    let mut width: usize = 0;
    let mut r: usize = nr;
    while r > 0
        invariant
            r <= nr,
            nr == rows@.len(),
            width == max_cells_from(rows@, r as int),
        decreases r,
    {
        r = r - 1;
        if rows[r].cells.len() > width {
            width = rows[r].cells.len();
        }
    }
    let ghost start = out@;
    push_md_row(out, rows[0].cells.as_slice(), width);
    push_str(out, "|");
    let ghost sep_start = out@;
    let mut i: usize = 0;
    while i < width
        invariant
            i <= width,
            out@ + md_sep(i as int, width as int) == sep_start + md_sep(0, width as int),
        decreases width - i,
    {
        let ghost before = out@;
        push_str(out, " --- |");
        proof {
            assert(before + md_sep(i as int, width as int) =~= out@ + md_sep(i + 1, width as int));
        }
        i = i + 1;
    }
    proof {
        assert(out@ + md_sep(i as int, width as int) =~= out@);
    }
    push_str(out, "\n");
    let ghost rows_start = out@;
    let mut k: usize = 1;
    while k < nr
        invariant
            1 <= k <= nr,
            nr == rows@.len(),
            out@ + md_rows_from(rows@, k as int, width as int) == rows_start + md_rows_from(
                rows@,
                1,
                width as int,
            ),
        decreases nr - k,
    {
        let ghost before = out@;
        push_md_row(out, rows[k].cells.as_slice(), width);
        proof {
            assert(before + md_rows_from(rows@, k as int, width as int) =~= out@ + md_rows_from(
                rows@,
                k + 1,
                width as int,
            ));
        }
        k = k + 1;
    }
    proof {
        assert(out@ + md_rows_from(rows@, k as int, width as int) =~= out@);
    }
    push_str(out, "\n");
    proof {
        assert(out@ =~= start + table_md(*table));
    }
}

/// The styles of an optional style sheet, by id.
pub open spec fn sheet_styles(s: Option<&StyleSheet>) -> Option<Map<Seq<char>, StyleModel>> {
    match s {
        Some(ss) => Some(ss@.styles),
        None => None,
    }
}

/// A paragraph's heading level, from 1: its outline level, or where it
/// states none, that of its style or the nearest style its style is
/// based on that states one.
pub open spec fn heading_level(p: Paragraph, styles: Option<Map<Seq<char>, StyleModel>>) -> Option<
    int,
> {
    match p.properties {
        None => None,
        Some(pp) => {
            let lvl = match pp.outline_level {
                Some(l) => Some(l),
                None => match pp.style_id {
                    Some(sid) => match styles {
                        Some(m) => outline_up(m, sid@, 21),
                        None => None,
                    },
                    None => None,
                },
            };
            match lvl {
                Some(l) => Some(l + 1),
                None => None,
            }
        },
    }
}

/// `n` hash signs.
pub open spec fn hashes(n: int) -> Seq<char> {
    Seq::new(n as nat, |_i: int| '#')
}

/// One piece of a paragraph in Markdown: a run with its emphasis; a
/// hyperlink as a link whose text is its runs' plain text, to its URL
/// or to `#` and the bookmark.
pub open spec fn piece_md(c: ParagraphContent, baseurl: Option<Seq<char>>) -> Seq<char> {
    match c {
        ParagraphContent::Run(r) => run_md(r, baseurl),
        ParagraphContent::Hyperlink(h) => "["@ + runs_plain(h.runs@) + match h.target {
            HyperlinkTarget::External(u) => "]("@ + u@,
            HyperlinkTarget::Internal(a) => "](#"@ + a@,
        } + ")"@,
    }
}

pub open spec fn pieces_md(cs: Seq<ParagraphContent>, baseurl: Option<Seq<char>>) -> Seq<char>
    decreases cs.len(),
{
    if cs.len() == 0 {
        Seq::empty()
    } else {
        pieces_md(cs.drop_last(), baseurl) + piece_md(cs.last(), baseurl)
    }
}

/// A block in Markdown: a paragraph as a heading (at most nine hash
/// signs, then a blank line after it) or as a line; a table as a
/// Markdown table.
pub open spec fn block_md(
    b: BlockElement,
    styles: Option<Map<Seq<char>, StyleModel>>,
    baseurl: Option<Seq<char>>,
) -> Seq<char> {
    match b {
        BlockElement::Paragraph(p) => {
            let h = heading_level(p, styles);
            let prefix = match h {
                Some(l) => hashes(
                    if l < 9 {
                        l
                    } else {
                        9
                    },
                ) + " "@,
                None => Seq::empty(),
            };
            prefix + pieces_md(p.content@, baseurl) + "\n"@ + (if h is Some {
                "\n"@
            } else {
                Seq::empty()
            })
        },
        BlockElement::Table(t) => table_md(t),
    }
}

pub open spec fn blocks_md_from(
    v: Seq<BlockElement>,
    i: int,
    styles: Option<Map<Seq<char>, StyleModel>>,
    baseurl: Option<Seq<char>>,
) -> Seq<char>
    decreases v.len() - i,
{
    if 0 <= i < v.len() {
        block_md(v[i], styles, baseurl) + blocks_md_from(v, i + 1, styles, baseurl)
    } else {
        Seq::empty()
    }
}

/// The number of hash signs of a heading at outline level `l` (from 0):
/// one more than the level, at most nine.
pub open spec fn heading_hashes(l: int) -> int {
    if l + 1 < 9 {
        l + 1
    } else {
        9
    }
}

/// Headings in Markdown: a paragraph with its own outline level `l`, or
/// else with a style that resolves to outline level `l` (its own or,
/// where it states none, the nearest one up its `basedOn` chain, as
/// `resolve_outline_level` gives it), begins with `l + 1` hash signs (at
/// most nine) and a space; in particular a paragraph whose style states
/// `l`, or inherits `l` from the style it is based on, is such a heading.
pub proof fn lemma_styled_paragraphs_are_headings(
    p: Paragraph,
    m: Map<Seq<char>, StyleModel>,
    baseurl: Option<Seq<char>>,
    l: u8,
)
    requires
        p.properties is Some,
        ({
            let pp = p.properties->0;
            ||| pp.outline_level == Some(l)
            ||| (pp.outline_level is None && pp.style_id is Some && outline_up(
                m,
                pp.style_id->0@,
                21,
            ) == Some(l))
        }),
    ensures
        ({
            let k = heading_hashes(l as int);
            let md = block_md(BlockElement::Paragraph(p), Some(m), baseurl);
            md.len() >= k + 1 && md.take(k) == Seq::new(k as nat, |_i: int| '#') && md[k] == ' '
        }),
{
    let k = heading_hashes(l as int);
    let md = block_md(BlockElement::Paragraph(p), Some(m), baseurl);
    assert(heading_level(p, Some(m)) == Some(l as int + 1));
    reveal_strlit(" ");
    let pre = hashes(k) + " "@;
    assert(md.take(k) =~= Seq::new(k as nat, |_i: int| '#')) by {
        assert forall|i: int| 0 <= i < k implies md[i] == '#' by {
            assert(md[i] == pre[i]);
        }
    }
    assert(md[k] == pre[k]);
}

/// In the Markdown of a body, from block `i` on, a paragraph at block
/// `i` that is a heading at outline level `l` (its own, or its style's
/// as `resolve_outline_level` gives it) begins with `l + 1` hash signs
/// (at most nine) and a space.
pub proof fn lemma_heading_in_body(
    v: Seq<BlockElement>,
    i: int,
    p: Paragraph,
    m: Map<Seq<char>, StyleModel>,
    baseurl: Option<Seq<char>>,
    l: u8,
)
    requires
        0 <= i < v.len(),
        v[i] == BlockElement::Paragraph(p),
        p.properties is Some,
        ({
            let pp = p.properties->0;
            ||| pp.outline_level == Some(l)
            ||| (pp.outline_level is None && pp.style_id is Some && outline_up(
                m,
                pp.style_id->0@,
                21,
            ) == Some(l))
        }),
    ensures
        ({
            let k = heading_hashes(l as int);
            let md = blocks_md_from(v, i, Some(m), baseurl);
            md.len() >= k + 1 && md.take(k) == Seq::new(k as nat, |_i: int| '#') && md[k] == ' '
        }),
{
    lemma_styled_paragraphs_are_headings(p, m, baseurl, l);
    let k = heading_hashes(l as int);
    let b = block_md(v[i], Some(m), baseurl);
    let md = blocks_md_from(v, i, Some(m), baseurl);
    assert(md == b + blocks_md_from(v, i + 1, Some(m), baseurl));
    assert(md.take(k) =~= b.take(k));
    assert(md[k] == b[k]);
}

/// A style that states outline level `l` resolves to it, and a style
/// that states none resolves to the level of the style it is based on.
pub proof fn lemma_outline_level_from_style(m: Map<Seq<char>, StyleModel>, sid: Seq<char>, n: nat)
    requires
        n > 0,
        m.contains_key(sid),
    ensures
        (m[sid].paragraph_properties matches Some(pp) && pp.outline_level is Some) ==> outline_up(
            m,
            sid,
            n,
        ) == m[sid].paragraph_properties->0.outline_level,
        (!(m[sid].paragraph_properties matches Some(pp) && pp.outline_level is Some)
            && m[sid].based_on matches Some(b)) ==> outline_up(m, sid, n) == outline_up(
            m,
            m[sid].based_on->0@,
            (n - 1) as nat,
        ),
{
}

fn heading_of(p: &Paragraph, styles: Option<&StyleSheet>) -> (r: Option<usize>)
    requires
        styles matches Some(s) ==> s.wf(),
    ensures
        match r {
            Some(l) => heading_level(*p, sheet_styles(styles)) == Some(l as int),
            None => heading_level(*p, sheet_styles(styles)) is None,
        },
{
    match &p.properties {
        None => None,
        Some(pp) => {
            let lvl = match pp.outline_level {
                Some(l) => Some(l),
                None => match &pp.style_id {
                    Some(sid) => match styles {
                        Some(ss) => ss.resolve_outline_level(sid.as_str()),
                        None => None,
                    },
                    None => None,
                },
            };
            match lvl {
                Some(l) => Some(l as usize + 1),
                None => None,
            }
        },
    }
}

fn push_hashes(out: &mut String, n: usize)
    ensures
        final(out)@ == old(out)@ + hashes(n as int),
{
    let ghost start = out@;
    let mut i: usize = 0;
    while i < n
        invariant
            i <= n,
            out@ == start + hashes(i as int),
        decreases n - i,
    {
        proof {
            assert(hashes(i + 1) =~= hashes(i as int).push('#'));
        }
        push_char(out, '#');
        i = i + 1;
    }
}

fn markdown_pieces(p: &Paragraph, out: &mut String, baseurl: Option<&str>)
    ensures
        final(out)@ == old(out)@ + pieces_md(p.content@, opt_str(baseurl)),
{
    let ghost start = out@;
    let mut i: usize = 0;
    while i < p.content.len()
        invariant
            i <= p.content@.len(),
            out@ == start + pieces_md(p.content@.take(i as int), opt_str(baseurl)),
        decreases p.content@.len() - i,
    {
        let ghost before = out@;
        match &p.content[i] {
            ParagraphContent::Run(run) => markdown_run(run, out, baseurl),
            ParagraphContent::Hyperlink(hl) => {
                let text = runs_to_plain_text(hl.runs.as_slice());
                push_str(out, "[");
                push_str(out, text.as_str());
                match &hl.target {
                    HyperlinkTarget::External(url) => {
                        push_str(out, "](");
                        push_str(out, url.as_str());
                    },
                    HyperlinkTarget::Internal(anchor) => {
                        push_str(out, "](#");
                        push_str(out, anchor.as_str());
                    },
                }
                push_str(out, ")");
            },
        }
        proof {
            let cs = p.content@.take(i + 1);
            assert(cs.drop_last() =~= p.content@.take(i as int));
            assert(cs.last() == p.content@[i as int]);
            assert(out@ =~= before + piece_md(p.content@[i as int], opt_str(baseurl)));
        }
        i = i + 1;
    }
    proof {
        assert(p.content@.take(p.content@.len() as int) =~= p.content@);
    }
}

/// Appends block elements in Markdown.
pub fn markdown_blocks(
    elements: &[BlockElement],
    styles: Option<&StyleSheet>,
    out: &mut String,
    baseurl: Option<&str>,
)
    requires
        styles matches Some(s) ==> s.wf(),
    ensures
        final(out)@ == old(out)@ + blocks_md_from(
            elements@,
            0,
            sheet_styles(styles),
            opt_str(baseurl),
        ),
{
    let ghost start = out@;
    let ghost sm = sheet_styles(styles);
    let ghost bu = opt_str(baseurl);
    let n = elements.len();
    let mut i: usize = 0;
    while i < n
        invariant
            n == elements@.len(),
            i <= n,
            styles matches Some(s) ==> s.wf(),
            sm == sheet_styles(styles),
            bu == opt_str(baseurl),
            out@ + blocks_md_from(elements@, i as int, sm, bu) == start + blocks_md_from(
                elements@,
                0,
                sm,
                bu,
            ),
        decreases n - i,
    {
        let ghost before = out@;
        match &elements[i] {
            BlockElement::Paragraph(p) => {
                let h = heading_of(p, styles);
                match h {
                    Some(l) => {
                        push_hashes(
                            out,
                            if l < 9 {
                                l
                            } else {
                                9
                            },
                        );
                        push_str(out, " ");
                    },
                    None => {},
                }
                markdown_pieces(p, out, baseurl);
                push_str(out, "\n");
                if h.is_some() {
                    push_str(out, "\n");
                }
            },
            BlockElement::Table(t) => {
                markdown_table(t, out);
            },
        }
        proof {
            assert(out@ =~= before + block_md(elements@[i as int], sm, bu));
            assert(before + blocks_md_from(elements@, i as int, sm, bu) =~= out@ + blocks_md_from(
                elements@,
                i + 1,
                sm,
                bu,
            ));
        }
        i = i + 1;
    }
    proof {
        assert(out@ + blocks_md_from(elements@, i as int, sm, bu) =~= out@);
    }
}

/// Block elements in Markdown, trailing line breaks removed.
pub fn blocks_markdown(elements: &[BlockElement], styles: Option<&StyleSheet>, baseurl: Option<&str>) -> (r: String)
    requires
        styles matches Some(s) ==> s.wf(),
    ensures
        r@ == trim_end_char(
            blocks_md_from(elements@, 0, sheet_styles(styles), opt_str(baseurl)),
            '\n',
        ),
{
    let mut out = String::new();
    markdown_blocks(elements, styles, &mut out, baseurl);
    let v = chars_of(out.as_str());
    let k = trim_end_len(v.as_slice(), '\n');
    let mut r = String::new();
    push_chars(&mut r, &v.as_slice()[0..k]);
    proof {
        assert(v@.subrange(0, k as int) =~= v@.take(k as int));
    }
    r
}

// ---------------------------------------------------------------------------
// Laws of the plain-text rendering of tables
// ---------------------------------------------------------------------------

/// The number of line breaks in `s`.
pub open spec fn newlines(s: Seq<char>) -> int
    decreases s.len(),
{
    if s.len() == 0 {
        0
    } else {
        newlines(s.drop_last()) + if s.last() == '\n' {
            1int
        } else {
            0int
        }
    }
}

proof fn lemma_newlines_concat(a: Seq<char>, b: Seq<char>)
    ensures
        newlines(a + b) == newlines(a) + newlines(b),
    decreases b.len(),
{
    if b.len() > 0 {
        lemma_newlines_concat(a, b.drop_last());
        assert((a + b).drop_last() =~= a + b.drop_last());
    } else {
        assert(a + b =~= a);
    }
}

proof fn lemma_no_newline_chars(s: Seq<char>)
    requires
        forall|i: int| 0 <= i < s.len() ==> s[i] != '\n',
    ensures
        newlines(s) == 0,
    decreases s.len(),
{
    if s.len() > 0 {
        lemma_no_newline_chars(s.drop_last());
    }
}

/// A table cell's plain text is one line: it holds no line break.
pub proof fn lemma_cell_text_is_one_line(c: TableCell)
    ensures
        forall|i: int| 0 <= i < cell_plain(c).len() ==> #[trigger] cell_plain(c)[i] != '\n',
        newlines(cell_plain(c)) == 0,
{
    let s = cell_plain(c);
    assert forall|i: int| 0 <= i < s.len() implies #[trigger] s[i] != '\n' by {}
    lemma_no_newline_chars(s);
}

proof fn lemma_cells_line_one_line(cells: Seq<TableCell>, i: int)
    requires
        0 <= i,
    ensures
        newlines(cells_line_from(cells, i)) == 0,
    decreases cells.len() - i,
{
    if i < cells.len() {
        lemma_cells_line_one_line(cells, i + 1);
        lemma_cell_text_is_one_line(cells[i]);
        let sep: Seq<char> = if i > 0 {
            "\t"@
        } else {
            Seq::empty()
        };
        reveal_strlit("\t");
        lemma_newlines_concat(sep, cell_plain(cells[i]));
        lemma_newlines_concat(sep + cell_plain(cells[i]), cells_line_from(cells, i + 1));
        assert(newlines(sep) == 0) by {
            lemma_no_newline_chars(sep);
        }
    } else {
        assert(newlines(Seq::<char>::empty()) == 0);
    }
}

proof fn lemma_rows_lines(rows: Seq<TableRow>, i: int)
    requires
        0 <= i <= rows.len(),
    ensures
        newlines(rows_plain_from(rows, i)) == rows.len() - i,
    decreases rows.len() - i,
{
    if i < rows.len() {
        lemma_rows_lines(rows, i + 1);
        lemma_cells_line_one_line(rows[i].cells@, 0);
        reveal_strlit("\n");
        let line = cells_line_from(rows[i].cells@, 0);
        lemma_newlines_concat(line, "\n"@);
        lemma_newlines_concat(line + "\n"@, rows_plain_from(rows, i + 1));
        assert(newlines("\n"@) == 1) by {
            reveal_strlit("\n");
            assert("\n"@.len() == 1);
            assert("\n"@.last() == '\n');
            assert("\n"@.drop_last() =~= Seq::<char>::empty());
            assert(newlines(Seq::<char>::empty()) == 0);
        }
    } else {
        assert(newlines(Seq::<char>::empty()) == 0);
    }
}

/// A table's plain text has one line per row: as many line breaks as
/// the table has rows, every cell of a row on that row's line.
pub proof fn lemma_table_row_per_line(t: Table)
    ensures
        newlines(rows_plain_from(t.rows@, 0)) == t.rows@.len(),
{
    lemma_rows_lines(t.rows@, 0);
}

// ---------------------------------------------------------------------------
// A document in Markdown, with its headers and footers
// ---------------------------------------------------------------------------

/// A header's or footer's Markdown, trimmed.
pub open spec fn hf_md(
    hf: HeaderFooter,
    styles: Option<Map<Seq<char>, StyleModel>>,
    baseurl: Option<Seq<char>>,
) -> Seq<char> {
    trim_seq(blocks_md_from(hf.content@, 0, styles, baseurl))
}

/// Sorting `hfs[i..]` into headers and footers, each kind without
/// empty or repeated texts, in order of first appearance.
pub open spec fn split_scan(
    hfs: Seq<HeaderFooter>,
    i: int,
    heads: Seq<Seq<char>>,
    foots: Seq<Seq<char>>,
    styles: Option<Map<Seq<char>, StyleModel>>,
    baseurl: Option<Seq<char>>,
) -> (Seq<Seq<char>>, Seq<Seq<char>>)
    decreases hfs.len() - i,
{
    if i < 0 || i >= hfs.len() {
        (heads, foots)
    } else {
        let t = hf_md(hfs[i], styles, baseurl);
        if t.len() == 0 {
            split_scan(hfs, i + 1, heads, foots, styles, baseurl)
        } else if hfs[i].is_header {
            split_scan(
                hfs,
                i + 1,
                if heads.contains(t) {
                    heads
                } else {
                    heads.push(t)
                },
                foots,
                styles,
                baseurl,
            )
        } else {
            split_scan(
                hfs,
                i + 1,
                heads,
                if foots.contains(t) {
                    foots
                } else {
                    foots.push(t)
                },
                styles,
                baseurl,
            )
        }
    }
}

/// Whether `s` ends with a blank line.
pub open spec fn ends_blank(s: Seq<char>) -> bool {
    s.len() >= 2 && s[s.len() - 2] == '\n' && s[s.len() - 1] == '\n'
}

/// `out` with the headers `heads[i..]`, each followed by a blank line.
pub open spec fn with_headers(out: Seq<char>, heads: Seq<Seq<char>>, i: int) -> Seq<char>
    decreases heads.len() - i,
{
    if 0 <= i < heads.len() {
        with_headers(out + heads[i] + "\n\n"@, heads, i + 1)
    } else {
        out
    }
}

/// `out` with the footers `foots[i..]`, each after a blank line and
/// followed by a line break.
pub open spec fn with_footers(out: Seq<char>, foots: Seq<Seq<char>>, i: int) -> Seq<char>
    decreases foots.len() - i,
{
    if 0 <= i < foots.len() {
        let o = if ends_blank(out) {
            out
        } else {
            out + "\n\n"@
        };
        with_footers(o + foots[i] + "\n"@, foots, i + 1)
    } else {
        out
    }
}

/// A document in Markdown: its distinct headers, its body, its distinct
/// footers; trailing line breaks removed.
pub open spec fn document_md(
    body: Seq<BlockElement>,
    hfs: Seq<HeaderFooter>,
    styles: Option<Map<Seq<char>, StyleModel>>,
    baseurl: Option<Seq<char>>,
) -> Seq<char> {
    let (heads, foots) = split_scan(hfs, 0, Seq::empty(), Seq::empty(), styles, baseurl);
    trim_end_char(
        with_footers(
            with_headers(Seq::empty(), heads, 0) + blocks_md_from(body, 0, styles, baseurl),
            foots,
            0,
        ),
        '\n',
    )
}

/// Whether `v` holds the characters of `s`.
fn contains_text(v: &Vec<String>, s: &str) -> (r: bool)
    ensures
        r == v@.map_values(|x: String| x@).contains(s@),
{
    let ghost m = v@.map_values(|x: String| x@);
    let mut i: usize = 0;
    while i < v.len()
        invariant
            i <= v@.len(),
            m == v@.map_values(|x: String| x@),
            forall|k: int| 0 <= k < i ==> m[k] != s@,
        decreases v@.len() - i,
    {
        if crate::text::str_eq(v[i].as_str(), s) {
            proof {
                assert(m[i as int] == s@);
            }
            return true;
        }
        i = i + 1;
    }
    proof {
        if m.contains(s@) {
            let k = choose|k: int| 0 <= k < m.len() && m[k] == s@;
            assert(m[k] != s@);
        }
    }
    false
}

/// Sorts the headers and footers into their distinct, non-empty
/// Markdown texts, headers and footers apart.
pub fn split_headers_footers(
    hfs: &[HeaderFooter],
    styles: Option<&StyleSheet>,
    baseurl: Option<&str>,
) -> (r: (Vec<String>, Vec<String>))
    requires
        styles matches Some(s) ==> s.wf(),
    ensures
        (r.0@.map_values(|x: String| x@), r.1@.map_values(|x: String| x@)) == split_scan(
            hfs@,
            0,
            Seq::empty(),
            Seq::empty(),
            sheet_styles(styles),
            opt_str(baseurl),
        ),
{
    let ghost sm = sheet_styles(styles);
    let ghost bu = opt_str(baseurl);
    let mut heads: Vec<String> = Vec::new();
    let mut foots: Vec<String> = Vec::new();
    let mut i: usize = 0;
    proof {
        assert(heads@.map_values(|x: String| x@) =~= Seq::<Seq<char>>::empty());
        assert(foots@.map_values(|x: String| x@) =~= Seq::<Seq<char>>::empty());
    }
    while i < hfs.len()
        invariant
            i <= hfs@.len(),
            styles matches Some(s) ==> s.wf(),
            sm == sheet_styles(styles),
            bu == opt_str(baseurl),
            split_scan(hfs@, 0, Seq::empty(), Seq::empty(), sm, bu) == split_scan(
                hfs@,
                i as int,
                heads@.map_values(|x: String| x@),
                foots@.map_values(|x: String| x@),
                sm,
                bu,
            ),
        decreases hfs@.len() - i,
    {
        let hf = &hfs[i];
        let mut buf = String::new();
        markdown_blocks(hf.content.as_slice(), styles, &mut buf, baseurl);
        let t = trim_string(buf.as_str());
        proof {
            assert(buf@ =~= blocks_md_from(hf.content@, 0, sm, bu));
        }
        if !t.as_str().is_empty() {
            if hf.is_header {
                if !contains_text(&heads, t.as_str()) {
                    proof {
                        assert(heads@.push(t).map_values(|x: String| x@) =~= heads@.map_values(
                            |x: String| x@,
                        ).push(t@));
                    }
                    heads.push(t);
                }
            } else {
                if !contains_text(&foots, t.as_str()) {
                    proof {
                        assert(foots@.push(t).map_values(|x: String| x@) =~= foots@.map_values(
                            |x: String| x@,
                        ).push(t@));
                    }
                    foots.push(t);
                }
            }
        }
        i = i + 1;
    }
    (heads, foots)
}

/// A document's body in Markdown between its distinct headers and
/// footers, image references rewritten against `baseurl` where given.
pub fn to_markdown_with_baseurl(
    body: &[BlockElement],
    hfs: &[HeaderFooter],
    styles: Option<&StyleSheet>,
    baseurl: Option<&str>,
) -> (r: String)
    requires
        styles matches Some(s) ==> s.wf(),
    ensures
        r@ == document_md(body@, hfs@, sheet_styles(styles), opt_str(baseurl)),
{
    let ghost sm = sheet_styles(styles);
    let ghost bu = opt_str(baseurl);
    let (heads, foots) = split_headers_footers(hfs, styles, baseurl);
    let ghost hv = heads@.map_values(|x: String| x@);
    let ghost fv = foots@.map_values(|x: String| x@);
    let mut out = String::new();
    let mut i: usize = 0;
    while i < heads.len()
        invariant
            i <= heads@.len(),
            hv == heads@.map_values(|x: String| x@),
            with_headers(Seq::empty(), hv, 0) == with_headers(out@, hv, i as int),
        decreases heads@.len() - i,
    {
        proof {
            assert(hv[i as int] == heads@[i as int]@);
        }
        push_str(&mut out, heads[i].as_str());
        push_str(&mut out, "\n\n");
        i = i + 1;
    }
    markdown_blocks(body, styles, &mut out, baseurl);
    let mut k: usize = 0;
    while k < foots.len()
        invariant
            k <= foots@.len(),
            fv == foots@.map_values(|x: String| x@),
            with_footers(with_headers(Seq::empty(), hv, 0) + blocks_md_from(body@, 0, sm, bu), fv, 0)
                == with_footers(out@, fv, k as int),
        decreases foots@.len() - k,
    {
        let v = chars_of(out.as_str());
        let n = v.len();
        if !(n >= 2 && v[n - 2] == '\n' && v[n - 1] == '\n') {
            push_str(&mut out, "\n\n");
        }
        proof {
            assert(fv[k as int] == foots@[k as int]@);
        }
        push_str(&mut out, foots[k].as_str());
        push_str(&mut out, "\n");
        k = k + 1;
    }
    let v = chars_of(out.as_str());
    let n = trim_end_len(v.as_slice(), '\n');
    let mut r = String::new();
    push_chars(&mut r, &v.as_slice()[0..n]);
    proof {
        assert(v@.subrange(0, n as int) =~= v@.take(n as int));
    }
    r
}

/// Headers and footers in a document's Markdown are distinct: no
/// header text occurs twice, nor any footer text.
pub proof fn lemma_headers_footers_distinct(
    hfs: Seq<HeaderFooter>,
    styles: Option<Map<Seq<char>, StyleModel>>,
    baseurl: Option<Seq<char>>,
)
    ensures
        ({
            let (heads, foots) = split_scan(hfs, 0, Seq::empty(), Seq::empty(), styles, baseurl);
            heads.no_duplicates() && foots.no_duplicates()
        }),
{
    lemma_split_distinct(hfs, 0, Seq::empty(), Seq::empty(), styles, baseurl);
}

proof fn lemma_split_distinct(
    hfs: Seq<HeaderFooter>,
    i: int,
    heads: Seq<Seq<char>>,
    foots: Seq<Seq<char>>,
    styles: Option<Map<Seq<char>, StyleModel>>,
    baseurl: Option<Seq<char>>,
)
    requires
        heads.no_duplicates(),
        foots.no_duplicates(),
    ensures
        ({
            let (h, f) = split_scan(hfs, i, heads, foots, styles, baseurl);
            h.no_duplicates() && f.no_duplicates()
        }),
    decreases hfs.len() - i,
{
    if 0 <= i < hfs.len() {
        let t = hf_md(hfs[i], styles, baseurl);
        if t.len() == 0 {
            lemma_split_distinct(hfs, i + 1, heads, foots, styles, baseurl);
        } else if hfs[i].is_header {
            let h2 = if heads.contains(t) {
                heads
            } else {
                heads.push(t)
            };
            if !heads.contains(t) {
                assert forall|a: int, b: int| 0 <= a < b < h2.len() implies h2[a] != h2[b] by {
                    if b == heads.len() {
                        assert(h2[a] == heads[a]);
                    }
                }
            }
            lemma_split_distinct(hfs, i + 1, h2, foots, styles, baseurl);
        } else {
            let f2 = if foots.contains(t) {
                foots
            } else {
                foots.push(t)
            };
            if !foots.contains(t) {
                assert forall|a: int, b: int| 0 <= a < b < f2.len() implies f2[a] != f2[b] by {
                    if b == foots.len() {
                        assert(f2[a] == foots[a]);
                    }
                }
            }
            lemma_split_distinct(hfs, i + 1, heads, f2, styles, baseurl);
        }
    }
}

} // verus!
