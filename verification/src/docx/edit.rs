//! Editing a WordprocessingML main part as text: replacing inside `<w:t>`
//! elements, deleting and formatting `<w:p>` paragraphs chosen by their
//! visible text.
//!
//! The XML is handled as a sequence of characters and searched for tag
//! prefixes, exactly as the walks below describe; nothing is parsed.

use vstd::prelude::*;
use crate::pattern::{
    occurs_at, find_from, rfind, contains, replace_all, count_all, lemma_find_from,
    lemma_rfind_at_or_before, lemma_count_bound, find_chars, rfind_chars, replace_all_chars,
    replace_from, decimal, decimal_chars, find_open_from, lemma_find_open_from, find_open_chars,
    opens_at, count_opens, count_opens_chars,
};
use crate::text::{chars_of, string_from_chars, append_str};
use crate::edit::{DocxAlign, DocxFormat};

verus! {

pub open spec fn wt_open() -> Seq<char> {
    "<w:t"@
}

pub open spec fn wt_close() -> Seq<char> {
    "</w:t>"@
}

pub open spec fn p_open() -> Seq<char> {
    "<w:p"@
}

pub open spec fn p_close() -> Seq<char> {
    "</w:p>"@
}

pub open spec fn gt() -> Seq<char> {
    ">"@
}

pub open spec fn slash_gt() -> Seq<char> {
    "/>"@
}

pub open spec fn ends_with(s: Seq<char>, p: Seq<char>) -> bool {
    p.len() <= s.len() && s.subrange(s.len() - p.len(), s.len() as int) == p
}

/// The rest of the text from `pos`.
pub open spec fn tail(x: Seq<char>, pos: int) -> Seq<char> {
    x.subrange(pos, x.len() as int)
}

/// The walk of `replace_in_wt_elements` from `pos`: the text it writes
/// and the number of replacements. Each `<w:t` tag that is not
/// self-closing has the text up to the next `</w:t>` replaced in; a
/// missing `>` or `</w:t>` ends the walk with the rest copied as is.
pub open spec fn wt_walk(x: Seq<char>, f: Seq<char>, r: Seq<char>, pos: int) -> (Seq<char>, int)
    decreases x.len() - pos,
{
    if pos < 0 || pos >= x.len() {
        (Seq::empty(), 0)
    } else {
        match find_open_from(x, wt_open(), pos) {
            None => (tail(x, pos), 0),
            Some(ts) => match find_from(x, gt(), ts) {
                None => (tail(x, pos), 0),
                Some(g) => {
                    let te = g + 1;
                    if ends_with(x.subrange(ts, te), slash_gt()) {
                        proof {
                            reveal_strlit(">");
                            lemma_find_open_from(x, wt_open(), pos);
                            lemma_find_from(x, gt(), ts);
                        }
                        let rest = wt_walk(x, f, r, te);
                        (x.subrange(pos, te) + rest.0, rest.1)
                    } else {
                        match find_from(x, wt_close(), te) {
                            None => (tail(x, pos), 0),
                            Some(cs) => {
                                proof {
                                    reveal_strlit(">");
                                    lemma_find_open_from(x, wt_open(), pos);
                                    lemma_find_from(x, gt(), ts);
                                    lemma_find_from(x, wt_close(), te);
                                }
                                let content = x.subrange(te, cs);
                                let rest = wt_walk(x, f, r, cs);
                                (
                                    x.subrange(pos, te) + replace_all(content, f, r) + rest.0,
                                    count_all(content, f) + rest.1,
                                )
                            },
                        }
                    }
                },
            },
        }
    }
}

/// The visible text of a span after tags are dropped, together with
/// whether the scan ends inside a tag: a `<` opens a tag, a `>` closes
/// one, and any other character outside a tag is kept.
pub open spec fn strip_tags(s: Seq<char>, n: int) -> (Seq<char>, bool)
    decreases n,
{
    if n <= 0 {
        (Seq::empty(), false)
    } else {
        let prev = strip_tags(s, n - 1);
        let c = s[n - 1];
        if c == '<' {
            (prev.0, true)
        } else if c == '>' {
            (prev.0, false)
        } else if !prev.1 {
            (prev.0.push(c), prev.1)
        } else {
            prev
        }
    }
}

/// The five predefined entities replaced in turn, `&amp;` first.
pub open spec fn unescape(s: Seq<char>) -> Seq<char> {
    replace_all(
        replace_all(
            replace_all(replace_all(replace_all(s, "&amp;"@, "&"@), "&lt;"@, "<"@), "&gt;"@, ">"@),
            "&quot;"@,
            "\""@,
        ),
        "&apos;"@,
        "'"@,
    )
}

/// The visible text of a `<w:p>...</w:p>` span.
pub open spec fn para_text(span: Seq<char>) -> Seq<char> {
    unescape(strip_tags(span, span.len() as int).0)
}

/// The bounds `(start, tag_end, close_start, close_end)` of the next
/// paragraph at or after `pos`: where `<w:p` starts, just past the `>`
/// that ends its tag, where the next `</w:p>` starts, and just past it.
pub open spec fn next_para(x: Seq<char>, pos: int) -> Option<(int, int, int, int)> {
    match find_open_from(x, p_open(), pos) {
        None => None,
        Some(ps) => match find_from(x, gt(), ps) {
            None => None,
            Some(g) => match find_from(x, p_close(), g + 1) {
                None => None,
                Some(cs) => Some((ps, g + 1, cs, cs + p_close().len())),
            },
        },
    }
}

pub proof fn lemma_next_para(x: Seq<char>, pos: int)
    requires
        0 <= pos,
    ensures
        next_para(x, pos) matches Some((ps, te, cs, ce)) ==> pos <= ps < te <= cs < ce <= x.len()
            && occurs_at(x, p_open(), ps) && occurs_at(x, p_close(), cs) && occurs_at(x, gt(), te
            - 1) && ce == cs + p_close().len(),
{
    reveal_strlit("</w:p>");
    lemma_find_open_from(x, p_open(), pos);
    if let Some(ps) = find_open_from(x, p_open(), pos) {
        lemma_find_from(x, gt(), ps);
        if let Some(g) = find_from(x, gt(), ps) {
            lemma_find_from(x, p_close(), g + 1);
        }
    }
}

/// The walk of `remove_paragraphs_containing` from `pos`: the text with
/// every paragraph whose visible text contains `find` cut out and all
/// other characters kept in order, and how many paragraphs were cut.
pub open spec fn remove_walk(x: Seq<char>, find: Seq<char>, pos: int) -> (Seq<char>, int)
    decreases x.len() - pos,
{
    if pos < 0 || pos >= x.len() {
        (Seq::empty(), 0)
    } else {
        match next_para(x, pos) {
            None => (tail(x, pos), 0),
            Some((ps, te, cs, ce)) => {
                proof {
                    lemma_next_para(x, pos);
                }
                let rest = remove_walk(x, find, ce);
                if contains(para_text(x.subrange(ps, ce)), find) {
                    (x.subrange(pos, ps) + rest.0, rest.1 + 1)
                } else {
                    (x.subrange(pos, ce) + rest.0, rest.1)
                }
            },
        }
    }
}

/// Copies `x[a..b]` onto the end of `out`.
fn push_range(out: &mut Vec<char>, x: &[char], a: usize, b: usize)
    requires
        a <= b <= x@.len(),
    ensures
        final(out)@ == old(out)@ + x@.subrange(a as int, b as int),
{
    out.extend_from_slice(&x[a..b]);
}

/// Replaces `find` by `replace` inside every `<w:t>` element, and
/// returns the new text with the number of replacements.
pub fn replace_in_wt_elements(xml: &str, find: &str, replace: &str) -> (res: (String, usize))
    ensures
        res.0@ == wt_walk(xml@, find@, replace@, 0).0,
        res.1 == wt_walk(xml@, find@, replace@, 0).1,
{
    let xv = chars_of(xml);
    let x = xv.as_slice();
    let fv = chars_of(find);
    let rv = chars_of(replace);
    let open = chars_of("<w:t");
    let close = chars_of("</w:t>");
    let gtv = chars_of(">");
    let sg = chars_of("/>");
    let ghost xs = x@;
    let xlen = x.len();
    let ghost total = wt_walk(xs, fv@, rv@, 0);
    let mut out: Vec<char> = Vec::new();
    let mut count: usize = 0;
    let mut pos: usize = 0;
    proof {
        lemma_wt_count_bound(xs, fv@, rv@, 0);
    }
    while pos < x.len()
        invariant
            x@ == xs,
            xlen == xs.len(),
            total.1 <= xs.len(),
            open@ == wt_open(),
            close@ == wt_close(),
            gtv@ == gt(),
            sg@ == slash_gt(),
            pos <= x.len(),
            out@ + wt_walk(xs, fv@, rv@, pos as int).0 == total.0,
            count + wt_walk(xs, fv@, rv@, pos as int).1 == total.1,
            0 <= wt_walk(xs, fv@, rv@, pos as int).1 <= xs.len() - pos,
        decreases x.len() - pos,
    {
        let ghost old_out = out@;
        let ghost here = wt_walk(xs, fv@, rv@, pos as int);
        let ts = match find_open_chars(x, open.as_slice(), pos) {
            Some(t) => t,
            None => {
                push_range(&mut out, x, pos, x.len());
                proof {
                    assert(out@ + wt_walk(xs, fv@, rv@, xs.len() as int).0 =~= old_out + here.0);
                }
                pos = x.len();
                continue;
            },
        };
        proof {
            lemma_find_open_from(xs, wt_open(), pos as int);
        }
        let g = match find_chars(x, gtv.as_slice(), ts) {
            Some(g) => g,
            None => {
                push_range(&mut out, x, pos, x.len());
                proof {
                    assert(out@ + wt_walk(xs, fv@, rv@, xs.len() as int).0 =~= old_out + here.0);
                }
                pos = x.len();
                continue;
            },
        };
        proof {
            reveal_strlit(">");
            lemma_find_from(xs, gt(), ts as int);
        }
        let te = g + 1;
        let self_closing = te - ts >= 2 && crate::pattern::matches_at(x, sg.as_slice(), te - 2);
        proof {
            reveal_strlit("/>");
            let seg = xs.subrange(ts as int, te as int);
            if te - ts >= 2 {
                assert(seg.subrange(seg.len() - 2, seg.len() as int) =~= xs.subrange(
                    te - 2,
                    te as int,
                ));
            }
            assert(self_closing == ends_with(seg, slash_gt()));
        }
        if self_closing {
            push_range(&mut out, x, pos, te);
            proof {
                lemma_wt_count_bound(xs, fv@, rv@, te as int);
                assert(out@ + wt_walk(xs, fv@, rv@, te as int).0 =~= old_out + here.0);
            }
            pos = te;
            continue;
        }
        let cs = match find_chars(x, close.as_slice(), te) {
            Some(c) => c,
            None => {
                push_range(&mut out, x, pos, x.len());
                proof {
                    assert(out@ + wt_walk(xs, fv@, rv@, xs.len() as int).0 =~= old_out + here.0);
                }
                pos = x.len();
                continue;
            },
        };
        proof {
            lemma_find_from(xs, wt_close(), te as int);
            lemma_count_bound(xs.subrange(te as int, cs as int), fv@, 0);
            lemma_wt_count_bound(xs, fv@, rv@, cs as int);
        }
        let content = &x[te..cs];
        let (replaced, n) = replace_all_chars(content, fv.as_slice(), rv.as_slice());
        push_range(&mut out, x, pos, te);
        out.extend_from_slice(replaced.as_slice());
        count = count + n;
        proof {
            assert(out@ + wt_walk(xs, fv@, rv@, cs as int).0 =~= old_out + here.0);
        }
        pos = cs;
    }
    proof {
        assert(out@ =~= total.0);
    }
    (string_from_chars(out.as_slice()), count)
}

/// At most one replacement per character of the text walked, so the
/// count fits wherever the text does.
pub proof fn lemma_wt_count_bound(x: Seq<char>, f: Seq<char>, r: Seq<char>, pos: int)
    requires
        0 <= pos,
    ensures
        0 <= wt_walk(x, f, r, pos).1 <= x.len() - pos || pos >= x.len(),
        pos >= x.len() ==> wt_walk(x, f, r, pos).1 == 0,
    decreases x.len() - pos,
{
    reveal_strlit(">");
    if pos < x.len() {
        lemma_find_open_from(x, wt_open(), pos);
        match find_open_from(x, wt_open(), pos) {
            None => {},
            Some(ts) => {
                lemma_find_from(x, gt(), ts);
                match find_from(x, gt(), ts) {
                    None => {},
                    Some(g) => {
                        let te = g + 1;
                        assert(pos < te);
                        lemma_wt_count_bound(x, f, r, te);
                        lemma_find_from(x, wt_close(), te);
                        match find_from(x, wt_close(), te) {
                            None => {},
                            Some(cs) => {
                                lemma_wt_count_bound(x, f, r, cs);
                                lemma_count_bound(x.subrange(te, cs), f, 0);
                            },
                        }
                    },
                }
            },
        }
    }
}

/// `strip_tags` run to the end as an executable scan.
fn strip_tags_exec(s: &[char]) -> (r: Vec<char>)
    ensures
        r@ == strip_tags(s@, s@.len() as int).0,
        r@.len() <= s@.len(),
{
    let mut out: Vec<char> = Vec::new();
    let mut in_tag = false;
    let mut i: usize = 0;
    while i < s.len()
        invariant
            i <= s.len(),
            (out@, in_tag) == strip_tags(s@, i as int),
            out@.len() <= i,
        decreases s.len() - i,
    {
        let c = s[i];
        if c == '<' {
            in_tag = true;
        } else if c == '>' {
            in_tag = false;
        } else if !in_tag {
            out.push(c);
        }
        i = i + 1;
    }
    out
}

/// Replacing by something no longer than the pattern never lengthens.
pub proof fn lemma_replace_shrinks(s: Seq<char>, f: Seq<char>, r: Seq<char>, i: int)
    requires
        0 <= i <= s.len(),
        r.len() <= f.len(),
        f.len() > 0,
    ensures
        replace_from(s, f, r, i).len() <= s.len() - i,
    decreases s.len() - i,
{
    if i + f.len() > s.len() {
    } else if occurs_at(s, f, i) {
        lemma_replace_shrinks(s, f, r, i + f.len());
    } else {
        lemma_replace_shrinks(s, f, r, i + 1);
    }
}

/// One entity replaced everywhere in `s`.
fn unescape_step(s: Vec<char>, entity: &str, ch: &str) -> (r: Vec<char>)
    requires
        ch@.len() <= entity@.len(),
        entity@.len() > 0,
    ensures
        r@ == replace_all(s@, entity@, ch@),
        r@.len() <= s@.len(),
{
    let e = chars_of(entity);
    let c = chars_of(ch);
    proof {
        lemma_replace_shrinks(s@, entity@, ch@, 0);
    }
    replace_all_chars(s.as_slice(), e.as_slice(), c.as_slice()).0
}

/// The five predefined XML entities replaced by their characters,
/// `&amp;` first, as a chain of `str::replace` calls does.
pub fn unescape_xml(s: &str) -> (r: String)
    ensures
        r@ == unescape(s@),
{
    let v = chars_of(s);
    let r = unescape_chars(v);
    string_from_chars(r.as_slice())
}

fn unescape_chars(v: Vec<char>) -> (r: Vec<char>)
    ensures
        r@ == unescape(v@),
        r@.len() <= v@.len(),
{
    proof {
        reveal_strlit("&amp;");
        reveal_strlit("&");
        reveal_strlit("&lt;");
        reveal_strlit("<");
        reveal_strlit("&gt;");
        reveal_strlit(">");
        reveal_strlit("&quot;");
        reveal_strlit("\"");
        reveal_strlit("&apos;");
        reveal_strlit("'");
    }
    let a = unescape_step(v, "&amp;", "&");
    let b = unescape_step(a, "&lt;", "<");
    let c = unescape_step(b, "&gt;", ">");
    let d = unescape_step(c, "&quot;", "\"");
    unescape_step(d, "&apos;", "'")
}

/// The visible text of one `<w:p>...</w:p>` span: tags dropped,
/// entities replaced.
pub fn paragraph_text(span: &str) -> (r: String)
    ensures
        r@ == para_text(span@),
{
    let v = chars_of(span);
    let t = strip_tags_exec(v.as_slice());
    let u = unescape_chars(t);
    string_from_chars(u.as_slice())
}

fn para_text_chars(span: &[char]) -> (r: Vec<char>)
    ensures
        r@ == para_text(span@),
{
    let t = strip_tags_exec(span);
    unescape_chars(t)
}

/// `next_para` as an executable search.
fn next_para_exec(x: &[char], pos: usize, open: &[char], close: &[char], gtv: &[char]) -> (r:
    Option<(usize, usize, usize, usize)>)
    requires
        open@ == p_open(),
        close@ == p_close(),
        gtv@ == gt(),
    ensures
        match r {
            Some((a, b, c, d)) => next_para(x@, pos as int) == Some(
                (a as int, b as int, c as int, d as int),
            ),
            None => next_para(x@, pos as int) is None,
        },
{
    let xlen = x.len();
    proof {
        reveal_strlit(">");
        reveal_strlit("</w:p>");
        lemma_next_para(x@, pos as int);
    }
    let ps = match find_open_chars(x, open, pos) {
        Some(p) => p,
        None => return None,
    };
    let g = match find_chars(x, gtv, ps) {
        Some(g) => g,
        None => return None,
    };
    proof {
        lemma_find_from(x@, gt(), ps as int);
    }
    let cs = match find_chars(x, close, g + 1) {
        Some(c) => c,
        None => return None,
    };
    proof {
        lemma_find_from(x@, p_close(), g + 1);
    }
    Some((ps, g + 1, cs, cs + close.len()))
}

/// Cuts out every `<w:p>` element whose visible text contains `find`,
/// keeping everything else, and counts the paragraphs cut.
fn remove_paragraphs_counted(xml: &str, find: &str) -> (r: (String, usize))
    ensures
        r.0@ == remove_walk(xml@, find@, 0).0,
        r.1 == remove_walk(xml@, find@, 0).1,
{
    let xv = chars_of(xml);
    let x = xv.as_slice();
    let fv = chars_of(find);
    let open = chars_of("<w:p");
    let close = chars_of("</w:p>");
    let gtv = chars_of(">");
    let ghost xs = x@;
    let ghost total = remove_walk(xs, fv@, 0);
    let mut out: Vec<char> = Vec::new();
    let mut count: usize = 0;
    let mut pos: usize = 0;
    while pos < x.len()
        invariant
            x@ == xs,
            open@ == p_open(),
            close@ == p_close(),
            gtv@ == gt(),
            pos <= x.len(),
            count <= pos,
            out@ + remove_walk(xs, fv@, pos as int).0 == total.0,
            count + remove_walk(xs, fv@, pos as int).1 == total.1,
        decreases x.len() - pos,
    {
        let ghost old_out = out@;
        proof {
            lemma_next_para(xs, pos as int);
        }
        match next_para_exec(x, pos, open.as_slice(), close.as_slice(), gtv.as_slice()) {
            None => {
                push_range(&mut out, x, pos, x.len());
                proof {
                    assert(out@ + remove_walk(xs, fv@, xs.len() as int).0 =~= old_out
                        + remove_walk(xs, fv@, pos as int).0);
                }
                pos = x.len();
            },
            Some((ps, _te, _cs, ce)) => {
                let text = para_text_chars(&x[ps..ce]);
                let hit = find_chars(text.as_slice(), fv.as_slice(), 0).is_some();
                if hit {
                    push_range(&mut out, x, pos, ps);
                    count = count + 1;
                } else {
                    push_range(&mut out, x, pos, ce);
                }
                proof {
                    assert(out@ + remove_walk(xs, fv@, ce as int).0 =~= old_out + remove_walk(
                        xs,
                        fv@,
                        pos as int,
                    ).0);
                }
                pos = ce;
            },
        }
    }
    proof {
        assert(out@ =~= total.0);
    }
    (string_from_chars(out.as_slice()), count)
}

/// Drops every `<w:p>` element whose visible text contains `find`; every
/// character outside the dropped elements is kept, in order.
pub fn remove_paragraphs_containing(xml: &str, find: &str) -> (r: String)
    ensures
        r@ == remove_walk(xml@, find@, 0).0,
{
    remove_paragraphs_counted(xml, find).0
}

/// How many paragraphs an edit removed: the drop in the number of
/// `<w:p>` element openings (`<w:pPr>` and the like are not paragraphs),
/// and zero where the count grew.
pub fn count_paragraph_removals(old_xml: &str, new_xml: &str) -> (r: usize)
    ensures
        r == (if count_opens(old_xml@, p_open(), 0) >= count_opens(new_xml@, p_open(), 0) {
            count_opens(old_xml@, p_open(), 0) - count_opens(new_xml@, p_open(), 0)
        } else {
            0
        }),
{
    let p = chars_of("<w:p");
    proof {
        reveal_strlit("<w:p");
    }
    let a = chars_of(old_xml);
    let b = chars_of(new_xml);
    let na = count_opens_chars(a.as_slice(), p.as_slice());
    let nb = count_opens_chars(b.as_slice(), p.as_slice());
    na.saturating_sub(nb)
}

/// The text between the end of the first `<w:body...>` tag and the last
/// `</w:body>`; empty where either is missing or they are out of order.
pub open spec fn body_children(x: Seq<char>) -> Seq<char> {
    let start = match find_from(x, "<w:body"@, 0) {
        None => None,
        Some(s) => match find_from(x, gt(), s) {
            None => None,
            Some(g) => Some(g + 1),
        },
    };
    match (start, rfind(x, "</w:body>"@)) {
        (Some(s), Some(e)) => if e > s {
            x.subrange(s, e)
        } else {
            Seq::empty()
        },
        _ => Seq::empty(),
    }
}

/// The children of `<w:body>` as text.
pub fn extract_body_children(xml: &str) -> (r: String)
    ensures
        r@ == body_children(xml@),
{
    let xv = chars_of(xml);
    let x = xv.as_slice();
    let xlen = x.len();
    let body_open = chars_of("<w:body");
    let body_close = chars_of("</w:body>");
    let gtv = chars_of(">");
    proof {
        reveal_strlit(">");
        lemma_find_from(x@, "<w:body"@, 0);
    }
    let start = match find_chars(x, body_open.as_slice(), 0) {
        None => None,
        Some(s) => {
            proof {
                lemma_find_from(x@, gt(), s as int);
            }
            match find_chars(x, gtv.as_slice(), s) {
                None => None,
                Some(g) => Some(g + 1),
            }
        },
    };
    proof {
        lemma_rfind_at_or_before(x@, "</w:body>"@, x@.len() - "</w:body>"@.len());
    }
    let end = rfind_chars(x, body_close.as_slice());
    match (start, end) {
        (Some(s), Some(e)) => {
            if e > s {
                string_from_chars(&x[s..e])
            } else {
                String::new()
            }
        },
        _ => String::new(),
    }
}

/// `x` with `fragment` placed just before its last `</w:body>`; `None`
/// where `x` has no `</w:body>`.
pub open spec fn splice_before_body_end(x: Seq<char>, fragment: Seq<char>) -> Option<Seq<char>> {
    match rfind(x, "</w:body>"@) {
        Some(p) => Some(x.subrange(0, p) + fragment + x.subrange(p, x.len() as int)),
        None => None,
    }
}

/// Inserts `fragment` just before the last `</w:body>` of `xml`.
pub fn insert_before_body_end(xml: &str, fragment: &str) -> (r: Option<String>)
    ensures
        match r {
            Some(s) => splice_before_body_end(xml@, fragment@) == Some(s@),
            None => splice_before_body_end(xml@, fragment@) is None,
        },
{
    let xv = chars_of(xml);
    let x = xv.as_slice();
    let n = x.len();
    let body_close = chars_of("</w:body>");
    proof {
        lemma_rfind_at_or_before(x@, "</w:body>"@, x@.len() - "</w:body>"@.len());
    }
    match rfind_chars(x, body_close.as_slice()) {
        None => None,
        Some(p) => {
            let mut out = string_from_chars(&x[0..p]);
            append_str(&mut out, fragment);
            let tail = string_from_chars(&x[p..n]);
            append_str(&mut out, tail.as_str());
            Some(out)
        },
    }
}

/// The `w:val` written for each alignment.
pub open spec fn align_value(a: DocxAlign) -> Seq<char> {
    match a {
        DocxAlign::Left => "left"@,
        DocxAlign::Center => "center"@,
        DocxAlign::Right => "right"@,
        DocxAlign::Justify => "both"@,
    }
}

/// An attribute ` name="value"` whose `prefix` is ` name="`; nothing
/// for an absent value.
pub open spec fn num_attr(prefix: Seq<char>, v: Option<u32>) -> Seq<char> {
    match v {
        None => Seq::empty(),
        Some(n) => prefix + decimal(n as nat) + "\""@,
    }
}

/// An empty element `<name attrs/>` whose `open` is `<name`; nothing
/// when no attribute is set.
pub open spec fn empty_element(open: Seq<char>, attrs: Seq<char>) -> Seq<char> {
    if attrs.len() == 0 {
        Seq::empty()
    } else {
        open + attrs + "/>"@
    }
}

/// The paragraph properties written for `fmt`: alignment, then spacing,
/// then indentation, each only when one of its values is set.
pub open spec fn ppr_for(fmt: DocxFormat) -> Seq<char> {
    let jc = match fmt.alignment {
        None => Seq::empty(),
        Some(a) => "<w:jc w:val=\""@ + align_value(a) + "\"/>"@,
    };
    let spacing = empty_element(
        "<w:spacing"@,
        num_attr(" w:before=\""@, fmt.spacing_before) + num_attr(" w:after=\""@, fmt.spacing_after),
    );
    let ind = empty_element(
        "<w:ind"@,
        num_attr(" w:left=\""@, fmt.indent_left) + num_attr(" w:right=\""@, fmt.indent_right),
    );
    jc + spacing + ind
}

/// Where new properties go in the paragraph whose opening tag ends at
/// `te` and whose `</w:p>` starts at `cs`: `None` where its content
/// opens no `<w:pPr>` element; `Some(None)` where that tag does not end
/// before `</w:p>`; `Some(Some((i, true)))` where the tag is
/// self-closing, its `/` at `i`; `Some(Some((i, false)))` for the
/// position just before the first `</w:pPr>` inside the paragraph after
/// the tag, or just after the tag where there is none.
pub open spec fn ppr_spot(x: Seq<char>, te: int, cs: int) -> Option<Option<(int, bool)>> {
    match find_open_from(x.subrange(te, cs), "<w:pPr"@, 0) {
        None => None,
        Some(pi) => match find_from(x, gt(), te + pi) {
            None => Some(None),
            Some(g) => if g >= cs {
                Some(None)
            } else if x[g - 1] == '/' {
                Some(Some((g - 1, true)))
            } else {
                Some(
                    Some(
                        (
                            match find_from(x.subrange(g + 1, cs), "</w:pPr>"@, 0) {
                                Some(c) => g + 1 + c,
                                None => g + 1,
                            },
                            false,
                        ),
                    ),
                )
            },
        },
    }
}

/// The walk of `format_paragraph_containing` from `pos`: the text it
/// writes and whether a paragraph was formatted. The first paragraph
/// whose visible text contains `find` gets `ppr` merged into its
/// `<w:pPr>` (a self-closing one is opened up to hold it), or a new
/// `<w:pPr>` right after its opening tag where it has none.
pub open spec fn format_walk(
    x: Seq<char>,
    find: Seq<char>,
    ppr: Seq<char>,
    pos: int,
    formatted: bool,
) -> (Seq<char>, bool)
    decreases x.len() - pos,
{
    if pos < 0 || pos >= x.len() {
        (Seq::empty(), formatted)
    } else {
        match next_para(x, pos) {
            None => (tail(x, pos), formatted),
            Some((ps, te, cs, ce)) => {
                proof {
                    lemma_next_para(x, pos);
                }
                if !formatted && contains(para_text(x.subrange(ps, ce)), find) && ppr.len() > 0 {
                    match ppr_spot(x, te, cs) {
                        None => {
                            let rest = format_walk(x, find, ppr, ce, true);
                            (
                                x.subrange(pos, te) + "<w:pPr>"@ + ppr + "</w:pPr>"@ + x.subrange(
                                    te,
                                    ce,
                                ) + rest.0,
                                rest.1,
                            )
                        },
                        Some(None) => {
                            let rest = format_walk(x, find, ppr, ce, formatted);
                            (x.subrange(pos, ce) + rest.0, rest.1)
                        },
                        Some(Some((i, true))) => {
                            let rest = format_walk(x, find, ppr, ce, true);
                            (
                                x.subrange(pos, i) + ">"@ + ppr + "</w:pPr>"@ + x.subrange(i + 2, ce)
                                    + rest.0,
                                rest.1,
                            )
                        },
                        Some(Some((i, false))) => {
                            let rest = format_walk(x, find, ppr, ce, true);
                            (x.subrange(pos, i) + ppr + x.subrange(i, ce) + rest.0, rest.1)
                        },
                    }
                } else {
                    let rest = format_walk(x, find, ppr, ce, formatted);
                    (x.subrange(pos, ce) + rest.0, rest.1)
                }
            },
        }
    }
}

/// Where `ppr_spot` puts new properties lies inside the paragraph, after
/// its opening tag.
pub proof fn lemma_ppr_spot(x: Seq<char>, te: int, cs: int)
    requires
        0 <= te <= cs <= x.len(),
    ensures
        ppr_spot(x, te, cs) matches Some(Some((i, sc))) ==> te < i && (if sc {
            i + 2 <= cs
        } else {
            i <= cs
        }),
{
    reveal_strlit(">");
    reveal_strlit("<w:pPr");
    let sub = x.subrange(te, cs);
    lemma_find_open_from(sub, "<w:pPr"@, 0);
    if let Some(pi) = find_open_from(sub, "<w:pPr"@, 0) {
        lemma_find_from(x, gt(), te + pi);
        assert(sub.subrange(pi, pi + 6) == "<w:pPr"@);
        assert(sub.subrange(pi, pi + 6)[0] == sub[pi]);
        assert(sub.subrange(pi, pi + 6)[1] == sub[pi + 1]);
        if let Some(g) = find_from(x, gt(), te + pi) {
            assert(x.subrange(g, g + 1) == gt());
            assert(x.subrange(g, g + 1)[0] == x[g]);
            if g < te + pi + 2 {
                assert(occurs_at(x, gt(), g));
            }
            if g < cs && x[g - 1] != '/' {
                lemma_find_from(x.subrange(g + 1, cs), "</w:pPr>"@, 0);
            }
        }
    }
}

/// The first paragraph from `pos` on whose visible text contains `find`
/// and whose properties can take more: its start and its end.
pub open spec fn first_formattable(x: Seq<char>, find: Seq<char>, pos: int) -> Option<(int, int)>
    decreases x.len() - pos,
{
    if pos < 0 || pos >= x.len() {
        None
    } else {
        match next_para(x, pos) {
            None => None,
            Some((ps, te, cs, ce)) => {
                proof {
                    lemma_next_para(x, pos);
                }
                if contains(para_text(x.subrange(ps, ce)), find) && ppr_spot(x, te, cs) != Some(
                    None::<(int, bool)>,
                ) {
                    Some((ps, ce))
                } else {
                    first_formattable(x, find, ce)
                }
            },
        }
    }
}

/// Once a paragraph is formatted the walk copies the rest as is.
proof fn lemma_format_copies_rest(x: Seq<char>, find: Seq<char>, ppr: Seq<char>, pos: int)
    requires
        0 <= pos <= x.len(),
    ensures
        format_walk(x, find, ppr, pos, true) == (tail(x, pos), true),
    decreases x.len() - pos,
{
    if pos < x.len() {
        lemma_next_para(x, pos);
        if let Some((ps, te, cs, ce)) = next_para(x, pos) {
            lemma_format_copies_rest(x, find, ppr, ce);
            assert(x.subrange(pos, ce) + tail(x, ce) =~= tail(x, pos));
        }
    } else {
        assert(tail(x, pos) =~= Seq::<char>::empty());
    }
}

/// `out` keeps `x[pos..ps]` in front and `x[ce..]` at the back.
pub open spec fn keeps_around(out: Seq<char>, x: Seq<char>, pos: int, ps: int, ce: int) -> bool {
    &&& out.len() >= (ps - pos) + (x.len() - ce)
    &&& out.take(ps - pos) == x.subrange(pos, ps)
    &&& out.skip(out.len() - (x.len() - ce)) == x.subrange(ce, x.len() as int)
}

/// Formatting changes one paragraph only: the first one whose visible
/// text contains `find` and whose properties can take more. Everything
/// before and after it is kept, and where there is no such paragraph the
/// text is unchanged and nothing is reported formatted.
#[verifier::spinoff_prover]
#[verifier::rlimit(60)]
pub proof fn lemma_format_changes_one_paragraph(x: Seq<char>, find: Seq<char>, ppr: Seq<char>, pos: int)
    requires
        0 <= pos <= x.len(),
        ppr.len() > 0,
    ensures
        match first_formattable(x, find, pos) {
            None => format_walk(x, find, ppr, pos, false) == (tail(x, pos), false),
            Some((ps, ce)) => pos <= ps < ce <= x.len() && format_walk(x, find, ppr, pos, false).1
                && keeps_around(format_walk(x, find, ppr, pos, false).0, x, pos, ps, ce),
        },
    decreases x.len() - pos,
{
    if pos >= x.len() {
        assert(tail(x, pos) =~= Seq::<char>::empty());
    } else {
        lemma_next_para(x, pos);
        match next_para(x, pos) {
            None => {},
            Some((ps, te, cs, ce)) => {
                lemma_ppr_spot(x, te, cs);
                let hit = contains(para_text(x.subrange(ps, ce)), find);
                if hit && ppr_spot(x, te, cs) != Some(None::<(int, bool)>) {
                    lemma_format_copies_rest(x, find, ppr, ce);
                    let out = format_walk(x, find, ppr, pos, false).0;
                    let sfx = x.subrange(ce, x.len() as int);
                    let w = match ppr_spot(x, te, cs) {
                        None => x.subrange(ps, te) + "<w:pPr>"@ + ppr + "</w:pPr>"@ + x.subrange(te, ce),
                        Some(None) => Seq::empty(),
                        Some(Some((i, true))) => x.subrange(ps, i) + ">"@ + ppr + "</w:pPr>"@
                            + x.subrange(i + 2, ce),
                        Some(Some((i, false))) => x.subrange(ps, i) + ppr + x.subrange(i, ce),
                    };
                    assert(out =~= x.subrange(pos, ps) + w + sfx);
                    assert(out.take(ps - pos) =~= x.subrange(pos, ps));
                    assert(out.skip(out.len() - (x.len() - ce)) =~= sfx);
                } else {
                    lemma_format_changes_one_paragraph(x, find, ppr, ce);
                    let rest = format_walk(x, find, ppr, ce, false);
                    let out = x.subrange(pos, ce) + rest.0;
                    assert(format_walk(x, find, ppr, pos, false) == (out, rest.1));
                    match first_formattable(x, find, ce) {
                        None => {
                            assert(x.subrange(pos, ce) + tail(x, ce) =~= tail(x, pos));
                        },
                        Some((ps2, ce2)) => {
                            assert(out.take(ps2 - pos) =~= x.subrange(pos, ce) + rest.0.take(ps2 - ce));
                            assert(x.subrange(pos, ce) + x.subrange(ce, ps2) =~= x.subrange(pos, ps2));
                            assert(out.skip(out.len() - (x.len() - ce2)) =~= rest.0.skip(
                                rest.0.len() - (x.len() - ce2),
                            ));
                        },
                    }
                }
            },
        }
    }
}

/// With nothing to add the walk changes nothing.
proof fn lemma_format_nothing_to_add(x: Seq<char>, find: Seq<char>, ppr: Seq<char>, pos: int, formatted: bool)
    requires
        0 <= pos <= x.len(),
        ppr.len() == 0,
    ensures
        format_walk(x, find, ppr, pos, formatted) == (tail(x, pos), formatted),
    decreases x.len() - pos,
{
    if pos < x.len() {
        lemma_next_para(x, pos);
        if let Some((ps, te, cs, ce)) = next_para(x, pos) {
            lemma_format_nothing_to_add(x, find, ppr, ce, formatted);
            assert(x.subrange(pos, ce) + tail(x, ce) =~= tail(x, pos));
        }
    } else {
        assert(tail(x, pos) =~= Seq::<char>::empty());
    }
}

/// `fmt` sets at least one property.
pub open spec fn sets_some_field(fmt: DocxFormat) -> bool {
    fmt.alignment is Some || fmt.spacing_before is Some || fmt.spacing_after is Some
        || fmt.indent_left is Some || fmt.indent_right is Some
}

/// Formatting succeeds exactly when `fmt` sets some property and some
/// paragraph whose visible text contains `find` can take properties; then
/// only the first such paragraph changes and every character outside it
/// is kept.
pub proof fn lemma_format_succeeds_iff(x: Seq<char>, find: Seq<char>, fmt: DocxFormat)
    ensures
        format_walk(x, find, ppr_for(fmt), 0, false).1 <==> (sets_some_field(fmt) && first_formattable(
            x,
            find,
            0,
        ) is Some),
        !format_walk(x, find, ppr_for(fmt), 0, false).1 ==> format_walk(x, find, ppr_for(fmt), 0, false).0
            == x,
        first_formattable(x, find, 0) matches Some((ps, ce)) ==> sets_some_field(fmt) ==> keeps_around(
            format_walk(x, find, ppr_for(fmt), 0, false).0,
            x,
            0,
            ps,
            ce,
        ),
{
    reveal_strlit("<w:jc w:val=\"");
    reveal_strlit(" w:before=\"");
    reveal_strlit(" w:after=\"");
    reveal_strlit(" w:left=\"");
    reveal_strlit(" w:right=\"");
    let ppr = ppr_for(fmt);
    assert(tail(x, 0) =~= x);
    if sets_some_field(fmt) {
        assert(ppr.len() > 0);
        lemma_format_changes_one_paragraph(x, find, ppr, 0);
    } else {
        assert(ppr =~= Seq::<char>::empty());
        lemma_format_nothing_to_add(x, find, ppr, 0, false);
    }
}

/// Appends the characters of a literal.
fn push_str_chars(out: &mut Vec<char>, s: &str)
    ensures
        final(out)@ == old(out)@ + s@,
{
    let v = chars_of(s);
    out.extend_from_slice(v.as_slice());
}

/// Appends `num_attr(prefix, v)`.
fn push_num_attr(out: &mut Vec<char>, prefix: &str, v: Option<u32>)
    ensures
        final(out)@ == old(out)@ + num_attr(prefix@, v),
{
    match v {
        None => {
            assert(out@ =~= out@ + num_attr(prefix@, v));
        },
        Some(n) => {
            let ghost before = out@;
            push_str_chars(out, prefix);
            let d = decimal_chars(n);
            out.extend_from_slice(d.as_slice());
            push_str_chars(out, "\"");
            assert(out@ =~= before + num_attr(prefix@, v));
        },
    }
}

/// Appends `empty_element(open, attrs)` for the attributes given.
fn push_empty_element(
    out: &mut Vec<char>,
    open: &str,
    p1: &str,
    v1: Option<u32>,
    p2: &str,
    v2: Option<u32>,
)
    ensures
        final(out)@ == old(out)@ + empty_element(open@, num_attr(p1@, v1) + num_attr(p2@, v2)),
{
    let mut attrs: Vec<char> = Vec::new();
    push_num_attr(&mut attrs, p1, v1);
    push_num_attr(&mut attrs, p2, v2);
    assert(attrs@ =~= num_attr(p1@, v1) + num_attr(p2@, v2));
    if attrs.len() == 0 {
        assert(out@ =~= out@ + empty_element(open@, attrs@));
    } else {
        let ghost before = out@;
        push_str_chars(out, open);
        out.extend_from_slice(attrs.as_slice());
        push_str_chars(out, "/>");
        assert(out@ =~= before + empty_element(open@, attrs@));
    }
}

/// The paragraph properties written for `fmt`.
pub fn ppr_chars(fmt: &DocxFormat) -> (r: Vec<char>)
    ensures
        r@ == ppr_for(*fmt),
{
    let mut out: Vec<char> = Vec::new();
    match fmt.alignment {
        None => {},
        Some(a) => {
            push_str_chars(&mut out, "<w:jc w:val=\"");
            match a {
                DocxAlign::Left => push_str_chars(&mut out, "left"),
                DocxAlign::Center => push_str_chars(&mut out, "center"),
                DocxAlign::Right => push_str_chars(&mut out, "right"),
                DocxAlign::Justify => push_str_chars(&mut out, "both"),
            }
            push_str_chars(&mut out, "\"/>");
        },
    }
    let ghost jc = out@;
    push_empty_element(
        &mut out,
        "<w:spacing",
        " w:before=\"",
        fmt.spacing_before,
        " w:after=\"",
        fmt.spacing_after,
    );
    let ghost with_spacing = out@;
    push_empty_element(
        &mut out,
        "<w:ind",
        " w:left=\"",
        fmt.indent_left,
        " w:right=\"",
        fmt.indent_right,
    );
    proof {
        assert(out@ =~= ppr_for(*fmt));
    }
    out
}

/// `ppr_spot` as an executable search.
fn ppr_spot_exec(x: &[char], te: usize, cs: usize) -> (r: Option<Option<(usize, bool)>>)
    requires
        te <= cs <= x@.len(),
    ensures
        match r {
            None => ppr_spot(x@, te as int, cs as int) is None,
            Some(None) => ppr_spot(x@, te as int, cs as int) == Some(None::<(int, bool)>),
            Some(Some((i, sc))) => ppr_spot(x@, te as int, cs as int) == Some(Some((i as int, sc)))
                && te < i && (if sc {
                i + 2 <= cs
            } else {
                i <= cs
            }),
        },
{
    let open = chars_of("<w:pPr");
    let close = chars_of("</w:pPr>");
    let gtv = chars_of(">");
    proof {
        reveal_strlit(">");
        reveal_strlit("<w:pPr");
        lemma_find_open_from(x@.subrange(te as int, cs as int), "<w:pPr"@, 0);
    }
    let pi = match find_open_chars(&x[te..cs], open.as_slice(), 0) {
        None => return None,
        Some(p) => p,
    };
    proof {
        lemma_find_from(x@, gt(), te + pi);
        let sub = x@.subrange(te as int, cs as int);
        assert(sub.subrange(pi as int, pi + 6) == "<w:pPr"@);
        assert(sub.subrange(pi as int, pi + 6)[0] == sub[pi as int]);
        assert(sub.subrange(pi as int, pi + 6)[1] == sub[pi + 1]);
        assert(sub[pi as int] == x@[te + pi]);
        assert(sub[pi + 1] == x@[te + pi + 1]);
        assert(x@[te + pi] == '<' && x@[te + pi + 1] == 'w');
    }
    let g = match find_chars(x, gtv.as_slice(), te + pi) {
        None => return Some(None),
        Some(g) => g,
    };
    if g >= cs {
        return Some(None);
    }
    proof {
        assert(x@.subrange(g as int, g + 1) == gt());
        assert(x@.subrange(g as int, g + 1)[0] == x@[g as int]);
        assert(x@[g as int] == '>');
        if g < te + pi + 2 {
            assert(occurs_at(x@, gt(), g as int));
        }
        assert(g >= te + pi + 2);
    }
    if x[g - 1] == '/' {
        return Some(Some((g - 1, true)));
    }
    proof {
        lemma_find_from(x@.subrange(g + 1, cs as int), "</w:pPr>"@, 0);
    }
    match find_chars(&x[g + 1..cs], close.as_slice(), 0) {
        Some(c) => Some(Some((g + 1 + c, false))),
        None => Some(Some((g + 1, false))),
    }
}

/// `format_walk` as an executable walk.
#[verifier::spinoff_prover]
#[verifier::rlimit(60)]
fn format_walk_exec(x: &[char], find: &[char], ppr: &[char]) -> (r: (Vec<char>, bool))
    ensures
        format_walk(x@, find@, ppr@, 0, false) == (r.0@, r.1),
{
    let xlen = x.len();
    let open = chars_of("<w:p");
    let close = chars_of("</w:p>");
    let gtv = chars_of(">");
    let ppr_open = chars_of("<w:pPr>");
    let ppr_close = chars_of("</w:pPr>");
    let gt_only = chars_of(">");
    let ghost xs = x@;
    let ghost total = format_walk(xs, find@, ppr@, 0, false);
    let mut out: Vec<char> = Vec::new();
    let mut formatted = false;
    let mut pos: usize = 0;
    while pos < x.len()
        invariant
            x@ == xs,
            xlen == xs.len(),
            open@ == p_open(),
            close@ == p_close(),
            gtv@ == gt(),
            gt_only@ == ">"@,
            ppr_open@ == "<w:pPr>"@,
            ppr_close@ == "</w:pPr>"@,
            pos <= xs.len(),
            out@ + format_walk(xs, find@, ppr@, pos as int, formatted).0 == total.0,
            format_walk(xs, find@, ppr@, pos as int, formatted).1 == total.1,
        decreases xs.len() - pos,
    {
        let ghost old_out = out@;
        let ghost here = format_walk(xs, find@, ppr@, pos as int, formatted);
        proof {
            lemma_next_para(xs, pos as int);
        }
        match next_para_exec(x, pos, open.as_slice(), close.as_slice(), gtv.as_slice()) {
            None => {
                push_range(&mut out, x, pos, x.len());
                proof {
                    assert(out@ + Seq::<char>::empty() =~= old_out + tail(xs, pos as int));
                }
                pos = x.len();
            },
            Some((ps, te, cs, ce)) => {
                let chosen = if !formatted && ppr.len() > 0 {
                    let text = para_text_chars(&x[ps..ce]);
                    find_chars(text.as_slice(), find, 0).is_some()
                } else {
                    false
                };
                if chosen {
                    match ppr_spot_exec(x, te, cs) {
                        None => {
                            push_range(&mut out, x, pos, te);
                            out.extend_from_slice(ppr_open.as_slice());
                            out.extend_from_slice(ppr);
                            out.extend_from_slice(ppr_close.as_slice());
                            push_range(&mut out, x, te, ce);
                            formatted = true;
                            proof {
                                let rest = format_walk(xs, find@, ppr@, ce as int, true);
                                assert(out@ + rest.0 =~= old_out + (xs.subrange(
                                    pos as int,
                                    te as int,
                                ) + "<w:pPr>"@ + ppr@ + "</w:pPr>"@ + xs.subrange(
                                    te as int,
                                    ce as int,
                                ) + rest.0));
                            }
                        },
                        Some(None) => {
                            push_range(&mut out, x, pos, ce);
                            proof {
                                let rest = format_walk(xs, find@, ppr@, ce as int, formatted);
                                assert(out@ + rest.0 =~= old_out + (xs.subrange(
                                    pos as int,
                                    ce as int,
                                ) + rest.0));
                            }
                        },
                        Some(Some((i, true))) => {
                            push_range(&mut out, x, pos, i);
                            out.extend_from_slice(gt_only.as_slice());
                            out.extend_from_slice(ppr);
                            out.extend_from_slice(ppr_close.as_slice());
                            push_range(&mut out, x, i + 2, ce);
                            formatted = true;
                            proof {
                                let rest = format_walk(xs, find@, ppr@, ce as int, true);
                                assert(out@ + rest.0 =~= old_out + (xs.subrange(
                                    pos as int,
                                    i as int,
                                ) + ">"@ + ppr@ + "</w:pPr>"@ + xs.subrange(i + 2, ce as int)
                                    + rest.0));
                            }
                        },
                        Some(Some((i, false))) => {
                            push_range(&mut out, x, pos, i);
                            out.extend_from_slice(ppr);
                            push_range(&mut out, x, i, ce);
                            formatted = true;
                            proof {
                                let rest = format_walk(xs, find@, ppr@, ce as int, true);
                                assert(out@ + rest.0 =~= old_out + (xs.subrange(
                                    pos as int,
                                    i as int,
                                ) + ppr@ + xs.subrange(i as int, ce as int) + rest.0));
                            }
                        },
                    }
                } else {
                    push_range(&mut out, x, pos, ce);
                    proof {
                        let rest = format_walk(xs, find@, ppr@, ce as int, formatted);
                        assert(out@ + rest.0 =~= old_out + (xs.subrange(pos as int, ce as int)
                            + rest.0));
                    }
                }
                pos = ce;
            },
        }
    }
    proof {
        assert(out@ =~= total.0);
    }
    (out, formatted)
}

/// Adds the properties of `fmt` to the first paragraph whose visible
/// text contains `find`: merged into its `<w:pPr>` where it has one (a
/// self-closing `<w:pPr/>` is opened up to hold them), in a new
/// `<w:pPr>` right after its opening tag where not. `None` where no
/// paragraph was formatted (none matched, or `fmt` sets nothing).
pub fn format_paragraph_containing(xml: &str, find: &str, fmt: &DocxFormat) -> (r: Option<String>)
    ensures
        ({
            let (text, done) = format_walk(xml@, find@, ppr_for(*fmt), 0, false);
            if done {
                r matches Some(s) && s@ == text
            } else {
                r is None
            }
        }),
{
    let x = chars_of(xml);
    let f = chars_of(find);
    let ppr = ppr_chars(fmt);
    let (out, done) = format_walk_exec(x.as_slice(), f.as_slice(), ppr.as_slice());
    if done {
        Some(string_from_chars(out.as_slice()))
    } else {
        None
    }
}

/// A WordprocessingML document opened for editing, held as the text of
/// its main part (`word/document.xml`); `None` where the package has no
/// such part.
pub struct EditableDocx {
    main_part: Option<String>,
}

impl View for EditableDocx {
    type V = Option<Seq<char>>;

    closed spec fn view(&self) -> Option<Seq<char>> {
        match self.main_part {
            Some(s) => Some(s@),
            None => None,
        }
    }
}

impl EditableDocx {
    /// A document whose main part is `xml`.
    pub fn from_main_part(xml: Option<String>) -> (r: Self)
        ensures
            r@ == (match xml {
                Some(s) => Some(s@),
                None => None,
            }),
    {
        EditableDocx { main_part: xml }
    }

    /// The current text of the main part.
    pub fn main_part(&self) -> (r: Option<&String>)
        ensures
            match r {
                Some(s) => self@ == Some(s@),
                None => self@ is None,
            },
    {
        match &self.main_part {
            Some(s) => Some(s),
            None => None,
        }
    }

    /// The main part's text, consuming the document.
    pub fn into_main_part(self) -> (r: Option<String>)
        ensures
            match r {
                Some(s) => self@ == Some(s@),
                None => self@ is None,
            },
    {
        self.main_part
    }

    /// Replaces every occurrence of `find` by `replace` inside the `<w:t>`
    /// elements of the main part and returns how many were replaced; the
    /// part changes only where that number is not zero.
    pub fn replace_text(&mut self, find: &str, replace: &str) -> (r: usize)
        ensures
            match old(self)@ {
                None => r == 0 && final(self)@ == old(self)@,
                Some(x) => r == wt_walk(x, find@, replace@, 0).1 && final(self)@ == (if r > 0 {
                    Some(wt_walk(x, find@, replace@, 0).0)
                } else {
                    old(self)@
                }),
            },
    {
        let (new_xml, count) = match &self.main_part {
            None => return 0,
            Some(xml) => replace_in_wt_elements(xml.as_str(), find, replace),
        };
        if count > 0 {
            self.main_part = Some(new_xml);
        }
        count
    }

    /// Deletes every paragraph whose visible text contains `find` and
    /// returns how many were deleted; the part changes only where that
    /// number is not zero.
    pub fn delete_paragraphs(&mut self, find: &str) -> (r: usize)
        ensures
            match old(self)@ {
                None => r == 0 && final(self)@ == old(self)@,
                Some(x) => {
                    let w = remove_walk(x, find@, 0);
                    &&& r == w.1
                    &&& final(self)@ == (if r > 0 {
                        Some(w.0)
                    } else {
                        old(self)@
                    })
                },
            },
    {
        let (new_xml, count) = match &self.main_part {
            None => return 0,
            Some(xml) => remove_paragraphs_counted(xml.as_str(), find),
        };
        if count > 0 {
            self.main_part = Some(new_xml);
        }
        count
    }

    /// Appends blocks, given as the `<w:p>` elements written for them
    /// (`fragment`), at the end of the body; returns `block_count`, the
    /// number of blocks written, where the fragment was inserted, else 0
    /// with the part unchanged (an empty fragment, no main part, or no
    /// `</w:body>`).
    pub fn append_blocks(&mut self, block_count: usize, fragment: &str) -> (r: usize)
        ensures
            match old(self)@ {
                Some(x) if fragment@.len() > 0 && splice_before_body_end(x, fragment@) is Some => {
                    r == block_count && final(self)@ == splice_before_body_end(x, fragment@)
                },
                _ => r == 0 && final(self)@ == old(self)@,
            },
    {
        if fragment.is_empty() {
            return 0;
        }
        let spliced = match &self.main_part {
            None => return 0,
            Some(xml) => insert_before_body_end(xml.as_str(), fragment),
        };
        match spliced {
            Some(new_xml) => {
                self.main_part = Some(new_xml);
                block_count
            },
            None => 0,
        }
    }

    /// Appends a table, given as the `<w:tbl>` element written for `rows`
    /// (`table_xml`), at the end of the body; 1 where it was inserted, else
    /// 0 with the part unchanged (no rows, no main part, or no `</w:body>`).
    pub fn append_table(&mut self, rows: &[Vec<String>], table_xml: &str) -> (r: usize)
        ensures
            match old(self)@ {
                Some(x) if rows@.len() > 0 && splice_before_body_end(x, table_xml@) is Some => {
                    r == 1 && final(self)@ == splice_before_body_end(x, table_xml@)
                },
                _ => r == 0 && final(self)@ == old(self)@,
            },
    {
        if rows.len() == 0 {
            return 0;
        }
        let spliced = match &self.main_part {
            None => return 0,
            Some(xml) => insert_before_body_end(xml.as_str(), table_xml),
        };
        match spliced {
            Some(new_xml) => {
                self.main_part = Some(new_xml);
                1
            },
            None => 0,
        }
    }

    /// Applies `fmt` to the first paragraph whose visible text contains
    /// `find`; 1 where one was formatted, else 0 with the part unchanged.
    pub fn format_paragraph(&mut self, find: &str, fmt: &DocxFormat) -> (r: usize)
        ensures
            match old(self)@ {
                None => r == 0 && final(self)@ == old(self)@,
                Some(x) => {
                    let (y, done) = format_walk(x, find@, ppr_for(*fmt), 0, false);
                    r == (if done {
                        1usize
                    } else {
                        0usize
                    }) && final(self)@ == (if done {
                        Some(y)
                    } else {
                        old(self)@
                    })
                },
            },
    {
        let formatted = match &self.main_part {
            None => return 0,
            Some(xml) => format_paragraph_containing(xml.as_str(), find, fmt),
        };
        match formatted {
            Some(new_xml) => {
                self.main_part = Some(new_xml);
                1
            },
            None => 0,
        }
    }
}

} // verus!
