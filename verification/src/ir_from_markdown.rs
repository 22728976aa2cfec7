//! Pieces of reading Markdown into the intermediate representation:
//! inline emphasis, code and links; line classifiers; and embedded
//! `data:` images with their pixel sizes.

use vstd::prelude::*;
use crate::ir::{Heading, InlineContent, TextSpan, Image, ImageFormat, ImagePositioning, Paragraph};
use crate::bytes::{be16, be32, read_u16_be, read_u32_be};
use crate::pattern::{find_from, lemma_find_from, find_chars, occurs_at};
use crate::text::{
    trim_string, is_blank, append_str, push_char,
    chars_of, string_from_chars, is_whitespace, trim_start_seq, trim_seq, trim_chars,
    utf8_len, char_utf8_len, ascii_lower_seq, ascii_lowercase_chars,
};
use crate::docx::text::{trim_end_char, trim_start_char};

verus! {

/// A span that inline parsing produces, by its characters.
pub ghost struct SpanSpec {
    pub text: Seq<char>,
    pub bold: bool,
    pub italic: bool,
    pub strike: bool,
    pub link: Option<Seq<char>>,
}

/// A span of plain text.
pub open spec fn plain_spec(t: Seq<char>) -> SpanSpec {
    SpanSpec { text: t, bold: false, italic: false, strike: false, link: None }
}

/// Whether inline content is the text span `m` with no other styling.
pub open spec fn is_span(c: InlineContent, m: SpanSpec) -> bool {
    match c {
        InlineContent::Text(sp) => {
            &&& sp.text@ == m.text
            &&& sp.bold == m.bold
            &&& sp.italic == m.italic
            &&& sp.strikethrough == m.strike
            &&& match sp.hyperlink {
                Some(h) => m.link == Some(h@),
                None => m.link is None,
            }
            &&& sp.font_size_half_pt is None
            &&& sp.color is None
            &&& sp.underline is None
            &&& sp.font_name is None
            &&& sp.highlight is None
            &&& sp.vertical_align is None
            &&& !sp.all_caps
            &&& !sp.small_caps
            &&& sp.char_spacing_half_pt is None
        },
        _ => false,
    }
}

/// Whether a list of inline content is the spans `m`, in order.
pub open spec fn are_spans(c: Seq<InlineContent>, m: Seq<SpanSpec>) -> bool {
    c.len() == m.len() && forall|k: int| 0 <= k < c.len() ==> is_span(#[trigger] c[k], m[k])
}

/// The marked-up span starting at `i`, and where reading goes on after
/// it: `**bold**` or `__bold__`; `*italic*` or `_italic_` (the marker
/// not doubled); `~~struck~~`; `` `code` `` as plain text; and
/// `[text](url)` as a link. `None` where no closing marker follows.
pub open spec fn inline_token(s: Seq<char>, i: int) -> Option<(SpanSpec, int)> {
    let n = s.len();
    let bold = if i + 1 < n && ((s[i] == '*' && s[i + 1] == '*') || (s[i] == '_' && s[i + 1]
        == '_')) {
        match find_from(s, s.subrange(i, i + 2), i + 2) {
            Some(e) => Some(
                (SpanSpec { text: s.subrange(i + 2, e), bold: true, ..plain_spec(Seq::empty()) }, e + 2),
            ),
            None => None,
        }
    } else {
        None
    };
    let italic = if (s[i] == '*' || s[i] == '_') && i + 1 < n && s[i + 1] != s[i] {
        match find_from(s, seq![s[i]], i + 1) {
            Some(e) => Some(
                (
                    SpanSpec { text: s.subrange(i + 1, e), italic: true, ..plain_spec(Seq::empty()) },
                    e + 1,
                ),
            ),
            None => None,
        }
    } else {
        None
    };
    let strike = if i + 1 < n && s[i] == '~' && s[i + 1] == '~' {
        match find_from(s, seq!['~', '~'], i + 2) {
            Some(e) => Some(
                (
                    SpanSpec { text: s.subrange(i + 2, e), strike: true, ..plain_spec(Seq::empty()) },
                    e + 2,
                ),
            ),
            None => None,
        }
    } else {
        None
    };
    let code = if s[i] == '`' {
        match find_from(s, seq!['`'], i + 1) {
            Some(e) => Some((plain_spec(s.subrange(i + 1, e)), e + 1)),
            None => None,
        }
    } else {
        None
    };
    let link = if s[i] == '[' {
        match find_from(s, seq![']'], i + 1) {
            Some(b) => if b + 1 < n && s[b + 1] == '(' {
                match find_from(s, seq![')'], b + 2) {
                    Some(p) => Some(
                        (
                            SpanSpec {
                                text: s.subrange(i + 1, b),
                                link: Some(s.subrange(b + 2, p)),
                                ..plain_spec(Seq::empty())
                            },
                            p + 1,
                        ),
                    ),
                    None => None,
                }
            } else {
                None
            },
            None => None,
        }
    } else {
        None
    };
    if bold is Some {
        bold
    } else if italic is Some {
        italic
    } else if strike is Some {
        strike
    } else if code is Some {
        code
    } else {
        link
    }
}

/// A token ends after where it starts, within the text.
pub proof fn lemma_inline_token(s: Seq<char>, i: int)
    requires
        0 <= i < s.len(),
    ensures
        inline_token(s, i) matches Some((_, next)) ==> i < next <= s.len(),
{
    if i + 1 < s.len() {
        lemma_find_from(s, s.subrange(i, i + 2), i + 2);
        lemma_find_from(s, seq!['~', '~'], i + 2);
    }
    lemma_find_from(s, seq![s[i]], i + 1);
    lemma_find_from(s, seq!['`'], i + 1);
    lemma_find_from(s, seq![']'], i + 1);
    if let Some(b) = find_from(s, seq![']'], i + 1) {
        if b + 2 <= s.len() {
            lemma_find_from(s, seq![')'], b + 2);
        }
    }
}

/// The plain text from `ps` to `end` as a span, where it is not empty.
pub open spec fn flush(s: Seq<char>, out: Seq<SpanSpec>, ps: int, end: int) -> Seq<SpanSpec> {
    if ps < end {
        out.push(plain_spec(s.subrange(ps, end)))
    } else {
        out
    }
}

/// Reading inline Markdown from `i`, plain text pending since `ps`.
pub open spec fn inline_scan(s: Seq<char>, i: int, ps: int, out: Seq<SpanSpec>) -> Seq<SpanSpec>
    decreases s.len() - i,
{
    if i < 0 || i >= s.len() {
        flush(s, out, ps, s.len() as int)
    } else {
        match inline_token(s, i) {
            Some((sp, next)) => {
                proof {
                    lemma_inline_token(s, i);
                }
                inline_scan(s, next, next, flush(s, out, ps, i).push(sp))
            },
            None => inline_scan(s, i + 1, ps, out),
        }
    }
}

/// The spans of inline Markdown.
pub open spec fn inline_spans(s: Seq<char>) -> Seq<SpanSpec> {
    inline_scan(s, 0, 0, Seq::empty())
}

/// Text with none of the characters that open inline markup.
pub open spec fn no_inline_markup(p: Seq<char>) -> bool {
    forall|k: int|
        0 <= k < p.len() ==> !(#[trigger] p[k] == '*' || p[k] == '_' || p[k] == '~' || p[k] == '`'
            || p[k] == '[')
}

/// Reading skips positions where no token starts.
proof fn lemma_scan_skips(s: Seq<char>, i: int, end: int, ps: int, out: Seq<SpanSpec>)
    requires
        0 <= i <= end <= s.len(),
        forall|j: int| i <= j < end ==> inline_token(s, j) is None,
    ensures
        inline_scan(s, i, ps, out) == inline_scan(s, end, ps, out),
    decreases end - i,
{
    if i < end {
        lemma_scan_skips(s, i + 1, end, ps, out);
    }
}

/// A Markdown link `[t](u)` after plain text `p` is read as the plain
/// span `p` (where not empty) and then one link span whose text is the
/// bracketed `t` and whose target is the parenthesised `u`: the link
/// text is never taken for the target nor the other way round.
pub proof fn lemma_link_text_and_target(p: Seq<char>, t: Seq<char>, u: Seq<char>)
    requires
        no_inline_markup(p),
        forall|k: int| 0 <= k < t.len() ==> #[trigger] t[k] != ']',
        forall|k: int| 0 <= k < u.len() ==> #[trigger] u[k] != ')',
    ensures
        inline_spans(p + "["@ + t + "]("@ + u + ")"@) == (if p.len() > 0 {
            seq![plain_spec(p)]
        } else {
            Seq::empty()
        }).push(SpanSpec { text: t, bold: false, italic: false, strike: false, link: Some(u) }),
{
    reveal_strlit("[");
    reveal_strlit("](");
    reveal_strlit(")");
    let s = p + "["@ + t + "]("@ + u + ")"@;
    let i = p.len() as int;
    let b = i + 1 + t.len();
    let q = b + 2 + u.len();
    assert(s.len() == q + 1);
    assert forall|j: int| 0 <= j < i implies inline_token(s, j) is None by {
        assert(s[j] == p[j]);
    }
    lemma_scan_skips(s, 0, i, 0, Seq::empty());
    assert(s[i] == '[');
    assert(s[b] == ']');
    assert(s[b + 1] == '(');
    assert(s[q] == ')');
    lemma_find_from(s, seq![']'], i + 1);
    assert(occurs_at(s, seq![']'], b)) by {
        assert(s.subrange(b, b + 1) =~= seq![']']);
    }
    assert forall|k: int| i + 1 <= k < b implies !occurs_at(s, seq![']'], k) by {
        assert(s[k] == t[k - i - 1]);
        if occurs_at(s, seq![']'], k) {
            assert(s.subrange(k, k + 1)[0] == s[k]);
        }
    }
    assert(find_from(s, seq![']'], i + 1) == Some(b));
    lemma_find_from(s, seq![')'], b + 2);
    assert(occurs_at(s, seq![')'], q)) by {
        assert(s.subrange(q, q + 1) =~= seq![')']);
    }
    assert forall|k: int| b + 2 <= k < q implies !occurs_at(s, seq![')'], k) by {
        assert(s[k] == u[k - b - 2]);
        if occurs_at(s, seq![')'], k) {
            assert(s.subrange(k, k + 1)[0] == s[k]);
        }
    }
    assert(find_from(s, seq![')'], b + 2) == Some(q));
    assert(s.subrange(i + 1, b) =~= t);
    assert(s.subrange(b + 2, q) =~= u);
    assert(s.subrange(0, i) =~= p);
    let sp = SpanSpec { text: t, bold: false, italic: false, strike: false, link: Some(u) };
    assert(inline_token(s, i) == Some((sp, q + 1)));
    let out = flush(s, Seq::empty(), 0, i).push(sp);
    assert(inline_scan(s, i, 0, Seq::empty()) == inline_scan(s, q + 1, q + 1, out));
    assert(inline_scan(s, q + 1, q + 1, out) == out);
    assert(out =~= (if p.len() > 0 {
        seq![plain_spec(p)]
    } else {
        Seq::empty()
    }).push(sp));
}

/// A marker whose first character does not occur in `s` between `from`
/// and `q`, and which occurs at `q`, is first found at `q`.
proof fn lemma_found_at(s: Seq<char>, m: Seq<char>, from: int, q: int)
    requires
        0 <= from <= q,
        m.len() > 0,
        occurs_at(s, m, q),
        forall|k: int| from <= k < q ==> #[trigger] s[k] != m[0],
    ensures
        find_from(s, m, from) == Some(q),
{
    lemma_find_from(s, m, from);
    match find_from(s, m, from) {
        Some(j) => {
            if j < q {
                assert(s.subrange(j, j + m.len())[0] == s[j]);
            }
        },
        None => {},
    }
}

/// Plain text `p` followed by one token that runs to the end of `s` is
/// read as the plain span `p` (where not empty) and that token.
proof fn lemma_prefix_then_token(p: Seq<char>, s: Seq<char>, sp: SpanSpec)
    requires
        no_inline_markup(p),
        p.len() < s.len(),
        s.subrange(0, p.len() as int) == p,
        inline_token(s, p.len() as int) == Some((sp, s.len() as int)),
    ensures
        inline_spans(s) == (if p.len() > 0 {
            seq![plain_spec(p)]
        } else {
            Seq::empty()
        }).push(sp),
{
    let i = p.len() as int;
    assert forall|j: int| 0 <= j < i implies inline_token(s, j) is None by {
        assert(s[j] == s.subrange(0, i)[j]);
    }
    lemma_scan_skips(s, 0, i, 0, Seq::empty());
    let out = flush(s, Seq::empty(), 0, i).push(sp);
    assert(inline_scan(s, i, 0, Seq::empty()) == inline_scan(s, s.len() as int, s.len() as int, out));
    assert(out =~= (if p.len() > 0 {
        seq![plain_spec(p)]
    } else {
        Seq::empty()
    }).push(sp));
}

/// Emphasis markers after plain text `p`, around text `t` free of markup:
/// `**t**` is one bold span `t`, `*t*` (with `t` not empty) one italic
/// span `t`, `~~t~~` one struck-through span `t`, and `` `t` `` the plain
/// span `t`, each after the plain span `p` where that is not empty; the
/// markers themselves never appear in the text.
pub proof fn lemma_emphasis_spans(p: Seq<char>, t: Seq<char>)
    requires
        no_inline_markup(p),
        no_inline_markup(t),
    ensures
        ({
            let pre = if p.len() > 0 {
                seq![plain_spec(p)]
            } else {
                Seq::empty()
            };
            &&& inline_spans(p + "**"@ + t + "**"@) == pre.push(
                SpanSpec { text: t, bold: true, italic: false, strike: false, link: None },
            )
            &&& t.len() > 0 ==> inline_spans(p + "*"@ + t + "*"@) == pre.push(
                SpanSpec { text: t, bold: false, italic: true, strike: false, link: None },
            )
            &&& inline_spans(p + "~~"@ + t + "~~"@) == pre.push(
                SpanSpec { text: t, bold: false, italic: false, strike: true, link: None },
            )
            &&& inline_spans(p + "`"@ + t + "`"@) == pre.push(plain_spec(t))
        }),
{
    reveal_strlit("**");
    reveal_strlit("*");
    reveal_strlit("~~");
    reveal_strlit("`");
    let i = p.len() as int;
    let n = t.len() as int;
    // bold
    let s = p + "**"@ + t + "**"@;
    let q = i + 2 + n;
    assert(s.len() == q + 2);
    assert(s[i] == '*' && s[i + 1] == '*');
    assert(s.subrange(i, i + 2) =~= "**"@);
    assert(occurs_at(s, "**"@, q)) by {
        assert(s.subrange(q, q + 2) =~= "**"@);
    }
    assert forall|k: int| i + 2 <= k < q implies #[trigger] s[k] != "**"@[0] by {
        assert(s[k] == t[k - i - 2]);
    }
    lemma_found_at(s, "**"@, i + 2, q);
    assert(s.subrange(i + 2, q) =~= t);
    assert(s.subrange(0, i) =~= p);
    lemma_prefix_then_token(
        p,
        s,
        SpanSpec { text: t, bold: true, italic: false, strike: false, link: None },
    );
    // italic
    if n > 0 {
        let s = p + "*"@ + t + "*"@;
        let q = i + 1 + n;
        assert(s.len() == q + 1);
        assert(s[i] == '*');
        assert(s[i + 1] == t[0]);
        assert(occurs_at(s, seq!['*'], q)) by {
            assert(s.subrange(q, q + 1) =~= seq!['*']);
        }
        assert forall|k: int| i + 1 <= k < q implies #[trigger] s[k] != seq!['*'][0] by {
            assert(s[k] == t[k - i - 1]);
        }
        lemma_found_at(s, seq!['*'], i + 1, q);
        assert(seq![s[i]] == seq!['*']);
        assert(s.subrange(i + 1, q) =~= t);
        assert(s.subrange(0, i) =~= p);
        lemma_prefix_then_token(
            p,
            s,
            SpanSpec { text: t, bold: false, italic: true, strike: false, link: None },
        );
    }
    // strike
    let s = p + "~~"@ + t + "~~"@;
    let q = i + 2 + n;
    assert(s.len() == q + 2);
    assert(s[i] == '~' && s[i + 1] == '~');
    assert(occurs_at(s, seq!['~', '~'], q)) by {
        assert(s.subrange(q, q + 2) =~= seq!['~', '~']);
    }
    assert forall|k: int| i + 2 <= k < q implies #[trigger] s[k] != seq!['~', '~'][0] by {
        assert(s[k] == t[k - i - 2]);
    }
    lemma_found_at(s, seq!['~', '~'], i + 2, q);
    assert(s.subrange(i + 2, q) =~= t);
    assert(s.subrange(0, i) =~= p);
    lemma_prefix_then_token(
        p,
        s,
        SpanSpec { text: t, bold: false, italic: false, strike: true, link: None },
    );
    // code
    let s = p + "`"@ + t + "`"@;
    let q = i + 1 + n;
    assert(s.len() == q + 1);
    assert(s[i] == '`');
    assert(occurs_at(s, seq!['`'], q)) by {
        assert(s.subrange(q, q + 1) =~= seq!['`']);
    }
    assert forall|k: int| i + 1 <= k < q implies #[trigger] s[k] != seq!['`'][0] by {
        assert(s[k] == t[k - i - 1]);
    }
    lemma_found_at(s, seq!['`'], i + 1, q);
    assert(s.subrange(i + 1, q) =~= t);
    assert(s.subrange(0, i) =~= p);
    lemma_prefix_then_token(p, s, plain_spec(t));
}

/// A text span with the given styling and nothing else.
fn styled_span(text: String, bold: bool, italic: bool, strike: bool, link: Option<String>) -> (r:
    InlineContent)
    ensures
        is_span(
            r,
            SpanSpec {
                text: text@,
                bold,
                italic,
                strike,
                link: match link {
                    Some(h) => Some(h@),
                    None => None,
                },
            },
        ),
{
    InlineContent::Text(
        TextSpan {
            text,
            bold,
            italic,
            strikethrough: strike,
            hyperlink: link,
            font_size_half_pt: None,
            color: None,
            underline: None,
            font_name: None,
            highlight: None,
            vertical_align: None,
            all_caps: false,
            small_caps: false,
            char_spacing_half_pt: None,
        },
    )
}

/// A token as positions: its kind (bold, italic, struck, code, link), the
/// bounds of its text, the bounds of its link target and where reading
/// goes on.
fn inline_token_exec(s: &[char], i: usize) -> (r: Option<(u8, usize, usize, usize, usize, usize)>)
    requires
        i < s@.len(),
    ensures
        match r {
            None => inline_token(s@, i as int) is None,
            Some((k, a, b, c, d, next)) => a <= b <= s@.len() && c <= d <= s@.len() && k <= 4
                && inline_token(s@, i as int) == Some(
                (
                    SpanSpec {
                        text: s@.subrange(a as int, b as int),
                        bold: k == 0,
                        italic: k == 1,
                        strike: k == 2,
                        link: if k == 4 {
                            Some(s@.subrange(c as int, d as int))
                        } else {
                            None
                        },
                    },
                    next as int,
                ),
            ),
        },
{
    let n = s.len();
    proof {
        lemma_inline_token(s@, i as int);
        if i + 1 < n {
            lemma_find_from(s@, s@.subrange(i as int, i + 2), i + 2);
            lemma_find_from(s@, seq!['~', '~'], i + 2);
        }
        lemma_find_from(s@, seq![s@[i as int]], i + 1);
        lemma_find_from(s@, seq!['`'], i + 1);
        lemma_find_from(s@, seq![']'], i + 1);
    }
    let c = s[i];
    if i + 1 < n && ((c == '*' && s[i + 1] == '*') || (c == '_' && s[i + 1] == '_')) {
        let marker = &s[i..i + 2];
        match find_chars(s, marker, i + 2) {
            Some(e) => {
                return Some((0, i + 2, e, 0, 0, e + 2));
            },
            None => {},
        }
    }
    if (c == '*' || c == '_') && i + 1 < n && s[i + 1] != c {
        let marker = &s[i..i + 1];
        proof {
            assert(marker@ =~= seq![s@[i as int]]);
        }
        match find_chars(s, marker, i + 1) {
            Some(e) => {
                return Some((1, i + 1, e, 0, 0, e + 1));
            },
            None => {},
        }
    }
    if i + 1 < n && c == '~' && s[i + 1] == '~' {
        let mut marker: Vec<char> = Vec::new();
        marker.push('~');
        marker.push('~');
        proof {
            assert(marker@ =~= seq!['~', '~']);
        }
        match find_chars(s, marker.as_slice(), i + 2) {
            Some(e) => {
                return Some((2, i + 2, e, 0, 0, e + 2));
            },
            None => {},
        }
    }
    if c == '`' {
        let mut marker: Vec<char> = Vec::new();
        marker.push('`');
        proof {
            assert(marker@ =~= seq!['`']);
        }
        match find_chars(s, marker.as_slice(), i + 1) {
            Some(e) => {
                return Some((3, i + 1, e, 0, 0, e + 1));
            },
            None => {},
        }
    }
    if c == '[' {
        let mut close: Vec<char> = Vec::new();
        close.push(']');
        proof {
            assert(close@ =~= seq![']']);
        }
        match find_chars(s, close.as_slice(), i + 1) {
            Some(b) => {
                if b + 1 < n && s[b + 1] == '(' {
                    let mut paren: Vec<char> = Vec::new();
                    paren.push(')');
                    proof {
                        assert(paren@ =~= seq![')']);
                        lemma_find_from(s@, seq![')'], b + 2);
                    }
                    match find_chars(s, paren.as_slice(), b + 2) {
                        Some(p) => {
                            return Some((4, i + 1, b, b + 2, p, p + 1));
                        },
                        None => {},
                    }
                }
            },
            None => {},
        }
    }
    None
}

/// Appends the pending plain text `s[ps..end]` as a span where it is not
/// empty.
fn flush_exec(
    s: &[char],
    out: &mut Vec<InlineContent>,
    ps: usize,
    end: usize,
    Ghost(model): Ghost<Seq<SpanSpec>>,
) -> (r: Ghost<Seq<SpanSpec>>)
    requires
        ps <= s@.len(),
        end <= s@.len(),
        are_spans(old(out)@, model),
    ensures
        r@ == flush(s@, model, ps as int, end as int),
        are_spans(final(out)@, r@),
{
    if ps < end {
        let t = string_from_chars(&s[ps..end]);
        let sp = styled_span(t, false, false, false, None);
        out.push(sp);
        let ghost m2 = model.push(plain_spec(s@.subrange(ps as int, end as int)));
        proof {
            assert forall|k: int| 0 <= k < out@.len() implies is_span(#[trigger] out@[k], m2[k]) by {
                if k < model.len() {
                    assert(out@[k] == old(out)@[k]);
                }
            }
        }
        Ghost(m2)
    } else {
        Ghost(model)
    }
}

/// Inline Markdown as text spans: `**bold**`/`__bold__`, `*italic*`/`_italic_`,
/// `~~strikethrough~~`, `` `code` `` (kept as plain text) and
/// `[text](url)` links; everything else is plain text.
pub fn parse_inline(text: &str) -> (r: Vec<InlineContent>)
    ensures
        are_spans(r@, inline_spans(text@)),
{
    let v = chars_of(text);
    let s = v.as_slice();
    let n = s.len();
    let mut out: Vec<InlineContent> = Vec::new();
    let mut plain_start: usize = 0;
    let mut i: usize = 0;
    let ghost mut model: Seq<SpanSpec> = Seq::empty();
    while i < n
        invariant
            n == s@.len(),
            s@ == text@,
            plain_start <= i <= n,
            are_spans(out@, model),
            inline_scan(s@, 0, 0, Seq::empty()) == inline_scan(s@, i as int, plain_start as int, model),
        decreases n - i,
    {
        match inline_token_exec(s, i) {
            Some((k, a, b, c, d, next)) => {
                let Ghost(m1) = flush_exec(s, &mut out, plain_start, i, Ghost(model));
                let t = string_from_chars(&s[a..b]);
                let sp = if k == 4 {
                    styled_span(t, false, false, false, Some(string_from_chars(&s[c..d])))
                } else {
                    styled_span(t, k == 0, k == 1, k == 2, None)
                };
                let ghost spec_sp = SpanSpec {
                    text: s@.subrange(a as int, b as int),
                    bold: k == 0,
                    italic: k == 1,
                    strike: k == 2,
                    link: if k == 4 {
                        Some(s@.subrange(c as int, d as int))
                    } else {
                        None
                    },
                };
                let ghost before = out@;
                out.push(sp);
                proof {
                    lemma_inline_token(s@, i as int);
                    model = m1.push(spec_sp);
                    assert forall|j: int| 0 <= j < out@.len() implies is_span(#[trigger] out@[j], model[j]) by {
                        if j < m1.len() {
                            assert(out@[j] == before[j]);
                        }
                    }
                }
                i = next;
                plain_start = next;
            },
            None => {
                i = i + 1;
            },
        }
    }
    let Ghost(m_final) = flush_exec(s, &mut out, plain_start, n, Ghost(model));
    out
}

/// The number of leading white-space characters.
fn leading_ws(v: &[char]) -> (n: usize)
    ensures
        n <= v@.len(),
        trim_start_seq(v@) == v@.skip(n as int),
{
    let mut n: usize = 0;
    proof {
        assert(v@.skip(0) =~= v@);
    }
    while n < v.len() && is_whitespace(v[n])
        invariant
            n <= v@.len(),
            trim_start_seq(v@) == trim_start_seq(v@.skip(n as int)),
        decreases v@.len() - n,
    {
        proof {
            assert(v@.skip(n as int).drop_first() =~= v@.skip(n + 1));
        }
        n = n + 1;
    }
    n
}

/// The number of leading `c` from position `from` on.
pub open spec fn run_len(s: Seq<char>, c: char, from: int) -> int
    decreases s.len() - from,
{
    if from < 0 || from >= s.len() || s[from] != c {
        0
    } else {
        1 + run_len(s, c, from + 1)
    }
}

fn run_len_exec(v: &[char], c: char, from: usize) -> (n: usize)
    requires
        from <= v@.len(),
    ensures
        n == run_len(v@, c, from as int),
        from + n <= v@.len(),
{
    let mut k: usize = from;
    while k < v.len() && v[k] == c
        invariant
            from <= k <= v@.len(),
            run_len(v@, c, from as int) == (k - from) + run_len(v@, c, k as int),
        decreases v@.len() - k,
    {
        k = k + 1;
    }
    k - from
}

/// Whether `s` starts with `p`.
pub open spec fn starts_with(s: Seq<char>, p: Seq<char>) -> bool {
    p.len() <= s.len() && s.take(p.len() as int) == p
}

fn starts_with_exec(s: &[char], from: usize, p: &str) -> (r: bool)
    requires
        from <= s@.len(),
    ensures
        r == starts_with(s@.skip(from as int), p@),
{
    let pv = chars_of(p);
    let slen = s.len();
    if pv.len() > slen - from {
        return false;
    }
    let mut k: usize = 0;
    while k < pv.len()
        invariant
            k <= pv@.len(),
            slen == s@.len(),
            pv@ == p@,
            from + pv@.len() <= s@.len(),
            forall|j: int| 0 <= j < k ==> s@[from + j] == pv@[j],
        decreases pv@.len() - k,
    {
        if s[from + k] != pv[k] {
            proof {
                assert(s@.skip(from as int).take(pv@.len() as int)[k as int] == s@[from + k]);
            }
            return false;
        }
        k = k + 1;
    }
    proof {
        assert(s@.skip(from as int).take(pv@.len() as int) =~= pv@);
    }
    true
}

/// An ATX heading (`# Title`, up to six `#`): its level and its text
/// with the closing `#` run and surrounding white space removed.
pub open spec fn atx_heading(line: Seq<char>) -> Option<(u8, Seq<char>)> {
    let t = trim_start_seq(line);
    let h = run_len(t, '#', 0);
    let rest = t.skip(h);
    if h == 0 || h > 6 {
        None
    } else if rest.len() == 0 || rest[0] == ' ' || rest[0] == '\t' {
        Some((h as u8, trim_seq(trim_end_char(trim_seq(rest), '#'))))
    } else {
        None
    }
}

/// An ATX heading line's level and text.
pub fn parse_atx_heading(line: &str) -> (r: Option<(u8, String)>)
    ensures
        match r {
            Some((l, t)) => atx_heading(line@) == Some((l, t@)),
            None => atx_heading(line@) is None,
        },
{
    let v = chars_of(line);
    let start = leading_ws(v.as_slice());
    let t = &v.as_slice()[start..v.len()];
    proof {
        assert(t@ =~= v@.skip(start as int));
    }
    let h = run_len_exec(t, '#', 0);
    if h == 0 || h > 6 {
        return None;
    }
    let rest = &t[h..t.len()];
    proof {
        assert(rest@ =~= t@.skip(h as int));
    }
    if rest.len() == 0 || rest[0] == ' ' || rest[0] == '\t' {
        let a = trim_chars(rest);
        let mut n = a.len();
        proof {
            assert(a@.take(n as int) =~= a@);
        }
        while n > 0 && a[n - 1] == '#'
            invariant
                n <= a@.len(),
                trim_end_char(a@, '#') == trim_end_char(a@.take(n as int), '#'),
            decreases n,
        {
            proof {
                assert(a@.take(n as int).drop_last() =~= a@.take(n - 1));
            }
            n = n - 1;
        }
        let b = trim_chars(&a.as_slice()[0..n]);
        proof {
            assert(a@.subrange(0, n as int) =~= a@.take(n as int));
        }
        Some((h as u8, string_from_chars(b.as_slice())))
    } else {
        None
    }
}

/// The number of occurrences of `c`.
pub open spec fn count_char(s: Seq<char>, c: char) -> int
    decreases s.len(),
{
    if s.len() == 0 {
        0
    } else {
        count_char(s.drop_last(), c) + if s.last() == c {
            1int
        } else {
            0int
        }
    }
}

/// A thematic break: at least three of one of `-`, `*`, `_`, with only
/// spaces between them.
pub open spec fn thematic_break(line: Seq<char>) -> bool {
    let t = trim_seq(line);
    &&& t.len() >= 3
    &&& (t[0] == '-' || t[0] == '*' || t[0] == '_')
    &&& forall|i: int| 0 <= i < t.len() ==> (#[trigger] t[i] == t[0] || t[i] == ' ')
    &&& count_char(t, t[0]) >= 3
}

/// Whether the line is a thematic break.
pub fn is_thematic_break(line: &str) -> (r: bool)
    ensures
        r == thematic_break(line@),
{
    let v = chars_of(line);
    let t = trim_chars(v.as_slice());
    if t.len() < 3 {
        return false;
    }
    let ch = t[0];
    if !(ch == '-' || ch == '*' || ch == '_') {
        return false;
    }
    let mut k: usize = 0;
    let mut count: usize = 0;
    while k < t.len()
        invariant
            k <= t@.len(),
            t@ == trim_seq(line@),
            t@.len() >= 3,
            ch == t@[0],
            count == count_char(t@.take(k as int), ch),
            count <= k,
            forall|i: int| 0 <= i < k ==> (#[trigger] t@[i] == ch || t@[i] == ' '),
        decreases t@.len() - k,
    {
        if t[k] != ch && t[k] != ' ' {
            proof {
                assert(!(t@[k as int] == t@[0] || t@[k as int] == ' '));
            }
            return false;
        }
        proof {
            assert(t@.take(k + 1).drop_last() =~= t@.take(k as int));
        }
        if t[k] == ch {
            count = count + 1;
        }
        k = k + 1;
    }
    proof {
        assert(t@.take(k as int) =~= t@);
    }
    count >= 3
}

/// `s` split at every `sep`, the pieces in order (one piece where there is
/// none).
pub open spec fn split_on(s: Seq<char>, sep: char) -> Seq<Seq<char>>
    decreases s.len(),
{
    if s.len() == 0 {
        seq![Seq::empty()]
    } else {
        let prev = split_on(s.drop_last(), sep);
        if s.last() == sep {
            prev.push(Seq::empty())
        } else {
            prev.update(prev.len() - 1, prev.last().push(s.last()))
        }
    }
}

pub proof fn lemma_split_nonempty(s: Seq<char>, sep: char)
    ensures
        split_on(s, sep).len() >= 1,
    decreases s.len(),
{
    if s.len() > 0 {
        lemma_split_nonempty(s.drop_last(), sep);
    }
}

/// `split_on` as an executable split.
fn split_chars(s: &[char], sep: char) -> (r: Vec<Vec<char>>)
    ensures
        r@.len() == split_on(s@, sep).len(),
        forall|k: int| 0 <= k < r@.len() ==> (#[trigger] r@[k])@ == split_on(s@, sep)[k],
{
    let mut out: Vec<Vec<char>> = Vec::new();
    let mut cur: Vec<char> = Vec::new();
    let mut i: usize = 0;
    while i < s.len()
        invariant
            i <= s@.len(),
            split_on(s@.take(i as int), sep).len() == out@.len() + 1,
            forall|k: int| 0 <= k < out@.len() ==> (#[trigger] out@[k])@ == split_on(s@.take(i as int), sep)[k],
            cur@ == split_on(s@.take(i as int), sep).last(),
        decreases s@.len() - i,
    {
        proof {
            lemma_split_nonempty(s@.take(i as int), sep);
            assert(s@.take(i + 1).drop_last() =~= s@.take(i as int));
        }
        if s[i] == sep {
            let done = cur;
            out.push(done);
            cur = Vec::new();
            proof {
                assert(cur@ =~= Seq::<char>::empty());
            }
        } else {
            cur.push(s[i]);
        }
        i = i + 1;
    }
    out.push(cur);
    proof {
        assert(s@.take(s@.len() as int) =~= s@);
    }
    out
}

/// A cell of a table separator row: dashes, with optional colons at
/// either end for alignment.
pub open spec fn separator_cell(c: Seq<char>) -> bool {
    let d = trim_end_char(trim_start_char(trim_seq(c), ':'), ':');
    d.len() > 0 && forall|i: int| 0 <= i < d.len() ==> #[trigger] d[i] == '-'
}

/// A table separator row such as `|---|:--:|`.
pub open spec fn separator_row(line: Seq<char>) -> bool {
    let inner = trim_start_char(trim_end_char(trim_seq(line), '|'), '|');
    forall|k: int|
        0 <= k < split_on(inner, '|').len() ==> separator_cell(#[trigger] split_on(inner, '|')[k])
}

fn separator_cell_exec(c: &[char]) -> (r: bool)
    ensures
        r == separator_cell(c@),
{
    let t = trim_chars(c);
    let mut a: usize = 0;
    proof {
        assert(t@.skip(0) =~= t@);
    }
    while a < t.len() && t[a] == ':'
        invariant
            a <= t@.len(),
            trim_start_char(t@, ':') == trim_start_char(t@.skip(a as int), ':'),
        decreases t@.len() - a,
    {
        proof {
            assert(t@.skip(a as int).drop_first() =~= t@.skip(a + 1));
        }
        a = a + 1;
    }
    let u = &t.as_slice()[a..t.len()];
    proof {
        assert(u@ =~= t@.skip(a as int));
        assert(trim_start_char(t@.skip(a as int), ':') == t@.skip(a as int));
    }
    let mut b: usize = u.len();
    proof {
        assert(u@.take(b as int) =~= u@);
    }
    while b > 0 && u[b - 1] == ':'
        invariant
            b <= u@.len(),
            trim_end_char(u@, ':') == trim_end_char(u@.take(b as int), ':'),
        decreases b,
    {
        proof {
            assert(u@.take(b as int).drop_last() =~= u@.take(b - 1));
        }
        b = b - 1;
    }
    proof {
        assert(trim_end_char(u@.take(b as int), ':') == u@.take(b as int));
    }
    if b == 0 {
        return false;
    }
    let mut k: usize = 0;
    while k < b
        invariant
            k <= b <= u@.len(),
            trim_end_char(trim_start_char(trim_seq(c@), ':'), ':') == u@.take(b as int),
            forall|j: int| 0 <= j < k ==> u@[j] == '-',
        decreases b - k,
    {
        if u[k] != '-' {
            proof {
                assert(u@.take(b as int)[k as int] == u@[k as int]);
            }
            return false;
        }
        k = k + 1;
    }
    proof {
        assert forall|j: int| 0 <= j < b implies #[trigger] u@.take(b as int)[j] == '-' by {
            assert(u@.take(b as int)[j] == u@[j]);
        }
    }
    true
}

/// The pipe-delimited pieces of a table line: trimmed, with one run of
/// outer `|` removed at each end (`trim_outer_pipes`), split at `|`.
fn pipe_pieces(line: &str, both_first: bool) -> (r: Vec<Vec<char>>)
    ensures
        ({
            let inner = if both_first {
                trim_start_char(trim_end_char(trim_seq(line@), '|'), '|')
            } else {
                trim_end_char(trim_start_char(trim_seq(line@), '|'), '|')
            };
            &&& r@.len() == split_on(inner, '|').len()
            &&& forall|k: int| 0 <= k < r@.len() ==> (#[trigger] r@[k])@ == split_on(inner, '|')[k]
        }),
{
    let v = chars_of(line);
    let t = trim_chars(v.as_slice());
    let mut a: usize = 0;
    let mut b: usize = t.len();
    proof {
        assert(t@.skip(0) =~= t@);
        assert(t@.take(b as int) =~= t@);
    }
    while a < t.len() && t[a] == '|'
        invariant
            a <= t@.len(),
            trim_start_char(t@, '|') == trim_start_char(t@.skip(a as int), '|'),
        decreases t@.len() - a,
    {
        proof {
            assert(t@.skip(a as int).drop_first() =~= t@.skip(a + 1));
        }
        a = a + 1;
    }
    while b > 0 && t[b - 1] == '|'
        invariant
            b <= t@.len(),
            trim_end_char(t@, '|') == trim_end_char(t@.take(b as int), '|'),
        decreases b,
    {
        proof {
            assert(t@.take(b as int).drop_last() =~= t@.take(b - 1));
        }
        b = b - 1;
    }
    proof {
        assert(trim_start_char(t@.skip(a as int), '|') == t@.skip(a as int));
        assert(trim_end_char(t@.take(b as int), '|') == t@.take(b as int));
    }
    let inner: &[char] = if both_first {
        let mut c: usize = 0;
        let e = &t.as_slice()[0..b];
        proof {
            assert(e@ =~= t@.take(b as int));
            assert(e@.skip(0) =~= e@);
        }
        while c < e.len() && e[c] == '|'
            invariant
                c <= e@.len(),
                trim_start_char(e@, '|') == trim_start_char(e@.skip(c as int), '|'),
            decreases e@.len() - c,
        {
            proof {
                assert(e@.skip(c as int).drop_first() =~= e@.skip(c + 1));
            }
            c = c + 1;
        }
        proof {
            assert(e@.subrange(c as int, e@.len() as int) =~= e@.skip(c as int));
            assert(trim_start_char(e@.skip(c as int), '|') == e@.skip(c as int));
            assert(t@.subrange(c as int, b as int) =~= e@.skip(c as int));
        }
        &t.as_slice()[c..b]
    } else {
        let f = &t.as_slice()[a..t.len()];
        proof {
            assert(f@ =~= t@.skip(a as int));
            assert(f@.take(f@.len() as int) =~= f@);
        }
        let mut d: usize = f.len();
        while d > 0 && f[d - 1] == '|'
            invariant
                d <= f@.len(),
                trim_end_char(f@, '|') == trim_end_char(f@.take(d as int), '|'),
            decreases d,
        {
            proof {
                assert(f@.take(d as int).drop_last() =~= f@.take(d - 1));
            }
            d = d - 1;
        }
        proof {
            assert(t@.subrange(a as int, a + d) =~= f@.take(d as int));
            assert(trim_end_char(f@.take(d as int), '|') == f@.take(d as int));
        }
        &t.as_slice()[a..a + d]
    };
    split_chars(inner, '|')
}

/// Whether the line separates a table's header row from its body.
pub fn is_table_separator_row(line: &str) -> (r: bool)
    ensures
        r == separator_row(line@),
{
    let pieces = pipe_pieces(line, true);
    let ghost inner = trim_start_char(trim_end_char(trim_seq(line@), '|'), '|');
    let mut k: usize = 0;
    while k < pieces.len()
        invariant
            k <= pieces@.len(),
            inner == trim_start_char(trim_end_char(trim_seq(line@), '|'), '|'),
            pieces@.len() == split_on(inner, '|').len(),
            forall|j: int| 0 <= j < pieces@.len() ==> (#[trigger] pieces@[j])@ == split_on(inner, '|')[j],
            forall|j: int| 0 <= j < k ==> separator_cell(#[trigger] split_on(inner, '|')[j]),
        decreases pieces@.len() - k,
    {
        if !separator_cell_exec(pieces[k].as_slice()) {
            proof {
                assert(!separator_cell(split_on(inner, '|')[k as int]));
            }
            return false;
        }
        k = k + 1;
    }
    true
}

/// The cells of a table row: trimmed, outer pipes removed, split at `|`.
pub fn split_pipe_row(line: &str) -> (r: Vec<String>)
    ensures
        ({
            let inner = trim_end_char(trim_start_char(trim_seq(line@), '|'), '|');
            &&& r@.len() == split_on(inner, '|').len()
            &&& forall|k: int| 0 <= k < r@.len() ==> (#[trigger] r@[k])@ == split_on(inner, '|')[k]
        }),
{
    let pieces = pipe_pieces(line, false);
    let mut out: Vec<String> = Vec::new();
    let mut k: usize = 0;
    while k < pieces.len()
        invariant
            k <= pieces@.len(),
            out@.len() == k,
            forall|j: int| 0 <= j < k ==> (#[trigger] out@[j])@ == pieces@[j]@,
        decreases pieces@.len() - k,
    {
        out.push(string_from_chars(pieces[k].as_slice()));
        k = k + 1;
    }
    out
}

/// A bullet list item: `- `, `* ` or `+ ` after leading white space, on
/// a line that is not a thematic break.
pub open spec fn unordered_marker(line: Seq<char>) -> bool {
    let t = trim_start_seq(line);
    (starts_with(t, "- "@) || starts_with(t, "* "@) || starts_with(t, "+ "@)) && !thematic_break(
        line,
    )
}

/// Whether the line starts a bullet list item.
pub fn is_unordered_list_marker(line: &str) -> (r: bool)
    ensures
        r == unordered_marker(line@),
{
    let v = chars_of(line);
    let n = leading_ws(v.as_slice());
    (starts_with_exec(v.as_slice(), n, "- ") || starts_with_exec(v.as_slice(), n, "* ")
        || starts_with_exec(v.as_slice(), n, "+ ")) && !is_thematic_break(line)
}

/// A numbered list item: digits, then `. ` or `) `, after leading white
/// space.
pub open spec fn ordered_marker(line: Seq<char>) -> bool {
    let t = trim_start_seq(line);
    let d = digit_run(t);
    d > 0 && (starts_with(t.skip(d), ". "@) || starts_with(t.skip(d), ") "@))
}

/// The number of leading ASCII digits.
pub open spec fn digit_run(s: Seq<char>) -> int
    decreases s.len(),
{
    if s.len() > 0 && '0' <= s[0] && s[0] <= '9' {
        1 + digit_run(s.drop_first())
    } else {
        0
    }
}

fn digit_run_exec(v: &[char], from: usize) -> (n: usize)
    requires
        from <= v@.len(),
    ensures
        n == digit_run(v@.skip(from as int)),
        from + n <= v@.len(),
{
    let mut k: usize = from;
    while k < v.len() && '0' <= v[k] && v[k] <= '9'
        invariant
            from <= k <= v@.len(),
            digit_run(v@.skip(from as int)) == (k - from) + digit_run(v@.skip(k as int)),
        decreases v@.len() - k,
    {
        proof {
            assert(v@.skip(k as int).drop_first() =~= v@.skip(k + 1));
        }
        k = k + 1;
    }
    k - from
}

/// Whether the line starts a numbered list item.
pub fn is_ordered_list_marker(line: &str) -> (r: bool)
    ensures
        r == ordered_marker(line@),
{
    let v = chars_of(line);
    let vlen = v.len();
    let n = leading_ws(v.as_slice());
    let d = digit_run_exec(v.as_slice(), n);
    proof {
        assert(v@.skip(n as int).skip(d as int) =~= v@.skip(n + d));
    }
    d > 0 && (starts_with_exec(v.as_slice(), n + d, ". ") || starts_with_exec(
        v.as_slice(),
        n + d,
        ") ",
    ))
}

/// What is left of `s` after its first `b` bytes in UTF-8, where that
/// falls on a character boundary.
pub open spec fn skip_bytes(s: Seq<char>, b: int) -> Option<Seq<char>>
    decreases s.len(),
{
    if b <= 0 {
        if b == 0 {
            Some(s)
        } else {
            None
        }
    } else if s.len() == 0 {
        None
    } else {
        skip_bytes(s.drop_first(), b - utf8_len(s[0]))
    }
}

/// The text of a list item after its marker: two characters after a
/// bullet, or the digits and two bytes after them for a numbered item;
/// leading white space removed.
pub open spec fn list_item_text(line: Seq<char>) -> Option<Seq<char>> {
    let t = trim_start_seq(line);
    if starts_with(t, "- "@) || starts_with(t, "* "@) || starts_with(t, "+ "@) {
        Some(trim_start_seq(t.skip(2)))
    } else {
        match skip_bytes(t, digit_run(t) + 2) {
            Some(rest) => Some(trim_start_seq(rest)),
            None => None,
        }
    }
}

/// The text of a list item after its marker. The slice after the digits
/// is taken by bytes, so the line must leave it on a character boundary.
pub fn strip_list_marker(line: &str) -> (r: String)
    requires
        list_item_text(line@) is Some,
    ensures
        list_item_text(line@) == Some(r@),
{
    let v = chars_of(line);
    let n = leading_ws(v.as_slice());
    let t = &v.as_slice()[n..v.len()];
    proof {
        assert(t@ =~= v@.skip(n as int));
        reveal_strlit("- ");
        reveal_strlit("* ");
        reveal_strlit("+ ");
    }
    if starts_with_exec(t, 0, "- ") || starts_with_exec(t, 0, "* ") || starts_with_exec(t, 0, "+ ") {
        proof {
            assert(t@.skip(0) =~= t@);
        }
        let rest = &t[2..t.len()];
        proof {
            assert(rest@ =~= t@.skip(2));
        }
        let k = leading_ws(rest);
        return string_from_chars(&rest[k..rest.len()]);
    }
    proof {
        assert(t@.skip(0) =~= t@);
    }
    let d = digit_run_exec(t, 0);
    let mut bytes: u128 = d as u128 + 2;
    let mut c: usize = 0;
    let tlen = t.len();
    while bytes > 0
        invariant
            c <= t@.len(),
            tlen == t@.len(),
            skip_bytes(t@, digit_run(t@) + 2) == skip_bytes(t@.skip(c as int), bytes as int),
            skip_bytes(t@, digit_run(t@) + 2) is Some,
        decreases t@.len() - c,
    {
        let ghost rest = t@.skip(c as int);
        proof {
            assert(rest.len() > 0);
            assert(rest.drop_first() =~= t@.skip(c + 1));
            assert(rest[0] == t@[c as int]);
        }
        let w = char_utf8_len(t[c]) as u128;
        proof {
            if w > bytes {
                assert(skip_bytes(t@.skip(c + 1), bytes - w) is None);
            }
        }
        bytes = bytes - w;
        c = c + 1;
    }
    let rest = &t[c..t.len()];
    proof {
        assert(rest@ =~= t@.skip(c as int));
    }
    let k = leading_ws(rest);
    string_from_chars(&rest[k..rest.len()])
}

/// The value of a base64 digit.
pub open spec fn b64_value(c: char) -> Option<int> {
    if 'A' <= c && c <= 'Z' {
        Some(c as int - 65)
    } else if 'a' <= c && c <= 'z' {
        Some(c as int - 97 + 26)
    } else if '0' <= c && c <= '9' {
        Some(c as int - 48 + 52)
    } else if c == '+' {
        Some(62)
    } else if c == '/' {
        Some(63)
    } else {
        None
    }
}

/// ASCII white space, which base64 input may contain anywhere.
pub open spec fn is_ascii_ws(c: char) -> bool {
    c == ' ' || c == '\t' || c == '\n' || c == '\x0C' || c == '\r'
}

/// `s` without ASCII white space.
pub open spec fn without_ws(s: Seq<char>) -> Seq<char>
    decreases s.len(),
{
    if s.len() == 0 {
        Seq::empty()
    } else if is_ascii_ws(s.last()) {
        without_ws(s.drop_last())
    } else {
        without_ws(s.drop_last()).push(s.last())
    }
}

/// The bytes of base64 digits, four digits giving three bytes and a
/// final group of three or two digits giving two or one; `None` for a
/// non-digit or a group of one.
pub open spec fn b64_quanta(d: Seq<char>) -> Option<Seq<u8>>
    decreases d.len(),
{
    if d.len() == 0 {
        Some(Seq::empty())
    } else if d.len() == 1 {
        None
    } else {
        let k = if d.len() >= 4 {
            4int
        } else {
            d.len() as int
        };
        let v0 = b64_value(d[0]);
        let v1 = b64_value(d[1]);
        let v2 = if k >= 3 {
            b64_value(d[2])
        } else {
            Some(0int)
        };
        let v3 = if k >= 4 {
            b64_value(d[3])
        } else {
            Some(0int)
        };
        match (v0, v1, v2, v3) {
            (Some(a), Some(b), Some(c), Some(e)) => {
                let bytes: Seq<u8> = seq![(a * 4 + b / 16) as u8, ((b % 16) * 16 + c / 4) as u8, ((c % 4) * 64 + e) as u8];
                match b64_quanta(d.skip(k)) {
                    Some(rest) => Some(bytes.take(k - 1) + rest),
                    None => None,
                }
            },
            _ => None,
        }
    }
}

/// Standard padded base64: white space ignored, at most two `=` and only
/// at the end, never a lone final digit.
pub open spec fn base64(input: Seq<char>) -> Option<Seq<u8>> {
    let c = without_ws(input);
    let data_len = match crate::number::index_of(c, '=') {
        Some(i) => i,
        None => c.len() as int,
    };
    if c.len() - data_len > 2 || exists|i: int| data_len <= i < c.len() && #[trigger] c[i] != '=' {
        None
    } else if data_len % 4 == 1 {
        None
    } else {
        b64_quanta(c.take(data_len))
    }
}

fn b64_value_exec(c: char) -> (r: Option<u32>)
    ensures
        match r {
            Some(v) => b64_value(c) == Some(v as int) && v < 64,
            None => b64_value(c) is None,
        },
{
    if 'A' <= c && c <= 'Z' {
        Some(c as u32 - 65)
    } else if 'a' <= c && c <= 'z' {
        Some(c as u32 - 97 + 26)
    } else if '0' <= c && c <= '9' {
        Some(c as u32 - 48 + 52)
    } else if c == '+' {
        Some(62)
    } else if c == '/' {
        Some(63)
    } else {
        None
    }
}

/// Standard padded base64 to bytes; `None` on any invalid input.
#[verifier::spinoff_prover]
#[verifier::rlimit(40)]
pub fn base64_decode(input: &str) -> (r: Option<Vec<u8>>)
    ensures
        match r {
            Some(v) => base64(input@) == Some(v@),
            None => base64(input@) is None,
        },
{
    let v = chars_of(input);
    let mut c: Vec<char> = Vec::new();
    let mut i: usize = 0;
    while i < v.len()
        invariant
            i <= v@.len(),
            c@ == without_ws(v@.take(i as int)),
        decreases v@.len() - i,
    {
        proof {
            assert(v@.take(i + 1).drop_last() =~= v@.take(i as int));
        }
        let ch = v[i];
        if !(ch == ' ' || ch == '\t' || ch == '\n' || ch == '\x0C' || ch == '\r') {
            c.push(ch);
        }
        i = i + 1;
    }
    proof {
        assert(v@.take(v@.len() as int) =~= v@);
    }
    let mut data_len: usize = 0;
    while data_len < c.len() && c[data_len] != '='
        invariant
            data_len <= c@.len(),
            crate::number::index_of(c@, '=') == crate::number::index_of_from(c@, '=', data_len as int),
        decreases c@.len() - data_len,
    {
        data_len = data_len + 1;
    }
    let ghost spec_dl = match crate::number::index_of(c@, '=') {
        Some(i) => i,
        None => c@.len() as int,
    };
    proof {
        assert(c@ == without_ws(input@));
        if data_len < c.len() {
            assert(crate::number::index_of_from(c@, '=', data_len as int) == Some(data_len as int));
        } else {
            assert(crate::number::index_of_from(c@, '=', data_len as int) is None);
        }
        assert(spec_dl == data_len);
    }
    if c.len() - data_len > 2 {
        return None;
    }
    let mut k: usize = data_len;
    while k < c.len()
        invariant
            data_len <= k <= c@.len(),
            c@ == without_ws(input@),
            spec_dl == data_len,
            spec_dl == match crate::number::index_of(c@, '=') {
                Some(i) => i,
                None => c@.len() as int,
            },
            forall|j: int| data_len <= j < k ==> c@[j] == '=',
        decreases c@.len() - k,
    {
        if c[k] != '=' {
            proof {
                assert(c@[k as int] != '=');
            }
            return None;
        }
        k = k + 1;
    }
    proof {
        assert(!exists|i: int| data_len <= i < c@.len() && #[trigger] c@[i] != '=');
    }
    if data_len % 4 == 1 {
        return None;
    }
    let mut out: Vec<u8> = Vec::new();
    let mut q: usize = 0;
    let ghost d = c@.take(data_len as int);
    proof {
        assert(d.skip(0) =~= d);
    }
    proof {
        assert(base64(input@) == b64_quanta(d));
    }
    while q < data_len
        invariant
            q <= data_len <= c@.len(),
            d == c@.take(data_len as int),
            base64(input@) == b64_quanta(d),
            data_len % 4 != 1,
            q % 4 == 0 || q == data_len,
            b64_quanta(d) matches Some(all) ==> b64_quanta(d.skip(q as int)) matches Some(rest) && all == out@ + rest,
            b64_quanta(d) is None ==> b64_quanta(d.skip(q as int)) is None,
        decreases data_len - q,
    {
        let ghost rest_before = d.skip(q as int);
        let k: usize = if data_len - q >= 4 {
            4
        } else {
            data_len - q
        };
        proof {
            assert(k >= 2) by {
                if k < 2 {
                    assert((data_len - q) % 4 == data_len % 4);
                }
            }
            assert(rest_before.len() == data_len - q);
            assert(rest_before[0] == c@[q as int]);
            assert(rest_before[1] == c@[q + 1]);
            if k >= 3 {
                assert(rest_before[2] == c@[q + 2]);
            }
            if k >= 4 {
                assert(rest_before[3] == c@[q + 3]);
            }
            assert(rest_before.skip(k as int) =~= d.skip(q + k));
        }
        let v0 = b64_value_exec(c[q]);
        let v1 = b64_value_exec(c[q + 1]);
        let v2 = if k >= 3 {
            b64_value_exec(c[q + 2])
        } else {
            Some(0)
        };
        let v3 = if k >= 4 {
            b64_value_exec(c[q + 3])
        } else {
            Some(0)
        };
        match (v0, v1, v2, v3) {
            (Some(a), Some(b), Some(cc), Some(e)) => {
                let ghost before = out@;
                out.push((a * 4 + b / 16) as u8);
                if k >= 3 {
                    out.push(((b % 16) * 16 + cc / 4) as u8);
                }
                if k >= 4 {
                    out.push(((cc % 4) * 64 + e) as u8);
                }
                proof {
                    let bytes: Seq<u8> = seq![(a * 4 + b / 16) as u8, ((b % 16) * 16 + cc / 4) as u8, ((cc % 4) * 64 + e) as u8];
                    assert(out@ =~= before + bytes.take(k - 1));
                    if let Some(all) = b64_quanta(d) {
                        let rest = b64_quanta(d.skip(q + k)).unwrap();
                        assert(all == out@ + rest);
                    }
                }
            },
            _ => {
                proof {
                    assert(b64_quanta(rest_before) is None);
                }
                return None;
            },
        }
        q = q + k;
    }
    proof {
        assert(d.skip(q as int) =~= Seq::<char>::empty());
        assert(out@ + Seq::<u8>::empty() =~= out@);
    }
    Some(out)
}

/// A PNG's size from its `IHDR` chunk: the signature and the chunk type
/// must be in place and both sides non-zero.
pub open spec fn png_size(d: Seq<u8>) -> Option<(u32, u32)> {
    if d.len() >= 24 && d.take(8) == seq![0x89u8, 0x50, 0x4E, 0x47, 0x0D, 0x0A, 0x1A, 0x0A]
        && d.subrange(12, 16) == seq![0x49u8, 0x48, 0x44, 0x52] && be32(d, 16) > 0 && be32(d, 20)
        > 0 {
        Some((be32(d, 16) as u32, be32(d, 20) as u32))
    } else {
        None
    }
}

/// The pixel size of a PNG.
pub fn png_dimensions(data: &[u8]) -> (r: Option<(u32, u32)>)
    ensures
        r == png_size(data@),
{
    if data.len() < 24 {
        return None;
    }
    let sig: [u8; 8] = [0x89, 0x50, 0x4E, 0x47, 0x0D, 0x0A, 0x1A, 0x0A];
    let ihdr: [u8; 4] = [0x49, 0x48, 0x44, 0x52];
    let mut k: usize = 0;
    while k < 8
        invariant
            k <= 8,
            data@.len() >= 24,
            sig@ == seq![0x89u8, 0x50, 0x4E, 0x47, 0x0D, 0x0A, 0x1A, 0x0A],
            forall|j: int| 0 <= j < k ==> data@[j] == sig@[j],
        decreases 8 - k,
    {
        if data[k] != sig[k] {
            proof {
                assert(data@.take(8)[k as int] == data@[k as int]);
            }
            return None;
        }
        k = k + 1;
    }
    k = 0;
    while k < 4
        invariant
            k <= 4,
            data@.len() >= 24,
            ihdr@ == seq![0x49u8, 0x48, 0x44, 0x52],
            forall|j: int| 0 <= j < k ==> data@[12 + j] == ihdr@[j],
        decreases 4 - k,
    {
        if data[12 + k] != ihdr[k] {
            proof {
                assert(data@.subrange(12, 16)[k as int] == data@[12 + k]);
            }
            return None;
        }
        k = k + 1;
    }
    proof {
        assert(data@.take(8) =~= sig@);
        assert(data@.subrange(12, 16) =~= ihdr@);
    }
    let w = read_u32_be(data, 16);
    let h = read_u32_be(data, 20);
    if w > 0 && h > 0 {
        Some((w, h))
    } else {
        None
    }
}

/// Walking JPEG marker segments from `i` to the first baseline,
/// extended or progressive frame header, whose payload holds the height
/// and the width.
pub open spec fn jpeg_scan(d: Seq<u8>, i: int) -> Option<(u32, u32)>
    decreases d.len() - i,
{
    if i < 0 || i + 4 > d.len() {
        None
    } else if d[i] != 0xFF {
        None
    } else {
        let m = d[i + 1];
        let j = i + 2;
        if m == 0xD8 || m == 0x01 || (0xD0 <= m && m <= 0xD7) {
            jpeg_scan(d, j)
        } else if m == 0xD9 {
            None
        } else if j + 2 > d.len() {
            None
        } else {
            let seg = be16(d, j);
            if seg < 2 || j + seg > d.len() {
                None
            } else if 0xC0 <= m && m <= 0xC2 {
                if seg < 7 {
                    None
                } else if be16(d, j + 5) > 0 && be16(d, j + 3) > 0 {
                    Some((be16(d, j + 5) as u32, be16(d, j + 3) as u32))
                } else {
                    None
                }
            } else {
                jpeg_scan(d, j + seg)
            }
        }
    }
}

/// A JPEG's size: after the start-of-image marker, the first frame header.
pub open spec fn jpeg_size(d: Seq<u8>) -> Option<(u32, u32)> {
    if d.len() < 4 || d[0] != 0xFF || d[1] != 0xD8 {
        None
    } else {
        jpeg_scan(d, 2)
    }
}

/// The pixel size of a JPEG.
pub fn jpeg_dimensions(data: &[u8]) -> (r: Option<(u32, u32)>)
    ensures
        r == jpeg_size(data@),
{
    let n = data.len();
    if n < 4 || data[0] != 0xFF || data[1] != 0xD8 {
        return None;
    }
    let mut i: usize = 2;
    while i <= n && n - i >= 4
        invariant
            n == data@.len(),
            2 <= i <= n,
            jpeg_size(data@) == jpeg_scan(data@, i as int),
        decreases n - i,
    {
        if data[i] != 0xFF {
            return None;
        }
        let m = data[i + 1];
        i = i + 2;
        if m == 0xD8 || m == 0x01 || (0xD0 <= m && m <= 0xD7) {
            continue;
        }
        if m == 0xD9 {
            return None;
        }
        if i + 2 > n {
            return None;
        }
        let seg = read_u16_be(data, i) as usize;
        if seg < 2 || seg > n - i {
            return None;
        }
        if 0xC0 <= m && m <= 0xC2 {
            if seg < 7 {
                return None;
            }
            let h = read_u16_be(data, i + 3) as u32;
            let w = read_u16_be(data, i + 5) as u32;
            if w > 0 && h > 0 {
                return Some((w, h));
            }
            return None;
        }
        i = i + seg;
    }
    None
}

/// The pixel size of an image of a format whose header this reads.
pub open spec fn pixel_size(f: ImageFormat, d: Seq<u8>) -> Option<(u32, u32)> {
    match f {
        ImageFormat::Png => png_size(d),
        ImageFormat::Jpeg => jpeg_size(d),
        _ => None,
    }
}

/// The pixel size of a PNG or JPEG.
pub fn image_pixel_dimensions(format: &ImageFormat, data: &[u8]) -> (r: Option<(u32, u32)>)
    ensures
        r == pixel_size(*format, data@),
{
    match format {
        ImageFormat::Png => png_dimensions(data),
        ImageFormat::Jpeg => jpeg_dimensions(data),
        _ => None,
    }
}

/// A `data:image/<subtype>;base64,<payload>` URI: PNG or JPEG (by the
/// subtype, in any case) with its decoded, non-empty bytes.
pub open spec fn data_image(src: Seq<char>) -> Option<(ImageFormat, Seq<u8>)> {
    let pre = "data:image/"@;
    if !starts_with(src, pre) {
        None
    } else {
        let rest = src.skip(pre.len() as int);
        match crate::number::index_of(rest, ';') {
            None => None,
            Some(semi) => {
                let subtype = ascii_lower_seq(rest.take(semi));
                let payload = rest.skip(semi + 1);
                let b = "base64,"@;
                if !starts_with(payload, b) {
                    None
                } else {
                    let format = if subtype == "png"@ {
                        Some(ImageFormat::Png)
                    } else if subtype == "jpeg"@ || subtype == "jpg"@ {
                        Some(ImageFormat::Jpeg)
                    } else {
                        None
                    };
                    match (format, base64(payload.skip(b.len() as int))) {
                        (Some(f), Some(data)) => if data.len() > 0 {
                            Some((f, data))
                        } else {
                            None
                        },
                        _ => None,
                    }
                }
            },
        }
    }
}

/// The format and bytes of a `data:` image URI.
pub fn decode_data_image(src: &str) -> (r: Option<(ImageFormat, Vec<u8>)>)
    ensures
        match r {
            Some((f, d)) => data_image(src@) == Some((f, d@)),
            None => data_image(src@) is None,
        },
{
    let v = chars_of(src);
    let pre = chars_of("data:image/");
    proof {
        assert(v@.skip(0) =~= v@);
    }
    if !starts_with_exec(v.as_slice(), 0, "data:image/") {
        return None;
    }
    let start = pre.len();
    let rest = &v.as_slice()[start..v.len()];
    proof {
        assert(rest@ =~= v@.skip("data:image/"@.len() as int));
    }
    let mut semi: usize = 0;
    while semi < rest.len() && rest[semi] != ';'
        invariant
            semi <= rest@.len(),
            crate::number::index_of(rest@, ';') == crate::number::index_of_from(rest@, ';', semi as int),
        decreases rest@.len() - semi,
    {
        semi = semi + 1;
    }
    if semi >= rest.len() {
        return None;
    }
    let subtype_s = string_from_chars(&rest[0..semi]);
    let subtype = ascii_lowercase_chars(subtype_s.as_str());
    proof {
        assert(rest@.subrange(0, semi as int) =~= rest@.take(semi as int));
    }
    let payload = &rest[semi + 1..rest.len()];
    proof {
        assert(payload@ =~= rest@.skip(semi + 1));
        assert(payload@.skip(0) =~= payload@);
    }
    if !starts_with_exec(payload, 0, "base64,") {
        return None;
    }
    let b = chars_of("base64,");
    let body = string_from_chars(&payload[b.len()..payload.len()]);
    proof {
        assert(body@ =~= payload@.skip("base64,"@.len() as int));
    }
    let format = if crate::text::chars_eq_str(subtype.as_slice(), "png") {
        ImageFormat::Png
    } else if crate::text::chars_eq_str(subtype.as_slice(), "jpeg") || crate::text::chars_eq_str(
        subtype.as_slice(),
        "jpg",
    ) {
        ImageFormat::Jpeg
    } else {
        return None;
    };
    let data = match base64_decode(body.as_str()) {
        Some(d) => d,
        None => {
            return None;
        },
    };
    if data.len() == 0 {
        return None;
    }
    Some((format, data))
}

/// The widest an embedded image is shown: 6 inches in EMUs.
pub const MAX_INLINE_IMAGE_WIDTH_EMU: u64 = 5_486_400;

/// EMUs per pixel at 96 dpi.
pub const EMU_PER_PX: u64 = 9_525;

/// A standalone image line, by its contents.
pub ghost struct ImageSpec {
    pub alt: Option<Seq<char>>,
    pub data: Seq<u8>,
    pub format: ImageFormat,
    pub display_w: Option<u64>,
    pub display_h: Option<u64>,
    pub pixel_w: Option<u32>,
    pub pixel_h: Option<u32>,
}

/// A line that is one Markdown image whose source is a `data:` PNG or
/// JPEG: its alternative text (no `]` in it), its bytes, and its size,
/// shown at 96 dpi but no wider than six inches, the height scaled
/// with the width.
pub open spec fn image_line(line: Seq<char>) -> Option<ImageSpec> {
    let t = trim_seq(line);
    if !starts_with(t, "!["@) {
        None
    } else {
        let rest = t.skip(2);
        match find_from(rest, "]("@, 0) {
            None => None,
            Some(ae) => {
                let alt = rest.take(ae);
                let after = rest.skip(ae + 2);
                if !(after.len() > 0 && after.last() == ')') {
                    None
                } else if crate::number::index_of(alt, ']') is Some {
                    None
                } else {
                    match data_image(after.drop_last()) {
                        None => None,
                        Some((f, data)) => {
                            let (pw, ph) = match pixel_size(f, data) {
                                Some(p) => p,
                                None => (0u32, 0u32),
                            };
                            let w: int = if (pw as int) * (EMU_PER_PX as int) < MAX_INLINE_IMAGE_WIDTH_EMU as int {
                                (pw as int) * (EMU_PER_PX as int)
                            } else {
                                MAX_INLINE_IMAGE_WIDTH_EMU as int
                            };
                            let shown = pw > 0 && ph > 0;
                            Some(
                                ImageSpec {
                                    alt: if alt.len() > 0 {
                                        Some(alt)
                                    } else {
                                        None
                                    },
                                    data,
                                    format: f,
                                    display_w: if shown {
                                        Some(w as u64)
                                    } else {
                                        None
                                    },
                                    display_h: if shown {
                                        Some((w * (ph as int) / (pw as int)) as u64)
                                    } else {
                                        None
                                    },
                                    pixel_w: if pw > 0 {
                                        Some(pw)
                                    } else {
                                        None
                                    },
                                    pixel_h: if ph > 0 {
                                        Some(ph)
                                    } else {
                                        None
                                    },
                                },
                            )
                        },
                    }
                }
            },
        }
    }
}

/// Whether `img` is the image `m`, inline, not decorative, without a link.
pub open spec fn is_image(img: Image, m: ImageSpec) -> bool {
    &&& match img.alt_text {
        Some(a) => m.alt == Some(a@),
        None => m.alt is None,
    }
    &&& img.data matches Some(d) && d@ == m.data
    &&& img.format == Some(m.format)
    &&& img.display_width_emu == m.display_w
    &&& img.display_height_emu == m.display_h
    &&& img.pixel_width == m.pixel_w
    &&& img.pixel_height == m.pixel_h
    &&& !img.decorative
    &&& img.positioning is Inline
    &&& img.hyperlink is None
}

/// A standalone Markdown image line with a `data:` source as an image.
pub fn parse_image_element(line: &str) -> (r: Option<Image>)
    ensures
        match r {
            Some(img) => image_line(line@) matches Some(m) && is_image(img, m),
            None => image_line(line@) is None,
        },
{
    let v = chars_of(line);
    let t = trim_chars(v.as_slice());
    proof {
        assert(t@.skip(0) =~= t@);
    }
    if !starts_with_exec(t.as_slice(), 0, "![") {
        return None;
    }
    proof {
        reveal_strlit("![");
        reveal_strlit("](");
    }
    let rest = &t.as_slice()[2..t.len()];
    proof {
        assert(rest@ =~= t@.skip(2));
    }
    let close = chars_of("](");
    proof {
        lemma_find_from(rest@, "]("@, 0);
    }
    let ae = match find_chars(rest, close.as_slice(), 0) {
        Some(i) => i,
        None => {
            return None;
        },
    };
    let alt = &rest[0..ae];
    let after = &rest[ae + 2..rest.len()];
    proof {
        assert(alt@ =~= rest@.take(ae as int));
        assert(after@ =~= rest@.skip(ae + 2));
    }
    if !(after.len() > 0 && after[after.len() - 1] == ')') {
        return None;
    }
    let mut j: usize = 0;
    while j < alt.len() && alt[j] != ']'
        invariant
            j <= alt@.len(),
            crate::number::index_of(alt@, ']') == crate::number::index_of_from(alt@, ']', j as int),
        decreases alt@.len() - j,
    {
        j = j + 1;
    }
    if j < alt.len() {
        return None;
    }
    let src = string_from_chars(&after[0..after.len() - 1]);
    proof {
        assert(after@.subrange(0, after@.len() - 1) =~= after@.drop_last());
    }
    let (format, data) = match decode_data_image(src.as_str()) {
        Some(x) => x,
        None => {
            return None;
        },
    };
    let (pw, ph) = match image_pixel_dimensions(&format, data.as_slice()) {
        Some(p) => p,
        None => (0, 0),
    };
    let shown = pw > 0 && ph > 0;
    let w: u64 = if (pw as u64) * EMU_PER_PX < MAX_INLINE_IMAGE_WIDTH_EMU {
        (pw as u64) * EMU_PER_PX
    } else {
        MAX_INLINE_IMAGE_WIDTH_EMU
    };
    let (dw, dh) = if shown {
        proof {
            assert(w * (ph as u64) <= 5_486_400 * 0xFFFF_FFFFu64) by (nonlinear_arith)
                requires
                    w <= 5_486_400,
                    ph <= 0xFFFF_FFFF,
            ;
        }
        (Some(w), Some(w * (ph as u64) / (pw as u64)))
    } else {
        (None, None)
    };
    let alt_text = if alt.len() > 0 {
        Some(string_from_chars(alt))
    } else {
        None
    };
    Some(
        Image {
            alt_text,
            data: Some(data),
            format: Some(format),
            display_width_emu: dw,
            display_height_emu: dh,
            pixel_width: if pw > 0 {
                Some(pw)
            } else {
                None
            },
            pixel_height: if ph > 0 {
                Some(ph)
            } else {
                None
            },
            decorative: false,
            positioning: ImagePositioning::Inline,
            hyperlink: None,
        },
    )
}

// ---------------------------------------------------------------------------
// Lines
// ---------------------------------------------------------------------------

/// A line without the carriage return of a CRLF ending.
pub open spec fn strip_cr(l: Seq<char>) -> Seq<char> {
    if l.len() > 0 && l.last() == '\r' {
        l.drop_last()
    } else {
        l
    }
}

/// The lines of `s[i..]` as `str::lines` splits them, `cur` holding the
/// characters read of the current line: split at line feeds, a
/// carriage return before a line feed dropped, no empty line after a
/// final line feed.
pub open spec fn lines_scan(s: Seq<char>, i: int, cur: Seq<char>) -> Seq<Seq<char>>
    decreases s.len() - i,
{
    if i < 0 || i >= s.len() {
        if cur.len() > 0 {
            seq![cur]
        } else {
            Seq::empty()
        }
    } else if s[i] == '\n' {
        seq![strip_cr(cur)] + lines_scan(s, i + 1, Seq::empty())
    } else {
        lines_scan(s, i + 1, cur.push(s[i]))
    }
}

/// The lines of `s`.
pub open spec fn lines_of(s: Seq<char>) -> Seq<Seq<char>> {
    lines_scan(s, 0, Seq::empty())
}

/// The characters of each string.
pub open spec fn strings_view(v: Seq<String>) -> Seq<Seq<char>> {
    v.map_values(|x: String| x@)
}

/// The lines of `s`, as `str::lines` gives them.
pub fn split_lines(s: &str) -> (r: Vec<String>)
    ensures
        strings_view(r@) == lines_of(s@),
{
    let v = chars_of(s);
    let n = v.len();
    let mut out: Vec<String> = Vec::new();
    let mut cur: Vec<char> = Vec::new();
    let mut i: usize = 0;
    proof {
        assert(strings_view(out@) =~= Seq::<Seq<char>>::empty());
        assert(v@ == s@);
    }
    while i < n
        invariant
            n == v@.len(),
            v@ == s@,
            i <= n,
            strings_view(out@) + lines_scan(v@, i as int, cur@) == lines_of(s@),
        decreases n - i,
    {
        if v[i] == '\n' {
            let line = if cur.len() > 0 && cur[cur.len() - 1] == '\r' {
                string_from_chars(&cur.as_slice()[0..cur.len() - 1])
            } else {
                string_from_chars(cur.as_slice())
            };
            proof {
                assert(cur@.subrange(0, cur@.len() - 1) =~= cur@.drop_last());
                assert(line@ == strip_cr(cur@));
                assert(strings_view(out@.push(line)) =~= strings_view(out@).push(line@));
                assert(strings_view(out@) + lines_scan(v@, i as int, cur@) =~= strings_view(
                    out@.push(line),
                ) + lines_scan(v@, i + 1, Seq::empty()));
            }
            out.push(line);
            cur = Vec::new();
        } else {
            cur.push(v[i]);
        }
        i = i + 1;
    }
    if cur.len() > 0 {
        let line = string_from_chars(cur.as_slice());
        proof {
            assert(strings_view(out@.push(line)) =~= strings_view(out@).push(line@));
            assert(strings_view(out@) + lines_scan(v@, i as int, cur@) =~= strings_view(
                out@.push(line),
            ));
        }
        out.push(line);
    } else {
        proof {
            assert(strings_view(out@) + lines_scan(v@, i as int, cur@) =~= strings_view(out@));
        }
    }
    out
}

// ---------------------------------------------------------------------------
// Blocks
// ---------------------------------------------------------------------------

/// A table read from consecutive pipe rows: the first row is the header.
#[derive(Debug, Clone)]
pub struct MarkdownTable {
    pub rows: Vec<MarkdownRow>,
}

/// A table row: one paragraph per cell.
#[derive(Debug, Clone)]
pub struct MarkdownRow {
    pub cells: Vec<Paragraph>,
    pub is_header: bool,
}

/// A bullet or numbered list: one paragraph per item.
#[derive(Debug, Clone)]
pub struct MarkdownList {
    pub ordered: bool,
    pub items: Vec<Paragraph>,
}

/// A block of a Markdown section.
#[derive(Debug, Clone)]
pub enum MarkdownElement {
    Heading(Heading),
    Paragraph(Paragraph),
    Table(MarkdownTable),
    List(MarkdownList),
    Image(Image),
}

/// A section: a level-one heading's text as its title, and its blocks.
#[derive(Debug, Clone)]
pub struct MarkdownSection {
    pub title: Option<String>,
    pub elements: Vec<MarkdownElement>,
}

/// A white-space-only line.
pub open spec fn blank(l: Seq<char>) -> bool {
    trim_seq(l).len() == 0
}

/// A line that starts a pipe table row.
pub open spec fn pipe_line(l: Seq<char>) -> bool {
    starts_with(trim_start_seq(l), "|"@)
}

/// A line that ends a paragraph before it: blank, a heading, a break, a
/// table row or a list item.
pub open spec fn para_break(l: Seq<char>) -> bool {
    blank(l) || atx_heading(l) is Some || thematic_break(l) || pipe_line(l) || unordered_marker(l)
        || ordered_marker(l)
}

/// The end of the run of pipe lines from `i`.
pub open spec fn pipe_run(ls: Seq<Seq<char>>, i: int) -> int
    decreases ls.len() - i,
{
    if 0 <= i < ls.len() && pipe_line(ls[i]) {
        pipe_run(ls, i + 1)
    } else {
        i
    }
}

/// Whether `l` is an item of a numbered (`ordered`) or bullet list.
pub open spec fn list_marker(l: Seq<char>, ordered: bool) -> bool {
    if ordered {
        ordered_marker(l)
    } else {
        unordered_marker(l)
    }
}

/// The end of the run of list items of one kind from `i`.
pub open spec fn list_run(ls: Seq<Seq<char>>, i: int, ordered: bool) -> int
    decreases ls.len() - i,
{
    if 0 <= i < ls.len() && list_marker(ls[i], ordered) {
        list_run(ls, i + 1, ordered)
    } else {
        i
    }
}

/// The end of the run of paragraph lines from `i`.
pub open spec fn text_run(ls: Seq<Seq<char>>, i: int) -> int
    decreases ls.len() - i,
{
    if 0 <= i < ls.len() && !para_break(ls[i]) {
        text_run(ls, i + 1)
    } else {
        i
    }
}

pub proof fn lemma_runs(ls: Seq<Seq<char>>, i: int, ordered: bool)
    requires
        0 <= i <= ls.len(),
    ensures
        i <= pipe_run(ls, i) <= ls.len(),
        i <= list_run(ls, i, ordered) <= ls.len(),
        i <= text_run(ls, i) <= ls.len(),
    decreases ls.len() - i,
{
    if i < ls.len() {
        lemma_runs(ls, i + 1, ordered);
    }
}

/// The lines joined by single spaces.
pub open spec fn join_lines(ls: Seq<Seq<char>>) -> Seq<char>
    decreases ls.len(),
{
    if ls.len() == 0 {
        Seq::empty()
    } else if ls.len() == 1 {
        ls[0]
    } else {
        join_lines(ls.drop_last()) + " "@ + ls.last()
    }
}

/// The rows of a table that carry data: its separator rows left out.
pub open spec fn data_rows(ls: Seq<Seq<char>>) -> Seq<Seq<char>>
    decreases ls.len(),
{
    if ls.len() == 0 {
        Seq::empty()
    } else {
        let r = data_rows(ls.drop_last());
        if separator_row(ls.last()) {
            r
        } else {
            r.push(ls.last())
        }
    }
}

/// The text of each cell of a table row, trimmed.
pub open spec fn row_cells(line: Seq<char>) -> Seq<Seq<char>> {
    split_on(trim_end_char(trim_start_char(trim_seq(line), '|'), '|'), '|').map_values(
        |c: Seq<char>| trim_seq(c),
    )
}

/// The text of a list item.
pub open spec fn item_text(l: Seq<char>) -> Seq<char> {
    match list_item_text(l) {
        Some(t) => t,
        None => Seq::empty(),
    }
}

/// A paragraph with nothing set but its content.
pub open spec fn plain_para(p: Paragraph) -> bool {
    &&& p.alignment is None
    &&& p.indent_left_twips is None
    &&& p.indent_right_twips is None
    &&& p.first_line_indent_twips is None
    &&& p.space_before_twips is None
    &&& p.space_after_twips is None
    &&& p.line_spacing is None
    &&& p.background_color is None
    &&& p.border is None
    &&& p.tabs@.len() == 0
    &&& !p.keep_with_next
    &&& !p.keep_together
    &&& !p.page_break_before
    &&& p.outline_level is None
    &&& p.frame_position is None
    &&& p.placeholder_role is None
}

/// A paragraph with the inline content of `text` and nothing else.
pub open spec fn para_of(p: Paragraph, text: Seq<char>) -> bool {
    are_spans(p.content@, inline_spans(text)) && plain_para(p)
}

/// A heading of `level` with the inline content of `text` and nothing
/// else.
pub open spec fn heading_of(h: Heading, level: u8, text: Seq<char>) -> bool {
    &&& h.level == level
    &&& are_spans(h.content@, inline_spans(text))
    &&& h.frame_position is None
    &&& h.alignment is None
    &&& h.indent_left_twips is None
    &&& h.indent_right_twips is None
    &&& h.first_line_indent_twips is None
    &&& h.space_before_twips is None
    &&& h.space_after_twips is None
    &&& h.line_spacing is None
    &&& h.background_color is None
    &&& h.border is None
    &&& h.tabs@.len() == 0
    &&& !h.keep_with_next
    &&& !h.keep_together
    &&& !h.page_break_before
}

fn plain_paragraph(content: Vec<InlineContent>) -> (p: Paragraph)
    ensures
        p.content == content,
        plain_para(p),
{
    Paragraph {
        content,
        alignment: None,
        indent_left_twips: None,
        indent_right_twips: None,
        first_line_indent_twips: None,
        space_before_twips: None,
        space_after_twips: None,
        line_spacing: None,
        background_color: None,
        border: None,
        tabs: Vec::new(),
        keep_with_next: false,
        keep_together: false,
        page_break_before: false,
        outline_level: None,
        frame_position: None,
        placeholder_role: None,
    }
}

fn inline_paragraph(text: &str) -> (p: Paragraph)
    ensures
        para_of(p, text@),
{
    plain_paragraph(parse_inline(text))
}

fn plain_heading(level: u8, text: &str) -> (h: Heading)
    ensures
        heading_of(h, level, text@),
{
    Heading {
        level,
        content: parse_inline(text),
        frame_position: None,
        alignment: None,
        indent_left_twips: None,
        indent_right_twips: None,
        first_line_indent_twips: None,
        space_before_twips: None,
        space_after_twips: None,
        line_spacing: None,
        background_color: None,
        border: None,
        tabs: Vec::new(),
        keep_with_next: false,
        keep_together: false,
        page_break_before: false,
    }
}

/// Whether `t` is the table whose data rows are `rows`.
pub open spec fn table_of(t: MarkdownTable, rows: Seq<Seq<char>>) -> bool {
    &&& t.rows@.len() == rows.len()
    &&& forall|i: int| 0 <= i < rows.len() ==> row_of(#[trigger] t.rows@[i], rows[i], i == 0)
}

pub open spec fn row_of(r: MarkdownRow, line: Seq<char>, header: bool) -> bool {
    &&& r.is_header == header
    &&& r.cells@.len() == row_cells(line).len()
    &&& forall|j: int| 0 <= j < r.cells@.len() ==> #[trigger] para_of(r.cells@[j], row_cells(line)[j])
}

/// Whether `l` is the list of `items`.
pub open spec fn list_of(l: MarkdownList, ordered: bool, items: Seq<Seq<char>>) -> bool {
    &&& l.ordered == ordered
    &&& l.items@.len() == items.len()
    &&& forall|i: int| 0 <= i < items.len() ==> #[trigger] para_of(l.items@[i], items[i])
}

/// The paragraph of the lines `ls[pos..]` up to the next line that
/// ends a paragraph, their text joined by spaces, and the position
/// after them.
pub fn parse_paragraph_lines(ls: &[String], pos: usize) -> (r: (Paragraph, usize))
    requires
        pos <= ls@.len(),
    ensures
        r.1 == text_run(strings_view(ls@), pos as int),
        para_of(r.0, join_lines(strings_view(ls@).subrange(pos as int, r.1 as int))),
{
    let ghost v = strings_view(ls@);
    let n = ls.len();
    let mut text = String::new();
    let mut k: usize = pos;
    proof {
        lemma_runs(v, pos as int, false);
        assert(v.subrange(pos as int, pos as int) =~= Seq::<Seq<char>>::empty());
    }
    while k < n && !line_breaks_paragraph(ls[k].as_str())
        invariant
            v == strings_view(ls@),
            n == ls@.len(),
            pos <= k <= n,
            text_run(v, pos as int) == text_run(v, k as int),
            text@ == join_lines(v.subrange(pos as int, k as int)),
        decreases n - k,
    {
        let ghost before = text@;
        if k > pos {
            push_char(&mut text, ' ');
        }
        append_str(&mut text, ls[k].as_str());
        proof {
            let sub = v.subrange(pos as int, k + 1);
            assert(sub.drop_last() =~= v.subrange(pos as int, k as int));
            assert(sub.last() == ls@[k as int]@);
            if k > pos {
                reveal_strlit(" ");
                assert(text@ =~= before + " "@ + ls@[k as int]@);
            } else {
                assert(sub =~= seq![ls@[k as int]@]);
                assert(text@ =~= ls@[k as int]@);
            }
        }
        k = k + 1;
    }
    (inline_paragraph(text.as_str()), k)
}

/// Whether a line ends a paragraph before it.
fn line_breaks_paragraph(line: &str) -> (r: bool)
    ensures
        r == para_break(line@),
{
    is_blank(line) || parse_atx_heading(line).is_some() || is_thematic_break(line) || is_pipe_line(
        line,
    ) || is_unordered_list_marker(line) || is_ordered_list_marker(line)
}

/// Whether a line starts a pipe table row.
fn is_pipe_line(line: &str) -> (r: bool)
    ensures
        r == pipe_line(line@),
{
    let v = chars_of(line);
    let n = leading_ws(v.as_slice());
    starts_with_exec(v.as_slice(), n, "|")
}

pub open spec fn rows_of(rows: Seq<MarkdownRow>, lines: Seq<Seq<char>>) -> bool {
    &&& rows.len() == lines.len()
    &&& forall|i: int| 0 <= i < lines.len() ==> row_of(#[trigger] rows[i], lines[i], i == 0)
}

/// The cells of one table row line.
fn parse_row_cells(line: &str) -> (r: Vec<Paragraph>)
    ensures
        r@.len() == row_cells(line@).len(),
        forall|j: int| 0 <= j < r@.len() ==> #[trigger] para_of(r@[j], row_cells(line@)[j]),
{
    let pieces = split_pipe_row(line);
    let mut cells: Vec<Paragraph> = Vec::new();
    let mut j: usize = 0;
    while j < pieces.len()
        invariant
            j <= pieces@.len(),
            pieces@.len() == row_cells(line@).len(),
            forall|k: int| 0 <= k < pieces@.len() ==> trim_seq((#[trigger] pieces@[k])@) == row_cells(
                line@,
            )[k],
            cells@.len() == j,
            forall|k: int| 0 <= k < j ==> #[trigger] para_of(cells@[k], row_cells(line@)[k]),
        decreases pieces@.len() - j,
    {
        let t = trim_string(pieces[j].as_str());
        let p = inline_paragraph(t.as_str());
        cells.push(p);
        j = j + 1;
    }
    cells
}

/// The table of the pipe lines from `pos`, and the position after them;
/// `None` where every one of them is a separator row.
pub fn parse_table_lines(ls: &[String], pos: usize) -> (r: (Option<MarkdownTable>, usize))
    requires
        pos <= ls@.len(),
    ensures
        r.1 == pipe_run(strings_view(ls@), pos as int),
        match r.0 {
            Some(t) => {
                let rows = data_rows(strings_view(ls@).subrange(pos as int, r.1 as int));
                rows.len() > 0 && table_of(t, rows)
            },
            None => data_rows(strings_view(ls@).subrange(pos as int, r.1 as int)).len() == 0,
        },
{
    let ghost v = strings_view(ls@);
    let n = ls.len();
    let mut rows: Vec<MarkdownRow> = Vec::new();
    let mut k: usize = pos;
    proof {
        assert(v.subrange(pos as int, pos as int) =~= Seq::<Seq<char>>::empty());
    }
    while k < n && is_pipe_line(ls[k].as_str())
        invariant
            v == strings_view(ls@),
            n == ls@.len(),
            pos <= k <= n,
            pipe_run(v, pos as int) == pipe_run(v, k as int),
            rows_of(rows@, data_rows(v.subrange(pos as int, k as int))),
        decreases n - k,
    {
        proof {
            let sub = v.subrange(pos as int, k + 1);
            assert(sub.drop_last() =~= v.subrange(pos as int, k as int));
            assert(sub.last() == ls@[k as int]@);
        }
        let line = ls[k].as_str();
        if !is_table_separator_row(line) {
            let cells = parse_row_cells(line);
            let header = rows.len() == 0;
            let ghost before = rows@;
            rows.push(MarkdownRow { cells, is_header: header });
            proof {
                let d = data_rows(v.subrange(pos as int, k + 1));
                assert forall|i: int| 0 <= i < d.len() implies row_of(
                    #[trigger] rows@[i],
                    d[i],
                    i == 0,
                ) by {
                    if i < before.len() {
                        assert(rows@[i] == before[i]);
                    }
                }
            }
        }
        k = k + 1;
    }
    if rows.len() == 0 {
        (None, k)
    } else {
        (Some(MarkdownTable { rows }), k)
    }
}

proof fn lemma_digit_run(s: Seq<char>)
    ensures
        0 <= digit_run(s) <= s.len(),
        forall|i: int| 0 <= i < digit_run(s) ==> '0' <= #[trigger] s[i] && s[i] <= '9',
    decreases s.len(),
{
    if s.len() > 0 && '0' <= s[0] && s[0] <= '9' {
        lemma_digit_run(s.drop_first());
        assert forall|i: int| 0 <= i < digit_run(s) implies '0' <= #[trigger] s[i] && s[i] <= '9' by {
            if i > 0 {
                assert(s[i] == s.drop_first()[i - 1]);
            }
        }
    }
}

proof fn lemma_skip_ascii(s: Seq<char>, k: int)
    requires
        0 <= k <= s.len(),
        forall|i: int| 0 <= i < k ==> (#[trigger] s[i] as u32) < 0x80,
    ensures
        skip_bytes(s, k) == Some(s.skip(k)),
    decreases k,
{
    if k == 0 {
        assert(s.skip(0) =~= s);
    } else {
        assert((s[0] as u32) < 0x80);
        assert forall|i: int| 0 <= i < k - 1 implies (#[trigger] s.drop_first()[i] as u32) < 0x80 by {
            assert(s.drop_first()[i] == s[i + 1]);
        }
        lemma_skip_ascii(s.drop_first(), k - 1);
        assert(s.drop_first().skip(k - 1) =~= s.skip(k));
    }
}

/// Every list item line has a text after its marker.
proof fn lemma_marker_has_text(l: Seq<char>, ordered: bool)
    requires
        list_marker(l, ordered),
    ensures
        list_item_text(l) is Some,
{
    let t = trim_start_seq(l);
    if ordered && !(starts_with(t, "- "@) || starts_with(t, "* "@) || starts_with(t, "+ "@)) {
        let d = digit_run(t);
        lemma_digit_run(t);
        reveal_strlit(". ");
        reveal_strlit(") ");
        assert(t.skip(d).take(2) == ". "@ || t.skip(d).take(2) == ") "@);
        assert(t[d] == t.skip(d).take(2)[0]);
        assert(t[d + 1] == t.skip(d).take(2)[1]);
        assert forall|i: int| 0 <= i < d + 2 implies (#[trigger] t[i] as u32) < 0x80 by {
            if i < d {
                assert('0' <= t[i] && t[i] <= '9');
            }
        }
        lemma_skip_ascii(t, d + 2);
    }
}

/// The text of each item line.
pub open spec fn items_of(ls: Seq<Seq<char>>) -> Seq<Seq<char>> {
    ls.map_values(|l: Seq<char>| item_text(l))
}

fn is_list_marker(line: &str, ordered: bool) -> (r: bool)
    ensures
        r == list_marker(line@, ordered),
{
    if ordered {
        is_ordered_list_marker(line)
    } else {
        is_unordered_list_marker(line)
    }
}

/// The list of the item lines of one kind from `pos`, and the position
/// after them.
pub fn parse_list_lines(ls: &[String], pos: usize, ordered: bool) -> (r: (MarkdownList, usize))
    requires
        pos <= ls@.len(),
    ensures
        r.1 == list_run(strings_view(ls@), pos as int, ordered),
        list_of(r.0, ordered, items_of(strings_view(ls@).subrange(pos as int, r.1 as int))),
{
    let ghost v = strings_view(ls@);
    let n = ls.len();
    let mut items: Vec<Paragraph> = Vec::new();
    let mut k: usize = pos;
    while k < n && is_list_marker(ls[k].as_str(), ordered)
        invariant
            v == strings_view(ls@),
            n == ls@.len(),
            pos <= k <= n,
            list_run(v, pos as int, ordered) == list_run(v, k as int, ordered),
            items@.len() == k - pos,
            forall|i: int| 0 <= i < k - pos ==> #[trigger] para_of(items@[i], item_text(v[pos + i])),
        decreases n - k,
    {
        let line = ls[k].as_str();
        proof {
            lemma_marker_has_text(line@, ordered);
        }
        let text = strip_list_marker(line);
        let p = inline_paragraph(text.as_str());
        items.push(p);
        k = k + 1;
    }
    proof {
        let it = items_of(v.subrange(pos as int, k as int));
        assert forall|i: int| 0 <= i < it.len() implies #[trigger] para_of(items@[i], it[i]) by {
            assert(it[i] == item_text(v[pos + i]));
        }
    }
    (MarkdownList { ordered, items }, k)
}

// ---------------------------------------------------------------------------
// Sections
// ---------------------------------------------------------------------------

/// A block as read, by the text it was read from.
pub ghost enum MdBlock {
    Heading(u8, Seq<char>),
    Paragraph(Seq<char>),
    Table(Seq<Seq<char>>),
    List(bool, Seq<Seq<char>>),
    Image(ImageSpec),
}

/// A section as read.
pub ghost struct MdSection {
    pub title: Option<Seq<char>>,
    pub blocks: Seq<MdBlock>,
}

pub open spec fn empty_section() -> MdSection {
    MdSection { title: None, blocks: Seq::empty() }
}

/// Whether a section holds anything: a title or a block.
pub open spec fn section_used(c: MdSection) -> bool {
    c.blocks.len() > 0 || c.title is Some
}

pub open spec fn with_block(c: MdSection, b: MdBlock) -> MdSection {
    MdSection { blocks: c.blocks.push(b), ..c }
}

/// The finished sections with `c` after them where it holds anything.
pub open spec fn close(c: MdSection, done: Seq<MdSection>) -> Seq<MdSection> {
    if section_used(c) {
        done.push(c)
    } else {
        done
    }
}

/// `c` with the paragraph of the lines `ls[start..end]`, where it has
/// any inline content.
pub open spec fn with_paragraph(ls: Seq<Seq<char>>, start: int, end: int, c: MdSection) -> MdSection {
    let text = join_lines(ls.subrange(start, end));
    if inline_spans(text).len() > 0 {
        with_block(c, MdBlock::Paragraph(text))
    } else {
        c
    }
}

/// Reading Markdown lines from `pos` on, `cur` the section being read
/// and `done` those finished: blank lines are skipped; a thematic break
/// ends the section; a level-one heading starts a new one with its text
/// as title, other headings are blocks; then, in this order, a pipe
/// table, a bullet list, a numbered list, a standalone `data:` image,
/// and otherwise a paragraph of the lines up to the next line that
/// ends one (a run of pipe rows that are all separators is skipped and
/// read as the start of a paragraph). There is always one section.
pub open spec fn sections_scan(
    ls: Seq<Seq<char>>,
    pos: int,
    cur: MdSection,
    done: Seq<MdSection>,
) -> Seq<MdSection>
    decreases ls.len() - pos,
{
    if pos < 0 || pos >= ls.len() {
        let d = close(cur, done);
        if d.len() == 0 {
            seq![empty_section()]
        } else {
            d
        }
    } else {
        let line = ls[pos];
        if blank(line) {
            sections_scan(ls, pos + 1, cur, done)
        } else if thematic_break(line) {
            if section_used(cur) {
                sections_scan(ls, pos + 1, empty_section(), done.push(cur))
            } else {
                sections_scan(ls, pos + 1, cur, done)
            }
        } else if atx_heading(line) is Some {
            let (level, text) = atx_heading(line)->Some_0;
            if level == 1 {
                sections_scan(
                    ls,
                    pos + 1,
                    MdSection { title: Some(text), blocks: Seq::empty() },
                    close(cur, done),
                )
            } else {
                sections_scan(ls, pos + 1, with_block(cur, MdBlock::Heading(level, text)), done)
            }
        } else if pipe_line(line) {
            let end = pipe_run(ls, pos);
            let rows = data_rows(ls.subrange(pos, end));
            proof {
                lemma_runs(ls, pos + 1, false);
            }
            if rows.len() > 0 {
                sections_scan(ls, end, with_block(cur, MdBlock::Table(rows)), done)
            } else {
                let pend = text_run(ls, end);
                proof {
                    lemma_runs(ls, end, false);
                }
                sections_scan(ls, pend, with_paragraph(ls, end, pend, cur), done)
            }
        } else if unordered_marker(line) || ordered_marker(line) {
            let ordered = !unordered_marker(line);
            let end = list_run(ls, pos, ordered);
            proof {
                lemma_runs(ls, pos + 1, ordered);
            }
            sections_scan(
                ls,
                end,
                with_block(cur, MdBlock::List(ordered, items_of(ls.subrange(pos, end)))),
                done,
            )
        } else if image_line(line) is Some {
            sections_scan(ls, pos + 1, with_block(cur, MdBlock::Image(image_line(line)->Some_0)), done)
        } else {
            let pend = text_run(ls, pos);
            proof {
                lemma_runs(ls, pos + 1, false);
            }
            sections_scan(ls, pend, with_paragraph(ls, pos, pend, cur), done)
        }
    }
}

/// The sections of a Markdown text.
pub open spec fn markdown_sections(md: Seq<char>) -> Seq<MdSection> {
    sections_scan(lines_of(md), 0, empty_section(), Seq::empty())
}

pub open spec fn block_is(e: MarkdownElement, b: MdBlock) -> bool {
    match b {
        MdBlock::Heading(l, t) => e matches MarkdownElement::Heading(h) && heading_of(h, l, t),
        MdBlock::Paragraph(t) => e matches MarkdownElement::Paragraph(p) && para_of(p, t),
        MdBlock::Table(rows) => e matches MarkdownElement::Table(tb) && table_of(tb, rows),
        MdBlock::List(o, items) => e matches MarkdownElement::List(li) && list_of(li, o, items),
        MdBlock::Image(m) => e matches MarkdownElement::Image(img) && is_image(img, m),
    }
}

pub open spec fn blocks_are(v: Seq<MarkdownElement>, m: Seq<MdBlock>) -> bool {
    &&& v.len() == m.len()
    &&& forall|i: int| 0 <= i < m.len() ==> block_is(#[trigger] v[i], m[i])
}

pub open spec fn section_is(s: MarkdownSection, m: MdSection) -> bool {
    opt_chars_of(s.title) == m.title && blocks_are(s.elements@, m.blocks)
}

pub open spec fn opt_chars_of(o: Option<String>) -> Option<Seq<char>> {
    match o {
        Some(t) => Some(t@),
        None => None,
    }
}

pub open spec fn sections_are(v: Seq<MarkdownSection>, m: Seq<MdSection>) -> bool {
    &&& v.len() == m.len()
    &&& forall|i: int| 0 <= i < m.len() ==> section_is(#[trigger] v[i], m[i])
}

proof fn lemma_push_md_block(v: Seq<MarkdownElement>, m: Seq<MdBlock>, e: MarkdownElement, b: MdBlock)
    requires
        blocks_are(v, m),
        block_is(e, b),
    ensures
        blocks_are(v.push(e), m.push(b)),
{
    assert forall|i: int| 0 <= i < m.push(b).len() implies block_is(
        #[trigger] v.push(e)[i],
        m.push(b)[i],
    ) by {
        if i < v.len() {
            assert(v.push(e)[i] == v[i]);
        }
    }
}

proof fn lemma_push_section(v: Seq<MarkdownSection>, m: Seq<MdSection>, e: MarkdownSection, b: MdSection)
    requires
        sections_are(v, m),
        section_is(e, b),
    ensures
        sections_are(v.push(e), m.push(b)),
{
    assert forall|i: int| 0 <= i < m.push(b).len() implies section_is(
        #[trigger] v.push(e)[i],
        m.push(b)[i],
    ) by {
        if i < v.len() {
            assert(v.push(e)[i] == v[i]);
        }
    }
}

/// The sections of a Markdown text: split at thematic breaks and at
/// level-one headings, each holding its headings, paragraphs with bold
/// and italic spans, pipe tables, lists and standalone `data:` images;
/// at least one section.
pub fn parse_markdown_sections(markdown: &str) -> (r: Vec<MarkdownSection>)
    ensures
        sections_are(r@, markdown_sections(markdown@)),
{
    let ls = split_lines(markdown);
    let ghost v = strings_view(ls@);
    let n = ls.len();
    let mut sections: Vec<MarkdownSection> = Vec::new();
    let mut title: Option<String> = None;
    let mut elements: Vec<MarkdownElement> = Vec::new();
    let ghost mut done: Seq<MdSection> = Seq::empty();
    let ghost mut cur: MdSection = empty_section();
    let mut pos: usize = 0;
    while pos < n
        invariant
            v == strings_view(ls@),
            v == lines_of(markdown@),
            n == ls@.len(),
            pos <= n,
            markdown_sections(markdown@) == sections_scan(v, pos as int, cur, done),
            sections_are(sections@, done),
            opt_chars_of(title) == cur.title,
            blocks_are(elements@, cur.blocks),
        decreases n - pos,
    {
        let line = ls[pos].as_str();
        proof {
            assert(line@ == v[pos as int]);
        }
        if is_blank(line) {
            pos = pos + 1;
        } else if is_thematic_break(line) {
            if elements.len() > 0 || title.is_some() {
                let sec = MarkdownSection { title, elements };
                proof {
                    lemma_push_section(sections@, done, sec, cur);
                    done = done.push(cur);
                    cur = empty_section();
                }
                sections.push(sec);
                title = None;
                elements = Vec::new();
            }
            pos = pos + 1;
        } else {
            match parse_atx_heading(line) {
                Some((level, text)) => {
                    if level == 1 {
                        if elements.len() > 0 || title.is_some() {
                            let sec = MarkdownSection { title, elements };
                            proof {
                                lemma_push_section(sections@, done, sec, cur);
                            }
                            sections.push(sec);
                        }
                        proof {
                            done = close(cur, done);
                            cur = MdSection { title: Some(text@), blocks: Seq::empty() };
                        }
                        title = Some(text);
                        elements = Vec::new();
                    } else {
                        let h = plain_heading(level, text.as_str());
                        proof {
                            lemma_push_md_block(
                                elements@,
                                cur.blocks,
                                MarkdownElement::Heading(h),
                                MdBlock::Heading(level, text@),
                            );
                            cur = with_block(cur, MdBlock::Heading(level, text@));
                        }
                        elements.push(MarkdownElement::Heading(h));
                    }
                    pos = pos + 1;
                },
                None => {
                    if is_pipe_line(line) {
                        proof {
                            lemma_runs(v, pos + 1, false);
                        }
                        let (table, end) = parse_table_lines(ls.as_slice(), pos);
                        match table {
                            Some(tb) => {
                                proof {
                                    let rows = data_rows(v.subrange(pos as int, end as int));
                                    lemma_push_md_block(
                                        elements@,
                                        cur.blocks,
                                        MarkdownElement::Table(tb),
                                        MdBlock::Table(rows),
                                    );
                                    cur = with_block(cur, MdBlock::Table(rows));
                                }
                                elements.push(MarkdownElement::Table(tb));
                                pos = end;
                            },
                            None => {
                                proof {
                                    lemma_runs(v, end as int, false);
                                }
                                let (para, pend) = parse_paragraph_lines(ls.as_slice(), end);
                                if para.content.len() > 0 {
                                    proof {
                                        let text = join_lines(v.subrange(end as int, pend as int));
                                        lemma_push_md_block(
                                            elements@,
                                            cur.blocks,
                                            MarkdownElement::Paragraph(para),
                                            MdBlock::Paragraph(text),
                                        );
                                    }
                                    elements.push(MarkdownElement::Paragraph(para));
                                }
                                proof {
                                    cur = with_paragraph(v, end as int, pend as int, cur);
                                }
                                pos = pend;
                            },
                        }
                    } else if is_unordered_list_marker(line) || is_ordered_list_marker(line) {
                        let ordered = !is_unordered_list_marker(line);
                        proof {
                            lemma_runs(v, pos + 1, ordered);
                        }
                        let (list, end) = parse_list_lines(ls.as_slice(), pos, ordered);
                        proof {
                            let items = items_of(v.subrange(pos as int, end as int));
                            lemma_push_md_block(
                                elements@,
                                cur.blocks,
                                MarkdownElement::List(list),
                                MdBlock::List(ordered, items),
                            );
                            cur = with_block(cur, MdBlock::List(ordered, items));
                        }
                        elements.push(MarkdownElement::List(list));
                        pos = end;
                    } else {
                        match parse_image_element(line) {
                            Some(img) => {
                                proof {
                                    let m = image_line(line@)->Some_0;
                                    lemma_push_md_block(
                                        elements@,
                                        cur.blocks,
                                        MarkdownElement::Image(img),
                                        MdBlock::Image(m),
                                    );
                                    cur = with_block(cur, MdBlock::Image(m));
                                }
                                elements.push(MarkdownElement::Image(img));
                                pos = pos + 1;
                            },
                            None => {
                                proof {
                                    lemma_runs(v, pos + 1, false);
                                }
                                let (para, pend) = parse_paragraph_lines(ls.as_slice(), pos);
                                if para.content.len() > 0 {
                                    proof {
                                        let text = join_lines(v.subrange(pos as int, pend as int));
                                        lemma_push_md_block(
                                            elements@,
                                            cur.blocks,
                                            MarkdownElement::Paragraph(para),
                                            MdBlock::Paragraph(text),
                                        );
                                    }
                                    elements.push(MarkdownElement::Paragraph(para));
                                }
                                proof {
                                    cur = with_paragraph(v, pos as int, pend as int, cur);
                                }
                                pos = pend;
                            },
                        }
                    }
                },
            }
        }
    }
    if elements.len() > 0 || title.is_some() {
        let sec = MarkdownSection { title, elements };
        proof {
            lemma_push_section(sections@, done, sec, cur);
        }
        sections.push(sec);
    }
    proof {
        done = close(cur, done);
    }
    if sections.len() == 0 {
        let sec = MarkdownSection { title: None, elements: Vec::new() };
        proof {
            lemma_push_section(sections@, done, sec, empty_section());
        }
        sections.push(sec);
    }
    sections
}

proof fn lemma_scan_has_a_section(ls: Seq<Seq<char>>, pos: int, cur: MdSection, done: Seq<MdSection>)
    ensures
        sections_scan(ls, pos, cur, done).len() >= 1,
    decreases ls.len() - pos,
{
    if pos < 0 || pos >= ls.len() {
    } else {
        let line = ls[pos];
        if blank(line) {
            lemma_scan_has_a_section(ls, pos + 1, cur, done);
        } else if thematic_break(line) {
            if section_used(cur) {
                lemma_scan_has_a_section(ls, pos + 1, empty_section(), done.push(cur));
            } else {
                lemma_scan_has_a_section(ls, pos + 1, cur, done);
            }
        } else if atx_heading(line) is Some {
            let (level, text) = atx_heading(line)->Some_0;
            if level == 1 {
                lemma_scan_has_a_section(
                    ls,
                    pos + 1,
                    MdSection { title: Some(text), blocks: Seq::empty() },
                    close(cur, done),
                );
            } else {
                lemma_scan_has_a_section(ls, pos + 1, with_block(cur, MdBlock::Heading(level, text)), done);
            }
        } else if pipe_line(line) {
            let end = pipe_run(ls, pos);
            let rows = data_rows(ls.subrange(pos, end));
            lemma_runs(ls, pos + 1, false);
            if rows.len() > 0 {
                lemma_scan_has_a_section(ls, end, with_block(cur, MdBlock::Table(rows)), done);
            } else {
                let pend = text_run(ls, end);
                lemma_runs(ls, end, false);
                lemma_scan_has_a_section(ls, pend, with_paragraph(ls, end, pend, cur), done);
            }
        } else if unordered_marker(line) || ordered_marker(line) {
            let ordered = !unordered_marker(line);
            let end = list_run(ls, pos, ordered);
            lemma_runs(ls, pos + 1, ordered);
            lemma_scan_has_a_section(
                ls,
                end,
                with_block(cur, MdBlock::List(ordered, items_of(ls.subrange(pos, end)))),
                done,
            );
        } else if image_line(line) is Some {
            lemma_scan_has_a_section(
                ls,
                pos + 1,
                with_block(cur, MdBlock::Image(image_line(line)->Some_0)),
                done,
            );
        } else {
            let pend = text_run(ls, pos);
            lemma_runs(ls, pos + 1, false);
            lemma_scan_has_a_section(ls, pend, with_paragraph(ls, pos, pend, cur), done);
        }
    }
}

/// Every Markdown text, the empty one too, reads as at least one
/// section.
pub proof fn lemma_markdown_has_a_section(md: Seq<char>)
    ensures
        markdown_sections(md).len() >= 1,
{
    lemma_scan_has_a_section(lines_of(md), 0, empty_section(), Seq::empty());
}

/// Every section holds something, or there is just one.
pub open spec fn used_or_single(r: Seq<MdSection>) -> bool {
    r.len() == 1 || forall|i: int| 0 <= i < r.len() ==> section_used(#[trigger] r[i])
}

proof fn lemma_scan_sections_used(ls: Seq<Seq<char>>, pos: int, cur: MdSection, done: Seq<MdSection>)
    requires
        forall|i: int| 0 <= i < done.len() ==> section_used(#[trigger] done[i]),
    ensures
        used_or_single(sections_scan(ls, pos, cur, done)),
    decreases ls.len() - pos,
{
    if pos < 0 || pos >= ls.len() {
        let d = close(cur, done);
        assert forall|i: int| 0 <= i < d.len() implies section_used(#[trigger] d[i]) by {
            if i < done.len() {
                assert(d[i] == done[i]);
            }
        }
        let r = sections_scan(ls, pos, cur, done);
        if d.len() == 0 {
            assert(r =~= seq![empty_section()]);
        } else {
            assert(r == d);
        }
    } else {
        let line = ls[pos];
        if blank(line) {
            lemma_scan_sections_used(ls, pos + 1, cur, done);
            assert(used_or_single(sections_scan(ls, pos, cur, done)));
        } else if thematic_break(line) {
            if section_used(cur) {
                let d = done.push(cur);
                assert forall|i: int| 0 <= i < d.len() implies section_used(#[trigger] d[i]) by {
                    if i < done.len() {
                        assert(d[i] == done[i]);
                    }
                }
                lemma_scan_sections_used(ls, pos + 1, empty_section(), d);
                assert(sections_scan(ls, pos, cur, done) == sections_scan(ls, pos + 1, empty_section(), d));
                assert(used_or_single(sections_scan(ls, pos, cur, done)));
            } else {
                lemma_scan_sections_used(ls, pos + 1, cur, done);
                assert(used_or_single(sections_scan(ls, pos, cur, done)));
            }
        } else if atx_heading(line) is Some {
            let (level, text) = atx_heading(line)->Some_0;
            if level == 1 {
                let d = close(cur, done);
                assert forall|i: int| 0 <= i < d.len() implies section_used(#[trigger] d[i]) by {
                    if i < done.len() {
                        assert(d[i] == done[i]);
                    }
                }
                lemma_scan_sections_used(
                    ls,
                    pos + 1,
                    MdSection { title: Some(text), blocks: Seq::empty() },
                    d,
                );
                assert(sections_scan(ls, pos, cur, done) == sections_scan(
                    ls,
                    pos + 1,
                    MdSection { title: Some(text), blocks: Seq::empty() },
                    d,
                ));
                assert(used_or_single(sections_scan(ls, pos, cur, done)));
            } else {
                lemma_scan_sections_used(ls, pos + 1, with_block(cur, MdBlock::Heading(level, text)), done);
                assert(sections_scan(ls, pos, cur, done) == sections_scan(
                    ls,
                    pos + 1,
                    with_block(cur, MdBlock::Heading(level, text)),
                    done,
                ));
                assert(used_or_single(sections_scan(ls, pos, cur, done)));
            }
        } else if pipe_line(line) {
            let end = pipe_run(ls, pos);
            let rows = data_rows(ls.subrange(pos, end));
            lemma_runs(ls, pos + 1, false);
            if rows.len() > 0 {
                lemma_scan_sections_used(ls, end, with_block(cur, MdBlock::Table(rows)), done);
                assert(sections_scan(ls, pos, cur, done) == sections_scan(
                    ls,
                    end,
                    with_block(cur, MdBlock::Table(rows)),
                    done,
                ));
                assert(used_or_single(sections_scan(ls, pos, cur, done)));
            } else {
                let pend = text_run(ls, end);
                lemma_runs(ls, end, false);
                lemma_scan_sections_used(ls, pend, with_paragraph(ls, end, pend, cur), done);
                assert(sections_scan(ls, pos, cur, done) == sections_scan(
                    ls,
                    pend,
                    with_paragraph(ls, end, pend, cur),
                    done,
                ));
                assert(used_or_single(sections_scan(ls, pos, cur, done)));
            }
        } else if unordered_marker(line) || ordered_marker(line) {
            let ordered = !unordered_marker(line);
            let end = list_run(ls, pos, ordered);
            lemma_runs(ls, pos + 1, ordered);
            lemma_scan_sections_used(
                ls,
                end,
                with_block(cur, MdBlock::List(ordered, items_of(ls.subrange(pos, end)))),
                done,
            );
            assert(sections_scan(ls, pos, cur, done) == sections_scan(
                ls,
                end,
                with_block(cur, MdBlock::List(ordered, items_of(ls.subrange(pos, end)))),
                done,
            ));
            assert(used_or_single(sections_scan(ls, pos, cur, done)));
        } else if image_line(line) is Some {
            lemma_scan_sections_used(
                ls,
                pos + 1,
                with_block(cur, MdBlock::Image(image_line(line)->Some_0)),
                done,
            );
            assert(sections_scan(ls, pos, cur, done) == sections_scan(
                ls,
                pos + 1,
                with_block(cur, MdBlock::Image(image_line(line)->Some_0)),
                done,
            ));
            assert(used_or_single(sections_scan(ls, pos, cur, done)));
        } else {
            let pend = text_run(ls, pos);
            lemma_runs(ls, pos + 1, false);
            lemma_scan_sections_used(ls, pend, with_paragraph(ls, pos, pend, cur), done);
            assert(sections_scan(ls, pos, cur, done) == sections_scan(
                ls,
                pend,
                with_paragraph(ls, pos, pend, cur),
                done,
            ));
            assert(used_or_single(sections_scan(ls, pos, cur, done)));
        }
    }
}

/// Sections are never empty: each has a title or a block, unless the
/// text yields a single section (an empty text gives one empty section).
pub proof fn lemma_markdown_sections_are_used(md: Seq<char>)
    ensures
        used_or_single(markdown_sections(md)),
{
    lemma_scan_sections_used(lines_of(md), 0, empty_section(), Seq::empty());
}

} // verus!
