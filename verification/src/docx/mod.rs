//! WordprocessingML (`.docx`) helpers.

pub mod color;
pub mod document;
pub mod edit;
pub mod formatting;
pub mod hyperlink;
pub mod image;
pub mod paragraph;
pub mod reader;
pub mod styles;
pub mod table;
pub mod text;
pub mod xml;

use vstd::prelude::*;
use crate::docx::color::{hex_color, parse_hex_color};
use crate::docx::image::AnchorFrame;
use crate::pattern::{
    find_from, rfind, occurs_at, lemma_find_from, lemma_rfind_at_or_before, find_chars, rfind_chars,
    matches_at,
};
use crate::text::{
    chars_of, string_from_chars, str_eq, trim_seq, trim_string, ascii_lower_seq, ascii_lowercase_chars,
};

verus! {

/// The frame an anchor's `relativeFrom` value names; the page for an
/// unknown one, and every margin name counts as the margin.
pub open spec fn anchor_frame_of(s: Seq<char>) -> AnchorFrame {
    if s == "page"@ {
        AnchorFrame::Page
    } else if s == "margin"@ || s == "leftMargin"@ || s == "rightMargin"@ || s == "topMargin"@
        || s == "bottomMargin"@ || s == "insideMargin"@ || s == "outsideMargin"@ {
        AnchorFrame::Margin
    } else if s == "column"@ {
        AnchorFrame::Column
    } else if s == "paragraph"@ {
        AnchorFrame::Paragraph
    } else if s == "line"@ {
        AnchorFrame::Line
    } else if s == "character"@ {
        AnchorFrame::Character
    } else {
        AnchorFrame::Page
    }
}

/// The frame an anchor's `relativeFrom` value names.
pub fn parse_anchor_frame(s: &str) -> (r: AnchorFrame)
    ensures
        r == anchor_frame_of(s@),
{
    if str_eq(s, "page") {
        AnchorFrame::Page
    } else if str_eq(s, "margin") || str_eq(s, "leftMargin") || str_eq(s, "rightMargin")
        || str_eq(s, "topMargin") || str_eq(s, "bottomMargin") || str_eq(s, "insideMargin")
        || str_eq(s, "outsideMargin") {
        AnchorFrame::Margin
    } else if str_eq(s, "column") {
        AnchorFrame::Column
    } else if str_eq(s, "paragraph") {
        AnchorFrame::Paragraph
    } else if str_eq(s, "line") {
        AnchorFrame::Line
    } else if str_eq(s, "character") {
        AnchorFrame::Character
    } else {
        AnchorFrame::Page
    }
}

/// Six hexadecimal digits, white space around them ignored, as red,
/// green and blue.
pub open spec fn hex_rgb_of(s: Seq<char>) -> Option<(u8, u8, u8)> {
    match hex_color(trim_seq(s)) {
        Some(c) => Some((c.r, c.g, c.b)),
        None => None,
    }
}

/// Six hexadecimal digits as red, green and blue.
pub fn parse_hex_rgb(s: &str) -> (r: Option<(u8, u8, u8)>)
    ensures
        r == hex_rgb_of(s@),
{
    let t = trim_string(s);
    match parse_hex_color(t.as_str()) {
        Some(c) => Some((c.r, c.g, c.b)),
        None => None,
    }
}

/// Whether every character is an ASCII digit.
pub open spec fn all_ascii_digits(s: Seq<char>) -> bool {
    forall|i: int| 0 <= i < s.len() ==> '0' <= #[trigger] s[i] && s[i] <= '9'
}

/// The face name in an embedded-font file name `font_<n>_<face>.<ext>`:
/// the name without its extension (after the last `.`) and without its
/// `font_<digits>_` prefix. A stem that is `font` alone names no face
/// and gives the empty name, so that the caller falls back to the file
/// name; any other stem without the prefix (`Arial`), or where `font_`
/// is not followed by digits and `_`, is the face itself.
pub open spec fn font_face_of(name: Seq<char>) -> Seq<char> {
    let stem = match rfind(name, "."@) {
        Some(i) => name.take(i),
        None => name,
    };
    if stem.len() >= 5 && stem.take(5) == "font_"@ {
        let rest = stem.skip(5);
        match find_from(rest, "_"@, 0) {
            Some(u) => if all_ascii_digits(rest.take(u)) {
                rest.skip(u + 1)
            } else {
                stem
            },
            None => stem,
        }
    } else if stem == "font"@ {
        Seq::empty()
    } else {
        stem
    }
}

/// The face name in an embedded-font file name such as
/// `font_4_TeXGyreTermesX-Regular.ttf` (`TeXGyreTermesX-Regular`); empty
/// for `font.otf`.
pub fn strip_embedded_font_filename(basename: &str) -> (r: String)
    ensures
        r@ == font_face_of(basename@),
{
    let v = chars_of(basename);
    let dot = chars_of(".");
    let us = chars_of("_");
    let prefix = chars_of("font_");
    proof {
        reveal_strlit(".");
        reveal_strlit("_");
        reveal_strlit("font_");
        lemma_rfind_at_or_before(v@, "."@, v@.len() - 1);
    }
    let stem_len = match rfind_chars(v.as_slice(), dot.as_slice()) {
        Some(i) => i,
        None => v.len(),
    };
    let stem = &v.as_slice()[0..stem_len];
    proof {
        assert(stem@ =~= (match rfind(v@, "."@) {
            Some(i) => v@.take(i),
            None => v@,
        }));
    }
    if stem.len() >= 5 && crate::pattern::matches_at(stem, prefix.as_slice(), 0) {
        proof {
            assert(stem@.subrange(0, 5) =~= stem@.take(5));
        }
        let rest = &stem[5..stem.len()];
        proof {
            assert(rest@ =~= stem@.skip(5));
            lemma_find_from(rest@, "_"@, 0);
        }
        match find_chars(rest, us.as_slice(), 0) {
            Some(u) => {
                let mut k: usize = 0;
                let mut digits = true;
                while k < u
                    invariant
                        k <= u <= rest@.len(),
                        digits == (forall|j: int| 0 <= j < k ==> '0' <= #[trigger] rest@[j] && rest@[j] <= '9'),
                    decreases u - k,
                {
                    if !('0' <= rest[k] && rest[k] <= '9') {
                        digits = false;
                    }
                    k = k + 1;
                }
                proof {
                    assert(digits == all_ascii_digits(rest@.take(u as int))) by {
                        if digits {
                            assert forall|i: int| 0 <= i < u implies '0' <= #[trigger] rest@.take(u as int)[i] && rest@.take(u as int)[i] <= '9' by {
                                assert(rest@.take(u as int)[i] == rest@[i]);
                            }
                        } else {
                            let j = choose|j: int| 0 <= j < u && !('0' <= rest@[j] && rest@[j] <= '9');
                            assert(rest@.take(u as int)[j] == rest@[j]);
                        }
                    }
                }
                if digits {
                    let face = &rest[u + 1..rest.len()];
                    proof {
                        assert(face@ =~= rest@.skip(u + 1));
                    }
                    string_from_chars(face)
                } else {
                    string_from_chars(stem)
                }
            },
            None => string_from_chars(stem),
        }
    } else {
        proof {
            if stem@.len() >= 5 {
                assert(stem@.subrange(0, 5) =~= stem@.take(5));
            }
        }
        if crate::text::chars_eq_str(stem, "font") {
            String::new()
        } else {
            string_from_chars(stem)
        }
    }
}

/// The text after the last `/` of a part name.
pub open spec fn basename_of(s: Seq<char>) -> Seq<char> {
    match rfind(s, "/"@) {
        Some(i) => s.subrange(i + 1, s.len() as int),
        None => s,
    }
}

/// Whether `s`, lower-cased, ends with `suffix`.
pub open spec fn ends_with_lower(s: Seq<char>, suffix: Seq<char>) -> bool {
    occurs_at(ascii_lower_seq(s), suffix, s.len() - suffix.len())
}

/// The name under which a package part is an embedded font: a part
/// under `/word/fonts/` whose name ends in `.ttf` or `.otf` in any case
/// is named by the face in its file name, or by the file name where that
/// face is empty; any other part is no font.
pub open spec fn embedded_font_name_of(s: Seq<char>) -> Option<Seq<char>> {
    if !occurs_at(s, "/word/fonts/"@, 0) {
        None
    } else if !(ends_with_lower(s, ".ttf"@) || ends_with_lower(s, ".otf"@)) {
        None
    } else {
        let b = basename_of(s);
        let f = font_face_of(b);
        Some(
            if f.len() == 0 {
                b
            } else {
                f
            },
        )
    }
}

/// The font name of the package part `part_name`, where it is an
/// embedded font. Case is folded in ASCII: no other character lowercases
/// to one of `.`, `t`, `o`, `f`.
pub fn embedded_font_name(part_name: &str) -> (r: Option<String>)
    ensures
        match r {
            Some(n) => embedded_font_name_of(part_name@) == Some(n@),
            None => embedded_font_name_of(part_name@) is None,
        },
{
    let v = chars_of(part_name);
    let fonts_dir = chars_of("/word/fonts/");
    if !matches_at(v.as_slice(), fonts_dir.as_slice(), 0) {
        return None;
    }
    let lower = ascii_lowercase_chars(part_name);
    let n = lower.len();
    let ttf = chars_of(".ttf");
    let otf = chars_of(".otf");
    proof {
        reveal_strlit(".ttf");
        reveal_strlit(".otf");
        reveal_strlit("/");
    }
    if n < 4 {
        return None;
    }
    let font_file = matches_at(lower.as_slice(), ttf.as_slice(), n - 4) || matches_at(
        lower.as_slice(),
        otf.as_slice(),
        n - 4,
    );
    if !font_file {
        return None;
    }
    let slash = chars_of("/");
    proof {
        lemma_rfind_at_or_before(v@, "/"@, v@.len() - 1);
    }
    let start = match rfind_chars(v.as_slice(), slash.as_slice()) {
        Some(i) => i + 1,
        None => 0,
    };
    let base = string_from_chars(&v.as_slice()[start..v.len()]);
    proof {
        assert(base@ =~= basename_of(part_name@));
    }
    let face = strip_embedded_font_filename(base.as_str());
    if face.as_str().is_empty() {
        Some(base)
    } else {
        Some(face)
    }
}

} // verus!
