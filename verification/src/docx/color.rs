//! Run colours: `auto`, a literal `RRGGBB`, or a slot of the document
//! theme with its tint and shade.

use vstd::prelude::*;
use crate::docx::xml::{XmlTag, attr, get_attr};
use crate::number::unsigned_part;
use crate::text::{chars_of, str_eq};

verus! {

/// A literal colour.
#[derive(Debug, Clone, Copy, PartialEq, Eq)]
pub struct RgbColor {
    pub r: u8,
    pub g: u8,
    pub b: u8,
}

/// A colour of the document theme.
#[derive(Debug, Clone, Copy, PartialEq, Eq)]
pub enum ThemeColorSlot {
    Dark1,
    Light1,
    Dark2,
    Light2,
    Accent1,
    Accent2,
    Accent3,
    Accent4,
    Accent5,
    Accent6,
    Hyperlink,
    FollowedHyperlink,
}

/// A colour reference.
#[derive(Debug, Clone, Copy, PartialEq, Eq)]
pub enum ColorRef {
    /// `auto`: the consumer picks.
    Auto,
    /// A literal colour.
    Rgb(RgbColor),
    /// A theme slot. `tint` and `shade` are the bytes of `w:themeTint`
    /// and `w:themeShade` (the fraction is the byte over 255); `fallback`
    /// is the literal `w:val`, for consumers without the theme.
    Theme { slot: ThemeColorSlot, tint: Option<u8>, shade: Option<u8>, fallback: Option<RgbColor> },
}

pub open spec fn is_hex(c: char) -> bool {
    ('0' <= c && c <= '9') || ('a' <= c && c <= 'f') || ('A' <= c && c <= 'F')
}

pub open spec fn hex_val(c: char) -> int {
    if '0' <= c && c <= '9' {
        c as int - 48
    } else if 'a' <= c && c <= 'f' {
        c as int - 87
    } else {
        c as int - 55
    }
}

/// The value of a string of hexadecimal digits.
pub open spec fn hex_value(s: Seq<char>) -> int
    decreases s.len(),
{
    if s.len() == 0 {
        0
    } else {
        hex_value(s.drop_last()) * 16 + hex_val(s.last())
    }
}

pub open spec fn all_hex(s: Seq<char>) -> bool {
    forall|i: int| 0 <= i < s.len() ==> is_hex(#[trigger] s[i])
}

/// `u8::from_str_radix(s, 16)`: an optional `+`, at least one
/// hexadecimal digit, at most 255.
pub open spec fn hex_byte(s: Seq<char>) -> Option<u8> {
    let body = unsigned_part(s, false);
    if body.len() > 0 && all_hex(body) && hex_value(body) <= 255 {
        Some(hex_value(body) as u8)
    } else {
        None
    }
}

/// Six hexadecimal digits as a colour.
pub open spec fn hex_color(s: Seq<char>) -> Option<RgbColor> {
    if s.len() == 6 && all_hex(s) {
        Some(
            RgbColor {
                r: hex_value(s.take(2)) as u8,
                g: hex_value(s.subrange(2, 4)) as u8,
                b: hex_value(s.skip(4)) as u8,
            },
        )
    } else {
        None
    }
}

/// The theme slot a `w:themeColor` value or a scheme colour name
/// stands for; the background and text names map to the light and dark
/// slots as the default colour map does.
pub open spec fn theme_slot(v: Seq<char>) -> Option<ThemeColorSlot> {
    if v == "dk1"@ || v == "dark1"@ || v == "tx1"@ || v == "text1"@ {
        Some(ThemeColorSlot::Dark1)
    } else if v == "lt1"@ || v == "light1"@ || v == "bg1"@ || v == "background1"@ {
        Some(ThemeColorSlot::Light1)
    } else if v == "dk2"@ || v == "dark2"@ || v == "tx2"@ || v == "text2"@ {
        Some(ThemeColorSlot::Dark2)
    } else if v == "lt2"@ || v == "light2"@ || v == "bg2"@ || v == "background2"@ {
        Some(ThemeColorSlot::Light2)
    } else if v == "accent1"@ {
        Some(ThemeColorSlot::Accent1)
    } else if v == "accent2"@ {
        Some(ThemeColorSlot::Accent2)
    } else if v == "accent3"@ {
        Some(ThemeColorSlot::Accent3)
    } else if v == "accent4"@ {
        Some(ThemeColorSlot::Accent4)
    } else if v == "accent5"@ {
        Some(ThemeColorSlot::Accent5)
    } else if v == "accent6"@ {
        Some(ThemeColorSlot::Accent6)
    } else if v == "hlink"@ || v == "hyperlink"@ {
        Some(ThemeColorSlot::Hyperlink)
    } else if v == "folHlink"@ || v == "followedHyperlink"@ {
        Some(ThemeColorSlot::FollowedHyperlink)
    } else {
        None
    }
}

/// The colour a `<w:color>` element states: a theme slot where
/// `w:themeColor` names one, else `auto` or a literal `RRGGBB` from
/// `w:val`; nothing for any other value.
pub open spec fn color_of(t: XmlTag) -> Option<ColorRef> {
    let val = attr(t, "w:val"@);
    let literal = match val {
        Some(v) => hex_color(v),
        None => None,
    };
    let slot = match attr(t, "w:themeColor"@) {
        Some(c) => theme_slot(c),
        None => None,
    };
    match slot {
        Some(s) => Some(
            ColorRef::Theme {
                slot: s,
                tint: match attr(t, "w:themeTint"@) {
                    Some(v) => hex_byte(v),
                    None => None,
                },
                shade: match attr(t, "w:themeShade"@) {
                    Some(v) => hex_byte(v),
                    None => None,
                },
                fallback: literal,
            },
        ),
        None => match val {
            None => None,
            Some(v) => if v == "auto"@ {
                Some(ColorRef::Auto)
            } else {
                match hex_color(v) {
                    Some(rgb) => Some(ColorRef::Rgb(rgb)),
                    None => None,
                }
            },
        },
    }
}

/// The value of one hexadecimal digit.
fn hex_digit(c: char) -> (r: Option<u8>)
    ensures
        match r {
            Some(d) => is_hex(c) && d == hex_val(c),
            None => !is_hex(c),
        },
{
    if '0' <= c && c <= '9' {
        Some((c as u32 - 48) as u8)
    } else if 'a' <= c && c <= 'f' {
        Some((c as u32 - 87) as u8)
    } else if 'A' <= c && c <= 'F' {
        Some((c as u32 - 55) as u8)
    } else {
        None
    }
}

/// The value of the hexadecimal digits `s[a..b]`, where it is at most
/// 255; `None` for a non-digit or a larger value.
fn hex_run(s: &[char], a: usize, b: usize) -> (r: Option<u8>)
    requires
        a <= b <= s@.len(),
    ensures
        match r {
            Some(v) => all_hex(s@.subrange(a as int, b as int)) && v == hex_value(
                s@.subrange(a as int, b as int),
            ),
            None => !all_hex(s@.subrange(a as int, b as int)) || hex_value(
                s@.subrange(a as int, b as int),
            ) > 255,
        },
{
    let ghost run = s@.subrange(a as int, b as int);
    let mut acc: u32 = 0;
    let mut i: usize = a;
    while i < b
        invariant
            a <= i <= b <= s@.len(),
            run == s@.subrange(a as int, b as int),
            all_hex(run.take(i - a)),
            acc == hex_value(run.take(i - a)),
            acc <= 255,
        decreases b - i,
    {
        proof {
            assert(run.take(i - a + 1).drop_last() =~= run.take(i - a));
            assert(run[i - a] == s@[i as int]);
        }
        match hex_digit(s[i]) {
            None => {
                proof {
                    assert(!is_hex(run[i - a]));
                }
                return None;
            },
            Some(d) => {
                let next = acc * 16 + d as u32;
                if next > 255 {
                    proof {
                        lemma_hex_prefix(run, i - a + 1);
                    }
                    return None;
                }
                acc = next;
                proof {
                    assert forall|j: int| 0 <= j < i - a + 1 implies is_hex(
                        #[trigger] run.take(i - a + 1)[j],
                    ) by {
                        if j < i - a {
                            assert(run.take(i - a + 1)[j] == run.take(i - a)[j]);
                        }
                    }
                }
            },
        }
        i = i + 1;
    }
    proof {
        assert(run.take(b - a) =~= run);
    }
    Some(acc as u8)
}

proof fn lemma_hex_nonneg(s: Seq<char>)
    requires
        all_hex(s),
    ensures
        hex_value(s) >= 0,
    decreases s.len(),
{
    if s.len() > 0 {
        lemma_hex_nonneg(s.drop_last());
    }
}

/// Where the run goes on past a prefix of hexadecimal digits, its value
/// is at least the prefix's, or some later character is not a digit.
proof fn lemma_hex_prefix(s: Seq<char>, k: int)
    requires
        0 <= k <= s.len(),
    ensures
        !all_hex(s) || hex_value(s.take(k)) <= hex_value(s),
    decreases s.len() - k,
{
    if k < s.len() {
        lemma_hex_prefix(s, k + 1);
        if all_hex(s) {
            assert(s.take(k + 1).drop_last() =~= s.take(k));
            assert forall|i: int| 0 <= i < s.take(k).len() implies is_hex(#[trigger] s.take(k)[i]) by {
                assert(s.take(k)[i] == s[i]);
            }
            lemma_hex_nonneg(s.take(k));
            assert(is_hex(s[k]));
        }
    } else {
        assert(s.take(k) =~= s);
    }
}

/// `u8::from_str_radix(s, 16)`.
pub fn parse_hex_byte(s: &str) -> (r: Option<u8>)
    ensures
        r == hex_byte(s@),
{
    let v = chars_of(s);
    let from: usize = if v.len() > 0 && v[0] == '+' {
        1
    } else {
        0
    };
    proof {
        assert(unsigned_part(v@, false) =~= v@.subrange(from as int, v@.len() as int));
    }
    if from >= v.len() {
        return None;
    }
    hex_run(v.as_slice(), from, v.len())
}

/// Six hexadecimal digits as a colour.
pub fn parse_hex_color(s: &str) -> (r: Option<RgbColor>)
    ensures
        r == hex_color(s@),
{
    let v = chars_of(s);
    if v.len() != 6 {
        return None;
    }
    let r = hex_run(v.as_slice(), 0, 2);
    let g = hex_run(v.as_slice(), 2, 4);
    let b = hex_run(v.as_slice(), 4, 6);
    proof {
        assert(v@.subrange(0, 2) =~= v@.take(2));
        assert(v@.subrange(4, 6) =~= v@.skip(4));
        lemma_hex_split(v@);
    }
    match (r, g, b) {
        (Some(r), Some(g), Some(b)) => Some(RgbColor { r, g, b }),
        _ => None,
    }
}

/// Six characters are all hexadecimal digits exactly when each pair is,
/// and a pair of digits never exceeds 255.
proof fn lemma_hex_split(s: Seq<char>)
    requires
        s.len() == 6,
    ensures
        all_hex(s) <==> (all_hex(s.take(2)) && all_hex(s.subrange(2, 4)) && all_hex(s.skip(4))),
        all_hex(s.take(2)) ==> hex_value(s.take(2)) <= 255,
        all_hex(s.subrange(2, 4)) ==> hex_value(s.subrange(2, 4)) <= 255,
        all_hex(s.skip(4)) ==> hex_value(s.skip(4)) <= 255,
{
    if all_hex(s) {
        assert forall|i: int| 0 <= i < 2 implies is_hex(#[trigger] s.take(2)[i]) by {
            assert(s.take(2)[i] == s[i]);
        }
        assert forall|i: int| 0 <= i < 2 implies is_hex(#[trigger] s.subrange(2, 4)[i]) by {
            assert(s.subrange(2, 4)[i] == s[i + 2]);
        }
        assert forall|i: int| 0 <= i < 2 implies is_hex(#[trigger] s.skip(4)[i]) by {
            assert(s.skip(4)[i] == s[i + 4]);
        }
    }
    if all_hex(s.take(2)) && all_hex(s.subrange(2, 4)) && all_hex(s.skip(4)) {
        assert forall|i: int| 0 <= i < 6 implies is_hex(#[trigger] s[i]) by {
            if i < 2 {
                assert(s.take(2)[i] == s[i]);
            } else if i < 4 {
                assert(s.subrange(2, 4)[i - 2] == s[i]);
            } else {
                assert(s.skip(4)[i - 4] == s[i]);
            }
        }
    }
    lemma_pair(s.take(2));
    lemma_pair(s.subrange(2, 4));
    lemma_pair(s.skip(4));
}

proof fn lemma_pair(p: Seq<char>)
    requires
        p.len() == 2,
    ensures
        all_hex(p) ==> hex_value(p) <= 255,
{
    if all_hex(p) {
        assert(is_hex(p[0]) && is_hex(p[1]));
        assert(0 <= hex_val(p[0]) <= 15);
        assert(0 <= hex_val(p[1]) <= 15);
        let q = p.drop_last();
        assert(q.drop_last() =~= Seq::<char>::empty());
        assert(q.last() == p[0]);
        assert(hex_value(q.drop_last()) == 0);
        assert(hex_value(q) == hex_val(p[0]));
        assert(hex_value(p) == hex_value(q) * 16 + hex_val(p[1]));
    }
}

/// `theme_slot` as an executable lookup.
pub fn parse_theme_slot(v: &str) -> (r: Option<ThemeColorSlot>)
    ensures
        r == theme_slot(v@),
{
    if str_eq(v, "dk1") || str_eq(v, "dark1") || str_eq(v, "tx1") || str_eq(v, "text1") {
        Some(ThemeColorSlot::Dark1)
    } else if str_eq(v, "lt1") || str_eq(v, "light1") || str_eq(v, "bg1") || str_eq(
        v,
        "background1",
    ) {
        Some(ThemeColorSlot::Light1)
    } else if str_eq(v, "dk2") || str_eq(v, "dark2") || str_eq(v, "tx2") || str_eq(v, "text2") {
        Some(ThemeColorSlot::Dark2)
    } else if str_eq(v, "lt2") || str_eq(v, "light2") || str_eq(v, "bg2") || str_eq(
        v,
        "background2",
    ) {
        Some(ThemeColorSlot::Light2)
    } else if str_eq(v, "accent1") {
        Some(ThemeColorSlot::Accent1)
    } else if str_eq(v, "accent2") {
        Some(ThemeColorSlot::Accent2)
    } else if str_eq(v, "accent3") {
        Some(ThemeColorSlot::Accent3)
    } else if str_eq(v, "accent4") {
        Some(ThemeColorSlot::Accent4)
    } else if str_eq(v, "accent5") {
        Some(ThemeColorSlot::Accent5)
    } else if str_eq(v, "accent6") {
        Some(ThemeColorSlot::Accent6)
    } else if str_eq(v, "hlink") || str_eq(v, "hyperlink") {
        Some(ThemeColorSlot::Hyperlink)
    } else if str_eq(v, "folHlink") || str_eq(v, "followedHyperlink") {
        Some(ThemeColorSlot::FollowedHyperlink)
    } else {
        None
    }
}

/// The colour a `<w:color>` element states.
pub fn parse_color_ref(t: &XmlTag) -> (r: Option<ColorRef>)
    ensures
        r == color_of(*t),
{
    let val = get_attr(t, "w:val");
    let literal = match &val {
        Some(v) => parse_hex_color(v.as_str()),
        None => None,
    };
    let slot = match get_attr(t, "w:themeColor") {
        Some(c) => parse_theme_slot(c.as_str()),
        None => None,
    };
    match slot {
        Some(s) => {
            let tint = match get_attr(t, "w:themeTint") {
                Some(v) => parse_hex_byte(v.as_str()),
                None => None,
            };
            let shade = match get_attr(t, "w:themeShade") {
                Some(v) => parse_hex_byte(v.as_str()),
                None => None,
            };
            Some(ColorRef::Theme { slot: s, tint, shade, fallback: literal })
        },
        None => match val {
            None => None,
            Some(v) => {
                if str_eq(v.as_str(), "auto") {
                    Some(ColorRef::Auto)
                } else {
                    match parse_hex_color(v.as_str()) {
                        Some(rgb) => Some(ColorRef::Rgb(rgb)),
                        None => None,
                    }
                }
            },
        },
    }
}

} // verus!
