//! DOC FIB `lid` (language ID) to codepage mapping, applied to compressed
//! (8-bit) text runs.

use vstd::prelude::*;

verus! {

/// The codepage compressed text in a language is stored in. Only the
/// primary language id (the low 10 bits) matters; 1252 for English and any
/// unrecognized `lid`.
pub open spec fn spec_codepage_for_lid(lid: u16) -> u16 {
    let p = lid as int % 1024;
    if p == 0x19 || p == 0x02 || p == 0x22 || p == 0x23 {
        1251
    } else if p == 0x15 || p == 0x05 || p == 0x1B || p == 0x0E || p == 0x24 || p == 0x1A || p
        == 0x18 {
        1250
    } else if p == 0x08 {
        1253
    } else if p == 0x1F {
        1254
    } else if p == 0x0D {
        1255
    } else if p == 0x01 {
        1256
    } else if 0x25 <= p <= 0x27 {
        1257
    } else if p == 0x2A {
        1258
    } else if p == 0x1E {
        874
    } else {
        1252
    }
}

/// Map a FIB `lid` (Windows LCID) to the codepage its compressed text uses.
pub fn codepage_for_lid(lid: u16) -> (r: u16)
    ensures
        r == spec_codepage_for_lid(lid),
{
    let p = lid % 1024;
    if p == 0x19 || p == 0x02 || p == 0x22 || p == 0x23 {
        1251
    } else if p == 0x15 || p == 0x05 || p == 0x1B || p == 0x0E || p == 0x24 || p == 0x1A || p
        == 0x18 {
        1250
    } else if p == 0x08 {
        1253
    } else if p == 0x1F {
        1254
    } else if p == 0x0D {
        1255
    } else if p == 0x01 {
        1256
    } else if 0x25 <= p && p <= 0x27 {
        1257
    } else if p == 0x2A {
        1258
    } else if p == 0x1E {
        874
    } else {
        1252
    }
}

/// Windows-1252: the 0x80..0x9F block maps to typographic characters;
/// five unassigned bytes and every other byte read as Latin-1.
pub open spec fn spec_cp1252(b: u8) -> char {
    if b == 0x80 { '\u{20AC}' }
    else if b == 0x82 { '\u{201A}' }
    else if b == 0x83 { '\u{0192}' }
    else if b == 0x84 { '\u{201E}' }
    else if b == 0x85 { '\u{2026}' }
    else if b == 0x86 { '\u{2020}' }
    else if b == 0x87 { '\u{2021}' }
    else if b == 0x88 { '\u{02C6}' }
    else if b == 0x89 { '\u{2030}' }
    else if b == 0x8A { '\u{0160}' }
    else if b == 0x8B { '\u{2039}' }
    else if b == 0x8C { '\u{0152}' }
    else if b == 0x8E { '\u{017D}' }
    else if b == 0x91 { '\u{2018}' }
    else if b == 0x92 { '\u{2019}' }
    else if b == 0x93 { '\u{201C}' }
    else if b == 0x94 { '\u{201D}' }
    else if b == 0x95 { '\u{2022}' }
    else if b == 0x96 { '\u{2013}' }
    else if b == 0x97 { '\u{2014}' }
    else if b == 0x98 { '\u{02DC}' }
    else if b == 0x99 { '\u{2122}' }
    else if b == 0x9A { '\u{0161}' }
    else if b == 0x9B { '\u{203A}' }
    else if b == 0x9C { '\u{0153}' }
    else if b == 0x9E { '\u{017E}' }
    else if b == 0x9F { '\u{0178}' }
    else { b as char }
}

/// Decode one Windows-1252 byte.
pub fn cp1252_to_char(b: u8) -> (r: char)
    ensures
        r == spec_cp1252(b),
{
    if b == 0x80 { '\u{20AC}' }
    else if b == 0x82 { '\u{201A}' }
    else if b == 0x83 { '\u{0192}' }
    else if b == 0x84 { '\u{201E}' }
    else if b == 0x85 { '\u{2026}' }
    else if b == 0x86 { '\u{2020}' }
    else if b == 0x87 { '\u{2021}' }
    else if b == 0x88 { '\u{02C6}' }
    else if b == 0x89 { '\u{2030}' }
    else if b == 0x8A { '\u{0160}' }
    else if b == 0x8B { '\u{2039}' }
    else if b == 0x8C { '\u{0152}' }
    else if b == 0x8E { '\u{017D}' }
    else if b == 0x91 { '\u{2018}' }
    else if b == 0x92 { '\u{2019}' }
    else if b == 0x93 { '\u{201C}' }
    else if b == 0x94 { '\u{201D}' }
    else if b == 0x95 { '\u{2022}' }
    else if b == 0x96 { '\u{2013}' }
    else if b == 0x97 { '\u{2014}' }
    else if b == 0x98 { '\u{02DC}' }
    else if b == 0x99 { '\u{2122}' }
    else if b == 0x9A { '\u{0161}' }
    else if b == 0x9B { '\u{203A}' }
    else if b == 0x9C { '\u{0153}' }
    else if b == 0x9E { '\u{017E}' }
    else if b == 0x9F { '\u{0178}' }
    else { b as char }
}

/// The WHATWG label of each non-default codepage this reader decodes.
pub open spec fn spec_codepage_label(cp: u16) -> Seq<u8> {
    if cp == 1250 {
        "windows-1250"@.map_values(|c: char| c as u8)
    } else if cp == 1251 {
        "windows-1251"@.map_values(|c: char| c as u8)
    } else if cp == 1253 {
        "windows-1253"@.map_values(|c: char| c as u8)
    } else if cp == 1254 {
        "windows-1254"@.map_values(|c: char| c as u8)
    } else if cp == 1255 {
        "windows-1255"@.map_values(|c: char| c as u8)
    } else if cp == 1256 {
        "windows-1256"@.map_values(|c: char| c as u8)
    } else if cp == 1257 {
        "windows-1257"@.map_values(|c: char| c as u8)
    } else if cp == 1258 {
        "windows-1258"@.map_values(|c: char| c as u8)
    } else {
        "windows-874"@.map_values(|c: char| c as u8)
    }
}

/// The first character `encoding_rs` decodes from the single byte `b` in
/// the encoding labelled `label`, or `None` when the label names no
/// encoding.
pub uninterp spec fn single_byte_decoding(label: Seq<u8>, b: u8) -> Option<char>;

/// `encoding_rs::Encoding::for_label` followed by
/// `Encoding::decode_without_bom_handling` on the one-byte input: the
/// contract names the first decoded character by `single_byte_decoding`
/// and claims nothing more of it.
#[verifier::external_body]
fn decode_single_byte(label: &[u8], b: u8) -> (r: Option<char>)
    ensures
        r == single_byte_decoding(label@, b),
{
    let encoding = encoding_rs::Encoding::for_label(label)?;
    let bytes = [b];
    let (decoded, _) = encoding.decode_without_bom_handling(&bytes);
    decoded.chars().next()
}

fn codepage_label(cp: u16) -> (r: Vec<u8>)
    ensures
        r@ == spec_codepage_label(cp),
{
    let s: &str = if cp == 1250 {
        "windows-1250"
    } else if cp == 1251 {
        "windows-1251"
    } else if cp == 1253 {
        "windows-1253"
    } else if cp == 1254 {
        "windows-1254"
    } else if cp == 1255 {
        "windows-1255"
    } else if cp == 1256 {
        "windows-1256"
    } else if cp == 1257 {
        "windows-1257"
    } else if cp == 1258 {
        "windows-1258"
    } else {
        "windows-874"
    };
    let cs = crate::text::chars_of(s);
    let mut out: Vec<u8> = Vec::new();
    let mut i: usize = 0;
    while i < cs.len()
        invariant
            i <= cs@.len(),
            cs@ == s@,
            out@ == cs@.take(i as int).map_values(|c: char| c as u8),
        decreases cs@.len() - i,
    {
        out.push(cs[i] as u8);
        i = i + 1;
        assert(out@ =~= cs@.take(i as int).map_values(|c: char| c as u8));
    }
    assert(cs@.take(cs@.len() as int) == cs@);
    out
}

/// One compressed-text byte decoded in the codepage its `lid` implies.
pub open spec fn spec_decode_byte(b: u8, lid: u16) -> char {
    let cp = spec_codepage_for_lid(lid);
    if cp == 1252 {
        spec_cp1252(b)
    } else {
        match single_byte_decoding(spec_codepage_label(cp), b) {
            Some(c) => c,
            None => b as char,
        }
    }
}

/// Decode one compressed-text byte using the codepage its FIB `lid`
/// implies: Windows-1252 for the default/English case, otherwise the
/// language's own Windows codepage.
pub fn decode_byte(b: u8, lid: u16) -> (r: char)
    ensures
        r == spec_decode_byte(b, lid),
{
    let cp = codepage_for_lid(lid);
    if cp == 1252 {
        return cp1252_to_char(b);
    }
    let label = codepage_label(cp);
    match decode_single_byte(label.as_slice(), b) {
        Some(c) => c,
        None => b as char,
    }
}

/// The bytes 0x80..0x9F to which Windows-1252 assigns a character (all
/// but 0x81, 0x8D, 0x8F, 0x90 and 0x9D).
pub open spec fn cp1252_assigned_c1(b: u8) -> bool {
    0x80 <= b <= 0x9F && b != 0x81 && b != 0x8D && b != 0x8F && b != 0x90 && b != 0x9D
}

/// Compressed text with a Windows-1252 language (English among them):
/// bytes below 0x80 and from 0xA0 are themselves (ASCII and Latin-1);
/// every byte in 0x80..0x9F that Windows-1252 assigns decodes to a
/// typographic character above U+00FF, never to a C1 control code, the
/// quote bytes 0x91..0x94 to the curly quotes U+2018, U+2019, U+201C,
/// U+201D and the dash bytes 0x96, 0x97 to U+2013, U+2014; the unassigned
/// bytes stay as they are.
pub proof fn lemma_windows_1252_text(b: u8, lid: u16)
    requires
        spec_codepage_for_lid(lid) == 1252,
    ensures
        (b < 0x80 || b >= 0xA0) ==> spec_decode_byte(b, lid) as u32 == b as u32,
        cp1252_assigned_c1(b) ==> spec_decode_byte(b, lid) as u32 > 0xFF,
        (0x80 <= b <= 0x9F && !cp1252_assigned_c1(b)) ==> spec_decode_byte(b, lid) as u32 == b as u32,
        b == 0x91 ==> spec_decode_byte(b, lid) == '\u{2018}',
        b == 0x92 ==> spec_decode_byte(b, lid) == '\u{2019}',
        b == 0x93 ==> spec_decode_byte(b, lid) == '\u{201C}',
        b == 0x94 ==> spec_decode_byte(b, lid) == '\u{201D}',
        b == 0x96 ==> spec_decode_byte(b, lid) == '\u{2013}',
        b == 0x97 ==> spec_decode_byte(b, lid) == '\u{2014}',
{
}

/// Windows-1252 text decoding loses nothing: two different bytes never
/// decode to the same character.
pub proof fn lemma_windows_1252_injective(b1: u8, b2: u8, lid: u16)
    requires
        spec_codepage_for_lid(lid) == 1252,
        b1 != b2,
    ensures
        spec_decode_byte(b1, lid) != spec_decode_byte(b2, lid),
{
    lemma_windows_1252_text(b1, lid);
    lemma_windows_1252_text(b2, lid);
}

/// English (`lid` 0x0409) text is read as Windows-1252.
pub proof fn lemma_english_is_windows_1252()
    ensures
        spec_codepage_for_lid(0x0409) == 1252,
{
}

} // verus!
