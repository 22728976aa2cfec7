//! File Information Block (FIB) parsing.
//!
//! The FIB is at the start of the WordDocument stream. It contains metadata
//! and pointers to other structures in the Table stream.

use vstd::prelude::*;
use crate::bytes::{le16, le32_or_zero, read_u16_le, read_u32_or_zero};
use super::error::DocError;
use crate::pattern::{decimal, decimal_usize_chars, hex4, hex4_chars};
use crate::text::{chars_of, string_from_chars};

verus! {

/// Parsed FIB fields needed for text extraction.
#[derive(Debug, Clone, PartialEq, Eq)]
pub struct Fib {
    /// FibBase `lid`: the document's default language ID (Windows LCID).
    pub lid: u16,
    /// Which table stream to use: true = "1Table", false = "0Table".
    pub use_table1: bool,
    /// Offset of the CLX (piece table) in the Table stream.
    pub clx_offset: u32,
    /// Size of the CLX in the Table stream.
    pub clx_size: u32,
    /// Total length of text in the main document (in characters).
    pub text_len: u32,
    /// Length of footnote text.
    pub footnote_len: u32,
    /// Length of header/footer text.
    pub header_len: u32,
    /// Length of comment text.
    pub comment_len: u32,
    /// Length of endnote text.
    pub endnote_len: u32,
    /// Length of textbox text.
    pub textbox_len: u32,
    /// Length of header textbox text.
    pub header_textbox_len: u32,
    /// Offset of the PlcfBtePapx (PAPX FKP index) in the Table stream.
    pub fc_plcf_bte_papx: u32,
    /// Byte length of the PlcfBtePapx.
    pub lcb_plcf_bte_papx: u32,
    /// Offset of the PlfLst (list definitions) in the Table stream.
    pub fc_plcf_lst: u32,
    /// Byte length of the PlfLst.
    pub lcb_plcf_lst: u32,
    /// Offset of the PlfLfo (list format overrides) in the Table stream.
    pub fc_plf_lfo: u32,
    /// Byte length of the PlfLfo.
    pub lcb_plf_lfo: u32,
    /// Offset of the GrpXstAtnOwners (comment author names).
    pub fc_grp_xst_atn_owners: u32,
    /// Byte length of the GrpXstAtnOwners.
    pub lcb_grp_xst_atn_owners: u32,
    /// Offset of the PlcfHdd (header/footer story delimiters).
    pub fc_plcf_hdd: u32,
    /// Byte length of the PlcfHdd.
    pub lcb_plcf_hdd: u32,
    /// Offset of the PlcfandRef (comment reference points).
    pub fc_plcf_and_ref: u32,
    /// Byte length of the PlcfandRef.
    pub lcb_plcf_and_ref: u32,
    /// Offset of the PlcfandTxt (comment body boundaries).
    pub fc_plcf_and_txt: u32,
    /// Byte length of the PlcfandTxt.
    pub lcb_plcf_and_txt: u32,
    /// Offset of the PlcBteChpx (CHPX FKP page index).
    pub fc_plcf_bte_chpx: u32,
    /// Byte length of the PlcBteChpx.
    pub lcb_plcf_bte_chpx: u32,
}

/// The Word 6.0/95 family of `wIdent` magics (Windows and Macintosh).
pub open spec fn is_word6_wident(w: int) -> bool {
    w == 0xA5DC || (0xA697 <= w <= 0xA699)
}

/// The 32-bit field at `at` when the stream is longer than `min_len`, else 0.
pub open spec fn fib_field(d: Seq<u8>, min_len: int, at: int) -> u32 {
    if d.len() > min_len {
        le32_or_zero(d, at)
    } else {
        0
    }
}

/// The flags word of FibBase (offset 0x0A).
pub open spec fn fib_flags(d: Seq<u8>) -> int {
    le16(d, 0x0A)
}

/// The FIB a well-formed, unencrypted Word 97 stream describes.
pub open spec fn spec_fib(d: Seq<u8>) -> Fib {
    Fib {
        lid: le16(d, 0x06) as u16,
        use_table1: (fib_flags(d) / 512) % 2 == 1,
        clx_offset: fib_field(d, 0x01AA, 0x01A2),
        clx_size: fib_field(d, 0x01AA, 0x01A6),
        text_len: le32_or_zero(d, 0x4C),
        footnote_len: le32_or_zero(d, 0x50),
        header_len: le32_or_zero(d, 0x54),
        comment_len: le32_or_zero(d, 0x5C),
        endnote_len: le32_or_zero(d, 0x60),
        textbox_len: le32_or_zero(d, 0x64),
        header_textbox_len: le32_or_zero(d, 0x68),
        fc_plcf_bte_papx: fib_field(d, 0x010A, 0x0102),
        lcb_plcf_bte_papx: fib_field(d, 0x010A, 0x0106),
        fc_plcf_lst: fib_field(d, 0x02EA, 0x02E2),
        lcb_plcf_lst: fib_field(d, 0x02EA, 0x02E6),
        fc_plf_lfo: fib_field(d, 0x02F2, 0x02EA),
        lcb_plf_lfo: fib_field(d, 0x02F2, 0x02EE),
        fc_grp_xst_atn_owners: fib_field(d, 0x01C2, 0x01BA),
        lcb_grp_xst_atn_owners: fib_field(d, 0x01C2, 0x01BE),
        fc_plcf_hdd: fib_field(d, 0x00FA, 0x00F2),
        lcb_plcf_hdd: fib_field(d, 0x00FA, 0x00F6),
        fc_plcf_and_ref: fib_field(d, 0x00C2, 0x00BA),
        lcb_plcf_and_ref: fib_field(d, 0x00C2, 0x00BE),
        fc_plcf_and_txt: fib_field(d, 0x00CA, 0x00C2),
        lcb_plcf_and_txt: fib_field(d, 0x00CA, 0x00C6),
        fc_plcf_bte_chpx: fib_field(d, 0x0102, 0x00FA),
        lcb_plcf_bte_chpx: fib_field(d, 0x0102, 0x00FE),
    }
}

fn field_if_longer(data: &[u8], min_len: usize, at: usize) -> (r: u32)
    ensures
        r == fib_field(data@, min_len as int, at as int),
{
    if data.len() > min_len {
        read_u32_or_zero(data, at)
    } else {
        0
    }
}

/// The error that reading the FIB of `d` gives, where it gives one: a
/// stream shorter than the FibBase or with an unknown `wIdent` is an
/// invalid FIB, the Word 6.0/95 family an unsupported version, and an
/// encrypted document is refused.
pub open spec fn fib_error_is(d: Seq<u8>, e: DocError) -> bool {
    if d.len() < 68 {
        e matches DocError::InvalidFib(m) && m@ == "WordDocument stream too short: "@ + decimal(
            d.len(),
        ) + " bytes"@
    } else if is_word6_wident(le16(d, 0)) {
        e matches DocError::UnsupportedVersion(m) && m@ == "Word 6.0/95 (wIdent 0x"@ + hex4(
            le16(d, 0) as u16,
        ) + "); only Word 97 and later are supported"@
    } else if le16(d, 0) != 0xA5EC {
        e matches DocError::InvalidFib(m) && m@ == "unknown wIdent: 0x"@ + hex4(le16(d, 0) as u16)
    } else {
        e == DocError::Encrypted
    }
}

impl Fib {
    /// Parse the FIB from the WordDocument stream.
    ///
    /// A stream shorter than the FibBase, or with an unknown `wIdent`, is an
    /// invalid FIB; the Word 6.0/95 family is reported as an unsupported
    /// version; an encrypted document is refused.
    pub fn parse(data: &[u8]) -> (r: Result<Fib, DocError>)
        ensures
            data@.len() < 68 ==> r matches Err(DocError::InvalidFib(_)),
            data@.len() >= 68 && is_word6_wident(le16(data@, 0)) ==> r matches Err(
                DocError::UnsupportedVersion(_),
            ),
            data@.len() >= 68 && !is_word6_wident(le16(data@, 0)) && le16(data@, 0) != 0xA5EC
                ==> r matches Err(DocError::InvalidFib(_)),
            data@.len() >= 68 && le16(data@, 0) == 0xA5EC && (fib_flags(data@) / 256) % 2 == 1
                ==> r == Err::<Fib, DocError>(DocError::Encrypted),
            data@.len() >= 68 && le16(data@, 0) == 0xA5EC && (fib_flags(data@) / 256) % 2 == 0
                ==> r == Ok::<Fib, DocError>(spec_fib(data@)),
            r matches Err(e) ==> fib_error_is(data@, e),
    {
        if data.len() < 68 {
            let mut m = chars_of("WordDocument stream too short: ");
            m.append(&mut decimal_usize_chars(data.len()));
            m.append(&mut chars_of(" bytes"));
            return Err(DocError::InvalidFib(string_from_chars(m.as_slice())));
        }
        let wident = read_u16_le(data, 0);
        if wident == 0xA5DC || (0xA697 <= wident && wident <= 0xA699) {
            let mut m = chars_of("Word 6.0/95 (wIdent 0x");
            m.append(&mut hex4_chars(wident));
            m.append(&mut chars_of("); only Word 97 and later are supported"));
            return Err(DocError::UnsupportedVersion(string_from_chars(m.as_slice())));
        }
        if wident != 0xA5EC {
            let mut m = chars_of("unknown wIdent: 0x");
            m.append(&mut hex4_chars(wident));
            return Err(DocError::InvalidFib(string_from_chars(m.as_slice())));
        }
        let lid = read_u16_le(data, 0x06);
        let flags = read_u16_le(data, 0x0A);
        if (flags / 256) % 2 == 1 {
            return Err(DocError::Encrypted);
        }
        let use_table1 = (flags / 512) % 2 == 1;
        Ok(Fib {
            lid,
            use_table1,
            clx_offset: field_if_longer(data, 0x01AA, 0x01A2),
            clx_size: field_if_longer(data, 0x01AA, 0x01A6),
            text_len: read_u32_or_zero(data, 0x4C),
            footnote_len: read_u32_or_zero(data, 0x50),
            header_len: read_u32_or_zero(data, 0x54),
            comment_len: read_u32_or_zero(data, 0x5C),
            endnote_len: read_u32_or_zero(data, 0x60),
            textbox_len: read_u32_or_zero(data, 0x64),
            header_textbox_len: read_u32_or_zero(data, 0x68),
            fc_plcf_bte_papx: field_if_longer(data, 0x010A, 0x0102),
            lcb_plcf_bte_papx: field_if_longer(data, 0x010A, 0x0106),
            fc_plcf_lst: field_if_longer(data, 0x02EA, 0x02E2),
            lcb_plcf_lst: field_if_longer(data, 0x02EA, 0x02E6),
            fc_plf_lfo: field_if_longer(data, 0x02F2, 0x02EA),
            lcb_plf_lfo: field_if_longer(data, 0x02F2, 0x02EE),
            fc_grp_xst_atn_owners: field_if_longer(data, 0x01C2, 0x01BA),
            lcb_grp_xst_atn_owners: field_if_longer(data, 0x01C2, 0x01BE),
            fc_plcf_hdd: field_if_longer(data, 0x00FA, 0x00F2),
            lcb_plcf_hdd: field_if_longer(data, 0x00FA, 0x00F6),
            fc_plcf_and_ref: field_if_longer(data, 0x00C2, 0x00BA),
            lcb_plcf_and_ref: field_if_longer(data, 0x00C2, 0x00BE),
            fc_plcf_and_txt: field_if_longer(data, 0x00CA, 0x00C2),
            lcb_plcf_and_txt: field_if_longer(data, 0x00CA, 0x00C6),
            fc_plcf_bte_chpx: field_if_longer(data, 0x0102, 0x00FA),
            lcb_plcf_bte_chpx: field_if_longer(data, 0x0102, 0x00FE),
        })
    }
}

} // verus!
