//! Image extraction from DOC files.
//!
//! Images in Word binary files are stored as OfficeArt BLIP records
//! embedded at various offsets within the `Data` stream, among other data;
//! the stream is scanned for BLIP record headers.

use vstd::prelude::*;
use crate::bytes::{le16, le32, len_ok, read_u16_le, read_u32_le, copy_range};

verus! {

/// The picture format a BLIP record type declares.
#[derive(Debug, Clone, Copy, PartialEq, Eq, Structural)]
pub enum ImageFormat {
    Emf,
    Wmf,
    Pict,
    Jpeg,
    Png,
    Dib,
    Tiff,
    /// Any other record type.
    Unknown(u16),
}

/// An image found in the `Data` stream.
#[derive(Debug, Clone)]
pub struct DocImage {
    /// Its format, from the BLIP record type.
    pub format: ImageFormat,
    /// The picture bytes, after the BLIP's UID and metafile header.
    pub data: Vec<u8>,
    /// Its position among the images found.
    pub index: usize,
}

impl View for DocImage {
    type V = (ImageFormat, Seq<u8>, usize);

    open spec fn view(&self) -> (ImageFormat, Seq<u8>, usize) {
        (self.format, self.data@, self.index)
    }
}

/// Record types of the BLIPs: `0xF01A..=0xF01F`, `0xF029`, `0xF02A`.
pub open spec fn spec_is_blip_type(rt: u16) -> bool {
    (0xF01A <= rt && rt <= 0xF01F) || rt == 0xF029 || rt == 0xF02A
}

fn is_blip_type(rt: u16) -> (r: bool)
    ensures
        r == spec_is_blip_type(rt),
{
    (0xF01A <= rt && rt <= 0xF01F) || rt == 0xF029 || rt == 0xF02A
}

/// Bytes of UID (and tag) before the picture: 16 for the metafile BLIPs
/// (`0xF01A..=0xF01C`), 17 for the bitmap ones, 16 more when `inst` is odd.
pub open spec fn spec_uid_size(rt: u16, inst: u16) -> int {
    let base = if 0xF01A <= rt && rt <= 0xF01C { 16int } else { 17int };
    if inst % 2 == 1 { base + 16 } else { base }
}

pub fn uid_size(rec_type: u16, inst: u16) -> (r: usize)
    ensures
        r == spec_uid_size(rec_type, inst),
{
    let base: usize = if 0xF01A <= rec_type && rec_type <= 0xF01C { 16 } else { 17 };
    if inst % 2 == 1 { base + 16 } else { base }
}

/// Bytes of metafile header before a metafile BLIP's picture.
pub open spec fn spec_metafile_header_size(rt: u16) -> int {
    if 0xF01A <= rt && rt <= 0xF01C { 34 } else { 0 }
}

pub fn metafile_header_size(rec_type: u16) -> (r: usize)
    ensures
        r == spec_metafile_header_size(rec_type),
{
    if 0xF01A <= rec_type && rec_type <= 0xF01C { 34 } else { 0 }
}

/// Whether picture bytes start the way their format does: JPEG `FF D8`,
/// PNG `89 'P' 'N' 'G'`, EMF `01 00 00 00`; other formats only need more
/// than ten bytes.
pub open spec fn spec_has_valid_signature(rt: u16, d: Seq<u8>) -> bool {
    if d.len() == 0 {
        false
    } else if rt == 0xF01D || rt == 0xF02A {
        d.len() >= 2 && d[0] == 0xFF && d[1] == 0xD8
    } else if rt == 0xF01E {
        d.len() >= 4 && d[0] == 0x89 && d[1] == 0x50 && d[2] == 0x4E && d[3] == 0x47
    } else if rt == 0xF01A {
        d.len() >= 4 && d[0] == 0x01 && d[1] == 0x00 && d[2] == 0x00 && d[3] == 0x00
    } else {
        d.len() > 10
    }
}

fn has_valid_signature(rec_type: u16, data: &[u8], start: usize, end: usize) -> (r: bool)
    requires
        start <= end <= data@.len(),
    ensures
        r == spec_has_valid_signature(rec_type, data@.subrange(start as int, end as int)),
{
    let n = end - start;
    if n == 0 {
        false
    } else if rec_type == 0xF01D || rec_type == 0xF02A {
        n >= 2 && data[start] == 0xFF && data[start + 1] == 0xD8
    } else if rec_type == 0xF01E {
        n >= 4 && data[start] == 0x89 && data[start + 1] == 0x50 && data[start + 2] == 0x4E
            && data[start + 3] == 0x47
    } else if rec_type == 0xF01A {
        n >= 4 && data[start] == 0x01 && data[start + 1] == 0x00 && data[start + 2] == 0x00
            && data[start + 3] == 0x00
    } else {
        n > 10
    }
}

/// The image format of a BLIP record type.
pub open spec fn spec_format_of(rt: u16) -> ImageFormat {
    if rt == 0xF01A {
        ImageFormat::Emf
    } else if rt == 0xF01B {
        ImageFormat::Wmf
    } else if rt == 0xF01C {
        ImageFormat::Pict
    } else if rt == 0xF01D || rt == 0xF02A {
        ImageFormat::Jpeg
    } else if rt == 0xF01E {
        ImageFormat::Png
    } else if rt == 0xF01F {
        ImageFormat::Dib
    } else if rt == 0xF029 {
        ImageFormat::Tiff
    } else {
        ImageFormat::Unknown(rt)
    }
}

impl ImageFormat {
    /// The image format of a BLIP record type.
    pub fn from_record_type(rt: u16) -> (r: ImageFormat)
        ensures
            r == spec_format_of(rt),
    {
        if rt == 0xF01A {
            ImageFormat::Emf
        } else if rt == 0xF01B {
            ImageFormat::Wmf
        } else if rt == 0xF01C {
            ImageFormat::Pict
        } else if rt == 0xF01D || rt == 0xF02A {
            ImageFormat::Jpeg
        } else if rt == 0xF01E {
            ImageFormat::Png
        } else if rt == 0xF01F {
            ImageFormat::Dib
        } else if rt == 0xF029 {
            ImageFormat::Tiff
        } else {
            ImageFormat::Unknown(rt)
        }
    }
}

/// The end of the BLIP record whose header is at `pos`: past its header
/// and its declared length, cut at the stream's end.
pub open spec fn blip_end(d: Seq<u8>, pos: int) -> int {
    let e = pos + 8 + le32(d, pos + 4);
    if e <= d.len() { e } else { d.len() as int }
}

/// The picture of the BLIP record at `pos`, when its signature checks.
pub open spec fn blip_image(d: Seq<u8>, pos: int) -> Option<(ImageFormat, Seq<u8>)> {
    let rt = le16(d, pos + 2) as u16;
    let inst = (le16(d, pos) / 16) as u16;
    let img_start = pos + 8 + spec_uid_size(rt, inst) + spec_metafile_header_size(rt);
    let end = blip_end(d, pos);
    if img_start < end && spec_has_valid_signature(rt, d.subrange(img_start, end)) {
        Some((spec_format_of(rt), d.subrange(img_start, end)))
    } else {
        None
    }
}

/// The images found scanning from `pos`: at a BLIP header, its picture
/// (when valid) and on past the record; elsewhere on by one byte.
pub open spec fn scan_images(d: Seq<u8>, pos: int) -> Seq<(ImageFormat, Seq<u8>)>
    decreases d.len() - pos,
{
    if pos < 0 || pos + 8 > d.len() {
        Seq::empty()
    } else if spec_is_blip_type(le16(d, pos + 2) as u16) {
        let rest = scan_images(d, blip_end(d, pos));
        match blip_image(d, pos) {
            Some(img) => seq![img] + rest,
            None => rest,
        }
    } else {
        scan_images(d, pos + 1)
    }
}

/// Extract images from a DOC Data stream by scanning for BLIP records:
/// every BLIP whose picture bytes start with their format's signature, in
/// stream order, numbered from zero.
pub fn extract_images(data: &[u8]) -> (r: Vec<DocImage>)
    requires
        len_ok(data@.len() as int),
    ensures
        r@.len() == scan_images(data@, 0).len(),
        forall|k: int| 0 <= k < r@.len() ==> (#[trigger] r@[k]).format == scan_images(data@, 0)[k].0
            && r@[k].data@ == scan_images(data@, 0)[k].1 && r@[k].index == k,
{
    let mut images: Vec<DocImage> = Vec::new();
    let mut pos: usize = 0;
    let ghost all = scan_images(data@, 0);
    while pos <= data.len() && data.len() - pos >= 8
        invariant
            len_ok(data@.len() as int),
            pos <= data@.len(),
            all == scan_images(data@, 0),
            images@.len() + scan_images(data@, pos as int).len() == all.len(),
            forall|k: int| 0 <= k < images@.len() ==> (#[trigger] images@[k]).format == all[k].0
                && images@[k].data@ == all[k].1 && images@[k].index == k,
            forall|k: int| 0 <= k < scan_images(data@, pos as int).len() ==> #[trigger] scan_images(data@, pos as int)[k] == all[images@.len() + k],
        decreases data@.len() - pos,
    {
        let rec_type = read_u16_le(data, pos + 2);
        if is_blip_type(rec_type) {
            let ver_inst = read_u16_le(data, pos);
            let rec_len = read_u32_le(data, pos + 4) as usize;
            let inst = ver_inst / 16;
            let data_start = pos + 8;
            let data_end = if rec_len <= data.len() - data_start { data_start + rec_len } else { data.len() };
            let skip = uid_size(rec_type, inst) + metafile_header_size(rec_type);
            let img_start = data_start + skip;
            let ghost rest = scan_images(data@, data_end as int);
            proof {
                assert(blip_end(data@, pos as int) == data_end);
            }
            if img_start < data_end && has_valid_signature(rec_type, data, img_start, data_end) {
                let img = copy_range(data, img_start, data_end);
                let format = ImageFormat::from_record_type(rec_type);
                let index = images.len();
                images.push(DocImage { format, data: img, index });
                proof {
                    assert(scan_images(data@, pos as int) == seq![(format, img@)] + rest);
                    assert(scan_images(data@, pos as int)[0] == (format, img@));
                    assert forall|k: int| 0 <= k < rest.len() implies #[trigger] rest[k] == all[images@.len() + k] by {
                        assert(rest[k] == scan_images(data@, pos as int)[k + 1]);
                    }
                }
            } else {
                proof {
                    assert(scan_images(data@, pos as int) == rest);
                }
            }
            pos = data_end;
        } else {
            pos = pos + 1;
        }
    }
    proof {
        assert(scan_images(data@, pos as int).len() == 0);
    }
    images
}

} // verus!
