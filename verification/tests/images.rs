use office_oxide::doc::images::{ImageFormat, extract_images, metafile_header_size, uid_size};


fn make_blip_in_data(rec_type: u16, inst: u16, img_data: &[u8]) -> Vec<u8> {
    let ver_inst: u16 = inst << 4;
    let uid_sz = uid_size(rec_type, inst);
    let mf_sz = metafile_header_size(rec_type);
    let rec_len = uid_sz + mf_sz + img_data.len();

    // Prefix with some random non-BLIP data (simulating DOC Data stream).
    let mut buf = vec![0u8; 100]; // 100 bytes of junk before the BLIP
    buf.extend_from_slice(&ver_inst.to_le_bytes());
    buf.extend_from_slice(&rec_type.to_le_bytes());
    buf.extend_from_slice(&(rec_len as u32).to_le_bytes());
    buf.extend(vec![0u8; uid_sz]);
    buf.extend(vec![0u8; mf_sz]);
    buf.extend_from_slice(img_data);
    buf.extend(vec![0u8; 50]); // trailing junk
    buf
}

#[test]
fn test_scan_finds_jpeg_in_data_stream() {
    let data = make_blip_in_data(0xF01D, 0x46A, b"\xff\xd8\xff\xe0JFIF");
    let images = extract_images(&data);
    assert_eq!(images.len(), 1);
    assert_eq!(images[0].format, ImageFormat::Jpeg);
    assert!(images[0].data.starts_with(b"\xff\xd8"));
}

#[test]
fn test_scan_finds_png_in_data_stream() {
    let data = make_blip_in_data(0xF01E, 0x6E0, b"\x89PNG\r\n\x1a\nIHDR");
    let images = extract_images(&data);
    assert_eq!(images.len(), 1);
    assert_eq!(images[0].format, ImageFormat::Png);
    assert!(images[0].data.starts_with(b"\x89PNG"));
}

#[test]
fn test_scan_finds_multiple_images() {
    let mut data = make_blip_in_data(0xF01D, 0x46A, b"\xff\xd8\xff\xe0JPEG1");
    data.extend(make_blip_in_data(0xF01E, 0x6E0, b"\x89PNG\r\n\x1a\nPNG2"));
    let images = extract_images(&data);
    assert_eq!(images.len(), 2);
    assert_eq!(images[0].format, ImageFormat::Jpeg);
    assert_eq!(images[1].format, ImageFormat::Png);
}

#[test]
fn test_rejects_false_positive() {
    // Data that happens to have a BLIP type at the right offset but no valid image sig.
    let mut data = vec![0u8; 100];
    data[2] = 0x1D;
    data[3] = 0xF0; // looks like JPEG BLIP type
    data[4] = 30;
    data[5] = 0;
    data[6] = 0;
    data[7] = 0; // rec_len=30
    // But UID + tag (17 bytes) then data won't start with 0xFF 0xD8
    let images = extract_images(&data);
    assert!(images.is_empty());
}

#[test]
fn test_empty_data_stream() {
    assert!(extract_images(&[]).is_empty());
}
