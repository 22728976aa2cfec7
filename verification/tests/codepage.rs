use office_oxide::doc::codepage::{codepage_for_lid, cp1252_to_char, decode_byte};

#[test]
fn test_english_lid_maps_to_1252() {
    assert_eq!(codepage_for_lid(0x0409), 1252);
}

#[test]
fn test_russian_lid_maps_to_1251() {
    assert_eq!(codepage_for_lid(0x0419), 1251);
}

#[test]
fn test_sublanguage_region_does_not_change_the_codepage() {
    assert_eq!(codepage_for_lid(0x080A), codepage_for_lid(0x0C0A));
}

#[test]
fn test_greek_lid_decodes_a_byte_correctly() {
    assert_eq!(decode_byte(0xE1, 0x0408), 'α');
}

#[test]
fn test_default_lid_matches_the_old_cp1252_behavior() {
    assert_eq!(decode_byte(0x93, 0x0409), '\u{201C}');
    assert_eq!(decode_byte(0x93, 0x0409), cp1252_to_char(0x93));
}

#[test]
fn cyrillic_byte_decodes_through_windows_1251() {
    assert_eq!(decode_byte(0xC0, 0x0419), 'А');
}
