use grib2sail::ecmwf::unpack_crop::{get_sect_len, set_4bytes};

#[test]
fn set_then_get_section_length() {
    let mut buf = vec![0u8; 8];
    set_4bytes(&mut buf, 2, 0x0102_0304);
    assert_eq!(buf, vec![0, 0, 1, 2, 3, 4, 0, 0]);
    assert_eq!(get_sect_len(&buf, 2), 0x0102_0304);
}
