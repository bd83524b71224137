use grib2sail::common::{Component, Grib, GribError, Model, Step};
use grib2sail::ecmwf::helper_sect3::{get_4bytes, sect_3};
use grib2sail::ecmwf::helper_sect4::sect_4;
use grib2sail::ecmwf::helper_sect5::sect_5;
use grib2sail::ecmwf::helper_sect7::sect_7;
use grib2sail::ecmwf::unpack_crop::{
    area_points, get_sect_len, grid_points, message_spans, rounded_steps, unpack_crop,
    unpack_crop_message, GribParams,
};

// A 0.25° grid from 46°N to 44°N and from 5°E to 7°E: 9 rows of 9 points, the value of
// the point of row r and column c being 9 * r + c, packed by CCSDS in uncompressed
// blocks of 8 samples of 8 bits.

const ROWS: usize = 9;
const COLS: usize = 9;

fn be32(v: u32) -> [u8; 4] {
    v.to_be_bytes()
}

fn aec_uncompressed(samples: &[u8]) -> Vec<u8> {
    let mut bits: Vec<bool> = Vec::new();
    for block in samples.chunks(8) {
        bits.extend([true, true, true]);
        for i in 0..8 {
            let v = if i < block.len() { block[i] } else { 0 };
            for b in (0..8).rev() {
                bits.push((v >> b) & 1 == 1);
            }
        }
    }
    let mut out = vec![0u8; (bits.len() + 7) / 8];
    for (i, b) in bits.iter().enumerate() {
        if *b {
            out[i / 8] |= 0x80 >> (i % 8);
        }
    }
    out
}

fn section(nb: u8, body: &[u8]) -> Vec<u8> {
    let mut s = be32((body.len() + 5) as u32).to_vec();
    s.push(nb);
    s.extend_from_slice(body);
    s
}

fn sect1() -> Vec<u8> {
    section(1, &[0u8; 16])
}

fn sect3_body(scan: u8) -> Vec<u8> {
    // bytes 5.. of a section 3 of 72 bytes
    let mut s = vec![0u8; 72];
    s[6..10].copy_from_slice(&be32((ROWS * COLS) as u32));
    s[30..34].copy_from_slice(&be32(COLS as u32));
    s[34..38].copy_from_slice(&be32(ROWS as u32));
    s[46..50].copy_from_slice(&be32(46_000_000));
    s[50..54].copy_from_slice(&be32(5_000_000));
    s[55..59].copy_from_slice(&be32(44_000_000));
    s[59..63].copy_from_slice(&be32(7_000_000));
    s[63..67].copy_from_slice(&be32(250_000));
    s[67..71].copy_from_slice(&be32(250_000));
    s[71] = scan;
    s[5..].to_vec()
}

fn sect3() -> Vec<u8> {
    section(3, &sect3_body(0x00))
}

fn sect4() -> Vec<u8> {
    section(4, &[0u8; 29])
}

fn sect5(bits: u8) -> Vec<u8> {
    let mut s = vec![0u8; 25];
    s[5..9].copy_from_slice(&be32((ROWS * COLS) as u32));
    s[9] = 0x00;
    s[10] = 0x2A;
    s[19] = bits;
    s[21] = 0x00; // ccsds flags
    s[22] = 8; // block size
    s[23] = 0;
    s[24] = 128; // reference sample interval
    section(5, &s[5..])
}

fn sect6() -> Vec<u8> {
    section(6, &[0xff])
}

fn values() -> Vec<u8> {
    (0..ROWS * COLS).map(|k| k as u8).collect()
}

fn sect7() -> Vec<u8> {
    section(7, &aec_uncompressed(&values()))
}

fn message(sections: &[Vec<u8>]) -> Vec<u8> {
    let mut m = b"GRIB".to_vec();
    m.extend([0, 0, 0, 2]);
    m.extend([0u8; 8]);
    for s in sections {
        m.extend_from_slice(s);
    }
    m.extend_from_slice(b"7777");
    let len = m.len() as u64;
    m[8..16].copy_from_slice(&len.to_be_bytes());
    m
}

fn full_message() -> Vec<u8> {
    message(&[sect1(), sect3(), sect4(), sect5(8), sect6(), sect7()])
}

fn params(lat_max: i64, lat_min: i64, lon_max: i64, lon_min: i64) -> GribParams {
    GribParams {
        latitude_max: lat_max,
        latitude_min: lat_min,
        longitude_max: lon_max,
        longitude_min: lon_min,
        lat0: 0,
        lat_end: 0,
        lon0: 0,
        lon_end: 0,
        nb_values: 0,
        bits_per_values: 0,
        ccsds_flag: 0,
        block_size: 0,
        rsi: 0,
    }
}

fn request(content: Vec<u8>) -> Grib {
    Grib {
        model: Model::Ecmwf,
        step: Step::H3,
        days: 1,
        latitude_max: 45_400_000,
        latitude_min: 44_600_000,
        longitude_max: 6_400_000,
        longitude_min: 5_600_000,
        components: vec![Component::Wind],
        content,
        run: String::from("20240301-00Z"),
        secret: String::new(),
        iridium: false,
    }
}

// The cropped area: rows 2 to 6 (45.5°N to 44.5°N) and columns 2 to 6 (5.5°E to 6.5°E).
fn cropped_values() -> Vec<u8> {
    let mut v = Vec::new();
    for r in 2..7 {
        for c in 2..7 {
            v.push((9 * r + c) as u8);
        }
    }
    v
}

fn expected_message() -> Vec<u8> {
    let mut s3 = sect3();
    s3[6..10].copy_from_slice(&be32(25));
    s3[30..34].copy_from_slice(&be32(5));
    s3[34..38].copy_from_slice(&be32(5));
    s3[46..50].copy_from_slice(&be32(45_500_000));
    s3[50..54].copy_from_slice(&be32(5_500_000));
    s3[55..59].copy_from_slice(&be32(44_500_000));
    s3[59..63].copy_from_slice(&be32(6_500_000));
    let mut s5 = sect5(8)[..21].to_vec();
    s5[0..4].copy_from_slice(&be32(21));
    s5[5..9].copy_from_slice(&be32(25));
    s5[10] = 0x00;
    s5[19] = 8;
    let s7 = section(7, &cropped_values());
    message(&[sect1(), s3, sect4(), s5, sect6(), s7])
}

#[test]
fn unpack_crop_keeps_only_the_requested_area() {
    let grib = request(full_message());
    let out = unpack_crop(grib).ok().expect("cropping succeeds");
    assert_eq!(out.content, expected_message());
    assert_eq!(out.run, "20240301-00Z");
    assert_eq!(out.latitude_max, 45_400_000);
}

#[test]
fn unpack_crop_handles_each_message_in_turn() {
    let mut content = full_message();
    content.extend(full_message());
    let out = unpack_crop(request(content)).ok().expect("cropping succeeds");
    let mut expected = expected_message();
    expected.extend(expected_message());
    assert_eq!(out.content, expected);
}

#[test]
fn cropped_message_declares_its_length() {
    let m = unpack_crop_message(&full_message(), 0, full_message().len(), params(45_500_000, 44_500_000, 6_500_000, 5_500_000))
        .ok()
        .expect("cropping succeeds");
    let declared = u64::from_be_bytes(m[8..16].try_into().unwrap());
    assert_eq!(declared as usize, m.len());
}

#[test]
fn cropped_values_fill_the_area() {
    let m = expected_message();
    // sections 3 and 5 agree on the number of points, section 7 holds as many values
    let s3 = 16 + 21;
    let s5 = s3 + 72 + 34;
    let s7 = s5 + 21 + 6;
    assert_eq!(get_4bytes(&m, s3 + 6), 25);
    assert_eq!(get_4bytes(&m, s5 + 5), 25);
    assert_eq!(get_sect_len(&m, s7), 25 + 5);
}

#[test]
fn message_spans_walks_section_zero_lengths() {
    let mut content = full_message();
    let n = content.len();
    content.extend(full_message());
    assert_eq!(message_spans(&content), Some(vec![(0, n), (n, n)]));
    assert_eq!(message_spans(&[]), Some(vec![]));
    assert_eq!(message_spans(&content[..10]), None);
    let mut zero = full_message();
    zero[8..16].copy_from_slice(&[0u8; 8]);
    assert_eq!(message_spans(&zero), None);
}

#[test]
fn missing_end_marker_is_refused() {
    let mut m = full_message();
    let n = m.len();
    m[n - 1] = b'8';
    let r = unpack_crop_message(&m, 0, n, params(45_500_000, 44_500_000, 6_500_000, 5_500_000));
    assert!(matches!(r, Err(GribError::Generic(ref s)) if s == "Parse error: section 8 missing 7777"));
}

#[test]
fn message_too_short_is_refused() {
    let mut m = full_message();
    // a message length that leaves 2 bytes after the last section
    let n = m.len() - 2;
    m[8..16].copy_from_slice(&(n as u64).to_be_bytes());
    let r = unpack_crop_message(&m, 0, n, params(45_500_000, 44_500_000, 6_500_000, 5_500_000));
    assert!(matches!(r, Err(GribError::Generic(ref s)) if s == "Parse error: message too short"));
}

#[test]
fn unexpected_section_number_is_refused() {
    let m = message(&[sect1(), section(9, &[0u8; 3])]);
    let r = unpack_crop_message(&m, 0, m.len(), params(0, 0, 0, 0));
    assert!(matches!(r, Err(GribError::Generic(ref s)) if s == "Unexpected section 9"));
}

#[test]
fn section_beyond_the_data_is_malformed() {
    let mut m = message(&[sect1()]);
    // section 1 claims more bytes than the file holds
    m[16..20].copy_from_slice(&be32(1000));
    let r = unpack_crop_message(&m, 0, m.len(), params(0, 0, 0, 0));
    assert!(matches!(r, Err(GribError::Malformed)));
}

#[test]
fn sect_3_reads_the_grid_and_writes_the_area() {
    let g = sect3();
    let mut p = params(45_500_000, 44_500_000, 6_500_000, 5_500_000);
    let out = sect_3(&g, 0, &mut p).ok().expect("a lat-lon grid");
    assert_eq!(p.lat0, 46_000_000);
    assert_eq!(p.lat_end, 44_000_000);
    assert_eq!(p.lon0, 5_000_000);
    assert_eq!(p.lon_end, 7_000_000);
    assert_eq!(get_4bytes(&out, 6), 25);
    assert_eq!(get_4bytes(&out, 30), 5);
    assert_eq!(get_4bytes(&out, 34), 5);
    assert_eq!(get_4bytes(&out, 46), 45_500_000);
    assert_eq!(get_4bytes(&out, 55), 44_500_000);
}

#[test]
fn sect_3_south_first_grid() {
    let g = section(3, &sect3_body(0x40));
    let mut p = params(45_500_000, 44_500_000, 6_500_000, 5_500_000);
    let out = sect_3(&g, 0, &mut p).ok().expect("a lat-lon grid");
    assert_eq!(get_4bytes(&out, 46), 44_500_000);
    assert_eq!(get_4bytes(&out, 55), 45_500_000);
}

#[test]
fn sect_3_writes_south_and_west_positions() {
    let g = sect3();
    let mut p = params(-16_000_000, -17_000_000, -149_000_000, -150_000_000);
    let out = sect_3(&g, 0, &mut p).ok().expect("a lat-lon grid");
    // south: the top bit set on the magnitude; west: counted east from Greenwich
    assert_eq!(get_4bytes(&out, 46), 0x8000_0000 | 16_000_000);
    assert_eq!(get_4bytes(&out, 50), 360_000_000 - 150_000_000);
    assert_eq!(get_4bytes(&out, 55), 0x8000_0000 | 17_000_000);
    assert_eq!(get_4bytes(&out, 59), 360_000_000 - 149_000_000);
}

#[test]
fn sect_3_reads_south_and_west_grid_corners() {
    let mut body = sect3_body(0x00);
    body[41..45].copy_from_slice(&be32(0x8000_0000 | 10_000_000));
    body[45..49].copy_from_slice(&be32(350_000_000));
    body[50..54].copy_from_slice(&be32(0x8000_0000 | 12_000_000));
    body[54..58].copy_from_slice(&be32(190_000_000));
    let g = section(3, &body);
    let mut p = params(0, 0, 0, 0);
    assert!(sect_3(&g, 0, &mut p).is_ok());
    assert_eq!(p.lat0, -10_000_000);
    assert_eq!(p.lon0, -10_000_000);
    assert_eq!(p.lat_end, -12_000_000);
    assert_eq!(p.lon_end, -170_000_000);
}

#[test]
fn sect_3_too_short() {
    let g = section(3, &[0u8; 40]);
    let mut p = params(0, 0, 0, 0);
    let r = sect_3(&g, 0, &mut p);
    assert!(matches!(r, Err(GribError::Generic(ref s)) if s == "Sect3 too short: 45"));
}

#[test]
fn sect_3_not_lat_lon() {
    let mut body = sect3_body(0x00);
    body[8] = 0x00;
    body[7] = 0x1A;
    let g = section(3, &body);
    let mut p = params(0, 0, 0, 0);
    let r = sect_3(&g, 0, &mut p);
    assert!(matches!(r, Err(GribError::Generic(ref s))
        if s == "Unexpected grid definition 0x1A00, not lat-lon (0x0000)"));
}

#[test]
fn sect_3_other_resolution() {
    let mut body = sect3_body(0x00);
    body[58..62].copy_from_slice(&be32(500_000));
    let g = section(3, &body);
    let mut p = params(0, 0, 0, 0);
    let r = sect_3(&g, 0, &mut p);
    assert!(matches!(r, Err(GribError::Generic(ref s))
        if s == "Only grib with resolution of 0.25° are supported"));
}

#[test]
fn sect_3_unexpected_scanning_flag() {
    let g = section(3, &sect3_body(0x80));
    let mut p = params(0, 0, 0, 0);
    let r = sect_3(&g, 0, &mut p);
    assert!(matches!(r, Err(GribError::Generic(ref s)) if s == "Unexpected flag N-S, E-W: 128"));
}

#[test]
fn sect_4_clears_the_time_increment_of_template_8() {
    let mut body = vec![0u8; 58 - 5];
    body[3] = 0x08;
    for b in body[48..].iter_mut() {
        *b = 0x11;
    }
    let g = section(4, &body);
    let out = sect_4(&g, 0).ok().expect("a section 4");
    assert_eq!(out[53], 0xff);
    assert_eq!(get_4bytes(&out, 54), 0);
    assert_eq!(out[..53], g[..53]);
}

#[test]
fn sect_4_keeps_other_templates() {
    let g = sect4();
    assert_eq!(sect_4(&g, 0).ok(), Some(g.clone()));
}

#[test]
fn sect_5_reads_the_packing_and_writes_simple_packing() {
    let mut g = sect5(12);
    g[21] = 0x0e;
    let mut p = params(45_500_000, 44_500_000, 6_500_000, 5_500_000);
    let out = sect_5(&g, 0, &mut p).ok().expect("template 5.42");
    assert_eq!(p.nb_values, 81);
    assert_eq!(p.bits_per_values, 12);
    assert_eq!(p.ccsds_flag, 0x0e);
    assert_eq!(p.block_size, 8);
    assert_eq!(p.rsi, 128);
    assert_eq!(out.len(), 21);
    assert_eq!(get_4bytes(&out, 0), 21);
    assert_eq!(get_4bytes(&out, 5), 25);
    assert_eq!(out[10], 0);
    assert_eq!(out[19], 16);
}

#[test]
fn sect_5_wrong_size() {
    let g = section(5, &[0u8; 10]);
    let mut p = params(0, 0, 0, 0);
    let r = sect_5(&g, 0, &mut p);
    assert!(matches!(r, Err(GribError::Generic(ref s)) if s == "Sect5 wrong size: 15"));
}

#[test]
fn sect_5_other_template() {
    let mut g = sect5(8);
    g[10] = 0x28;
    let mut p = params(0, 0, 0, 0);
    let r = sect_5(&g, 0, &mut p);
    assert!(matches!(r, Err(GribError::Generic(ref s))
        if s == "Unexpected template: 0x0028, not 5.42 (0x002A)"));
}

fn decoded_params() -> GribParams {
    let mut p = params(45_500_000, 44_500_000, 6_500_000, 5_500_000);
    p.lat0 = 46_000_000;
    p.lat_end = 44_000_000;
    p.lon0 = 5_000_000;
    p.lon_end = 7_000_000;
    p.nb_values = 81;
    p.bits_per_values = 8;
    p.block_size = 8;
    p.rsi = 128;
    p
}

#[test]
fn sect_7_decodes_and_crops_the_values() {
    let out = sect_7(&sect7(), 0, &decoded_params()).ok().expect("decodable values");
    assert_eq!(out, section(7, &cropped_values()));
}

#[test]
fn sect_7_without_values_is_kept() {
    let mut p = decoded_params();
    p.bits_per_values = 0;
    assert_eq!(sect_7(&sect7(), 0, &p).ok(), Some(sect7()));
}

#[test]
fn sect_7_area_outside_the_grid() {
    let mut p = decoded_params();
    p.latitude_max = 47_000_000;
    let r = sect_7(&sect7(), 0, &p);
    assert!(matches!(r, Err(GribError::Generic(ref s)) if s == "Grib does not contain all the requested area"));
}

#[test]
fn sect_7_decoder_error_is_reported() {
    let mut p = decoded_params();
    p.block_size = 7;
    let r = sect_7(&sect7(), 0, &p);
    assert!(matches!(r, Err(GribError::Generic(ref s)) if s.starts_with("Err decoding sect 7 : ")));
}

#[test]
fn sect_7_truncated_stream_is_a_decoder_error() {
    let s = section(7, &aec_uncompressed(&values())[..20]);
    let r = sect_7(&s, 0, &decoded_params());
    assert!(matches!(r, Err(GribError::Generic(ref s)) if s.starts_with("Err decoding sect 7 : ")));
}

#[test]
fn quarter_degree_counts() {
    assert_eq!(rounded_steps(45_500_000, 44_500_000), 4);
    // 0.125° rounds up, just below rounds down, negative distances count as none
    assert_eq!(rounded_steps(125_000, 0), 1);
    assert_eq!(rounded_steps(124_999, 0), 0);
    assert_eq!(rounded_steps(0, 1_000_000), 0);
    assert_eq!(grid_points(6_500_000, 5_500_000), Some(5));
    assert_eq!(area_points(&params(45_500_000, 44_500_000, 6_500_000, 5_500_000)), Some(25));
}

#[test]
fn written_positions_read_back() {
    let g = sect3();
    let mut p = params(-16_000_000, -17_000_000, -149_250_000, -150_000_000);
    let out = sect_3(&g, 0, &mut p).ok().expect("a lat-lon grid");
    let mut q = params(0, 0, 0, 0);
    assert!(sect_3(&out, 0, &mut q).is_ok());
    assert_eq!(q.lat0, -16_000_000);
    assert_eq!(q.lat_end, -17_000_000);
    assert_eq!(q.lon0, -150_000_000);
    assert_eq!(q.lon_end, -149_250_000);
}

#[test]
fn cropped_point_is_grid_point() {
    let out = sect_7(&sect7(), 0, &decoded_params()).ok().expect("decodable values");
    // two rows and two columns of the grid lie before the requested area
    for r in 0..5 {
        for c in 0..5 {
            assert_eq!(out[5 + r * 5 + c] as usize, (2 + r) * COLS + 2 + c);
        }
    }
}
