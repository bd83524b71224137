//! Section 3 (grid definition) of an ECMWF GRIB2 message.

use vstd::prelude::*;
use crate::bytes::{be_u32, lemma_splice4_read, splice4, u32_be};
use crate::common::{GribError, GribErrorV, bytes_result, generic};
use crate::ecmwf::unpack_crop::{
    GribParams, copy_range, get_sect_len, grid_count, grid_points, set_4bytes,
};
use crate::text::{dec, hex2, push_dec, push_hex2};

verus! {

/// A latitude as GRIB2 stores it: millionths of a degree, the top bit for the sign.
pub open spec fn lat_of_raw(raw: int) -> int {
    if raw >= 2147483648 { -(raw - 2147483648) } else { raw }
}

/// A first longitude as stored: millionths of a degree east, from 180° on taken as west.
pub open spec fn lon0_of_raw(raw: int) -> int {
    if raw >= 180000000 { raw - 360000000 } else { raw }
}

/// A last longitude as stored: millionths of a degree east, above 180° taken as west.
pub open spec fn lon_end_of_raw(raw: int) -> int {
    if raw > 180000000 { raw - 360000000 } else { raw }
}

/// `v` saturated to the range of an `i32`.
pub open spec fn clamp_i32(v: int) -> int {
    if v > i32::MAX { i32::MAX as int } else if v < i32::MIN { i32::MIN as int } else { v }
}

/// The 32 bits that encode the position `v` (millionths of a degree): a longitude west is
/// written as east of Greenwich (plus 360°), a latitude south with the top bit set.
pub open spec fn position_raw(v: int, is_lon: bool) -> int {
    let scaled = clamp_i32(v);
    if v < 0 && is_lon {
        let x = scaled + 360000000;
        if x < 0 { x + 4294967296 } else { x }
    } else if v < 0 {
        2147483648 - scaled
    } else {
        scaled
    }
}

/// Whether a position can be written: a latitude south of -2147.483648° cannot be.
pub open spec fn position_writable(v: int, is_lon: bool) -> bool {
    is_lon || v > i32::MIN
}

/// The bytes of `s` where the four positions of the requested area were written, north to
/// south (`north_first`) or south to north.
pub open spec fn write_area(s: Seq<u8>, p: GribParams, ni: int, nj: int, north_first: bool) -> Seq<u8> {
    let (lat_ini, lat_fin) = if north_first {
        (p.latitude_max as int, p.latitude_min as int)
    } else {
        (p.latitude_min as int, p.latitude_max as int)
    };
    let s1 = splice4(s, 6, u32_be(ni * nj));
    let s2 = splice4(s1, 30, u32_be(ni));
    let s3 = splice4(s2, 34, u32_be(nj));
    let s4 = splice4(s3, 46, u32_be(position_raw(lat_ini, false)));
    let s5 = splice4(s4, 50, u32_be(position_raw(p.longitude_min as int, true)));
    let s6 = splice4(s5, 55, u32_be(position_raw(lat_fin, false)));
    splice4(s6, 59, u32_be(position_raw(p.longitude_max as int, true)))
}

/// Whether section 3 at `idx` lies within `g` and describes a regular 0.25° latitude /
/// longitude grid: the case where the area that it covers is read.
pub open spec fn sect3_readable(g: Seq<u8>, idx: int) -> bool {
    &&& idx + 4 <= g.len()
    &&& idx + be_u32(g, idx) <= g.len()
    &&& be_u32(g, idx) >= 72
    &&& g[idx + 12] == 0 && g[idx + 13] == 0
    &&& be_u32(g, idx + 63) == 250000 && be_u32(g, idx + 67) == 250000
    &&& (g[idx + 71] == 0 || g[idx + 71] == 0x40)
}

/// The parameters once section 3 is read: the first and last latitude and longitude of
/// the grid that the file covers.
pub open spec fn sect3_params(g: Seq<u8>, idx: int, p: GribParams) -> GribParams {
    if sect3_readable(g, idx) {
        GribParams {
            lat0: lat_of_raw(be_u32(g, idx + 46)) as i64,
            lon0: lon0_of_raw(be_u32(g, idx + 50)) as i64,
            lat_end: lat_of_raw(be_u32(g, idx + 55)) as i64,
            lon_end: lon_end_of_raw(be_u32(g, idx + 59)) as i64,
            ..p
        }
    } else {
        p
    }
}

/// What section 3 becomes: the same grid definition, over the requested area only (its
/// number of points, points along a parallel and along a meridian, first and last
/// positions), in the scanning order of the grid in the file.
pub open spec fn spec_sect_3(g: Seq<u8>, idx: int, p: GribParams) -> Result<Seq<u8>, GribErrorV> {
    if idx + 4 > g.len() || idx + be_u32(g, idx) > g.len() {
        Err(GribErrorV::Malformed)
    } else if be_u32(g, idx) < 72 {
        Err(GribErrorV::Generic("Sect3 too short: "@ + dec(be_u32(g, idx) as nat)))
    } else if g[idx + 12] != 0 || g[idx + 13] != 0 {
        Err(
            GribErrorV::Generic(
                "Unexpected grid definition 0x"@ + hex2(g[idx + 12]) + hex2(g[idx + 13])
                    + ", not lat-lon (0x0000)"@,
            ),
        )
    } else if be_u32(g, idx + 63) != 250000 || be_u32(g, idx + 67) != 250000 {
        Err(GribErrorV::Generic("Only grib with resolution of 0.25° are supported"@))
    } else if g[idx + 71] != 0 && g[idx + 71] != 0x40 {
        Err(GribErrorV::Generic("Unexpected flag N-S, E-W: "@ + dec(g[idx + 71] as nat)))
    } else {
        let north_first = g[idx + 71] == 0;
        match (grid_count(p.longitude_max - p.longitude_min), grid_count(p.latitude_max - p.latitude_min)) {
            (Some(ni), Some(nj)) => if ni * nj > usize::MAX
                || !position_writable(p.latitude_max as int, false)
                || !position_writable(p.latitude_min as int, false) {
                Err(GribErrorV::Malformed)
            } else {
                Ok(write_area(g.subrange(idx, idx + be_u32(g, idx)), p, ni, nj, north_first))
            },
            _ => Err(GribErrorV::Malformed),
        }
    }
}

/// The 4 bytes at `idx`, big-endian.
pub fn get_4bytes(grib: &[u8], idx: usize) -> (v: u32)
    requires
        idx + 4 <= grib@.len(),
    ensures
        v == be_u32(grib@, idx as int),
{
    (grib[idx] as u32) * 16777216 + (grib[idx + 1] as u32) * 65536 + (grib[idx + 2] as u32) * 256
        + (grib[idx + 3] as u32)
}

/// The latitude stored at `idx`, in millionths of a degree.
fn get_4bytes_lat(grib: &[u8], idx: usize) -> (v: i64)
    requires
        idx + 4 <= grib@.len(),
    ensures
        v == lat_of_raw(be_u32(grib@, idx as int)),
{
    let raw = get_4bytes(grib, idx);
    if raw >= 2147483648 {
        -((raw - 2147483648) as i64)
    } else {
        raw as i64
    }
}

/// Writes the position `value` (millionths of a degree) at `idx`.
fn set_position(grib: &mut [u8], idx: usize, value: i64, is_lon: bool)
    requires
        idx + 4 <= old(grib)@.len(),
        position_writable(value as int, is_lon),
    ensures
        final(grib)@ == splice4(old(grib)@, idx as int, u32_be(position_raw(value as int, is_lon))),
{
    let scaled: i64 = if value > i32::MAX as i64 {
        i32::MAX as i64
    } else if value < i32::MIN as i64 {
        i32::MIN as i64
    } else {
        value
    };
    let raw: u64 = if value < 0 && is_lon {
        let x = scaled + 360000000;
        if x < 0 { (x + 4294967296) as u64 } else { x as u64 }
    } else if value < 0 {
        (2147483648 - scaled) as u64
    } else {
        scaled as u64
    };
    set_4bytes(grib, idx, raw as usize);
}

/// Reads the grid that section 3 (at `idx`) describes into `g_p`, and rewrites the section
/// to describe the requested area only.
pub fn sect_3(grib: &[u8], idx: usize, g_p: &mut GribParams) -> (res: Result<Vec<u8>, GribError>)
    ensures
        bytes_result(res) == spec_sect_3(grib@, idx as int, *old(g_p)),
        *final(g_p) == sect3_params(grib@, idx as int, *old(g_p)),
{
    if idx > grib.len() || grib.len() - idx < 4 {
        return Err(GribError::Malformed);
    }
    let sect_len = get_sect_len(grib, idx);
    if sect_len > grib.len() - idx {
        return Err(GribError::Malformed);
    }
    let mut res = copy_range(grib, idx, idx + sect_len);

    // Verification that the rest of the section is as expected
    if sect_len < 72 {
        let mut msg = String::from_str("Sect3 too short: ");
        push_dec(&mut msg, sect_len as u64);
        return Err(generic(msg));
    }
    if grib[idx + 12] != 0x00 || grib[idx + 13] != 0x00 {
        let mut msg = String::from_str("Unexpected grid definition 0x");
        push_hex2(&mut msg, grib[idx + 12]);
        push_hex2(&mut msg, grib[idx + 13]);
        msg.append(", not lat-lon (0x0000)");
        return Err(generic(msg));
    }
    if get_4bytes(grib, idx + 63) != 0x0003d090 || get_4bytes(grib, idx + 67) != 0x0003d090 {
        return Err(generic(String::from_str("Only grib with resolution of 0.25° are supported")));
    }
    if grib[idx + 71] != 0x00 && grib[idx + 71] != 0x40 {
        let mut msg = String::from_str("Unexpected flag N-S, E-W: ");
        push_dec(&mut msg, grib[idx + 71] as u64);
        return Err(generic(msg));
    }

    // The area that the grid covers
    g_p.lat0 = get_4bytes_lat(grib, idx + 46);
    let lon0 = get_4bytes(grib, idx + 50) as i64;
    g_p.lon0 = if lon0 >= 180000000 { lon0 - 360000000 } else { lon0 };
    g_p.lat_end = get_4bytes_lat(grib, idx + 55);
    let lon_end = get_4bytes(grib, idx + 59) as i64;
    g_p.lon_end = if lon_end > 180000000 { lon_end - 360000000 } else { lon_end };
    assert(*g_p == sect3_params(grib@, idx as int, *old(g_p)));

    // The parameters of the cropped grid
    let ni = match grid_points(g_p.longitude_max, g_p.longitude_min) {
        Some(n) => n,
        None => return Err(GribError::Malformed),
    };
    let nj = match grid_points(g_p.latitude_max, g_p.latitude_min) {
        Some(n) => n,
        None => return Err(GribError::Malformed),
    };
    assert(ni as int * nj as int <= 340282366920938463463374607431768211455) by (nonlinear_arith)
        requires
            ni <= 18446744073709551615,
            nj <= 18446744073709551615,
    ;
    if ni as u128 * nj as u128 > usize::MAX as u128 {
        return Err(GribError::Malformed);
    }
    if g_p.latitude_max <= i32::MIN as i64 || g_p.latitude_min <= i32::MIN as i64 {
        return Err(GribError::Malformed);
    }
    let north_first = grib[idx + 71] == 0x00;
    let (lat_ini, lat_end) = if north_first {
        (g_p.latitude_max, g_p.latitude_min)
    } else {
        (g_p.latitude_min, g_p.latitude_max)
    };
    let ghost s0 = res@;
    set_4bytes(res.as_mut_slice(), 6, ni * nj);
    set_4bytes(res.as_mut_slice(), 30, ni);
    set_4bytes(res.as_mut_slice(), 34, nj);
    set_position(res.as_mut_slice(), 46, lat_ini, false);
    set_position(res.as_mut_slice(), 50, g_p.longitude_min, true);
    set_position(res.as_mut_slice(), 55, lat_end, false);
    set_position(res.as_mut_slice(), 59, g_p.longitude_max, true);
    assert(res@ == write_area(s0, *g_p, ni as int, nj as int, north_first));
    Ok(res)
}

} // verus!

verus! {

/// Law: a latitude that the crop writes reads back as the same latitude.
pub proof fn law_latitude_read_back(v: int)
    requires
        -2147483648 < v < 2147483648,
    ensures
        lat_of_raw(position_raw(v, false)) == v,
{
}

/// Law: a longitude that the crop writes reads back as the same longitude, as a first
/// longitude (west from 180°) and as a last one (west beyond 180°).
pub proof fn law_longitude_read_back(v: int)
    requires
        -180000000 <= v <= 180000000,
    ensures
        v < 180000000 ==> lon0_of_raw(position_raw(v, true)) == v,
        v > -180000000 ==> lon_end_of_raw(position_raw(v, true)) == v,
{
}

} // verus!

verus! {

/// What `write_area` writes reads back: each field holds the value written there, modulo
/// 2^32.
proof fn lemma_write_area_fields(s: Seq<u8>, p: GribParams, ni: int, nj: int, north_first: bool)
    requires
        s.len() >= 72,
    ensures
        ({
            let out = write_area(s, p, ni, nj, north_first);
            let (lat_ini, lat_fin) = if north_first {
                (p.latitude_max as int, p.latitude_min as int)
            } else {
                (p.latitude_min as int, p.latitude_max as int)
            };
            &&& out.len() == s.len()
            &&& be_u32(out, 6) == (ni * nj) % 4294967296
            &&& be_u32(out, 30) == ni % 4294967296
            &&& be_u32(out, 34) == nj % 4294967296
            &&& be_u32(out, 46) == position_raw(lat_ini, false) % 4294967296
            &&& be_u32(out, 50) == position_raw(p.longitude_min as int, true) % 4294967296
            &&& be_u32(out, 55) == position_raw(lat_fin, false) % 4294967296
            &&& be_u32(out, 59) == position_raw(p.longitude_max as int, true) % 4294967296
        }),
{
    let (lat_ini, lat_fin) = if north_first {
        (p.latitude_max as int, p.latitude_min as int)
    } else {
        (p.latitude_min as int, p.latitude_max as int)
    };
    let r46 = position_raw(lat_ini, false);
    let r50 = position_raw(p.longitude_min as int, true);
    let r55 = position_raw(lat_fin, false);
    let r59 = position_raw(p.longitude_max as int, true);
    let s1 = splice4(s, 6, u32_be(ni * nj));
    let s2 = splice4(s1, 30, u32_be(ni));
    let s3 = splice4(s2, 34, u32_be(nj));
    let s4 = splice4(s3, 46, u32_be(r46));
    let s5 = splice4(s4, 50, u32_be(r50));
    let s6 = splice4(s5, 55, u32_be(r55));
    let out = splice4(s6, 59, u32_be(r59));
    assert(write_area(s, p, ni, nj, north_first) == out);
    lemma_splice4_read(s, 6, ni * nj, 6);
    lemma_splice4_read(s1, 30, ni, 30);
    lemma_splice4_read(s2, 34, nj, 34);
    lemma_splice4_read(s3, 46, r46, 46);
    lemma_splice4_read(s4, 50, r50, 50);
    lemma_splice4_read(s5, 55, r55, 55);
    lemma_splice4_read(s6, 59, r59, 59);
    assert(be_u32(out, 6) == (ni * nj) % 4294967296) by {
        lemma_splice4_read(s1, 30, ni, 6);
        lemma_splice4_read(s2, 34, nj, 6);
        lemma_splice4_read(s3, 46, r46, 6);
        lemma_splice4_read(s4, 50, r50, 6);
        lemma_splice4_read(s5, 55, r55, 6);
        lemma_splice4_read(s6, 59, r59, 6);
    }
    assert(be_u32(out, 30) == ni % 4294967296) by {
        lemma_splice4_read(s2, 34, nj, 30);
        lemma_splice4_read(s3, 46, r46, 30);
        lemma_splice4_read(s4, 50, r50, 30);
        lemma_splice4_read(s5, 55, r55, 30);
        lemma_splice4_read(s6, 59, r59, 30);
    }
    assert(be_u32(out, 34) == nj % 4294967296) by {
        lemma_splice4_read(s3, 46, r46, 34);
        lemma_splice4_read(s4, 50, r50, 34);
        lemma_splice4_read(s5, 55, r55, 34);
        lemma_splice4_read(s6, 59, r59, 34);
    }
    assert(be_u32(out, 46) == r46 % 4294967296) by {
        lemma_splice4_read(s4, 50, r50, 46);
        lemma_splice4_read(s5, 55, r55, 46);
        lemma_splice4_read(s6, 59, r59, 46);
    }
    assert(be_u32(out, 50) == r50 % 4294967296) by {
        lemma_splice4_read(s5, 55, r55, 50);
        lemma_splice4_read(s6, 59, r59, 50);
    }
    assert(be_u32(out, 55) == r55 % 4294967296) by {
        lemma_splice4_read(s6, 59, r59, 55);
    }
}

/// A section 3 that is rewritten is the section's bytes (at least 72) with the area
/// written in.
proof fn lemma_sect3_ok(g: Seq<u8>, idx: int, p: GribParams)
    requires
        0 <= idx,
        spec_sect_3(g, idx, p) is Ok,
    ensures
        grid_count(p.longitude_max - p.longitude_min) is Some,
        grid_count(p.latitude_max - p.latitude_min) is Some,
        g.subrange(idx, idx + be_u32(g, idx)).len() >= 72,
        spec_sect_3(g, idx, p)->Ok_0 == write_area(
            g.subrange(idx, idx + be_u32(g, idx)),
            p,
            grid_count(p.longitude_max - p.longitude_min)->Some_0,
            grid_count(p.latitude_max - p.latitude_min)->Some_0,
            g[idx + 71] == 0,
        ),
{
}

/// Law: the rewritten section 3 declares the shape of the cropped grid, the one whose rows
/// section 7 writes: bytes 30 to 34 hold the number of points along a parallel (the
/// longitude points of the requested area, the width of a row of values), bytes 34 to 38
/// the number of points along a meridian (the latitude points, the number of rows), and
/// bytes 6 to 10 their product, each modulo 2^32.
pub proof fn law_grid_shape_declared(g: Seq<u8>, idx: int, p: GribParams)
    requires
        0 <= idx,
        spec_sect_3(g, idx, p) is Ok,
    ensures
        grid_count(p.longitude_max - p.longitude_min) is Some,
        grid_count(p.latitude_max - p.latitude_min) is Some,
        ({
            let out = spec_sect_3(g, idx, p)->Ok_0;
            let ni = grid_count(p.longitude_max - p.longitude_min)->Some_0;
            let nj = grid_count(p.latitude_max - p.latitude_min)->Some_0;
            &&& be_u32(out, 30) == ni % 4294967296
            &&& be_u32(out, 34) == nj % 4294967296
            &&& be_u32(out, 6) == (ni * nj) % 4294967296
        }),
{
    let base = g.subrange(idx, idx + be_u32(g, idx));
    let ni = grid_count(p.longitude_max - p.longitude_min)->Some_0;
    let nj = grid_count(p.latitude_max - p.latitude_min)->Some_0;
    let north_first = g[idx + 71] == 0;
    lemma_sect3_ok(g, idx, p);
    lemma_write_area_fields(base, p, ni, nj, north_first);
}

/// Law: the first and last positions of the rewritten section 3 read back as the corners
/// of the requested area: the first latitude is its north edge when the grid runs north to
/// south (scan flag 0), its south edge otherwise, the last latitude the other edge, and the
/// first and last longitudes its west and east edges.
pub proof fn law_area_corners_declared(g: Seq<u8>, idx: int, p: GribParams)
    requires
        0 <= idx,
        spec_sect_3(g, idx, p) is Ok,
        -90000000 <= p.latitude_min <= 90000000,
        -90000000 <= p.latitude_max <= 90000000,
        -180000000 < p.longitude_min < 180000000,
        -180000000 < p.longitude_max < 180000000,
    ensures
        ({
            let out = spec_sect_3(g, idx, p)->Ok_0;
            let north_first = g[idx + 71] == 0;
            &&& lat_of_raw(be_u32(out, 46)) == if north_first { p.latitude_max as int } else { p.latitude_min as int }
            &&& lat_of_raw(be_u32(out, 55)) == if north_first { p.latitude_min as int } else { p.latitude_max as int }
            &&& lon0_of_raw(be_u32(out, 50)) == p.longitude_min
            &&& lon_end_of_raw(be_u32(out, 59)) == p.longitude_max
        }),
{
    let base = g.subrange(idx, idx + be_u32(g, idx));
    let ni = grid_count(p.longitude_max - p.longitude_min)->Some_0;
    let nj = grid_count(p.latitude_max - p.latitude_min)->Some_0;
    lemma_sect3_ok(g, idx, p);
    lemma_area_corners(base, p, ni, nj, g[idx + 71] == 0);
}

/// The corners that `write_area` writes read back as the area's edges.
proof fn lemma_area_corners(base: Seq<u8>, p: GribParams, ni: int, nj: int, north_first: bool)
    requires
        base.len() >= 72,
        -90000000 <= p.latitude_min <= 90000000,
        -90000000 <= p.latitude_max <= 90000000,
        -180000000 < p.longitude_min < 180000000,
        -180000000 < p.longitude_max < 180000000,
    ensures
        ({
            let out = write_area(base, p, ni, nj, north_first);
            &&& lat_of_raw(be_u32(out, 46)) == if north_first { p.latitude_max as int } else { p.latitude_min as int }
            &&& lat_of_raw(be_u32(out, 55)) == if north_first { p.latitude_min as int } else { p.latitude_max as int }
            &&& lon0_of_raw(be_u32(out, 50)) == p.longitude_min
            &&& lon_end_of_raw(be_u32(out, 59)) == p.longitude_max
        }),
{
    let out = write_area(base, p, ni, nj, north_first);
    lemma_write_area_fields(base, p, ni, nj, north_first);
    if north_first {
        lemma_corner_values(be_u32(out, 46), p.latitude_max as int, false);
        lemma_corner_values(be_u32(out, 55), p.latitude_min as int, false);
    } else {
        lemma_corner_values(be_u32(out, 46), p.latitude_min as int, false);
        lemma_corner_values(be_u32(out, 55), p.latitude_max as int, false);
    }
    lemma_corner_values(be_u32(out, 50), p.longitude_min as int, true);
    lemma_corner_values(be_u32(out, 59), p.longitude_max as int, true);
}

/// The 32 bits written for a position read back as that position.
proof fn lemma_corner_values(b: int, v: int, is_lon: bool)
    requires
        b == position_raw(v, is_lon) % 4294967296,
        is_lon ==> -180000000 < v < 180000000,
        !is_lon ==> -90000000 <= v <= 90000000,
    ensures
        is_lon ==> lon0_of_raw(b) == v && lon_end_of_raw(b) == v,
        !is_lon ==> lat_of_raw(b) == v,
{
    lemma_position_raw_range(v, is_lon);
    if is_lon {
        law_longitude_read_back(v);
    } else {
        law_latitude_read_back(v);
    }
}

/// A position within a degree range that an `i32` holds encodes in 32 bits.
proof fn lemma_position_raw_range(v: int, is_lon: bool)
    requires
        -180000000 <= v <= 180000000,
    ensures
        0 <= position_raw(v, is_lon) < 4294967296,
{
}

} // verus!
