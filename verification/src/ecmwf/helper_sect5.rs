//! Section 5 (data representation) of an ECMWF GRIB2 message.

use vstd::prelude::*;
use crate::bytes::{be_u32, splice4, u32_be};
use crate::common::{GribError, GribErrorV, bytes_result, generic};
use crate::ecmwf::unpack_crop::{GribParams, area_cells, area_points, copy_range, get_sect_len, set_4bytes};
use crate::text::{dec, hex2, push_dec, push_hex2};

verus! {

/// Whether section 5 at `idx` has the expected size (25), the CCSDS template 5.42, and
/// lies within `g`: the case where its compression parameters are read.
pub open spec fn sect5_readable(g: Seq<u8>, idx: int) -> bool {
    &&& idx + 25 <= g.len()
    &&& be_u32(g, idx) == 25
    &&& g[idx + 9] == 0
    &&& g[idx + 10] == 0x2A
}

/// The parameters once section 5 is read: the number of values, the bits per value, the
/// CCSDS flags, the block size and the reference sample interval.
pub open spec fn sect5_params(g: Seq<u8>, idx: int, p: GribParams) -> GribParams {
    if sect5_readable(g, idx) {
        GribParams {
            nb_values: be_u32(g, idx + 5) as u32,
            bits_per_values: g[idx + 19],
            ccsds_flag: g[idx + 21],
            block_size: g[idx + 22],
            rsi: (g[idx + 23] * 256 + g[idx + 24]) as u16,
            ..p
        }
    } else {
        p
    }
}

/// The multiple of 8 at or above `b`.
pub open spec fn ceil8(b: int) -> int {
    ((b + 7) / 8) * 8
}

/// What section 5 becomes: a simple-packing section (template 5.0) of 21 bytes, with the
/// number of values of the cropped area and the bits per value rounded up to a multiple of
/// 8, the layout in which the CCSDS decoder hands the values out.
pub open spec fn spec_sect_5(g: Seq<u8>, idx: int, p: GribParams) -> Result<Seq<u8>, GribErrorV> {
    if idx + 4 > g.len() {
        Err(GribErrorV::Malformed)
    } else if be_u32(g, idx) != 25 {
        Err(GribErrorV::Generic("Sect5 wrong size: "@ + dec(be_u32(g, idx) as nat)))
    } else if idx + 11 > g.len() {
        Err(GribErrorV::Malformed)
    } else if g[idx + 9] != 0 || g[idx + 10] != 0x2A {
        Err(
            GribErrorV::Generic(
                "Unexpected template: 0x"@ + hex2(g[idx + 9]) + hex2(g[idx + 10])
                    + ", not 5.42 (0x002A)"@,
            ),
        )
    } else if idx + 25 > g.len() {
        Err(GribErrorV::Malformed)
    } else {
        match area_cells(sect5_params(g, idx, p)) {
            None => Err(GribErrorV::Malformed),
            Some(cells) => if g[idx + 19] > 248 {
                Err(GribErrorV::Malformed)
            } else {
                let s0 = g.subrange(idx, idx + 21);
                let s1 = splice4(splice4(s0, 0, u32_be(21)), 5, u32_be(cells));
                Ok(s1.update(10, 0).update(19, ceil8(g[idx + 19] as int) as u8))
            },
        }
    }
}

/// Reads the compression parameters of section 5, which starts at `idx`, into `g_p`, and
/// rewrites the section for simple packing of the cropped values.
pub fn sect_5(grib: &[u8], idx: usize, g_p: &mut GribParams) -> (res: Result<Vec<u8>, GribError>)
    ensures
        bytes_result(res) == spec_sect_5(grib@, idx as int, *old(g_p)),
        *final(g_p) == sect5_params(grib@, idx as int, *old(g_p)),
{
    if idx > grib.len() || grib.len() - idx < 4 {
        return Err(GribError::Malformed);
    }
    let sect_len = get_sect_len(grib, idx);
    if sect_len != 25 {
        let mut msg = String::from_str("Sect5 wrong size: ");
        push_dec(&mut msg, sect_len as u64);
        return Err(generic(msg));
    }
    if grib.len() - idx < 11 {
        return Err(GribError::Malformed);
    }
    if grib[idx + 9] != 0x00 || grib[idx + 10] != 0x2A {
        let mut msg = String::from_str("Unexpected template: 0x");
        push_hex2(&mut msg, grib[idx + 9]);
        push_hex2(&mut msg, grib[idx + 10]);
        msg.append(", not 5.42 (0x002A)");
        return Err(generic(msg));
    }
    if grib.len() - idx < 25 {
        return Err(GribError::Malformed);
    }
    // The parameters needed to unpack the data
    g_p.nb_values = (grib[idx + 5] as u32) * 16777216 + (grib[idx + 6] as u32) * 65536
        + (grib[idx + 7] as u32) * 256 + (grib[idx + 8] as u32);
    g_p.bits_per_values = grib[idx + 19];
    g_p.ccsds_flag = grib[idx + 21];
    g_p.block_size = grib[idx + 22];
    g_p.rsi = (grib[idx + 23] as u16) * 256 + (grib[idx + 24] as u16);
    assert(*g_p == sect5_params(grib@, idx as int, *old(g_p)));

    let cells = match area_points(g_p) {
        Some(c) => c,
        None => return Err(GribError::Malformed),
    };
    if grib[idx + 19] > 248 {
        return Err(GribError::Malformed);
    }
    // The new section 5: simple packing
    let mut res = copy_range(grib, idx, idx + 21);
    // Its length
    set_4bytes(res.as_mut_slice(), 0, 21);
    // The number of values
    set_4bytes(res.as_mut_slice(), 5, cells);
    // Template 5.0: simple packing
    res.set(10, 0x00);
    // The bits per value of the decoder's output: the multiple of 8 at or above
    let b = grib[idx + 19];
    res.set(19, ((b + 7) / 8) * 8);
    Ok(res)
}

} // verus!

verus! {

/// Law: the rewritten sections 3 and 5 of a message agree: the number of grid points that
/// section 3 declares (bytes 6 to 10) is the number of values that section 5 declares
/// (bytes 5 to 9), once section 3 has been read into the parameters.
pub proof fn law_points_match_values(g: Seq<u8>, idx3: int, idx5: int, p: GribParams)
    requires
        0 <= idx3,
        0 <= idx5,
        crate::ecmwf::helper_sect3::spec_sect_3(g, idx3, p) is Ok,
        spec_sect_5(g, idx5, crate::ecmwf::helper_sect3::sect3_params(g, idx3, p)) is Ok,
    ensures
        be_u32(crate::ecmwf::helper_sect3::spec_sect_3(g, idx3, p)->Ok_0, 6)
            == be_u32(spec_sect_5(g, idx5, crate::ecmwf::helper_sect3::sect3_params(g, idx3, p))->Ok_0, 5),
{
    let s3 = crate::ecmwf::helper_sect3::spec_sect_3(g, idx3, p)->Ok_0;
    let p3 = crate::ecmwf::helper_sect3::sect3_params(g, idx3, p);
    let s5 = spec_sect_5(g, idx5, p3)->Ok_0;
    let p5 = sect5_params(g, idx5, p3);
    let ni = crate::ecmwf::unpack_crop::grid_count(p.longitude_max - p.longitude_min)->Some_0;
    let nj = crate::ecmwf::unpack_crop::grid_count(p.latitude_max - p.latitude_min)->Some_0;
    let base3 = g.subrange(idx3, idx3 + be_u32(g, idx3));
    let north_first = g[idx3 + 71] == 0;
    // Section 3 writes ni * nj at 6, then rewrites only bytes from 30 on
    let w1 = splice4(base3, 6, u32_be(ni * nj));
    crate::ecmwf::unpack_crop::law_section_length_read_back(base3, 6, ni * nj);
    assert(s3 == crate::ecmwf::helper_sect3::write_area(base3, p, ni, nj, north_first));
    assert(forall|k: int| 6 <= k < 10 ==> s3[k] == w1[k]);
    // Section 5 writes the cells at 5, after its length at 0, and only bytes 10 and 19 after
    let cells = crate::ecmwf::unpack_crop::area_cells(p5)->Some_0;
    assert(cells == ni * nj);
    let base5 = g.subrange(idx5, idx5 + 21);
    let a = splice4(base5, 0, u32_be(21));
    let b = splice4(a, 5, u32_be(cells));
    crate::ecmwf::unpack_crop::law_section_length_read_back(a, 5, cells);
    assert(forall|k: int| 5 <= k < 9 ==> s5[k] == b[k]);
    assert(ni * nj <= usize::MAX);
    assert(ni * nj % 4294967296 == cells % 4294967296);
}

} // verus!
