//! Section 4 (product definition) of an ECMWF GRIB2 message.

use vstd::prelude::*;
use crate::bytes::{be_u32, splice4, u32_be};
use crate::common::{GribError, GribErrorV, bytes_result};
use crate::ecmwf::unpack_crop::{copy_range, get_sect_len, set_4bytes};

verus! {

/// What section 4 becomes: the section unchanged, except that a product of template 4.8
/// (a statistic over a time range) gets its time increment unset (`0xff` then four zero
/// bytes at offsets 53..58), which some readers mishandle.
pub open spec fn spec_sect_4(g: Seq<u8>, idx: int) -> Result<Seq<u8>, GribErrorV> {
    if idx + 4 > g.len() {
        Err(GribErrorV::Malformed)
    } else {
        let sl = be_u32(g, idx);
        if idx + sl > g.len() {
            Err(GribErrorV::Malformed)
        } else {
            let s = g.subrange(idx, idx + sl);
            if sl >= 58 && g[idx + 8] == 8 {
                Ok(splice4(s.update(53, 0xff), 54, u32_be(0)))
            } else {
                Ok(s)
            }
        }
    }
}

/// Copies section 4, which starts at `idx`, unsetting the time increment of template 4.8.
pub fn sect_4(grib: &[u8], idx: usize) -> (res: Result<Vec<u8>, GribError>)
    ensures
        bytes_result(res) == spec_sect_4(grib@, idx as int),
{
    if idx > grib.len() || grib.len() - idx < 4 {
        return Err(GribError::Malformed);
    }
    let sect_len = get_sect_len(grib, idx);
    if sect_len > grib.len() - idx {
        return Err(GribError::Malformed);
    }
    let mut res = copy_range(grib, idx, idx + sect_len);
    if sect_len >= 58 && grib[idx + 8] == 0x08 {
        res.set(53, 0xff);
        set_4bytes(res.as_mut_slice(), 54, 0);
    }
    Ok(res)
}

} // verus!
