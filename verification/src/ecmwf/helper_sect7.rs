//! Section 7 (data) of an ECMWF GRIB2 message: decompressing and cropping the values.

use vstd::prelude::*;
use crate::bytes::{be_u32, u32_be};
use crate::common::{GribError, GribErrorV, bytes_result, generic};
use crate::ecmwf::unpack_crop::{
    GribParams, append_range, get_sect_len, grid_count, grid_points, lemma_mul_fits_u128,
    rounded_steps, set_4bytes, steps_usize,
};
use crate::text::{dec, push_dec};

verus! {

/// What `rust_aec::decode` returns for a CCSDS bitstream, the bits per sample, the block
/// size, the reference sample interval, the GRIB2 CCSDS flags and the number of samples:
/// the unpacked samples, or the message of its error.
pub uninterp spec fn aec_decoded(
    input: Seq<u8>,
    bits: u8,
    block_size: u32,
    rsi: u32,
    ccsds_flags: u8,
    samples: usize,
) -> Result<Seq<u8>, Seq<char>>;

/// The bytes per sample of `rust_aec`'s output: 1, 2, 3 or 4 after the bits per sample,
/// 17 to 24 bits taking 3 bytes only when the GRIB2 flags ask for it (bit 1).
pub open spec fn aec_sample_bytes(bits: u8, ccsds_flags: u8) -> int {
    if bits <= 8 {
        1
    } else if bits <= 16 {
        2
    } else if bits <= 24 {
        if ccsds_flags % 4 >= 2 { 3 } else { 4 }
    } else {
        4
    }
}

/// Decodes a CCSDS (AEC) bitstream with `rust_aec::decode`, its flags converted by
/// `rust_aec::flags_from_grib2_ccsds_flags`.
///
/// Trusted: the result is the one named by `aec_decoded`; on success (the crate's source
/// checks that the bits per sample lie in 1..=32) the output holds exactly
/// `samples * aec_sample_bytes(bits, ccsds_flags)` bytes, as its documentation says.
#[verifier::external_body]
fn aec_decode(
    input: &[u8],
    bits: u8,
    block_size: u32,
    rsi: u32,
    ccsds_flags: u8,
    samples: usize,
) -> (r: Result<Vec<u8>, String>)
    ensures
        aec_decoded(input@, bits, block_size, rsi, ccsds_flags, samples) == (match r {
            Ok(v) => Ok::<Seq<u8>, Seq<char>>(v@),
            Err(e) => Err::<Seq<u8>, Seq<char>>(e@),
        }),
        r is Ok ==> 1 <= bits <= 32,
        r is Ok ==> r->Ok_0@.len() == samples * aec_sample_bytes(bits, ccsds_flags),
{
    let flags = rust_aec::flags_from_grib2_ccsds_flags(ccsds_flags);
    let params = rust_aec::AecParams::new(bits, block_size, rsi, flags);
    match rust_aec::decode(input, params, samples) {
        Ok(v) => Ok(v),
        Err(e) => Err(format!("{}", e)),
    }
}

/// Whether the requested area lies within the grid that the file covers.
pub open spec fn area_within(p: GribParams) -> bool {
    let lat_top = if p.lat_end > p.lat0 { p.lat_end } else { p.lat0 };
    let lat_bottom = if p.lat0 < p.lat_end { p.lat0 } else { p.lat_end };
    !(p.latitude_max > lat_top || p.latitude_min < lat_bottom || p.lon0 > p.longitude_min
        || p.lon_end < p.longitude_max)
}

/// The bytes per decoded value.
pub open spec fn value_bytes(bits: u8) -> int {
    (bits + 7) / 8
}

/// Where the rows of the requested area lie in the decoded values, in bytes: the first row,
/// the distance between rows, where a row's values start and end within it, and the number
/// of rows; `None` when one of these does not fit in a `usize`.
pub open spec fn crop_layout(p: GribParams) -> Option<(int, int, int, int, int)> {
    let bpv = value_bytes(p.bits_per_values);
    match (
        grid_count(p.lon_end - p.lon0),
        grid_count(p.latitude_max - p.latitude_min),
        grid_count(p.longitude_max - p.longitude_min),
    ) {
        (Some(nj_o), Some(ni), Some(nj)) => {
            let skip_lines = if p.lat0 > p.lat_end {
                steps_usize(p.lat0 - p.latitude_max)
            } else {
                steps_usize(p.latitude_min - p.lat0)
            };
            let skip_col = steps_usize(p.longitude_min - p.lon0);
            if nj_o * skip_lines > usize::MAX || nj_o * skip_lines * bpv > usize::MAX || skip_col
                * bpv > usize::MAX || skip_col + nj > usize::MAX || (skip_col + nj) * bpv
                > usize::MAX || nj_o * bpv > usize::MAX {
                None
            } else {
                Some((nj_o * skip_lines * bpv, nj_o * bpv, skip_col * bpv, (skip_col + nj) * bpv, ni))
            }
        },
        _ => None,
    }
}

/// Whether `n` rows from `idx` on, each `d[idx + lo .. idx + hi]`, then `step` further,
/// can be taken from `len` bytes without overflowing a `usize`.
pub open spec fn rows_fit(len: int, idx: int, step: int, lo: int, hi: int, n: nat) -> bool
    decreases n,
{
    n == 0 || (idx + hi <= len && idx + step <= usize::MAX && rows_fit(
        len,
        idx + step,
        step,
        lo,
        hi,
        (n - 1) as nat,
    ))
}

/// The bytes of `n` rows from `idx` on: `d[idx + lo .. idx + hi]`, then `step` further.
pub open spec fn crop_rows(d: Seq<u8>, idx: int, step: int, lo: int, hi: int, n: nat) -> Seq<u8>
    decreases n,
{
    if n == 0 {
        seq![]
    } else {
        d.subrange(idx + lo, idx + hi) + crop_rows(d, idx + step, step, lo, hi, (n - 1) as nat)
    }
}

/// What section 7 becomes: the values of the requested area only, decompressed, one row
/// after the other; or the section unchanged when it holds no values.
pub open spec fn spec_sect_7(g: Seq<u8>, idx: int, p: GribParams) -> Result<Seq<u8>, GribErrorV> {
    if idx + 4 > g.len() {
        Err(GribErrorV::Malformed)
    } else if p.bits_per_values == 0 {
        if idx + be_u32(g, idx) > g.len() {
            Err(GribErrorV::Malformed)
        } else {
            Ok(g.subrange(idx, idx + be_u32(g, idx)))
        }
    } else if !area_within(p) {
        Err(GribErrorV::Generic("Grib does not contain all the requested area"@))
    } else if be_u32(g, idx) < 5 || idx + be_u32(g, idx) > g.len() {
        Err(GribErrorV::Malformed)
    } else {
        match aec_decoded(
            g.subrange(idx + 5, idx + be_u32(g, idx)),
            p.bits_per_values,
            p.block_size as u32,
            p.rsi as u32,
            p.ccsds_flag,
            p.nb_values as usize,
        ) {
            Err(e) => Err(GribErrorV::Generic("Err decoding sect 7 : "@ + e)),
            Ok(d) => {
                let expected = value_bytes(p.bits_per_values) * p.nb_values;
                if expected > usize::MAX {
                    Err(GribErrorV::Malformed)
                } else if d.len() != expected {
                    Err(
                        GribErrorV::Generic(
                            "Decoded payload size is wrong: "@ + dec(d.len()) + ", expected "@
                                + dec(expected as nat),
                        ),
                    )
                } else {
                    match crop_layout(p) {
                        None => Err(GribErrorV::Malformed),
                        Some((start, step, lo, hi, ni)) => if !rows_fit(
                            d.len() as int,
                            start,
                            step,
                            lo,
                            hi,
                            ni as nat,
                        ) {
                            Err(GribErrorV::Malformed)
                        } else {
                            let rows = crop_rows(d, start, step, lo, hi, ni as nat);
                            if rows.len() + 5 > usize::MAX {
                                Err(GribErrorV::Malformed)
                            } else {
                                Ok(u32_be(rows.len() + 5int) + seq![7u8] + rows)
                            }
                        },
                    }
                }
            },
        }
    }
}

/// The rows of the requested area within the decoded values.
fn crop_values(decoded: &[u8], start: usize, step: usize, lo: usize, hi: usize, ni: usize) -> (r:
    Option<Vec<u8>>)
    requires
        lo <= hi,
    ensures
        r is Some <==> rows_fit(decoded@.len() as int, start as int, step as int, lo as int, hi as int, ni as nat),
        r matches Some(v) ==> v@ == crop_rows(decoded@, start as int, step as int, lo as int, hi as int, ni as nat),
{
    let mut res: Vec<u8> = Vec::new();
    let mut idx = start;
    let mut r: usize = 0;
    while r < ni
        invariant
            lo <= hi,
            r <= ni,
            rows_fit(decoded@.len() as int, start as int, step as int, lo as int, hi as int, ni as nat)
                == rows_fit(decoded@.len() as int, idx as int, step as int, lo as int, hi as int, (ni - r) as nat),
            res@ + crop_rows(decoded@, idx as int, step as int, lo as int, hi as int, (ni - r) as nat)
                == crop_rows(decoded@, start as int, step as int, lo as int, hi as int, ni as nat),
        decreases ni - r,
    {
        if idx > decoded.len() || hi > decoded.len() - idx {
            return None;
        }
        let ghost before = res@;
        append_range(&mut res, decoded, idx + lo, idx + hi);
        if step > usize::MAX - idx {
            return None;
        }
        let ghost old_idx = idx;
        idx = idx + step;
        r = r + 1;
        assert(res@ + crop_rows(decoded@, idx as int, step as int, lo as int, hi as int, (ni - r) as nat)
            =~= before + crop_rows(decoded@, old_idx as int, step as int, lo as int, hi as int, (ni - (r - 1)) as nat));
    }
    assert(res@ =~= res@ + crop_rows(decoded@, idx as int, step as int, lo as int, hi as int, 0));
    Some(res)
}

/// Decompresses section 7 (at `idx`) with the parameters of section 5 and keeps only the
/// values of the requested area.
pub fn sect_7(grib: &[u8], idx: usize, g_p: &GribParams) -> (res: Result<Vec<u8>, GribError>)
    ensures
        bytes_result(res) == spec_sect_7(grib@, idx as int, *g_p),
{
    if idx > grib.len() || grib.len() - idx < 4 {
        return Err(GribError::Malformed);
    }
    let sect_len = get_sect_len(grib, idx);

    // Without bits per value the section holds no values: keep it as it is
    if g_p.bits_per_values == 0 {
        if sect_len > grib.len() - idx {
            return Err(GribError::Malformed);
        }
        let mut out: Vec<u8> = Vec::new();
        append_range(&mut out, grib, idx, idx + sect_len);
        assert(out@ =~= grib@.subrange(idx as int, idx + sect_len));
        return Ok(out);
    }

    // The requested area must lie within the grid of the file
    let lat_top = if g_p.lat_end > g_p.lat0 { g_p.lat_end } else { g_p.lat0 };
    let lat_bottom = if g_p.lat0 < g_p.lat_end { g_p.lat0 } else { g_p.lat_end };
    if g_p.latitude_max > lat_top || g_p.latitude_min < lat_bottom || g_p.lon0 > g_p.longitude_min
        || g_p.lon_end < g_p.longitude_max {
        return Err(generic(String::from_str("Grib does not contain all the requested area")));
    }

    if sect_len < 5 || sect_len > grib.len() - idx {
        return Err(GribError::Malformed);
    }
    let mut payload: Vec<u8> = Vec::new();
    append_range(&mut payload, grib, idx + 5, idx + sect_len);
    assert(payload@ =~= grib@.subrange(idx + 5, idx + sect_len));
    let decoded = match aec_decode(
        payload.as_slice(),
        g_p.bits_per_values,
        g_p.block_size as u32,
        g_p.rsi as u32,
        g_p.ccsds_flag,
        g_p.nb_values as usize,
    ) {
        Ok(d) => d,
        Err(e) => {
            let mut msg = String::from_str("Err decoding sect 7 : ");
            msg.append(e.as_str());
            return Err(generic(msg));
        },
    };

    // The payload must have the expected size
    let bpv: u128 = ((g_p.bits_per_values as u128) + 7) / 8;
    assert(bpv * (g_p.nb_values as u128) <= 32 * 4294967295) by (nonlinear_arith)
        requires
            bpv <= 32,
            g_p.nb_values <= 4294967295,
    ;
    let expected: u128 = bpv * (g_p.nb_values as u128);
    if expected > usize::MAX as u128 {
        return Err(GribError::Malformed);
    }
    if decoded.len() as u128 != expected {
        let mut msg = String::from_str("Decoded payload size is wrong: ");
        push_dec(&mut msg, decoded.len() as u64);
        msg.append(", expected ");
        push_dec(&mut msg, expected as u64);
        return Err(generic(msg));
    }

    // Where the values of the requested area lie
    let nj_o = match grid_points(g_p.lon_end, g_p.lon0) {
        Some(n) => n,
        None => return Err(GribError::Malformed),
    };
    let ni = match grid_points(g_p.latitude_max, g_p.latitude_min) {
        Some(n) => n,
        None => return Err(GribError::Malformed),
    };
    let nj = match grid_points(g_p.longitude_max, g_p.longitude_min) {
        Some(n) => n,
        None => return Err(GribError::Malformed),
    };
    let skip_lines = if g_p.lat0 > g_p.lat_end {
        rounded_steps(g_p.lat0, g_p.latitude_max)
    } else {
        rounded_steps(g_p.latitude_min, g_p.lat0)
    };
    let skip_col = rounded_steps(g_p.longitude_min, g_p.lon0);
    let max: u128 = usize::MAX as u128;
    proof {
        lemma_mul_fits_u128(nj_o as int, skip_lines as int);
        lemma_mul_fits_u128(skip_col as int, bpv as int);
        lemma_mul_fits_u128(nj_o as int, bpv as int);
    }
    let lines: u128 = nj_o as u128 * skip_lines as u128;
    if lines > max {
        return Err(GribError::Malformed);
    }
    proof {
        lemma_mul_fits_u128(lines as int, bpv as int);
    }
    let start: u128 = lines * bpv;
    let lo: u128 = skip_col as u128 * bpv;
    let width: u128 = skip_col as u128 + nj as u128;
    if start > max || lo > max || width > max {
        return Err(GribError::Malformed);
    }
    proof {
        lemma_mul_fits_u128(width as int, bpv as int);
        assert(skip_col * bpv <= width * bpv) by (nonlinear_arith)
            requires
                skip_col <= width,
                0 <= bpv,
        ;
    }
    let hi: u128 = width * bpv;
    let step: u128 = nj_o as u128 * bpv;
    if hi > max || step > max {
        return Err(GribError::Malformed);
    }
    assert(crop_layout(*g_p) == Some((start as int, step as int, lo as int, hi as int, ni as int)));

    // Keep only the values of the requested area
    let res = match crop_values(decoded.as_slice(), start as usize, step as usize, lo as usize, hi as usize, ni) {
        Some(r) => r,
        None => return Err(GribError::Malformed),
    };

    if res.len() > usize::MAX - 5 {
        return Err(GribError::Malformed);
    }
    // The section: its length, its number (7), the values
    let mut out: Vec<u8> = Vec::new();
    out.push(0);
    out.push(0);
    out.push(0);
    out.push(0);
    let ghost zero4 = out@;
    set_4bytes(out.as_mut_slice(), 0, res.len() + 5);
    assert(out@ =~= u32_be(res@.len() + 5int)) by {
        assert(out@ == crate::bytes::splice4(zero4, 0, u32_be(res@.len() + 5int)));
    }
    out.push(0x07);
    append_range(&mut out, res.as_slice(), 0, res.len());
    assert(res@.subrange(0, res@.len() as int) =~= res@);
    assert(out@ =~= u32_be(res@.len() + 5int) + seq![7u8] + res@);
    assert(decoded@ == aec_decoded(grib@.subrange(idx + 5, idx + sect_len), g_p.bits_per_values, g_p.block_size as u32, g_p.rsi as u32, g_p.ccsds_flag, g_p.nb_values as usize)->Ok_0);
    assert(res@ == crop_rows(decoded@, start as int, step as int, lo as int, hi as int, ni as nat));
    Ok(out)
}

} // verus!

verus! {

/// `n` rows of `hi - lo` bytes each make `n * (hi - lo)` bytes.
proof fn lemma_crop_rows_len(d: Seq<u8>, idx: int, step: int, lo: int, hi: int, n: nat)
    requires
        0 <= idx,
        0 <= step,
        0 <= lo <= hi,
        rows_fit(d.len() as int, idx, step, lo, hi, n),
    ensures
        crop_rows(d, idx, step, lo, hi, n).len() == n * (hi - lo),
    decreases n,
{
    if n > 0 {
        let m = (n - 1) as nat;
        lemma_crop_rows_len(d, idx + step, step, lo, hi, m);
        assert(idx + hi <= d.len());
        assert(d.subrange(idx + lo, idx + hi).len() == hi - lo);
        assert(crop_rows(d, idx, step, lo, hi, n) == d.subrange(idx + lo, idx + hi) + crop_rows(
            d,
            idx + step,
            step,
            lo,
            hi,
            m,
        ));
        assert(n * (hi - lo) == (hi - lo) + m * (hi - lo)) by (nonlinear_arith)
            requires
                m == n - 1,
        ;
    } else {
        assert(n * (hi - lo) == 0) by (nonlinear_arith)
            requires
                n == 0,
        ;
    }
}

/// Law: a cropped section 7 holds the values of the requested area only: as many values
/// as the area has points (its columns times its rows), each in the decoder's bytes per
/// value, after the 5 bytes of its header; and its header declares that length, modulo
/// 2^32.
pub proof fn law_cropped_values_fill_the_area(g: Seq<u8>, idx: int, p: GribParams)
    requires
        0 <= idx,
        p.bits_per_values != 0,
        spec_sect_7(g, idx, p) is Ok,
    ensures
        grid_count(p.latitude_max - p.latitude_min) is Some,
        grid_count(p.longitude_max - p.longitude_min) is Some,
        spec_sect_7(g, idx, p)->Ok_0.len() == 5 + grid_count(p.latitude_max - p.latitude_min)->Some_0
            * grid_count(p.longitude_max - p.longitude_min)->Some_0 * value_bytes(p.bits_per_values),
        be_u32(spec_sect_7(g, idx, p)->Ok_0, 0) == spec_sect_7(g, idx, p)->Ok_0.len() % 4294967296,
{
    let (start, step, lo, hi, ni) = crop_layout(p)->Some_0;
    let nj = grid_count(p.longitude_max - p.longitude_min)->Some_0;
    let bpv = value_bytes(p.bits_per_values);
    let skip_col = steps_usize(p.longitude_min - p.lon0);
    let d = aec_decoded(
        g.subrange(idx + 5, idx + be_u32(g, idx)),
        p.bits_per_values,
        p.block_size as u32,
        p.rsi as u32,
        p.ccsds_flag,
        p.nb_values as usize,
    )->Ok_0;
    assert(skip_col >= 0);
    assert(hi - lo == nj * bpv) by (nonlinear_arith)
        requires
            lo == skip_col * bpv,
            hi == (skip_col + nj) * bpv,
    ;
    assert(0 <= lo <= hi) by (nonlinear_arith)
        requires
            lo == skip_col * bpv,
            hi == (skip_col + nj) * bpv,
            skip_col >= 0,
            nj >= 0,
            bpv >= 0,
    ;
    assert(0 <= step) by (nonlinear_arith)
        requires
            step == grid_count(p.lon_end - p.lon0)->Some_0 * bpv,
            grid_count(p.lon_end - p.lon0)->Some_0 >= 0,
            bpv >= 0,
    ;
    assert(0 <= start) by (nonlinear_arith)
        requires
            start == grid_count(p.lon_end - p.lon0)->Some_0 * (if p.lat0 > p.lat_end {
                steps_usize(p.lat0 - p.latitude_max)
            } else {
                steps_usize(p.latitude_min - p.lat0)
            }) * bpv,
            grid_count(p.lon_end - p.lon0)->Some_0 >= 0,
            steps_usize(p.lat0 - p.latitude_max) >= 0,
            steps_usize(p.latitude_min - p.lat0) >= 0,
            bpv >= 0,
    ;
    lemma_crop_rows_len(d, start, step, lo, hi, ni as nat);
    let rows = crop_rows(d, start, step, lo, hi, ni as nat);
    assert(ni * (nj * bpv) == ni * nj * bpv) by (nonlinear_arith);
    let out = u32_be(rows.len() + 5int) + seq![7u8] + rows;
    crate::bytes::lemma_be_u32_of_u32_be(rows.len() + 5int);
    assert(out[0] == u32_be(rows.len() + 5int)[0]);
    assert(out[1] == u32_be(rows.len() + 5int)[1]);
    assert(out[2] == u32_be(rows.len() + 5int)[2]);
    assert(out[3] == u32_be(rows.len() + 5int)[3]);
}

} // verus!

verus! {

/// Byte `x` of row `r` of the taken rows is byte `lo + x` of the `r`-th row of `d`.
proof fn lemma_crop_rows_index(d: Seq<u8>, idx: int, step: int, lo: int, hi: int, n: nat, r: int, x: int)
    requires
        0 <= idx,
        0 <= step,
        0 <= lo <= hi,
        rows_fit(d.len() as int, idx, step, lo, hi, n),
        0 <= r < n,
        0 <= x < hi - lo,
    ensures
        r * (hi - lo) + x < crop_rows(d, idx, step, lo, hi, n).len(),
        crop_rows(d, idx, step, lo, hi, n)[r * (hi - lo) + x] == d[idx + r * step + lo + x],
    decreases n,
{
    let m = (n - 1) as nat;
    lemma_crop_rows_len(d, idx, step, lo, hi, n);
    let head = d.subrange(idx + lo, idx + hi);
    let rest = crop_rows(d, idx + step, step, lo, hi, m);
    assert(crop_rows(d, idx, step, lo, hi, n) == head + rest);
    assert(r * (hi - lo) + x < n * (hi - lo)) by (nonlinear_arith)
        requires
            0 <= r < n,
            0 <= x < hi - lo,
    ;
    if r > 0 {
        lemma_crop_rows_index(d, idx + step, step, lo, hi, m, r - 1, x);
        assert(r * (hi - lo) + x == (hi - lo) + ((r - 1) * (hi - lo) + x)) by (nonlinear_arith);
        assert(idx + r * step == idx + step + (r - 1) * step) by (nonlinear_arith);
    } else {
        assert(r * (hi - lo) == 0) by (nonlinear_arith)
            requires
                r == 0,
        ;
    }
}

/// Law: cropping keeps the values of the requested points: byte `b` of the value at row
/// `r` and column `c` of the cropped grid (rows of `nj` values, after the 5 bytes of the
/// section's header) is byte `b` of the decoded value at row `skip_lines + r` and column
/// `skip_col + c` of the file's grid (rows of `nj_o` values), where `skip_lines` and
/// `skip_col` count the grid's rows and columns before the requested area.
pub proof fn law_cropped_point_is_grid_point(g: Seq<u8>, idx: int, p: GribParams, r: int, c: int, b: int)
    requires
        0 <= idx,
        p.bits_per_values != 0,
        spec_sect_7(g, idx, p) is Ok,
        0 <= r < grid_count(p.latitude_max - p.latitude_min)->Some_0,
        0 <= c < grid_count(p.longitude_max - p.longitude_min)->Some_0,
        0 <= b < value_bytes(p.bits_per_values),
    ensures
        ({
            let bpv = value_bytes(p.bits_per_values);
            let nj = grid_count(p.longitude_max - p.longitude_min)->Some_0;
            let nj_o = grid_count(p.lon_end - p.lon0)->Some_0;
            let skip_lines = if p.lat0 > p.lat_end {
                steps_usize(p.lat0 - p.latitude_max)
            } else {
                steps_usize(p.latitude_min - p.lat0)
            };
            let skip_col = steps_usize(p.longitude_min - p.lon0);
            let d = aec_decoded(
                g.subrange(idx + 5, idx + be_u32(g, idx)),
                p.bits_per_values,
                p.block_size as u32,
                p.rsi as u32,
                p.ccsds_flag,
                p.nb_values as usize,
            )->Ok_0;
            spec_sect_7(g, idx, p)->Ok_0[5 + (r * nj + c) * bpv + b] == d[((skip_lines + r) * nj_o
                + skip_col + c) * bpv + b]
        }),
{
    let bpv = value_bytes(p.bits_per_values);
    let nj = grid_count(p.longitude_max - p.longitude_min)->Some_0;
    let nj_o = grid_count(p.lon_end - p.lon0)->Some_0;
    let skip_lines = if p.lat0 > p.lat_end {
        steps_usize(p.lat0 - p.latitude_max)
    } else {
        steps_usize(p.latitude_min - p.lat0)
    };
    let skip_col = steps_usize(p.longitude_min - p.lon0);
    let d = aec_decoded(
        g.subrange(idx + 5, idx + be_u32(g, idx)),
        p.bits_per_values,
        p.block_size as u32,
        p.rsi as u32,
        p.ccsds_flag,
        p.nb_values as usize,
    )->Ok_0;
    let (start, step, lo, hi, ni) = crop_layout(p)->Some_0;
    assert(skip_col >= 0 && skip_lines >= 0 && nj_o >= 1 && nj >= 1 && bpv >= 1);
    assert(start == nj_o * skip_lines * bpv && step == nj_o * bpv && lo == skip_col * bpv && hi == (
    skip_col + nj) * bpv);
    assert(hi - lo == nj * bpv) by (nonlinear_arith)
        requires
            lo == skip_col * bpv,
            hi == (skip_col + nj) * bpv,
    ;
    assert(0 <= lo <= hi && 0 <= step && 0 <= start) by (nonlinear_arith)
        requires
            lo == skip_col * bpv,
            hi == (skip_col + nj) * bpv,
            step == nj_o * bpv,
            start == nj_o * skip_lines * bpv,
            skip_col >= 0,
            skip_lines >= 0,
            nj >= 1,
            nj_o >= 1,
            bpv >= 1,
    ;
    let x = c * bpv + b;
    assert(0 <= x < hi - lo) by (nonlinear_arith)
        requires
            x == c * bpv + b,
            0 <= c < nj,
            0 <= b < bpv,
            hi - lo == nj * bpv,
    ;
    lemma_crop_rows_index(d, start, step, lo, hi, ni as nat, r, x);
    let rows = crop_rows(d, start, step, lo, hi, ni as nat);
    assert(r * (hi - lo) + x == (r * nj + c) * bpv + b) by (nonlinear_arith)
        requires
            hi - lo == nj * bpv,
            x == c * bpv + b,
    ;
    assert(start + r * step + lo + x == ((skip_lines + r) * nj_o + skip_col + c) * bpv + b) by (nonlinear_arith)
        requires
            start == nj_o * skip_lines * bpv,
            step == nj_o * bpv,
            lo == skip_col * bpv,
            x == c * bpv + b,
    ;
    let out = u32_be(rows.len() + 5int) + seq![7u8] + rows;
    assert(out[5 + (r * nj + c) * bpv + b] == rows[(r * nj + c) * bpv + b]);
}

} // verus!
