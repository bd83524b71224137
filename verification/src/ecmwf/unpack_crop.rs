//! Walking a GRIB2 file message by message and section by section.

use vstd::prelude::*;
use crate::bytes::{be_u32, be_u64, splice4, u32_be, u64_be};
use crate::common::{GribError, GribErrorV, Grib, bytes_result, generic};
use crate::ecmwf::helper_sect3::{sect_3, sect3_params, spec_sect_3};
use crate::ecmwf::helper_sect4::{sect_4, spec_sect_4};
use crate::ecmwf::helper_sect5::{sect_5, sect5_params, spec_sect_5};
use crate::ecmwf::helper_sect7::{sect_7, spec_sect_7};
use crate::text::{dec, push_dec};

verus! {

/// Reads the length of the section that starts at `idx`: its first 4 bytes, big-endian.
pub fn get_sect_len(grib: &[u8], idx: usize) -> (len: usize)
    requires
        idx + 4 <= grib@.len(),
    ensures
        len == be_u32(grib@, idx as int),
{
    let v: u64 = (grib[idx] as u64) * 16777216 + (grib[idx + 1] as u64) * 65536
        + (grib[idx + 2] as u64) * 256 + (grib[idx + 3] as u64);
    assert(v < 4294967296);
    v as usize
}

/// Writes `value` (taken modulo 2^32) as 4 big-endian bytes at `idx`.
pub fn set_4bytes(grib: &mut [u8], idx: usize, value: usize)
    requires
        idx + 4 <= old(grib)@.len(),
    ensures
        final(grib)@ == splice4(old(grib)@, idx as int, u32_be(value as int)),
{
    let w: u64 = (value as u64) % 4294967296;
    assert(w == (value as int) % 4294967296);
    grib[idx] = (w / 16777216) as u8;
    grib[idx + 1] = ((w / 65536) % 256) as u8;
    grib[idx + 2] = ((w / 256) % 256) as u8;
    grib[idx + 3] = (w % 256) as u8;
    assert(grib@ =~= splice4(old(grib)@, idx as int, u32_be(value as int)));
}

} // verus!

verus! {

/// What the unpacking needs to know, gathered from the request and from sections 3 and 5:
/// the requested area (rounded outwards to the 0.25° grid), the area that the file covers,
/// and the parameters of its CCSDS compression. Positions are in millionths of a degree.
#[derive(Clone, Copy, Debug)]
pub struct GribParams {
    pub latitude_max: i64,
    pub latitude_min: i64,
    pub longitude_max: i64,
    pub longitude_min: i64,
    pub lat0: i64,
    pub lat_end: i64,
    pub lon0: i64,
    pub lon_end: i64,
    pub nb_values: u32,
    pub bits_per_values: u8,
    pub ccsds_flag: u8,
    pub block_size: u8,
    pub rsi: u16,
}

/// A distance in millionths of a degree counted in 0.25° steps and rounded to the nearest
/// step, halves away from zero; a negative distance counts as no step.
pub open spec fn quarter_steps(d: int) -> int {
    if d < 0 { 0 } else { (d + 125000) / 250000 }
}

/// `x` saturated to the largest `usize`.
pub open spec fn sat_usize(x: int) -> int {
    if x > usize::MAX { usize::MAX as int } else { x }
}

/// The rounded number of 0.25° steps in a distance, as a `usize`.
pub open spec fn steps_usize(d: int) -> int {
    sat_usize(quarter_steps(d))
}

/// The number of 0.25° grid points along a distance (steps plus one); `None` when it
/// does not fit in a `usize`.
pub open spec fn grid_count(d: int) -> Option<int> {
    if steps_usize(d) >= usize::MAX { None } else { Some(steps_usize(d) + 1) }
}

/// The number of points of the requested area; `None` when it does not fit in a `usize`.
pub open spec fn area_cells(p: GribParams) -> Option<int> {
    match (grid_count(p.longitude_max - p.longitude_min), grid_count(p.latitude_max - p.latitude_min)) {
        (Some(ni), Some(nj)) => if ni * nj <= usize::MAX { Some(ni * nj) } else { None },
        _ => None,
    }
}

/// The rounded number of 0.25° steps from `lo` to `hi`.
pub fn rounded_steps(hi: i64, lo: i64) -> (r: usize)
    ensures
        r == steps_usize(hi - lo),
{
    let d: i128 = hi as i128 - lo as i128;
    if d < 0 {
        0
    } else {
        let q: u128 = ((d + 125000) / 250000) as u128;
        if q > usize::MAX as u128 {
            usize::MAX
        } else {
            q as usize
        }
    }
}

/// The number of 0.25° grid points from `lo` to `hi`.
pub fn grid_points(hi: i64, lo: i64) -> (r: Option<usize>)
    ensures
        r matches Some(n) ==> grid_count(hi - lo) == Some(n as int),
        r is None ==> grid_count(hi - lo) is None,
{
    let s = rounded_steps(hi, lo);
    if s == usize::MAX {
        None
    } else {
        Some(s + 1)
    }
}

/// The number of points of the requested area.
pub fn area_points(p: &GribParams) -> (r: Option<usize>)
    ensures
        r matches Some(n) ==> area_cells(*p) == Some(n as int),
        r is None ==> area_cells(*p) is None,
{
    let ni = grid_points(p.longitude_max, p.longitude_min);
    let nj = grid_points(p.latitude_max, p.latitude_min);
    match (ni, nj) {
        (Some(a), Some(b)) => {
            assert(a as int * b as int <= 340282366920938463463374607431768211455) by (nonlinear_arith)
                requires
                    a <= 18446744073709551615,
                    b <= 18446744073709551615,
            ;
            let prod: u128 = a as u128 * b as u128;
            if prod <= usize::MAX as u128 {
                Some(prod as usize)
            } else {
                None
            }
        },
        _ => None,
    }
}

/// The bytes `g[lo..hi]`, copied.
pub fn copy_range(g: &[u8], lo: usize, hi: usize) -> (v: Vec<u8>)
    requires
        lo <= hi <= g@.len(),
    ensures
        v@ == g@.subrange(lo as int, hi as int),
{
    let mut v: Vec<u8> = Vec::new();
    let mut i = lo;
    while i < hi
        invariant
            lo <= i <= hi <= g@.len(),
            v@ == g@.subrange(lo as int, i as int),
        decreases hi - i,
    {
        v.push(g[i]);
        i = i + 1;
        assert(v@ =~= g@.subrange(lo as int, i as int));
    }
    v
}

/// Appends `g[lo..hi]` to `out`.
pub fn append_range(out: &mut Vec<u8>, g: &[u8], lo: usize, hi: usize)
    requires
        lo <= hi <= g@.len(),
    ensures
        final(out)@ == old(out)@ + g@.subrange(lo as int, hi as int),
{
    let mut i = lo;
    while i < hi
        invariant
            lo <= i <= hi <= g@.len(),
            out@ == old(out)@ + g@.subrange(lo as int, i as int),
        decreases hi - i,
    {
        out.push(g[i]);
        i = i + 1;
        assert(out@ =~= old(out)@ + g@.subrange(lo as int, i as int));
    }
}

} // verus!

verus! {

/// A product of two 64-bit quantities fits in 128 bits.
pub proof fn lemma_mul_fits_u128(a: int, b: int)
    requires
        0 <= a <= 18446744073709551615,
        0 <= b <= 18446744073709551615,
    ensures
        0 <= a * b <= 340282366920938463463374607431768211455,
{
    assert(0 <= a * b <= 18446744073709551615 * 18446744073709551615) by (nonlinear_arith)
        requires
            0 <= a <= 18446744073709551615,
            0 <= b <= 18446744073709551615,
    ;
}

} // verus!

verus! {

/// Where the requested area starts: rounded down to the 0.25° grid.
pub open spec fn snap_down(v: int) -> int {
    (v / 250000) * 250000
}

/// Where the requested area ends: rounded up to the 0.25° grid.
pub open spec fn snap_up(v: int) -> int {
    -snap_down(-v)
}

/// The parameters a message starts from: the requested area rounded outwards to the
/// 0.25° grid, nothing read yet from the file.
pub open spec fn initial_params(lat_max: int, lat_min: int, lon_max: int, lon_min: int) -> GribParams {
    GribParams {
        latitude_max: snap_up(lat_max) as i64,
        latitude_min: snap_down(lat_min) as i64,
        longitude_max: snap_up(lon_max) as i64,
        longitude_min: snap_down(lon_min) as i64,
        lat0: 0,
        lat_end: 0,
        lon0: 0,
        lon_end: 0,
        nb_values: 0,
        bits_per_values: 0,
        ccsds_flag: 0,
        block_size: 0,
        rsi: 0,
    }
}

/// The section end marker, `7777`, at `idx`: the marker itself, an error when other bytes
/// stand there, or `Malformed` when the data ends first.
pub open spec fn spec_end_marker(g: Seq<u8>, idx: int) -> Result<Seq<u8>, GribErrorV> {
    let missing = GribErrorV::Generic("Parse error: section 8 missing 7777"@);
    if idx >= g.len() {
        Err(GribErrorV::Malformed)
    } else if g[idx] != 0x37 {
        Err(missing)
    } else if idx + 1 >= g.len() {
        Err(GribErrorV::Malformed)
    } else if g[idx + 1] != 0x37 {
        Err(missing)
    } else if idx + 2 >= g.len() {
        Err(GribErrorV::Malformed)
    } else if g[idx + 2] != 0x37 {
        Err(missing)
    } else if idx + 3 >= g.len() {
        Err(GribErrorV::Malformed)
    } else if g[idx + 3] != 0x37 {
        Err(missing)
    } else {
        Ok(g.subrange(idx, idx + 4))
    }
}

/// What the section at `idx` becomes, after its number: sections 1, 2 and 6 are kept,
/// 3, 4, 5 and 7 rewritten, any other number refused.
#[verifier::opaque]
pub open spec fn spec_section(g: Seq<u8>, idx: int, p: GribParams) -> Result<Seq<u8>, GribErrorV> {
    let nb = g[idx + 4];
    if nb == 1 || nb == 2 || nb == 6 {
        if idx + be_u32(g, idx) > g.len() {
            Err(GribErrorV::Malformed)
        } else {
            Ok(g.subrange(idx, idx + be_u32(g, idx)))
        }
    } else if nb == 3 {
        spec_sect_3(g, idx, p)
    } else if nb == 4 {
        spec_sect_4(g, idx)
    } else if nb == 5 {
        spec_sect_5(g, idx, p)
    } else if nb == 7 {
        spec_sect_7(g, idx, p)
    } else {
        Err(GribErrorV::Generic("Unexpected section "@ + dec(nb as nat)))
    }
}

/// The parameters once the section at `idx` is read.
pub open spec fn section_params(g: Seq<u8>, idx: int, p: GribParams) -> GribParams {
    let nb = g[idx + 4];
    if nb == 3 {
        sect3_params(g, idx, p)
    } else if nb == 5 {
        sect5_params(g, idx, p)
    } else {
        p
    }
}

/// `b` followed by what `r` holds, or `r`'s error.
pub open spec fn prepend(b: Seq<u8>, r: Result<Seq<u8>, GribErrorV>) -> Result<Seq<u8>, GribErrorV> {
    match r {
        Ok(x) => Ok(b + x),
        Err(e) => Err(e),
    }
}

/// The sections of a message from `idx` up to its end `end`, each as it becomes, ending
/// with the `7777` marker; the first error met otherwise.
pub open spec fn walk_sections(g: Seq<u8>, idx: int, end: int, p: GribParams) -> Result<Seq<u8>, GribErrorV>
    decreases (if idx < end { end - idx } else { 0 }),
{
    if idx >= end {
        Ok(seq![])
    } else if end - idx < 4 {
        Err(GribErrorV::Generic("Parse error: message too short"@))
    } else if end - idx == 4 {
        spec_end_marker(g, idx)
    } else if idx + 5 > g.len() {
        Err(GribErrorV::Malformed)
    } else {
        match spec_section(g, idx, p) {
            Err(e) => Err(e),
            Ok(b) => if be_u32(g, idx) == 0 {
                Err(GribErrorV::Malformed)
            } else {
                prepend(b, walk_sections(g, idx + be_u32(g, idx), end, section_params(g, idx, p)))
            },
        }
    }
}

/// What the message at `start`, of `msg_len` bytes, becomes: its section 0 with the new
/// total length, then its sections as they become.
#[verifier::opaque]
pub open spec fn spec_crop_message(g: Seq<u8>, start: int, msg_len: int, p: GribParams) -> Result<Seq<u8>, GribErrorV> {
    if start + 16 > g.len() {
        Err(GribErrorV::Malformed)
    } else {
        match walk_sections(g, start + 16, start + msg_len, p) {
            Err(e) => Err(e),
            Ok(body) => {
                let m = g.subrange(start, start + 16) + body;
                Ok(m.take(8) + u64_be(m.len() as int) + m.skip(16))
            },
        }
    }
}

/// The messages of a GRIB2 file from `idx` on, each as its start and its length (read from
/// its section 0); `None` when a section 0 lies beyond the data, or a length is zero or
/// does not fit in memory.
pub open spec fn spec_message_spans(g: Seq<u8>, idx: int) -> Option<Seq<(int, int)>>
    decreases (if idx < g.len() { g.len() - idx } else { 0 }),
{
    if idx >= g.len() {
        Some(seq![])
    } else if idx + 16 > g.len() {
        None
    } else {
        let ml = be_u64(g, idx + 8);
        if ml == 0 || ml > usize::MAX || idx + ml > usize::MAX {
            None
        } else {
            match spec_message_spans(g, idx + ml) {
                None => None,
                Some(rest) => Some(seq![(idx, ml)] + rest),
            }
        }
    }
}

/// The messages of `spans`, each as it becomes, one after the other; the first error met
/// otherwise.
pub open spec fn crop_all(g: Seq<u8>, spans: Seq<(int, int)>, p: GribParams) -> Result<Seq<u8>, GribErrorV>
    decreases spans.len(),
{
    if spans.len() == 0 {
        Ok(seq![])
    } else {
        match spec_crop_message(g, spans[0].0, spans[0].1, p) {
            Err(e) => Err(e),
            Ok(m) => prepend(m, crop_all(g, spans.drop_first(), p)),
        }
    }
}

} // verus!

verus! {

/// The spans as integers.
pub open spec fn spans_view(v: Seq<(usize, usize)>) -> Seq<(int, int)> {
    v.map_values(|x: (usize, usize)| (x.0 as int, x.1 as int))
}

/// Every span of a file starts at or after `idx`, is not empty, and ends within a `usize`.
pub proof fn lemma_spans_bounded(g: Seq<u8>, idx: int)
    requires
        0 <= idx,
        spec_message_spans(g, idx) is Some,
    ensures
        forall|k: int|
            0 <= k < spec_message_spans(g, idx)->Some_0.len() ==> {
                let s = #[trigger] spec_message_spans(g, idx)->Some_0[k];
                &&& idx <= s.0
                &&& 1 <= s.1
                &&& s.0 + s.1 <= usize::MAX
            },
    decreases (if idx < g.len() { g.len() - idx } else { 0 }),
{
    if idx < g.len() {
        let ml = be_u64(g, idx + 8);
        lemma_spans_bounded(g, idx + ml);
        let rest = spec_message_spans(g, idx + ml)->Some_0;
        let all = spec_message_spans(g, idx)->Some_0;
        assert(all == seq![(idx, ml)] + rest);
        assert forall|k: int| 0 <= k < all.len() implies {
            let s = #[trigger] all[k];
            &&& idx <= s.0
            &&& 1 <= s.1
            &&& s.0 + s.1 <= usize::MAX
        } by {
            if k > 0 {
                assert(all[k] == rest[k - 1]);
            }
        }
    }
}

/// The messages of a GRIB2 file, each as its start and its length; `None` when the file
/// cannot be cut into messages (where cutting it would read beyond the data, or loop on a
/// zero length).
pub fn message_spans(content: &[u8]) -> (r: Option<Vec<(usize, usize)>>)
    ensures
        r is None <==> spec_message_spans(content@, 0) is None,
        r matches Some(v) ==> spec_message_spans(content@, 0) == Some(spans_view(v@)),
{
    let mut out: Vec<(usize, usize)> = Vec::new();
    let mut idx: usize = 0;
    while idx < content.len()
        invariant
            spec_message_spans(content@, 0) == (match spec_message_spans(content@, idx as int) {
                None => None,
                Some(rest) => Some(spans_view(out@) + rest),
            }),
        decreases (if idx < content.len() { content.len() - idx } else { 0 }),
    {
        if content.len() - idx < 16 {
            return None;
        }
        let hi = get_sect_len(content, idx + 8) as u64;
        let lo = get_sect_len(content, idx + 12) as u64;
        let ml: u64 = hi * 4294967296 + lo;
        if ml == 0 || ml > usize::MAX as u64 || ml as usize > usize::MAX - idx {
            return None;
        }
        let ghost old_out = out@;
        out.push((idx, ml as usize));
        assert(spans_view(out@) =~= spans_view(old_out) + seq![(idx as int, ml as int)]);
        idx = idx + ml as usize;
    }
    assert(spec_message_spans(content@, idx as int) == Some(Seq::<(int, int)>::empty()));
    assert(spans_view(out@) + Seq::<(int, int)>::empty() =~= spans_view(out@));
    Some(out)
}

/// The `7777` marker at `idx`.
fn end_marker(grib: &[u8], idx: usize) -> (res: Result<Vec<u8>, GribError>)
    ensures
        bytes_result(res) == spec_end_marker(grib@, idx as int),
{
    let n = grib.len();
    if idx >= n {
        return Err(GribError::Malformed);
    }
    if grib[idx] != 0x37 {
        return Err(generic(String::from_str("Parse error: section 8 missing 7777")));
    }
    if idx + 1 >= n {
        return Err(GribError::Malformed);
    }
    if grib[idx + 1] != 0x37 {
        return Err(generic(String::from_str("Parse error: section 8 missing 7777")));
    }
    if idx + 2 >= n {
        return Err(GribError::Malformed);
    }
    if grib[idx + 2] != 0x37 {
        return Err(generic(String::from_str("Parse error: section 8 missing 7777")));
    }
    if idx + 3 >= n {
        return Err(GribError::Malformed);
    }
    if grib[idx + 3] != 0x37 {
        return Err(generic(String::from_str("Parse error: section 8 missing 7777")));
    }
    Ok(copy_range(grib, idx, idx + 4))
}

/// A section that is kept, or rewritten, reads what the file says of itself.
proof fn lemma_section_in_range(g: Seq<u8>, idx: int, p: GribParams)
    requires
        0 <= idx,
        idx + 5 <= g.len(),
        spec_section(g, idx, p) is Ok,
    ensures
        idx + be_u32(g, idx) <= g.len(),
{
    reveal(spec_section);
}

/// The section at `idx`, as it becomes, after its number.
fn section(grib: &[u8], idx: usize, g_p: &mut GribParams) -> (res: Result<Vec<u8>, GribError>)
    requires
        idx + 5 <= grib.len(),
    ensures
        bytes_result(res) == spec_section(grib@, idx as int, *old(g_p)),
        *final(g_p) == section_params(grib@, idx as int, *old(g_p)),
{
    reveal(spec_section);
    let sect_nb = grib[idx + 4];
    match sect_nb {
        1 | 2 | 6 => {
            let sect_len = get_sect_len(grib, idx);
            if sect_len > grib.len() - idx {
                return Err(GribError::Malformed);
            }
            Ok(copy_range(grib, idx, idx + sect_len))
        },
        3 => sect_3(grib, idx, g_p),
        4 => sect_4(grib, idx),
        5 => sect_5(grib, idx, g_p),
        7 => sect_7(grib, idx, g_p),
        _ => {
            let mut msg = String::from_str("Unexpected section ");
            push_dec(&mut msg, sect_nb as u64);
            Err(generic(msg))
        },
    }
}

/// Writing the two 32-bit halves of `total` at 8 and 12 writes its 8 big-endian bytes.
proof fn lemma_write_u64(m: Seq<u8>, total: int)
    requires
        m.len() >= 16,
        0 <= total < 18446744073709551616,
    ensures
        splice4(splice4(m, 8, u32_be(total / 4294967296)), 12, u32_be(total % 4294967296))
            =~= m.take(8) + u64_be(total) + m.skip(16),
{
    assert(total % 18446744073709551616 == total);
}

/// The sections of a message from `i` up to its end `end`, each as it becomes.
fn walk(g: &[u8], i: usize, end: usize, p: GribParams) -> (res: Result<Vec<u8>, GribError>)
    requires
        i <= g@.len(),
    ensures
        bytes_result(res) == walk_sections(g@, i as int, end as int, p),
    decreases (if i < end { end - i } else { 0 }),
{
    if i >= end {
        return Ok(Vec::new());
    }
    if end - i < 4 {
        return Err(generic(String::from_str("Parse error: message too short")));
    }
    if end - i == 4 {
        return end_marker(g, i);
    }
    if g.len() - i < 5 {
        return Err(GribError::Malformed);
    }
    let sect_len = get_sect_len(g, i);
    let mut q = p;
    let part = section(g, i, &mut q);
    match part {
        Err(e) => Err(e),
        Ok(b) => {
            if sect_len == 0 {
                return Err(GribError::Malformed);
            }
            proof {
                lemma_section_in_range(g@, i as int, p);
            }
            let rest = walk(g, i + sect_len, end, q);
            match rest {
                Err(e) => Err(e),
                Ok(r) => {
                    let mut out = b;
                    append_range(&mut out, r.as_slice(), 0, r.len());
                    assert(r@.subrange(0, r@.len() as int) =~= r@);
                    Ok(out)
                },
            }
        },
    }
}

/// Unpacks and crops the message at `idx`, of `msg_len` bytes: each of its sections as it
/// becomes, then its new total length.
pub fn unpack_crop_message(old_ctt: &[u8], idx: usize, msg_len: usize, g_p: GribParams) -> (res:
    Result<Vec<u8>, GribError>)
    requires
        idx + msg_len <= usize::MAX,
    ensures
        bytes_result(res) == spec_crop_message(old_ctt@, idx as int, msg_len as int, g_p),
{
    reveal(spec_crop_message);
    let g = old_ctt;
    // Section 0
    if idx > g.len() || g.len() - idx < 16 {
        return Err(GribError::Malformed);
    }
    let mut res_msg = copy_range(g, idx, idx + 16);
    // Sections 1 to 8
    let body = match walk(g, idx + 16, idx + msg_len, g_p) {
        Ok(b) => b,
        Err(e) => return Err(e),
    };
    append_range(&mut res_msg, body.as_slice(), 0, body.len());
    assert(body@.subrange(0, body@.len() as int) =~= body@);
    // The new message length
    let ghost m = res_msg@;
    let total = res_msg.len() as u64;
    set_4bytes(res_msg.as_mut_slice(), 8, (total / 4294967296) as usize);
    set_4bytes(res_msg.as_mut_slice(), 12, (total % 4294967296) as usize);
    proof {
        lemma_write_u64(m, total as int);
    }
    Ok(res_msg)
}

} // verus!

verus! {

/// Whether each coordinate of the request stays within an `i64` once rounded outwards
/// to the 0.25° grid.
pub open spec fn area_snappable(g: Grib) -> bool {
    &&& i64::MIN + 250000 <= g.latitude_min <= i64::MAX - 250000
    &&& i64::MIN + 250000 <= g.latitude_max <= i64::MAX - 250000
    &&& i64::MIN + 250000 <= g.longitude_min <= i64::MAX - 250000
    &&& i64::MIN + 250000 <= g.longitude_max <= i64::MAX - 250000
}

/// Rounds a position down to the 0.25° grid.
fn snap_down_exec(v: i64) -> (r: i64)
    requires
        i64::MIN + 250000 <= v,
    ensures
        r == snap_down(v as int),
{
    if v >= 0 {
        (v / 250000) * 250000
    } else {
        let a: i64 = -v;
        let q: i64 = (a + 249999) / 250000;
        assert(-q == (v as int) / 250000) by (nonlinear_arith)
            requires
                a == -v,
                a > 0,
                q == (a + 249999) / 250000,
        ;
        -(q * 250000)
    }
}

/// Rounds a position up to the 0.25° grid.
fn snap_up_exec(v: i64) -> (r: i64)
    requires
        i64::MIN + 250000 <= v <= i64::MAX - 250000,
    ensures
        r == snap_up(v as int),
{
    let d = snap_down_exec(-v);
    -d
}

/// Unpacks the CCSDS-compressed values of an ECMWF GRIB2 file and keeps only those of the
/// requested area, rounded outwards to the 0.25° grid: every message is rewritten, in
/// order, with its grid, representation and data sections narrowed to that area.
pub fn unpack_crop(grib: Grib) -> (res: Result<Grib, GribError>)
    requires
        area_snappable(grib),
        spec_message_spans(grib.content@, 0) is Some,
    ensures
        ({
            let p = initial_params(
                grib.latitude_max as int,
                grib.latitude_min as int,
                grib.longitude_max as int,
                grib.longitude_min as int,
            );
            let expected = crop_all(grib.content@, spec_message_spans(grib.content@, 0)->Some_0, p);
            match res {
                Ok(g) => {
                    &&& expected == Ok::<Seq<u8>, GribErrorV>(g.content@)
                    &&& g.model == grib.model
                    &&& g.step == grib.step
                    &&& g.days == grib.days
                    &&& g.latitude_max == grib.latitude_max
                    &&& g.latitude_min == grib.latitude_min
                    &&& g.longitude_max == grib.longitude_max
                    &&& g.longitude_min == grib.longitude_min
                    &&& g.components@ == grib.components@
                    &&& g.run@ == grib.run@
                    &&& g.secret@ == grib.secret@
                    &&& g.iridium == grib.iridium
                },
                Err(e) => expected == Err::<Seq<u8>, GribErrorV>(e@),
            }
        }),
{
    let g_param = GribParams {
        latitude_min: snap_down_exec(grib.latitude_min),
        latitude_max: snap_up_exec(grib.latitude_max),
        longitude_min: snap_down_exec(grib.longitude_min),
        longitude_max: snap_up_exec(grib.longitude_max),
        lat0: 0,
        lat_end: 0,
        lon0: 0,
        lon_end: 0,
        nb_values: 0x00000000,
        bits_per_values: 0x00,
        ccsds_flag: 0x00,
        block_size: 0x00,
        rsi: 0x0000,
    };
    assert(g_param == initial_params(
        grib.latitude_max as int,
        grib.latitude_min as int,
        grib.longitude_max as int,
        grib.longitude_min as int,
    ));
    let spans = match message_spans(grib.content.as_slice()) {
        Some(s) => s,
        None => {
            return Err(GribError::Malformed);
        },
    };
    let ghost all = spans_view(spans@);
    proof {
        lemma_spans_bounded(grib.content@, 0);
    }
    let mut content: Vec<u8> = Vec::new();
    let mut k: usize = 0;
    assert(all.skip(0) =~= all);
    assert(crop_all(grib.content@, all, g_param) == prepend(content@, crop_all(grib.content@, all, g_param))) by {
        match crop_all(grib.content@, all, g_param) {
            Ok(x) => { assert(content@ + x =~= x); },
            Err(_) => {},
        }
    }
    // Each message, in order
    while k < spans.len()
        invariant
            g_param == initial_params(
                grib.latitude_max as int,
                grib.latitude_min as int,
                grib.longitude_max as int,
                grib.longitude_min as int,
            ),
            all == spans_view(spans@),
            all == spec_message_spans(grib.content@, 0)->Some_0,
            k <= spans.len(),
            forall|j: int|
                0 <= j < all.len() ==> {
                    let s = #[trigger] all[j];
                    &&& 0 <= s.0
                    &&& 1 <= s.1
                    &&& s.0 + s.1 <= usize::MAX
                },
            crop_all(grib.content@, all, g_param) == prepend(
                content@,
                crop_all(grib.content@, all.skip(k as int), g_param),
            ),
        decreases spans.len() - k,
    {
        let (start, len) = spans[k];
        assert(all[k as int] == (start as int, len as int));
        let ghost rest = all.skip(k as int);
        assert(rest[0] == all[k as int]);
        assert(rest.drop_first() =~= all.skip(k + 1));
        let msg = unpack_crop_message(grib.content.as_slice(), start, len, g_param);
        match msg {
            Err(e) => {
                assert(crop_all(grib.content@, rest, g_param) == Err::<Seq<u8>, GribErrorV>(e@));
                return Err(e);
            },
            Ok(m) => {
                let ghost before = content@;
                append_range(&mut content, m.as_slice(), 0, m.len());
                assert(m@.subrange(0, m@.len() as int) =~= m@);
                k = k + 1;
                assert forall|r: Result<Seq<u8>, GribErrorV>| prepend(before, #[trigger] prepend(m@, r)) == prepend(content@, r) by {
                    match r {
                        Ok(x) => {
                            assert(before + (m@ + x) =~= content@ + x);
                        },
                        Err(_) => {},
                    }
                }
            },
        }
    }
    assert(all.skip(k as int) =~= Seq::<(int, int)>::empty());
    assert(content@ + seq![] =~= content@);
    assert(crop_all(grib.content@, all, g_param) == Ok::<Seq<u8>, GribErrorV>(content@));
    Ok(Grib { content, ..grib })
}

} // verus!

verus! {

/// Law: the section length that `set_4bytes` writes is read back by `get_sect_len`,
/// modulo 2^32.
pub proof fn law_section_length_read_back(s: Seq<u8>, idx: int, v: int)
    requires
        0 <= idx,
        idx + 4 <= s.len(),
    ensures
        be_u32(splice4(s, idx, u32_be(v)), idx) == v % 4294967296,
{
    let t = splice4(s, idx, u32_be(v));
    crate::bytes::lemma_be_u32_of_u32_be(v);
    assert(t.subrange(idx, idx + 4) =~= u32_be(v));
    assert(t[idx] == u32_be(v)[0]);
    assert(t[idx + 1] == u32_be(v)[1]);
    assert(t[idx + 2] == u32_be(v)[2]);
    assert(t[idx + 3] == u32_be(v)[3]);
}

/// Writing the 8 big-endian bytes of a sequence's length over its bytes 8 to 16 makes
/// those bytes read back as that length.
proof fn lemma_length_field(m: Seq<u8>)
    requires
        m.len() >= 16,
        m.len() < 18446744073709551616,
    ensures
        (m.take(8) + u64_be(m.len() as int) + m.skip(16)).len() == m.len(),
        be_u64(m.take(8) + u64_be(m.len() as int) + m.skip(16), 8) == m.len(),
{
    let w = u64_be(m.len() as int);
    let out = m.take(8) + w + m.skip(16);
    crate::bytes::lemma_be_u64_of_u64_be(m.len() as int);
    assert(w.len() == 8);
    assert(out[8] == w[0]);
    assert(out[9] == w[1]);
    assert(out[10] == w[2]);
    assert(out[11] == w[3]);
    assert(out[12] == w[4]);
    assert(out[13] == w[5]);
    assert(out[14] == w[6]);
    assert(out[15] == w[7]);
    assert(be_u32(out, 8) == be_u32(w, 0));
    assert(be_u32(out, 12) == be_u32(w, 4));
}

/// Law: a rewritten message declares its own length: its bytes 8 to 16 hold the number of
/// its bytes.
pub proof fn law_message_declares_its_length(g: Seq<u8>, start: int, msg_len: int, p: GribParams)
    requires
        0 <= start,
        spec_crop_message(g, start, msg_len, p) is Ok,
        spec_crop_message(g, start, msg_len, p)->Ok_0.len() < 18446744073709551616,
    ensures
        spec_crop_message(g, start, msg_len, p)->Ok_0.len() >= 16,
        be_u64(spec_crop_message(g, start, msg_len, p)->Ok_0, 8) == spec_crop_message(g, start, msg_len, p)->Ok_0.len(),
{
    reveal(spec_crop_message);
    let r = walk_sections(g, start + 16, start + msg_len, p);
    let body = r->Ok_0;
    let m = g.subrange(start, start + 16) + body;
    assert(spec_crop_message(g, start, msg_len, p)->Ok_0 == m.take(8) + u64_be(m.len() as int) + m.skip(16));
    lemma_length_field(m);
}

} // verus!
