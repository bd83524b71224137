//! The ECMWF open-data model: finding its latest run, the byte ranges of the requested
//! layers, and unpacking and cropping its worldwide GRIB2 files.

pub mod config;
pub mod helper_sect3;
pub mod helper_sect4;
pub mod helper_sect5;
pub mod helper_sect7;
pub mod unpack_crop;

use vstd::prelude::*;
use crate::common::{GribError, GribErrorV, generic, text_result};
use crate::text::{ascii_prefix, count_char, count_in, replace, replace_all, substring, str_chars, strings_view};

verus! {

/// ECMWF forecasts reach 15 days at most: longer requests are shortened.
pub fn ecmwf_days(days: u32) -> (d: u32)
    ensures
        d == if days > 15 { 15 } else { days },
{
    if days > 15 { 15 } else { days }
}

/// The run that a forecast file URL names: its date and hour, written `YYYYMMDD-HHZ`.
pub open spec fn run_of_url(url: Seq<char>) -> Seq<char> {
    url.subrange(54, 62) + "-"@ + url.subrange(63, 65) + "Z"@
}

/// The latest run: the one of the first URL (`first_ok`) that the server has, most recent
/// first; an error when it has none.
pub fn pick_run(urls: &Vec<String>, first_ok: Option<usize>) -> (r: Result<String, GribError>)
    requires
        first_ok matches Some(i) ==> i < urls@.len() && ascii_prefix(urls@[i as int]@, 65),
    ensures
        first_ok is None ==> text_result(r) == Err::<Seq<char>, GribErrorV>(
            GribErrorV::Generic("Couldn't find latest available forecast"@),
        ),
        first_ok matches Some(i) ==> text_result(r) == Ok::<Seq<char>, GribErrorV>(
            run_of_url(urls@[i as int]@),
        ),
{
    match first_ok {
        None => Err(generic(String::from_str("Couldn't find latest available forecast"))),
        Some(i) => {
            let u = str_chars(urls[i].as_str());
            let mut run = substring(u.as_slice(), 54, 62);
            run.append("-");
            let h = substring(u.as_slice(), 63, 65);
            run.append(h.as_str());
            run.append("Z");
            assert(run@ =~= run_of_url(urls@[i as int]@));
            Ok(run)
        },
    }
}

/// The URL of the index of a forecast file.
pub fn index_url(url: &str) -> (r: String)
    ensures
        r@ == replace_all(url@, ".grib2"@, ".index"@),
{
    proof {
        reveal_strlit(".grib2");
    }
    replace(url, ".grib2", ".index")
}

/// The number of layers to download: as many files as `ranges` (their `Range` headers),
/// each with as many byte ranges as the first header lists.
pub fn layer_total(ranges: &Vec<String>) -> (r: Result<usize, GribError>)
    ensures
        match r {
            Ok(n) => ranges@.len() > 0 && n == ranges@.len() * (count_char(ranges@[0]@, ',') + 1),
            Err(e) => (ranges@.len() == 0 && e@ == GribErrorV::Generic("Unexpected empty urls_headers"@))
                || (ranges@.len() > 0 && ranges@.len() * (count_char(ranges@[0]@, ',') + 1) > usize::MAX
                && e@ == GribErrorV::Malformed),
        },
{
    if ranges.len() == 0 {
        return Err(generic(String::from_str("Unexpected empty urls_headers")));
    }
    let commas = count_in(ranges[0].as_str(), ',');
    let per: u128 = commas as u128 + 1;
    assert(ranges.len() as int * per as int <= 340282366920938463463374607431768211455) by (nonlinear_arith)
        requires
            ranges.len() <= 18446744073709551615,
            per <= 18446744073709551616,
    ;
    let total: u128 = ranges.len() as u128 * per;
    if total > usize::MAX as u128 {
        return Err(GribError::Malformed);
    }
    Ok(total as usize)
}

} // verus!

verus! {

/// Law: the run that is found is the run that is fetched: the date and the hour that the
/// data URLs are built from (characters 0 to 8 and 9 to 11 of the run's name) are those of
/// the first published file's URL.
pub proof fn law_found_run_is_fetched(url: Seq<char>)
    requires
        url.len() >= 65,
    ensures
        run_of_url(url).len() == 12,
        run_of_url(url).subrange(0, 8) == url.subrange(54, 62),
        run_of_url(url).subrange(9, 11) == url.subrange(63, 65),
{
    reveal_strlit("-");
    reveal_strlit("Z");
    assert(run_of_url(url).subrange(0, 8) =~= url.subrange(54, 62));
    assert(run_of_url(url).subrange(9, 11) =~= url.subrange(63, 65));
}

} // verus!
