//! The NOAA GFS model: its runs and its layers.

pub mod config;

use vstd::prelude::*;
use crate::common::{GribError, GribErrorV, generic, text_result};
use crate::noaa::config::hour_of_run;
use crate::text::{ascii_prefix, first_index, str_chars, substring};

verus! {

/// GFS forecasts reach 16 days at most: longer requests are shortened.
pub fn gfs_days(days: u32) -> (d: u32)
    ensures
        d == if days > 16 { 16 } else { days },
{
    if days > 16 { 16 } else { days }
}

/// The run that a GFS availability URL names, as the filter script reads it
/// (`YYYYMMDD%2FHH`) and as file names write it (`YYYYMMDD-HHZ`).
pub open spec fn gfs_run_of_url(url: Seq<char>) -> (Seq<char>, Seq<char>) {
    (
        url.subrange(60, 68) + "%2F"@ + url.subrange(69, 71),
        url.subrange(60, 68) + "-"@ + url.subrange(69, 71) + "Z"@,
    )
}

/// The latest run: the one of the first URL (`first_ok`) that the server has, most recent
/// first; an error when it has none.
pub fn pick_gfs_run(urls: &Vec<String>, first_ok: Option<usize>) -> (r: Result<(String, String), GribError>)
    requires
        first_ok matches Some(i) ==> i < urls@.len() && ascii_prefix(urls@[i as int]@, 71),
    ensures
        match (first_ok, r) {
            (None, Err(e)) => e@ == GribErrorV::Generic("Couldn't find latest available forecast"@),
            (Some(i), Ok((a, b))) => (a@, b@) == gfs_run_of_url(urls@[i as int]@),
            _ => false,
        },
{
    match first_ok {
        None => Err(generic(String::from_str("Couldn't find latest available forecast"))),
        Some(i) => {
            let u = str_chars(urls[i].as_str());
            let date = substring(u.as_slice(), 60, 68);
            let hour = substring(u.as_slice(), 69, 71);
            let mut last_run = date.clone();
            last_run.append("%2F");
            last_run.append(hour.as_str());
            let mut run = date;
            run.append("-");
            run.append(hour.as_str());
            run.append("Z");
            assert((last_run@, run@) =~= gfs_run_of_url(urls@[i as int]@));
            Ok((last_run, run))
        },
    }
}

} // verus!

verus! {

/// From `from` on, the first `%2F` of a run name whose date holds no `%` is the one after
/// the date.
proof fn lemma_marker_after_date(run: Seq<char>, from: int)
    requires
        0 <= from <= 8,
        run.len() >= 11,
        run.subrange(8, 11) == "%2F"@,
        forall|k: int| from <= k < 8 ==> run[k] != '%',
    ensures
        first_index(run, "%2F"@, from) == Some(8int),
    decreases 8 - from,
{
    reveal_strlit("%2F");
    if from < 8 {
        assert(run.subrange(from, from + 3)[0] == run[from]);
        assert(run.subrange(from, from + 3) != "%2F"@);
        lemma_marker_after_date(run, from + 1);
    }
}

/// Law: the run that is found is the run that is fetched: the hour that names the files
/// of the data URLs is the hour of the first published file's URL, and the directory they
/// are read from is its date and hour.
pub proof fn law_found_gfs_run_is_fetched(url: Seq<char>)
    requires
        url.len() >= 71,
        forall|k: int| 60 <= k < 68 ==> url[k] != '%',
    ensures
        gfs_run_of_url(url).0 == url.subrange(60, 68) + "%2F"@ + url.subrange(69, 71),
        hour_of_run(gfs_run_of_url(url).0) == url.subrange(69, 71),
{
    reveal_strlit("%2F");
    let run = gfs_run_of_url(url).0;
    assert(run.subrange(8, 11) =~= "%2F"@);
    assert forall|k: int| 0 <= k < 8 implies run[k] != '%' by {
        assert(run[k] == url[60 + k]);
    }
    lemma_marker_after_date(run, 0);
    assert(run.skip(11) =~= url.subrange(69, 71));
}

} // verus!
