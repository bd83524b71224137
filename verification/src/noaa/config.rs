//! Where the NOAA GFS model lies, and the URL of each requested layer.

use vstd::prelude::*;
use crate::clock::{dates_around, forecast_dates, ymd};
use crate::common::{Component, Grib, Model, step_hours};
use crate::text::{
    first_index, find_index, lemma_first_index_bounds, lemma_hours_last, lemma_hours_rising, lemma_rising_join, rising_within, hours_from, micro_degrees_text, pad3, push_micro_degrees,
    push_pad3, str_chars, strings_view, substring,
};

verus! {

/// The host that serves the GFS model.
pub const NOAA_HOST: &'static str = "nomads.ncep.noaa.gov";

/// The address of `NOAA_HOST` (its IPv4 octets), used when the connection goes through an
/// Iridium-Go, whose firewall is opened for it.
pub const NOAA_IP: (u8, u8, u8, u8) = (23, 223, 194, 197);

/// The port of `NOAA_HOST`.
pub const NOAA_PORT: u16 = 443;

/// What the URLs are for: finding the latest run, or fetching its data.
#[derive(Clone, Copy, Debug, PartialEq, Eq, Structural)]
pub enum UrlType {
    CheckAvailability,
    GribData,
}

/// The resolution and the file format of a GFS model; empty for other models.
pub open spec fn gfs_model(m: Model) -> (Seq<char>, Seq<char>) {
    match m {
        Model::Gfs025 => ("0p25"@, "pgrb2"@),
        Model::Gfs050 => ("0p50"@, "pgrb2full"@),
        Model::Gfs100 => ("1p00"@, "pgrb2"@),
        _ => (""@, ""@),
    }
}

/// The GFS file of run `hour_run` on `date` at forecast hour `hour`.
pub open spec fn gfs_check_url(m: Model, date: Seq<char>, hour_run: Seq<char>, hour: int) -> Seq<char> {
    "https://nomads.ncep.noaa.gov/pub/data/nccf/com/gfs/prod/gfs."@ + date + "/"@ + hour_run
        + "/atmos/gfs.t"@ + hour_run + "z."@ + gfs_model(m).1 + "."@ + gfs_model(m).0 + ".f"@
        + pad3(hour as nat)
}

/// The files whose presence tells which runs of `dates` are published, latest run first:
/// for each date, the 18, 12, 06 and 00 runs, at forecast hour `hour`.
pub open spec fn gfs_availability(m: Model, dates: Seq<Seq<char>>, hour: int) -> Seq<Seq<char>>
    decreases dates.len(),
{
    if dates.len() == 0 {
        seq![]
    } else {
        seq![
            gfs_check_url(m, dates[0], "18"@, hour),
            gfs_check_url(m, dates[0], "12"@, hour),
            gfs_check_url(m, dates[0], "06"@, hour),
            gfs_check_url(m, dates[0], "00"@, hour),
        ] + gfs_availability(m, dates.drop_first(), hour)
    }
}

/// The hour of a run named `YYYYMMDD%2FHH`: what follows its first `%2F` (all of it when
/// there is none).
pub open spec fn hour_of_run(run: Seq<char>) -> Seq<char> {
    match first_index(run, "%2F"@, 0) {
        Some(i) => run.skip(i + 3),
        None => run,
    }
}

/// The filter script URL for run `run`, before the file and the variables.
pub open spec fn filter_url(m: Model, run: Seq<char>) -> Seq<char> {
    "https://nomads.ncep.noaa.gov/cgi-bin/filter_gfs_"@ + gfs_model(m).0 + ".pl?dir=%2Fgfs."@ + run
        + "%2Fatmos"@
}

/// The requested area, as the filter script reads it.
pub open spec fn subregion(g: Grib) -> Seq<char> {
    "&subregion=&leftlon="@ + micro_degrees_text(g.longitude_min as int) + "&rightlon="@
        + micro_degrees_text(g.longitude_max as int) + "&bottomlat="@ + micro_degrees_text(
        g.latitude_min as int,
    ) + "&toplat="@ + micro_degrees_text(g.latitude_max as int)
}

/// The variables and level of a component.
pub open spec fn component_vars(c: Component) -> Seq<char> {
    match c {
        Component::Wind => "&var_UGRD=on&var_VGRD=on&lev_10_m_above_ground=on"@,
        Component::WindGust => "&var_GUST=on&lev_surface=on"@,
        Component::Pressure => "&var_PRMSL=on&lev_mean_sea_level=on"@,
        Component::CloudCover => "&var_TCDC=on&lev_entire_atmosphere=on"@,
    }
}

/// The URLs for one forecast file: one per component, each adding its variables to those
/// of the components before it.
pub open spec fn hour_urls(prefix: Seq<char>, cs: Seq<Component>, sub: Seq<char>) -> Seq<Seq<char>>
    decreases cs.len(),
{
    if cs.len() == 0 {
        seq![]
    } else {
        let p2 = prefix + component_vars(cs[0]);
        seq![p2 + sub] + hour_urls(p2, cs.drop_first(), sub)
    }
}

/// The forecast hours fetched: every step up to the requested days; with a 1h step beyond
/// 5 days, every hour up to 120h then every 3 hours.
pub open spec fn gfs_hours(step: int, days: int) -> Seq<int> {
    if step == 1 && days > 5 {
        hours_from(0, 120, 1) + hours_from(123, 24 * days, 3)
    } else {
        hours_from(0, 24 * days, step)
    }
}

/// The URLs of run `run` for the forecast hours `hours`.
pub open spec fn gfs_data_urls(g: Grib, run: Seq<char>, hours: Seq<int>) -> Seq<Seq<char>>
    decreases hours.len(),
{
    if hours.len() == 0 {
        seq![]
    } else {
        let prefix = filter_url(g.model, run) + "&file=gfs.t"@ + hour_of_run(run) + "z."@
            + gfs_model(g.model).1 + "."@ + gfs_model(g.model).0 + ".f"@ + pad3(hours[0] as nat);
        hour_urls(prefix, g.components@, subregion(g)) + gfs_data_urls(g, run, hours.drop_first())
    }
}

/// The resolution and format names of a model.
fn model_names(m: Model) -> (r: (&'static str, &'static str))
    ensures
        r.0@ == gfs_model(m).0 && r.1@ == gfs_model(m).1,
{
    match m {
        Model::Gfs025 => ("0p25", "pgrb2"),
        Model::Gfs050 => ("0p50", "pgrb2full"),
        Model::Gfs100 => ("1p00", "pgrb2"),
        _ => ("", ""),
    }
}

/// A file URL of the availability check.
fn check_url(m: Model, date: &str, hour_run: &str, hour: u64) -> (u: String)
    ensures
        u@ == gfs_check_url(m, date@, hour_run@, hour as int),
{
    let (model, format) = model_names(m);
    let mut u = String::from_str("https://nomads.ncep.noaa.gov/pub/data/nccf/com/gfs/prod/gfs.");
    u.append(date);
    u.append("/");
    u.append(hour_run);
    u.append("/atmos/gfs.t");
    u.append(hour_run);
    u.append("z.");
    u.append(format);
    u.append(".");
    u.append(model);
    u.append(".f");
    push_pad3(&mut u, hour);
    assert(u@ =~= gfs_check_url(m, date@, hour_run@, hour as int));
    u
}

/// The files whose presence tells which runs of `dates` are published.
pub fn gfs_check_urls(m: Model, dates: &Vec<String>, hour: u64) -> (v: Vec<String>)
    ensures
        strings_view(v@) == gfs_availability(m, strings_view(dates@), hour as int),
{
    let ghost dv = strings_view(dates@);
    let mut v: Vec<String> = Vec::new();
    let mut i: usize = 0;
    assert(dv.skip(0) =~= dv);
    assert(strings_view(v@) + gfs_availability(m, dv, hour as int) =~= gfs_availability(m, dv, hour as int));
    while i < dates.len()
        invariant
            i <= dates@.len(),
            dv == strings_view(dates@),
            gfs_availability(m, dv, hour as int) == strings_view(v@) + gfs_availability(m, dv.skip(i as int), hour as int),
        decreases dates.len() - i,
    {
        let d = dates[i].as_str();
        let ghost before = strings_view(v@);
        let ghost rest = dv.skip(i as int);
        assert(rest[0] == d@);
        assert(rest.drop_first() =~= dv.skip(i + 1));
        v.push(check_url(m, d, "18", hour));
        v.push(check_url(m, d, "12", hour));
        v.push(check_url(m, d, "06", hour));
        v.push(check_url(m, d, "00", hour));
        assert(strings_view(v@) =~= before + seq![
            gfs_check_url(m, d@, "18"@, hour as int),
            gfs_check_url(m, d@, "12"@, hour as int),
            gfs_check_url(m, d@, "06"@, hour as int),
            gfs_check_url(m, d@, "00"@, hour as int),
        ]);
        i = i + 1;
    }
    assert(dv.skip(i as int) =~= Seq::<Seq<char>>::empty());
    assert(strings_view(v@) + Seq::<Seq<char>>::empty() =~= strings_view(v@));
    v
}

/// Appends the URLs of one forecast file.
fn push_hour_urls(v: &mut Vec<String>, prefix: String, cs: &Vec<Component>, sub: &str)
    ensures
        strings_view(final(v)@) == strings_view(old(v)@) + hour_urls(prefix@, cs@, sub@),
{
    let mut p = prefix;
    let mut i: usize = 0;
    assert(cs@.skip(0) =~= cs@);
    assert(strings_view(v@) + hour_urls(p@, cs@, sub@) =~= strings_view(old(v)@) + hour_urls(prefix@, cs@, sub@));
    while i < cs.len()
        invariant
            i <= cs@.len(),
            strings_view(v@) + hour_urls(p@, cs@.skip(i as int), sub@)
                == strings_view(old(v)@) + hour_urls(prefix@, cs@, sub@),
        decreases cs.len() - i,
    {
        let ghost rest = cs@.skip(i as int);
        assert(rest[0] == cs@[i as int]);
        assert(rest.drop_first() =~= cs@.skip(i + 1));
        let ghost before = strings_view(v@);
        let ghost p0 = p@;
        match cs[i] {
            Component::Wind => p.append("&var_UGRD=on&var_VGRD=on&lev_10_m_above_ground=on"),
            Component::WindGust => p.append("&var_GUST=on&lev_surface=on"),
            Component::Pressure => p.append("&var_PRMSL=on&lev_mean_sea_level=on"),
            Component::CloudCover => p.append("&var_TCDC=on&lev_entire_atmosphere=on"),
        }
        assert(p@ == p0 + component_vars(cs@[i as int]));
        let mut u = p.clone();
        u.append(sub);
        v.push(u);
        assert(strings_view(v@) =~= before.push(p@ + sub@));
        assert(strings_view(v@) + hour_urls(p@, cs@.skip(i + 1), sub@) =~= before + hour_urls(p0, rest, sub@));
        i = i + 1;
    }
    assert(cs@.skip(i as int) =~= Seq::<Component>::empty());
    assert(strings_view(v@) + Seq::<Seq<char>>::empty() =~= strings_view(v@));
}

/// Appends the URLs of run `run` for the forecast hours from `start` to `end` every `step`.
fn push_gfs_hours(v: &mut Vec<String>, g: &Grib, run: &str, hour_run: &str, sub: &str, start: u64, end: u64, step: u64)
    requires
        1 <= step <= 12,
        start <= u32::MAX,
        end <= u32::MAX,
        hour_run@ == hour_of_run(run@),
        sub@ == subregion(*g),
    ensures
        strings_view(final(v)@) == strings_view(old(v)@) + gfs_data_urls(*g, run@, hours_from(start as int, end as int, step as int)),
{
    let (model, format) = model_names(g.model);
    let mut h = start;
    let ghost all = hours_from(start as int, end as int, step as int);
    assert(strings_view(v@) + gfs_data_urls(*g, run@, all) =~= strings_view(old(v)@) + gfs_data_urls(*g, run@, all));
    while h <= end
        invariant
            1 <= step <= 12,
            end <= u32::MAX,
            h <= u32::MAX + 12,
            model@ == gfs_model(g.model).0,
            format@ == gfs_model(g.model).1,
            hour_run@ == hour_of_run(run@),
            sub@ == subregion(*g),
            strings_view(v@) + gfs_data_urls(*g, run@, hours_from(h as int, end as int, step as int))
                == strings_view(old(v)@) + gfs_data_urls(*g, run@, all),
        decreases end + 12 - h,
    {
        let ghost rest = hours_from(h as int, end as int, step as int);
        assert(rest == seq![h as int] + hours_from(h + step, end as int, step as int));
        assert(rest.drop_first() =~= hours_from(h + step, end as int, step as int));
        let ghost before = strings_view(v@);
        let mut prefix = String::from_str("https://nomads.ncep.noaa.gov/cgi-bin/filter_gfs_");
        prefix.append(model);
        prefix.append(".pl?dir=%2Fgfs.");
        prefix.append(run);
        prefix.append("%2Fatmos");
        prefix.append("&file=gfs.t");
        prefix.append(hour_run);
        prefix.append("z.");
        prefix.append(format);
        prefix.append(".");
        prefix.append(model);
        prefix.append(".f");
        push_pad3(&mut prefix, h);
        assert(prefix@ =~= filter_url(g.model, run@) + "&file=gfs.t"@ + hour_of_run(run@) + "z."@
            + gfs_model(g.model).1 + "."@ + gfs_model(g.model).0 + ".f"@ + pad3(h as nat));
        push_hour_urls(v, prefix, &g.components, sub);
        assert(strings_view(v@) + gfs_data_urls(*g, run@, hours_from(h + step, end as int, step as int))
            =~= before + gfs_data_urls(*g, run@, rest));
        h = h + step;
    }
    assert(hours_from(h as int, end as int, step as int) =~= Seq::<int>::empty());
    assert(strings_view(v@) + Seq::<Seq<char>>::empty() =~= strings_view(v@));
}

/// The URLs that the download of a GFS model goes through: the files that tell which run
/// is the latest (for the dates `chrono` gives around today), or, for run `run`
/// (`YYYYMMDD%2FHH`), one URL per forecast hour and component over the requested area.
pub fn get_urls(grib: &Grib, url_type: UrlType, run: &str) -> (v: Vec<String>)
    requires
        24 * grib.days <= u32::MAX,
        url_type is GribData ==> 24 * grib.days + 12 <= u32::MAX,
    ensures
        url_type is CheckAvailability ==> exists|today: (int, int, int)|
            1 <= today.1 <= 12 && 1 <= today.2 <= 31 && strings_view(v@) == match #[trigger] dates_around(today) {
                Some(dates) => gfs_availability(grib.model, dates, 24 * grib.days),
                None => Seq::<Seq<char>>::empty(),
            },
        url_type is GribData ==> strings_view(v@) == gfs_data_urls(
            *grib,
            run@,
            gfs_hours(step_hours(grib.step), grib.days as int),
        ),
{
    match url_type {
        UrlType::CheckAvailability => {
            let (today, dates) = forecast_dates();
            let ghost t = ymd(today);
            match dates {
                Some(d) => {
                    let v = gfs_check_urls(grib.model, &d, grib.days as u64 * 24);
                    assert(dates_around(t) == Some(strings_view(d@)));
                    v
                },
                None => {
                    let v: Vec<String> = Vec::new();
                    assert(dates_around(t) is None);
                    assert(strings_view(v@) =~= Seq::<Seq<char>>::empty());
                    v
                },
            }
        },
        UrlType::GribData => {
            let mut sub = String::from_str("&subregion=&leftlon=");
            push_micro_degrees(&mut sub, grib.longitude_min);
            sub.append("&rightlon=");
            push_micro_degrees(&mut sub, grib.longitude_max);
            sub.append("&bottomlat=");
            push_micro_degrees(&mut sub, grib.latitude_min);
            sub.append("&toplat=");
            push_micro_degrees(&mut sub, grib.latitude_max);
            assert(sub@ =~= subregion(*grib));
            let run_chars = str_chars(run);
            let run_len = run_chars.len();
            let sep = str_chars("%2F");
            let hour_run = match find_index(run_chars.as_slice(), sep.as_slice()) {
                Some(i) => {
                    proof {
                        reveal_strlit("%2F");
                        lemma_first_index_bounds(run@, "%2F"@, 0);
                        assert("%2F"@.len() == 3);
                        assert(sep@ == "%2F"@);
                        assert(i + 3 <= run_len);
                    }
                    substring(run_chars.as_slice(), i + 3, run_len)
                },
                None => substring(run_chars.as_slice(), 0, run_chars.len()),
            };
            assert(hour_run@ =~= hour_of_run(run@));
            let end = 24 * grib.days as u64;
            let mut v: Vec<String> = Vec::new();
            if grib.step.hours() == 1 && grib.days > 5 {
                push_gfs_hours(&mut v, grib, run, hour_run.as_str(), sub.as_str(), 0, 120, 1);
                push_gfs_hours(&mut v, grib, run, hour_run.as_str(), sub.as_str(), 123, end, 3);
                proof {
                    lemma_gfs_data_urls_concat(*grib, run@, hours_from(0, 120, 1), hours_from(123, end as int, 3));
                }
            } else {
                push_gfs_hours(&mut v, grib, run, hour_run.as_str(), sub.as_str(), 0, end, grib.step.hours() as u64);
            }
            v
        },
    }
}

/// The URLs of two lists of hours are those of each list, one after the other.
proof fn lemma_gfs_data_urls_concat(g: Grib, run: Seq<char>, a: Seq<int>, b: Seq<int>)
    ensures
        gfs_data_urls(g, run, a + b) == gfs_data_urls(g, run, a) + gfs_data_urls(g, run, b),
    decreases a.len(),
{
    if a.len() == 0 {
        assert(a + b =~= b);
        assert(gfs_data_urls(g, run, a) + gfs_data_urls(g, run, b) =~= gfs_data_urls(g, run, b));
    } else {
        assert((a + b).drop_first() =~= a.drop_first() + b);
        assert((a + b)[0] == a[0]);
        lemma_gfs_data_urls_concat(g, run, a.drop_first(), b);
        let prefix = filter_url(g.model, run) + "&file=gfs.t"@ + hour_of_run(run) + "z."@
            + gfs_model(g.model).1 + "."@ + gfs_model(g.model).0 + ".f"@ + pad3(a[0] as nat);
        assert(hour_urls(prefix, g.components@, subregion(g)) + gfs_data_urls(g, run, a.drop_first() + b)
            =~= hour_urls(prefix, g.components@, subregion(g)) + gfs_data_urls(g, run, a.drop_first()) + gfs_data_urls(g, run, b));
    }
}

} // verus!

verus! {

/// Law: the GFS forecast hours cover the requested days: they start at 0h, rise at each
/// step by at most the step in use (the requested step, or 3h beyond 120h when a 1h step
/// is asked for more than 5 days), never pass the last requested hour, and stop less than
/// one such step before it.
pub proof fn law_gfs_hours_cover_the_forecast(step: int, days: int)
    requires
        step == 1 || step == 3 || step == 6 || step == 12,
        0 <= days,
    ensures
        rising_within(gfs_hours(step, days), (if step == 1 && days > 5 { 3int } else { step }), 0, 24 * days),
        gfs_hours(step, days)[0] == 0,
        gfs_hours(step, days).last() + (if step == 1 && days > 5 { 3int } else { step }) > 24 * days,
{
    if step == 1 && days > 5 {
        let a = hours_from(0, 120, 1);
        let b = hours_from(123, 24 * days, 3);
        lemma_hours_rising(0, 120, 1, 3);
        lemma_hours_rising(123, 24 * days, 3, 3);
        lemma_hours_last(0, 120, 1);
        assert(rising_within(a, 3, 0, 24 * days));
        assert(rising_within(b, 3, 0, 24 * days));
        lemma_rising_join(a, b, 3, 0, 24 * days);
    } else {
        lemma_hours_rising(0, 24 * days, step, step);
        assert(rising_within(gfs_hours(step, days), step, 0, 24 * days));
    }
}

} // verus!

verus! {

/// The run hours tried on each date, latest first.
pub open spec fn gfs_run_hours() -> Seq<Seq<char>> {
    seq!["18"@, "12"@, "06"@, "00"@]
}

/// The date and the run hour of a GFS file's URL lie at characters 60 to 68 and 69 to 71.
proof fn lemma_check_url_places(m: Model, date: Seq<char>, hour_run: Seq<char>, hour: int)
    requires
        date.len() == 8,
        hour_run.len() == 2,
    ensures
        gfs_check_url(m, date, hour_run, hour).subrange(60, 68) == date,
        gfs_check_url(m, date, hour_run, hour).subrange(69, 71) == hour_run,
{
    reveal_strlit("https://nomads.ncep.noaa.gov/pub/data/nccf/com/gfs/prod/gfs.");
    reveal_strlit("/");
    let u = gfs_check_url(m, date, hour_run, hour);
    assert("https://nomads.ncep.noaa.gov/pub/data/nccf/com/gfs/prod/gfs."@.len() == 60);
    assert(u.subrange(60, 68) =~= date);
    assert(u.subrange(69, 71) =~= hour_run);
}

/// Law: the GFS availability URLs hold each date in place: for dates of 8 characters (as
/// `YYYYMMDD`), the `k`-th URL holds date `k / 4` at characters 60 to 68 and run hour
/// `k % 4` (18, 12, 06, 00) at 69 to 71, where the run found is read from.
pub proof fn law_gfs_availability_dates_in_place(m: Model, dates: Seq<Seq<char>>, hour: int, k: int)
    requires
        forall|i: int| 0 <= i < dates.len() ==> (#[trigger] dates[i]).len() == 8,
        0 <= k < 4 * dates.len(),
    ensures
        gfs_availability(m, dates, hour).len() == 4 * dates.len(),
        gfs_availability(m, dates, hour)[k].subrange(60, 68) == dates[k / 4],
        gfs_availability(m, dates, hour)[k].subrange(69, 71) == gfs_run_hours()[k % 4],
    decreases dates.len(),
{
    reveal_strlit("18");
    reveal_strlit("12");
    reveal_strlit("06");
    reveal_strlit("00");
    let u = gfs_availability(m, dates, hour);
    let rest = gfs_availability(m, dates.drop_first(), hour);
    let head = seq![
        gfs_check_url(m, dates[0], "18"@, hour),
        gfs_check_url(m, dates[0], "12"@, hour),
        gfs_check_url(m, dates[0], "06"@, hour),
        gfs_check_url(m, dates[0], "00"@, hour),
    ];
    assert(u == head + rest);
    if k < 4 {
        lemma_check_url_places(m, dates[0], gfs_run_hours()[k], hour);
        assert(u[k] == head[k]);
        assert(head[k] == gfs_check_url(m, dates[0], gfs_run_hours()[k], hour));
        if dates.len() > 1 {
            law_gfs_availability_dates_in_place(m, dates.drop_first(), hour, 0);
        } else {
            assert(rest.len() == 0);
        }
    } else {
        law_gfs_availability_dates_in_place(m, dates.drop_first(), hour, k - 4);
        assert(u[k] == rest[k - 4]);
        assert(dates.drop_first()[(k - 4) / 4] == dates[k / 4]);
        assert((k - 4) % 4 == k % 4);
    }
}

} // verus!

verus! {

proof fn lemma_hour_urls_end(prefix: Seq<char>, cs: Seq<Component>, sub: Seq<char>, j: int)
    requires
        0 <= j < hour_urls(prefix, cs, sub).len(),
    ensures
        hour_urls(prefix, cs, sub)[j].len() >= sub.len(),
        hour_urls(prefix, cs, sub)[j].skip(hour_urls(prefix, cs, sub)[j].len() - sub.len()) == sub,
    decreases cs.len(),
{
    let p2 = prefix + component_vars(cs[0]);
    let u = hour_urls(prefix, cs, sub);
    assert(u == seq![p2 + sub] + hour_urls(p2, cs.drop_first(), sub));
    if j == 0 {
        assert(u[0] == p2 + sub);
        assert((p2 + sub).skip(p2.len() as int) =~= sub);
    } else {
        lemma_hour_urls_end(p2, cs.drop_first(), sub, j - 1);
        assert(u[j] == hour_urls(p2, cs.drop_first(), sub)[j - 1]);
    }
}

/// Law: every data URL ends with the requested area, each edge given after the key that
/// the filter script reads it by: the west edge (`longitude_min`) after `leftlon`, the east
/// edge after `rightlon`, the south edge (`latitude_min`) after `bottomlat` and the north
/// edge after `toplat`, each in degrees.
pub proof fn law_gfs_urls_end_with_area(g: Grib, run: Seq<char>, hours: Seq<int>, j: int)
    requires
        0 <= j < gfs_data_urls(g, run, hours).len(),
    ensures
        ({
            let u = gfs_data_urls(g, run, hours)[j];
            let area = "&subregion=&leftlon="@ + micro_degrees_text(g.longitude_min as int)
                + "&rightlon="@ + micro_degrees_text(g.longitude_max as int) + "&bottomlat="@
                + micro_degrees_text(g.latitude_min as int) + "&toplat="@
                + micro_degrees_text(g.latitude_max as int);
            u.len() >= area.len() && u.skip(u.len() - area.len()) == area
        }),
    decreases hours.len(),
{
    let prefix = filter_url(g.model, run) + "&file=gfs.t"@ + hour_of_run(run) + "z."@
        + gfs_model(g.model).1 + "."@ + gfs_model(g.model).0 + ".f"@ + pad3(hours[0] as nat);
    let first = hour_urls(prefix, g.components@, subregion(g));
    let rest = gfs_data_urls(g, run, hours.drop_first());
    assert(gfs_data_urls(g, run, hours) == first + rest);
    if j < first.len() {
        lemma_hour_urls_end(prefix, g.components@, subregion(g), j);
        assert(gfs_data_urls(g, run, hours)[j] == first[j]);
    } else {
        law_gfs_urls_end_with_area(g, run, hours.drop_first(), j - first.len());
        assert(gfs_data_urls(g, run, hours)[j] == rest[j - first.len()]);
    }
}

} // verus!
