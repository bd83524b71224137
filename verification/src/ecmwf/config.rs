//! Where the ECMWF open data lie, and which byte ranges of its files hold the requested layers.

use vstd::prelude::*;
use crate::clock::{dates_around, forecast_dates, ymd};
use crate::header::{check_header_value, header_value_ok};
use crate::common::{
    Grib, step_hours, Component, GribError, GribErrorV, generic, lemma_prepend_text_twice, prepend_text,
    text_result,
};
use crate::text::{
    ascii_prefix, substring, contains, dec, find_in, hours_from, lemma_hours_last, lemma_hours_rising, lemma_rising_join, rising_within, is_two, parse_usize, parse_usize_spec, push_char,
    push_dec, split_lines, split_ws, str_chars, strings_view, lines, words,
};

verus! {

/// The text `"param": "<k>"` that marks the line of parameter `k` in an index file.
pub open spec fn param_pattern(k: Seq<char>) -> Seq<char> {
    "\"param\": \""@ + k + "\""@
}

/// Whether `line` describes one of the parameters `keys`.
pub open spec fn line_selected(line: Seq<char>, keys: Seq<Seq<char>>) -> bool {
    exists|j: int| 0 <= j < keys.len() && contains(line, #[trigger] param_pattern(keys[j]))
}

/// The position of the first of `parts` from `from` on that contains `name`.
pub open spec fn first_with(parts: Seq<Seq<char>>, name: Seq<char>, from: int) -> Option<int>
    decreases parts.len() - from,
{
    if from < 0 || from >= parts.len() {
        None
    } else if contains(parts[from], name) {
        Some(from)
    } else {
        first_with(parts, name, from + 1)
    }
}

/// A word without its last character (its trailing comma or brace).
pub open spec fn drop_last_char(w: Seq<char>) -> Seq<char> {
    if w.len() > 0 { w.drop_last() } else { w }
}

/// The number that follows the first word containing `name`; `missing` when no word does.
pub open spec fn field_of(parts: Seq<Seq<char>>, name: Seq<char>, missing: Seq<char>) -> Result<int, GribErrorV> {
    match first_with(parts, name, 0) {
        None => Err(GribErrorV::Generic(missing)),
        Some(pos) => if pos + 1 >= parts.len() {
            Err(GribErrorV::Generic("Index file error: Missing value after _offset"@))
        } else {
            match parse_usize_spec(drop_last_char(parts[pos + 1])) {
                Err(k) => Err(GribErrorV::ParseIntError(k)),
                Ok(v) => Ok(v),
            }
        },
    }
}

/// The byte range `offset-end,` of the layer that an index line describes: from its
/// `_offset` to its `_offset` plus `_length`, minus one.
pub open spec fn line_range(line: Seq<char>) -> Result<Seq<char>, GribErrorV> {
    let parts = words(line);
    match field_of(parts, "_offset"@, "Index file error: Missing _offset in index file"@) {
        Err(e) => Err(e),
        Ok(offset) => match field_of(parts, "_length"@, "Index file error: Missing _length in index file"@) {
            Err(e) => Err(e),
            Ok(length) => if length + offset > usize::MAX || length + offset == 0 {
                Err(GribErrorV::Malformed)
            } else {
                Ok(dec(offset as nat) + "-"@ + dec((length + offset - 1) as nat) + ","@)
            },
        },
    }
}

/// The ranges of the lines `ls` that describe one of `keys`, in order.
pub open spec fn index_ranges(ls: Seq<Seq<char>>, keys: Seq<Seq<char>>) -> Result<Seq<char>, GribErrorV>
    decreases ls.len(),
{
    if ls.len() == 0 {
        Ok(seq![])
    } else if line_selected(ls[0], keys) {
        match line_range(ls[0]) {
            Err(e) => Err(e),
            Ok(r) => prepend_text(r, index_ranges(ls.drop_first(), keys)),
        }
    } else {
        index_ranges(ls.drop_first(), keys)
    }
}

/// The byte ranges (`o1-e1,o2-e2,...`) of the layers `keys` in an ECMWF index file; an
/// error when no line describes one of them.
pub open spec fn spec_parse_index(keys: Seq<Seq<char>>, index: Seq<char>) -> Result<Seq<char>, GribErrorV> {
    match index_ranges(lines(index), keys) {
        Err(e) => Err(e),
        Ok(r) => if r.len() == 0 {
            Err(GribErrorV::Generic("Unexpected index file content"@))
        } else {
            Ok(r.drop_last())
        },
    }
}

/// The ECMWF names of the parameters of a component.
pub open spec fn component_aliases(c: Component) -> Seq<Seq<char>> {
    match c {
        Component::Wind => seq!["10v"@, "10u"@],
        Component::WindGust => seq!["10fg"@],
        Component::Pressure => seq!["sp"@],
        Component::CloudCover => seq!["tcc"@],
    }
}

/// The ECMWF names of the parameters of the components, in order.
pub open spec fn aliases(cs: Seq<Component>) -> Seq<Seq<char>>
    decreases cs.len(),
{
    if cs.len() == 0 {
        seq![]
    } else {
        aliases(cs.drop_last()) + component_aliases(cs.last())
    }
}

/// The characters of the text that marks parameter `k`.
fn pattern_of(k: &Vec<char>) -> (v: Vec<char>)
    ensures
        v@ == param_pattern(k@),
{
    let mut v = str_chars("\"param\": \"");
    let mut i: usize = 0;
    let ghost start = v@;
    while i < k.len()
        invariant
            i <= k@.len(),
            v@ == start + k@.take(i as int),
        decreases k.len() - i,
    {
        v.push(k[i]);
        i = i + 1;
        assert(v@ =~= start + k@.take(i as int));
    }
    v.push('"');
    proof {
        reveal_strlit("\"");
    }
    assert(k@.take(k@.len() as int) =~= k@);
    assert(v@ =~= param_pattern(k@));
    v
}

/// Whether `line` describes one of the parameters `keys`.
fn selects(line: &Vec<char>, keys: &Vec<Vec<char>>) -> (b: bool)
    ensures
        b == line_selected(line@, keys@.map_values(|k: Vec<char>| k@)),
{
    let ghost kv = keys@.map_values(|k: Vec<char>| k@);
    let mut j: usize = 0;
    while j < keys.len()
        invariant
            j <= keys@.len(),
            kv == keys@.map_values(|k: Vec<char>| k@),
            forall|m: int| 0 <= m < j ==> !contains(line@, #[trigger] param_pattern(kv[m])),
        decreases keys.len() - j,
    {
        let pat = pattern_of(&keys[j]);
        assert(kv[j as int] == keys@[j as int]@);
        if find_in(line.as_slice(), pat.as_slice()) {
            return true;
        }
        j = j + 1;
    }
    false
}

/// The value that follows the first word containing `name`.
fn field_value(parts: &Vec<Vec<char>>, name: &str, missing: &str) -> (r: Result<usize, GribError>)
    ensures
        match r {
            Ok(v) => field_of(parts@.map_values(|w: Vec<char>| w@), name@, missing@) == Ok::<int, GribErrorV>(v as int),
            Err(e) => field_of(parts@.map_values(|w: Vec<char>| w@), name@, missing@) == Err::<int, GribErrorV>(e@),
        },
{
    let ghost pv = parts@.map_values(|w: Vec<char>| w@);
    let name_chars = str_chars(name);
    let mut pos: usize = 0;
    while pos < parts.len() && !find_in(parts[pos].as_slice(), name_chars.as_slice())
        invariant
            pos <= parts@.len(),
            pv == parts@.map_values(|w: Vec<char>| w@),
            name_chars@ == name@,
            first_with(pv, name@, 0) == first_with(pv, name@, pos as int),
        decreases parts.len() - pos,
    {
        pos = pos + 1;
    }
    if pos == parts.len() {
        return Err(generic(String::from_str(missing)));
    }
    if pos + 1 >= parts.len() {
        return Err(generic(String::from_str("Index file error: Missing value after _offset")));
    }
    let w = &parts[pos + 1];
    assert(pv[pos + 1] == w@);
    let mut cut: Vec<char> = Vec::new();
    if w.len() > 0 {
        let mut i: usize = 0;
        while i + 1 < w.len()
            invariant
                i + 1 <= w@.len(),
                cut@ == w@.take(i as int),
            decreases w.len() - i,
        {
            cut.push(w[i]);
            i = i + 1;
            assert(cut@ =~= w@.take(i as int));
        }
        assert(cut@ =~= drop_last_char(w@));
    } else {
        assert(cut@ =~= drop_last_char(w@));
    }
    match parse_usize(cut.as_slice()) {
        Ok(v) => Ok(v),
        Err(k) => Err(GribError::ParseIntError(k)),
    }
}

/// The byte range of the layer that an index line describes.
fn range_of_line(line: &Vec<char>) -> (r: Result<String, GribError>)
    ensures
        text_result(r) == line_range(line@),
{
    let parts = split_ws(line.as_slice());
    let offset = match field_value(&parts, "_offset", "Index file error: Missing _offset in index file") {
        Ok(v) => v,
        Err(e) => return Err(e),
    };
    let length = match field_value(&parts, "_length", "Index file error: Missing _length in index file") {
        Ok(v) => v,
        Err(e) => return Err(e),
    };
    if length > usize::MAX - offset || length + offset == 0 {
        return Err(GribError::Malformed);
    }
    let end = length + offset - 1;
    let mut r = String::new();
    push_dec(&mut r, offset as u64);
    r.append("-");
    push_dec(&mut r, end as u64);
    r.append(",");
    Ok(r)
}

/// Reads, from an ECMWF index file, the byte ranges of the layers `keys`, as
/// `offset-end` pairs separated by commas.
pub fn parse_index(keys: Vec<String>, index: String) -> (r: Result<String, GribError>)
    ensures
        text_result(r) == spec_parse_index(keys@.map_values(|k: String| k@), index@),
{
    let ghost kv = keys@.map_values(|k: String| k@);
    let mut key_chars: Vec<Vec<char>> = Vec::new();
    let mut j: usize = 0;
    while j < keys.len()
        invariant
            j <= keys@.len(),
            kv == keys@.map_values(|k: String| k@),
            key_chars@.map_values(|k: Vec<char>| k@) == kv.take(j as int),
        decreases keys.len() - j,
    {
        let ghost before = key_chars@.map_values(|k: Vec<char>| k@);
        let kc = str_chars(keys[j].as_str());
        assert(kc@ == kv[j as int]);
        key_chars.push(kc);
        assert(key_chars@.map_values(|k: Vec<char>| k@) =~= before.push(kc@));
        assert(kv.take(j + 1) =~= kv.take(j as int).push(kv[j as int]));
        j = j + 1;
        assert(key_chars@.map_values(|k: Vec<char>| k@) =~= kv.take(j as int));
    }
    assert(kv.take(j as int) =~= kv);
    let text = str_chars(index.as_str());
    let ls = split_lines(text.as_slice());
    let ghost lv = ls@.map_values(|l: Vec<char>| l@);
    let mut ranges = String::new();
    let mut i: usize = 0;
    assert(lv.skip(0) =~= lv);
    assert(prepend_text(ranges@, index_ranges(lv, kv)) == index_ranges(lv, kv)) by {
        match index_ranges(lv, kv) {
            Ok(x) => { assert(ranges@ + x =~= x); },
            Err(_) => {},
        }
    }
    while i < ls.len()
        invariant
            i <= ls@.len(),
            lv == ls@.map_values(|l: Vec<char>| l@),
            lv == lines(index@),
            kv == key_chars@.map_values(|k: Vec<char>| k@),
            kv == keys@.map_values(|k: String| k@),
            index_ranges(lv, kv) == prepend_text(ranges@, index_ranges(lv.skip(i as int), kv)),
        decreases ls.len() - i,
    {
        let ghost rest = lv.skip(i as int);
        assert(rest[0] == ls@[i as int]@);
        assert(rest.drop_first() =~= lv.skip(i + 1));
        if selects(&ls[i], &key_chars) {
            assert(line_selected(rest[0], kv));
            match range_of_line(&ls[i]) {
                Err(e) => {
                    assert(index_ranges(rest, kv) == Err::<Seq<char>, GribErrorV>(e@));
                    return Err(e);
                },
                Ok(r) => {
                    proof {
                        lemma_prepend_text_twice(ranges@, r@, index_ranges(lv.skip(i + 1), kv));
                    }
                    ranges.append(r.as_str());
                },
            }
        }
        i = i + 1;
    }
    assert(lv.skip(i as int) =~= Seq::<Seq<char>>::empty());
    assert(ranges@ + seq![] =~= ranges@);
    let chars = str_chars(ranges.as_str());
    if chars.len() == 0 {
        return Err(generic(String::from_str("Unexpected index file content")));
    }
    let mut out = String::new();
    let mut k: usize = 0;
    while k + 1 < chars.len()
        invariant
            k + 1 <= chars@.len(),
            out@ == chars@.take(k as int),
        decreases chars.len() - k,
    {
        push_char(&mut out, chars[k]);
        k = k + 1;
        assert(out@ =~= chars@.take(k as int));
    }
    assert(out@ =~= ranges@.drop_last());
    Ok(out)
}

} // verus!

verus! {

/// The host that publishes the ECMWF open data.
pub const ECMWF_HOST: &'static str = "ecmwf-forecasts.s3.eu-central-1.amazonaws.com";

/// What the URLs are for: finding the latest run, or fetching its data.
#[derive(Clone, Copy, Debug, PartialEq, Eq, Structural)]
pub enum UrlType {
    CheckAvailability,
    GribData,
}

/// The dataset of a run: the 06 and 18 runs are published as `scda`, the others as `oper`.
pub open spec fn dataset(run_h: Seq<char>) -> Seq<char> {
    if run_h == "18"@ || run_h == "06"@ { "scda"@ } else { "oper"@ }
}

/// The URL of the forecast file of run `run_d` (`YYYYMMDD`) at `run_h` (`HH`) for the
/// forecast hour `hour`.
pub open spec fn ecmwf_url(run_d: Seq<char>, run_h: Seq<char>, hour: int) -> Seq<char> {
    "https://"@ + ECMWF_HOST@ + "/"@ + run_d + "/"@ + run_h + "z/ifs/0p25/"@ + dataset(run_h)
        + "/"@ + run_d + run_h + "0000-"@ + dec(hour as nat) + "h-"@ + dataset(run_h)
        + "-fc.grib2"@
}

/// The files whose presence tells which runs of `dates` are published, latest run first:
/// for each date, the 18, 12, 06 and 00 runs, at forecast hour `hour`.
pub open spec fn availability_urls(dates: Seq<Seq<char>>, hour: int) -> Seq<Seq<char>>
    decreases dates.len(),
{
    if dates.len() == 0 {
        seq![]
    } else {
        seq![
            ecmwf_url(dates[0], "18"@, hour),
            ecmwf_url(dates[0], "12"@, hour),
            ecmwf_url(dates[0], "06"@, hour),
            ecmwf_url(dates[0], "00"@, hour),
        ] + availability_urls(dates.drop_first(), hour)
    }
}

/// The forecast hours fetched: every `step` hours (a step of 1h is served as 3h) up to
/// `days` days; with a 3h step beyond 6 days, every 3 hours up to 144h then every 6 hours.
pub open spec fn ecmwf_hours(step: int, days: int) -> Seq<int> {
    let s = if step == 1 { 3 } else { step };
    if s == 3 && days > 6 {
        hours_from(0, 144, 3) + hours_from(150, 24 * days, 6)
    } else {
        hours_from(0, 24 * days, s)
    }
}

/// The URLs of the files of run `run_d` at `run_h`, one per forecast hour.
pub open spec fn data_urls(run_d: Seq<char>, run_h: Seq<char>, hours: Seq<int>) -> Seq<Seq<char>> {
    hours.map_values(|h: int| ecmwf_url(run_d, run_h, h))
}

/// The URL of a forecast file.
fn build_url(run_d: &str, run_h: &str, hour: u64) -> (u: String)
    ensures
        u@ == ecmwf_url(run_d@, run_h@, hour as int),
{
    proof {
        reveal_strlit("18");
        reveal_strlit("06");
        assert("18"@ =~= seq!['1', '8']);
        assert("06"@ =~= seq!['0', '6']);
    }
    let scda = is_two(run_h, '1', '8') || is_two(run_h, '0', '6');
    let dataset_s = if scda { "scda" } else { "oper" };
    assert(dataset_s@ == dataset(run_h@));
    let mut u = String::new();
    u.append("https://");
    u.append(ECMWF_HOST);
    u.append("/");
    u.append(run_d);
    u.append("/");
    u.append(run_h);
    u.append("z/ifs/0p25/");
    u.append(dataset_s);
    u.append("/");
    u.append(run_d);
    u.append(run_h);
    u.append("0000-");
    push_dec(&mut u, hour);
    u.append("h-");
    u.append(dataset_s);
    u.append("-fc.grib2");
    assert(u@ =~= ecmwf_url(run_d@, run_h@, hour as int));
    u
}

/// The files whose presence tells which runs of `dates` are published, at forecast hour
/// `hour`.
pub fn check_urls(dates: &Vec<String>, hour: u64) -> (v: Vec<String>)
    ensures
        strings_view(v@) == availability_urls(strings_view(dates@), hour as int),
{
    let ghost dv = strings_view(dates@);
    let mut v: Vec<String> = Vec::new();
    let mut i: usize = 0;
    assert(dv.skip(0) =~= dv);
    assert(strings_view(v@) + availability_urls(dv, hour as int) =~= availability_urls(dv, hour as int));
    while i < dates.len()
        invariant
            i <= dates@.len(),
            dv == strings_view(dates@),
            availability_urls(dv, hour as int) == strings_view(v@) + availability_urls(dv.skip(i as int), hour as int),
        decreases dates.len() - i,
    {
        let d = dates[i].as_str();
        let ghost before = strings_view(v@);
        let ghost rest = dv.skip(i as int);
        assert(rest[0] == d@);
        assert(rest.drop_first() =~= dv.skip(i + 1));
        v.push(build_url(d, "18", hour));
        v.push(build_url(d, "12", hour));
        v.push(build_url(d, "06", hour));
        v.push(build_url(d, "00", hour));
        assert(strings_view(v@) =~= before + seq![
            ecmwf_url(d@, "18"@, hour as int),
            ecmwf_url(d@, "12"@, hour as int),
            ecmwf_url(d@, "06"@, hour as int),
            ecmwf_url(d@, "00"@, hour as int),
        ]);
        i = i + 1;
    }
    assert(dv.skip(i as int) =~= Seq::<Seq<char>>::empty());
    assert(strings_view(v@) + Seq::<Seq<char>>::empty() =~= strings_view(v@));
    v
}

/// Appends the URLs of run `run_d` at `run_h` for the forecast hours from `start` to `end`
/// every `step` hours.
fn push_hour_urls(v: &mut Vec<String>, run_d: &str, run_h: &str, start: u64, end: u64, step: u64)
    requires
        1 <= step <= 24,
        start <= u32::MAX,
        end <= u32::MAX,
    ensures
        strings_view(final(v)@) == strings_view(old(v)@) + data_urls(run_d@, run_h@, hours_from(start as int, end as int, step as int)),
{
    let mut h = start;
    let ghost all = hours_from(start as int, end as int, step as int);
    assert(strings_view(v@) + data_urls(run_d@, run_h@, all) =~= strings_view(old(v)@) + data_urls(run_d@, run_h@, all));
    while h <= end
        invariant
            1 <= step <= 24,
            end <= u32::MAX,
            h <= u32::MAX + 24,
            strings_view(v@) + data_urls(run_d@, run_h@, hours_from(h as int, end as int, step as int))
                == strings_view(old(v)@) + data_urls(run_d@, run_h@, all),
        decreases end + 24 - h,
    {
        let ghost before = strings_view(v@);
        let ghost rest = hours_from(h as int, end as int, step as int);
        assert(rest == seq![h as int] + hours_from(h + step, end as int, step as int));
        v.push(build_url(run_d, run_h, h));
        assert(data_urls(run_d@, run_h@, rest) =~= seq![ecmwf_url(run_d@, run_h@, h as int)]
            + data_urls(run_d@, run_h@, hours_from(h + step, end as int, step as int)));
        assert(strings_view(v@) =~= before.push(ecmwf_url(run_d@, run_h@, h as int)));
        h = h + step;
    }
    assert(hours_from(h as int, end as int, step as int) =~= Seq::<int>::empty());
    assert(data_urls(run_d@, run_h@, Seq::<int>::empty()) =~= Seq::<Seq<char>>::empty());
    assert(strings_view(v@) + Seq::<Seq<char>>::empty() =~= strings_view(v@));
}

} // verus!

verus! {

/// The URLs that the download goes through: the files that tell which run is the latest
/// (for the dates `chrono` gives around today), or the files of run `grib.run`, one per
/// forecast hour.
pub fn get_urls(grib: &Grib, url_type: UrlType) -> (v: Vec<String>)
    requires
        grib.days * 24 <= u32::MAX,
        url_type is GribData ==> ascii_prefix(grib.run@, 11),
    ensures
        url_type is CheckAvailability ==> exists|today: (int, int, int)|
            1 <= today.1 <= 12 && 1 <= today.2 <= 31 && strings_view(v@) == match #[trigger] dates_around(today) {
                Some(dates) => availability_urls(dates, grib.days * 24),
                None => Seq::<Seq<char>>::empty(),
            },
        url_type is GribData ==> strings_view(v@) == data_urls(
            grib.run@.subrange(0, 8),
            grib.run@.subrange(9, 11),
            ecmwf_hours(step_hours(grib.step), grib.days as int),
        ),
{
    match url_type {
        UrlType::CheckAvailability => {
            let (today, dates) = forecast_dates();
            let ghost t = ymd(today);
            match dates {
                Some(d) => {
                    let v = check_urls(&d, grib.days as u64 * 24);
                    assert(dates_around(t) == Some(strings_view(d@)));
                    v
                },
                None => {
                    let v: Vec<String> = Vec::new();
                    assert(dates_around(t) is None);
                    assert(strings_view(v@) =~= Seq::<Seq<char>>::empty());
                    v
                },
            }
        },
        UrlType::GribData => {
            let run = str_chars(grib.run.as_str());
            let run_d = substring(run.as_slice(), 0, 8);
            let run_h = substring(run.as_slice(), 9, 11);
            let mut step = grib.step.hours() as u64;
            if step == 1 {
                step = 3;
            }
            let end = 24 * grib.days as u64;
            let mut v: Vec<String> = Vec::new();
            if step == 3 && grib.days > 6 {
                push_hour_urls(&mut v, run_d.as_str(), run_h.as_str(), 0, 144, 3);
                let ghost first = strings_view(v@);
                push_hour_urls(&mut v, run_d.as_str(), run_h.as_str(), 150, end, 6);
                assert(data_urls(run_d@, run_h@, hours_from(0, 144, 3) + hours_from(150, end as int, 6))
                    =~= data_urls(run_d@, run_h@, hours_from(0, 144, 3)) + data_urls(run_d@, run_h@, hours_from(150, end as int, 6)));
                assert(strings_view(v@) =~= data_urls(run_d@, run_h@, ecmwf_hours(step_hours(grib.step), grib.days as int)));
            } else {
                push_hour_urls(&mut v, run_d.as_str(), run_h.as_str(), 0, end, step);
                assert(strings_view(v@) =~= data_urls(run_d@, run_h@, ecmwf_hours(step_hours(grib.step), grib.days as int)));
            }
            v
        },
    }
}

/// The `Range` header value (`bytes=o1-e1,o2-e2,...`) that fetches, from a file of which
/// `index` is the index, the layers of the requested components.
pub fn get_headers(index: String, components: &Vec<Component>) -> (r: Result<String, GribError>)
    ensures
        text_result(r) == (match spec_parse_index(aliases(components@), index@) {
            Ok(ranges) => if header_value_ok("bytes="@ + ranges) {
                Ok("bytes="@ + ranges)
            } else {
                Err(GribErrorV::InvalidHeaderValue)
            },
            Err(e) => Err(e),
        }),
{
    let mut keys: Vec<String> = Vec::new();
    let mut i: usize = 0;
    while i < components.len()
        invariant
            i <= components@.len(),
            strings_view(keys@) == aliases(components@.take(i as int)),
        decreases components.len() - i,
    {
        let ghost before = strings_view(keys@);
        match components[i] {
            Component::Wind => {
                keys.push(String::from_str("10v"));
                keys.push(String::from_str("10u"));
            },
            Component::WindGust => keys.push(String::from_str("10fg")),
            Component::Pressure => keys.push(String::from_str("sp")),
            Component::CloudCover => keys.push(String::from_str("tcc")),
        }
        assert(components@.take(i + 1).drop_last() =~= components@.take(i as int));
        assert(strings_view(keys@) =~= before + component_aliases(components@[i as int]));
        i = i + 1;
    }
    assert(components@.take(i as int) =~= components@);
    assert(strings_view(keys@) == keys@.map_values(|k: String| k@));
    let ranges = match parse_index(keys, index) {
        Ok(r) => r,
        Err(e) => return Err(e),
    };
    let mut h = String::from_str("bytes=");
    h.append(ranges.as_str());
    match check_header_value(h.as_str()) {
        Ok(()) => Ok(h),
        Err(_) => Err(GribError::InvalidHeaderValue),
    }
}

} // verus!

verus! {

/// Law: the ECMWF forecast hours cover the requested days: they start at 0h, rise at each
/// step by the step in use (the requested step, 3h for a requested 1h, and 6h beyond 144h
/// when a 3h step is asked for more than 6 days), never pass the last requested hour, and
/// stop less than one such step before it.
pub proof fn law_ecmwf_hours_cover_the_forecast(step: int, days: int)
    requires
        step == 1 || step == 3 || step == 6 || step == 12,
        0 <= days,
    ensures
        rising_within(ecmwf_hours(step, days), (if step <= 3 && days > 6 { 6int } else if step == 1 { 3int } else { step }), 0, 24 * days),
        ecmwf_hours(step, days)[0] == 0,
        ecmwf_hours(step, days).last() + (if step <= 3 && days > 6 { 6int } else if step == 1 { 3int } else { step }) > 24 * days,
{
    let s = if step == 1 { 3 } else { step };
    if s == 3 && days > 6 {
        let a = hours_from(0, 144, 3);
        let b = hours_from(150, 24 * days, 6);
        lemma_hours_rising(0, 144, 3, 6);
        lemma_hours_rising(150, 24 * days, 6, 6);
        lemma_hours_last(0, 48, 3);
        assert(rising_within(a, 6, 0, 24 * days));
        assert(rising_within(b, 6, 0, 24 * days));
        lemma_rising_join(a, b, 6, 0, 24 * days);
    } else {
        lemma_hours_rising(0, 24 * days, s, s);
        assert(rising_within(ecmwf_hours(step, days), s, 0, 24 * days));
    }
}

} // verus!

verus! {

/// The run hours tried on each date, latest first.
pub open spec fn run_hours() -> Seq<Seq<char>> {
    seq!["18"@, "12"@, "06"@, "00"@]
}

/// The date and the hour of a forecast file's URL lie at characters 54 to 62 and 63 to 65.
proof fn lemma_url_places(run_d: Seq<char>, run_h: Seq<char>, hour: int)
    requires
        run_d.len() == 8,
        run_h.len() == 2,
    ensures
        ecmwf_url(run_d, run_h, hour).subrange(54, 62) == run_d,
        ecmwf_url(run_d, run_h, hour).subrange(63, 65) == run_h,
{
    reveal_strlit("https://");
    reveal_strlit("ecmwf-forecasts.s3.eu-central-1.amazonaws.com");
    reveal_strlit("/");
    let u = ecmwf_url(run_d, run_h, hour);
    let pre = "https://"@ + ECMWF_HOST@ + "/"@;
    assert(pre.len() == 54);
    assert(u.subrange(54, 62) =~= run_d);
    assert(u.subrange(63, 65) =~= run_h);
}

/// Law: the availability URLs hold each date in place: for dates of 8 characters (as
/// `YYYYMMDD`), the `k`-th URL holds date `k / 4` at characters 54 to 62 and run hour
/// `k % 4` (18, 12, 06, 00) at 63 to 65, where the run found is read from.
pub proof fn law_availability_dates_in_place(dates: Seq<Seq<char>>, hour: int, k: int)
    requires
        forall|i: int| 0 <= i < dates.len() ==> (#[trigger] dates[i]).len() == 8,
        0 <= k < 4 * dates.len(),
    ensures
        availability_urls(dates, hour).len() == 4 * dates.len(),
        availability_urls(dates, hour)[k].subrange(54, 62) == dates[k / 4],
        availability_urls(dates, hour)[k].subrange(63, 65) == run_hours()[k % 4],
    decreases dates.len(),
{
    reveal_strlit("18");
    reveal_strlit("12");
    reveal_strlit("06");
    reveal_strlit("00");
    let u = availability_urls(dates, hour);
    let rest = availability_urls(dates.drop_first(), hour);
    let head = seq![
        ecmwf_url(dates[0], "18"@, hour),
        ecmwf_url(dates[0], "12"@, hour),
        ecmwf_url(dates[0], "06"@, hour),
        ecmwf_url(dates[0], "00"@, hour),
    ];
    assert(u == head + rest);
    if k < 4 {
        lemma_url_places(dates[0], run_hours()[k], hour);
        assert(u[k] == head[k]);
        assert(head[k] == ecmwf_url(dates[0], run_hours()[k], hour));
        if dates.len() > 1 {
            law_availability_dates_in_place(dates.drop_first(), hour, 0);
        } else {
            assert(rest.len() == 0);
        }
    } else {
        law_availability_dates_in_place(dates.drop_first(), hour, k - 4);
        assert(u[k] == rest[k - 4]);
        assert(dates.drop_first()[(k - 4) / 4] == dates[k / 4]);
        assert((k - 4) % 4 == k % 4);
    }
}

} // verus!

verus! {

/// The parameters of the ECMWF open data that make up each component: the wind is its
/// two components at 10 m (`10u`, `10v`), the gusts `10fg`, the pressure `sp` and the
/// cloud cover `tcc`.
pub open spec fn component_params(c: Component) -> Set<Seq<char>> {
    match c {
        Component::Wind => set!["10u"@, "10v"@],
        Component::WindGust => set!["10fg"@],
        Component::Pressure => set!["sp"@],
        Component::CloudCover => set!["tcc"@],
    }
}

proof fn lemma_component_aliases_params(c: Component, k: Seq<char>)
    ensures
        component_aliases(c).contains(k) <==> component_params(c).contains(k),
{
    let s = component_aliases(c);
    match c {
        Component::Wind => {
            if k == "10v"@ {
                assert(s[0] == k);
            } else if k == "10u"@ {
                assert(s[1] == k);
            }
        },
        _ => {
            if component_params(c).contains(k) {
                assert(s[0] == k);
            }
        },
    }
}

/// Law: the index keys of a list of components are exactly the parameters of those
/// components: a name is looked up in the index file if and only if it is a parameter of
/// one of the requested components (so asking for the wind looks up both `10u` and `10v`).
pub proof fn law_index_keys_are_component_params(cs: Seq<Component>, k: Seq<char>)
    ensures
        aliases(cs).contains(k) <==> exists|i: int| 0 <= i < cs.len() && #[trigger] component_params(cs[i]).contains(k),
    decreases cs.len(),
{
    if cs.len() > 0 {
        let init = cs.drop_last();
        law_index_keys_are_component_params(init, k);
        lemma_component_aliases_params(cs.last(), k);
        let a = aliases(init);
        let b = component_aliases(cs.last());
        assert(aliases(cs) == a + b);
        if aliases(cs).contains(k) {
            let j = choose|j: int| 0 <= j < aliases(cs).len() && aliases(cs)[j] == k;
            if j < a.len() {
                assert(a[j] == k);
                let i = choose|i: int| 0 <= i < init.len() && #[trigger] component_params(init[i]).contains(k);
                assert(cs[i] == init[i]);
            } else {
                assert(b[j - a.len()] == k);
                assert(component_params(cs[cs.len() - 1]).contains(k));
            }
        }
        if exists|i: int| 0 <= i < cs.len() && #[trigger] component_params(cs[i]).contains(k) {
            let i = choose|i: int| 0 <= i < cs.len() && #[trigger] component_params(cs[i]).contains(k);
            if i < cs.len() - 1 {
                assert(init[i] == cs[i]);
                assert(component_params(init[i]).contains(k));
                let j = choose|j: int| 0 <= j < a.len() && a[j] == k;
                assert(aliases(cs)[j] == k);
            } else {
                let j = choose|j: int| 0 <= j < b.len() && b[j] == k;
                assert(aliases(cs)[a.len() + j] == k);
            }
        }
    }
}

/// Law: an index line is selected for a list of components exactly when it marks a
/// parameter of one of them: with the wind requested, every `10u` and every `10v` line
/// yields a byte range.
pub proof fn law_selected_lines_are_component_params(cs: Seq<Component>, line: Seq<char>)
    ensures
        line_selected(line, aliases(cs)) <==> exists|i: int, k: Seq<char>|
            0 <= i < cs.len() && #[trigger] component_params(cs[i]).contains(k) && contains(line, param_pattern(k)),
{
    let keys = aliases(cs);
    if line_selected(line, keys) {
        let j = choose|j: int| 0 <= j < keys.len() && contains(line, #[trigger] param_pattern(keys[j]));
        let k = keys[j];
        assert(keys.contains(k));
        law_index_keys_are_component_params(cs, k);
        let i = choose|i: int| 0 <= i < cs.len() && #[trigger] component_params(cs[i]).contains(k);
        assert(component_params(cs[i]).contains(k) && contains(line, param_pattern(k)));
    }
    if exists|i: int, k: Seq<char>|
        0 <= i < cs.len() && #[trigger] component_params(cs[i]).contains(k) && contains(line, param_pattern(k)) {
        let (i, k) = choose|i: int, k: Seq<char>|
            0 <= i < cs.len() && #[trigger] component_params(cs[i]).contains(k) && contains(line, param_pattern(k));
        law_index_keys_are_component_params(cs, k);
        let j = choose|j: int| 0 <= j < keys.len() && keys[j] == k;
        assert(contains(line, param_pattern(keys[j])));
    }
}

} // verus!
