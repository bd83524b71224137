//! The Météo-France models (Arome, Arpege): their runs, their layers and their limits.

pub mod config;
pub mod token;

use vstd::prelude::*;
use crate::common::{GribError, GribErrorV, Model, Step, generic, is_arome, is_arpege, text_result};
use crate::meteofrance::config::WIND_V;
use crate::pattern::{find_first, regex_first_match};
use crate::text::{
    contains, find_in, lines, push_char, replace, replace_all, split_lines, str_chars,
    string_from_chars,
};

verus! {

/// The forecast length served: Arome reaches 2 days at most and Arpege 4, and longer
/// requests are shortened.
pub fn meteofrance_days(model: Model, days: u32) -> (d: u32)
    ensures
        d == if is_arome(model) && days > 2 {
            2
        } else if is_arpege(model) && days > 4 {
            4
        } else {
            days
        },
{
    let arome = match model {
        Model::Arome | Model::Arome0025 | Model::AromeAntille | Model::AromeGuyane
        | Model::AromeIndien | Model::AromeNcaledonie | Model::AromePolynesie => true,
        _ => false,
    };
    let arpege = match model {
        Model::Arpege025 | Model::Arpege100 => true,
        _ => false,
    };
    if days > 2 && arome {
        2
    } else if days > 4 && arpege {
        4
    } else {
        days
    }
}

/// The step served: only `Arpege025` serves a 1h step among the Arpege models; a 1h step
/// asked of `Arpege100` becomes 3h.
pub fn meteofrance_step(model: Model, step: Step) -> (s: Step)
    ensures
        s == if model is Arpege100 && step is H1 { Step::H3 } else { step },
{
    match (model, step) {
        (Model::Arpege100, Step::H1) => Step::H3,
        _ => step,
    }
}

/// The lines of `ls` that list a wind layer, in order.
pub open spec fn wind_lines(ls: Seq<Seq<char>>) -> Seq<Seq<char>> {
    ls.filter(|l: Seq<char>| contains(l, WIND_V@))
}

/// The two last lines of the capabilities listing that name a wind layer, the latest run
/// last; `None` when there are fewer than two.
pub open spec fn spec_last_two(text: Seq<char>) -> Option<(Seq<char>, Seq<char>)> {
    let w = wind_lines(lines(text));
    if w.len() >= 2 { Some((w[w.len() - 2], w[w.len() - 1])) } else { None }
}

/// The two last lines of the capabilities listing that name a wind layer.
pub fn last_two_wind_lines(text: &str) -> (r: Option<(String, String)>)
    ensures
        match r {
            Some((a, b)) => spec_last_two(text@) == Some((a@, b@)),
            None => spec_last_two(text@) is None,
        },
{
    let chars = str_chars(text);
    let ls = split_lines(chars.as_slice());
    let ghost lv = ls@.map_values(|l: Vec<char>| l@);
    let wind = str_chars(WIND_V);
    let mut found: Vec<usize> = Vec::new();
    let mut i: usize = 0;
    while i < ls.len()
        invariant
            i <= ls@.len(),
            lv == ls@.map_values(|l: Vec<char>| l@),
            wind@ == WIND_V@,
            found@.map_values(|k: usize| lv[k as int]) == wind_lines(lv.take(i as int)),
            forall|j: int| 0 <= j < found@.len() ==> #[trigger] found@[j] < i,
        decreases ls.len() - i,
    {
        let ghost before = found@.map_values(|k: usize| lv[k as int]);
        assert(lv.take(i + 1) =~= lv.take(i as int).push(lv[i as int]));
        proof {
            lv.take(i as int).lemma_filter_push(lv[i as int], |l: Seq<char>| contains(l, WIND_V@));
        }
        if find_in(ls[i].as_slice(), wind.as_slice()) {
            found.push(i);
            assert(found@.map_values(|k: usize| lv[k as int]) =~= before.push(lv[i as int]));
        }
        i = i + 1;
    }
    assert(lv.take(i as int) =~= lv);
    let n = found.len();
    if n < 2 {
        return None;
    }
    let a = string_from_chars(ls[found[n - 2]].as_slice());
    let b = string_from_chars(ls[found[n - 1]].as_slice());
    Some((a, b))
}

/// What one fetch of the capabilities listing (the `attempt`-th, from 1) leads to: the two
/// last wind lines when it lists two; otherwise another attempt, or after the third an
/// error.
pub fn capabilities_outcome(attempt: u32, text: &str) -> (r: Result<Option<(String, String)>, GribError>)
    ensures
        match r {
            Ok(Some((a, b))) => spec_last_two(text@) == Some((a@, b@)),
            Ok(None) => spec_last_two(text@) is None && attempt < 3,
            Err(e) => spec_last_two(text@) is None && attempt >= 3 && e@ == GribErrorV::Generic(
                "Unable to find the latest availables forecasts"@,
            ),
        },
{
    match last_two_wind_lines(text) {
        Some(p) => Ok(Some(p)),
        None => if attempt >= 3 {
            Err(generic(String::from_str("Unable to find the latest availables forecasts")))
        } else {
            Ok(None)
        },
    }
}

/// The run downloaded: the latest when its last layer is already published, the one
/// before otherwise.
pub fn chosen_run(latest: String, previous: String, latest_complete: bool) -> (r: String)
    ensures
        r@ == if latest_complete { latest@ } else { previous@ },
{
    if latest_complete { latest } else { previous }
}

/// The run date that a line of the capabilities listing names (`YYYY-MM-DDTHH.MM.SSZ`).
pub open spec fn spec_extract_date(line: Seq<char>) -> Result<Seq<char>, GribErrorV> {
    match regex_first_match(r"\d{4}-\d{2}-\d{2}T\d{2}\.\d{2}\.\d{2}Z"@, line) {
        Err(e) => Err(GribErrorV::Regex(e)),
        Ok(Some(m)) => Ok(m),
        Ok(None) => Err(GribErrorV::Generic("Couldn't find latest forecast available from: "@ + line)),
    }
}

/// The run date that a line of the capabilities listing names.
pub fn extract_date(line: &str) -> (r: Result<String, GribError>)
    ensures
        text_result(r) == spec_extract_date(line@),
{
    match find_first(r"\d{4}-\d{2}-\d{2}T\d{2}\.\d{2}\.\d{2}Z", line) {
        Err(e) => Err(GribError::Regex(e)),
        Ok(Some(m)) => Ok(m),
        Ok(None) => {
            let mut msg = String::from_str("Couldn't find latest forecast available from: ");
            msg.append(line);
            Err(generic(msg))
        },
    }
}

/// The two latest runs, the latest first, from the two last wind lines (the latest last).
pub fn last_two_runs(older: &str, newer: &str) -> (r: Result<(String, String), GribError>)
    ensures
        match r {
            Ok((a, b)) => spec_extract_date(newer@) == Ok::<Seq<char>, GribErrorV>(a@)
                && spec_extract_date(older@) == Ok::<Seq<char>, GribErrorV>(b@),
            Err(e) => spec_extract_date(newer@) == Err::<Seq<char>, GribErrorV>(e@) || (
                spec_extract_date(newer@) is Ok && spec_extract_date(older@) == Err::<Seq<char>, GribErrorV>(e@)),
        },
{
    let latest = match extract_date(newer) {
        Ok(d) => d,
        Err(e) => return Err(e),
    };
    let previous = match extract_date(older) {
        Ok(d) => d,
        Err(e) => return Err(e),
    };
    Ok((latest, previous))
}

/// A run date `1970-01-01T00.00.00Z` written as in file names: `19700101-00Z`.
pub open spec fn spec_run_name(run: Seq<char>) -> Seq<char> {
    let s = replace_all(replace_all(run, "-"@, ""@), "T"@, "-"@);
    (if s.len() > 11 { s.take(11) } else { s }).push('Z')
}

/// A run date written as in file names.
pub fn run_name(run: &str) -> (r: String)
    ensures
        r@ == spec_run_name(run@),
{
    proof {
        reveal_strlit("-");
        reveal_strlit("T");
    }
    let a = replace(run, "-", "");
    let b = replace(a.as_str(), "T", "-");
    let c = str_chars(b.as_str());
    let n = if c.len() > 11 { 11 } else { c.len() };
    let mut r = String::new();
    let mut i: usize = 0;
    while i < n
        invariant
            n <= c@.len(),
            i <= n,
            r@ == c@.take(i as int),
        decreases n - i,
    {
        push_char(&mut r, c[i]);
        i = i + 1;
        assert(r@ =~= c@.take(i as int));
    }
    push_char(&mut r, 'Z');
    assert(c@.take(n as int) =~= (if c@.len() > 11 { c@.take(11) } else { c@ }));
    r
}

/// Météo-France serves at most 100 requests a minute: the layers are fetched in chunks of
/// 100, each chunk as a range `[start, end)` of the layer list.
pub open spec fn spec_chunks(total: int, from: int) -> Seq<(int, int)>
    decreases total - from,
{
    if from >= total {
        seq![]
    } else {
        let end = if total - from > 100 { from + 100 } else { total };
        seq![(from, end)] + spec_chunks(total, end)
    }
}

/// The chunks of 100 layers that the layers are fetched in.
pub fn chunks(total: usize) -> (v: Vec<(usize, usize)>)
    ensures
        v@.map_values(|c: (usize, usize)| (c.0 as int, c.1 as int)) == spec_chunks(total as int, 0),
{
    let mut v: Vec<(usize, usize)> = Vec::new();
    let mut from: usize = 0;
    assert(v@.map_values(|c: (usize, usize)| (c.0 as int, c.1 as int)) + spec_chunks(total as int, 0) =~= spec_chunks(total as int, 0));
    while from < total
        invariant
            from <= total,
            v@.map_values(|c: (usize, usize)| (c.0 as int, c.1 as int)) + spec_chunks(total as int, from as int)
                == spec_chunks(total as int, 0),
        decreases total - from,
    {
        let end = if total - from > 100 { from + 100 } else { total };
        let ghost before = v@.map_values(|c: (usize, usize)| (c.0 as int, c.1 as int));
        v.push((from, end));
        assert(v@.map_values(|c: (usize, usize)| (c.0 as int, c.1 as int)) =~= before.push((from as int, end as int)));
        assert(before + spec_chunks(total as int, from as int) =~= before.push((from as int, end as int)) + spec_chunks(total as int, end as int));
        from = end;
    }
    assert(spec_chunks(total as int, from as int) =~= Seq::<(int, int)>::empty());
    assert(v@.map_values(|c: (usize, usize)| (c.0 as int, c.1 as int)) + Seq::<(int, int)>::empty() =~= v@.map_values(|c: (usize, usize)| (c.0 as int, c.1 as int)));
    v
}



/// How the layers are fetched: all at once below 100 layers, otherwise in the chunks of
/// 100 of `spec_chunks`; each batch as a range `[start, end)` of the layer list, and
/// whether a minute's pause follows it (after every batch but the last).
pub open spec fn spec_batches(total: int) -> Seq<(int, int, bool)> {
    let b = if total < 100 { seq![(0int, total)] } else { spec_chunks(total, 0) };
    Seq::new(b.len(), |k: int| (b[k].0, b[k].1, k < b.len() - 1))
}

/// The batches that the layers are fetched in.
pub fn download_batches(total: usize) -> (v: Vec<(usize, usize, bool)>)
    ensures
        v@.map_values(|c: (usize, usize, bool)| (c.0 as int, c.1 as int, c.2)) == spec_batches(total as int),
{
    let ranges = if total < 100 {
        let mut r: Vec<(usize, usize)> = Vec::new();
        r.push((0, total));
        r
    } else {
        chunks(total)
    };
    let ghost b = if total < 100 { seq![(0int, total as int)] } else { spec_chunks(total as int, 0) };
    assert(ranges@.map_values(|c: (usize, usize)| (c.0 as int, c.1 as int)) =~= b);
    let n = ranges.len();
    let mut v: Vec<(usize, usize, bool)> = Vec::new();
    let mut k: usize = 0;
    while k < n
        invariant
            k <= n,
            n == ranges@.len(),
            b == ranges@.map_values(|c: (usize, usize)| (c.0 as int, c.1 as int)),
            b == (if total < 100 { seq![(0int, total as int)] } else { spec_chunks(total as int, 0) }),
            v@.map_values(|c: (usize, usize, bool)| (c.0 as int, c.1 as int, c.2)) == spec_batches(total as int).take(k as int),
        decreases n - k,
    {
        let (a, e) = ranges[k];
        assert(b[k as int] == (a as int, e as int));
        assert(spec_batches(total as int).len() == n);
        assert(spec_batches(total as int)[k as int] == (a as int, e as int, k + 1 < n));
        let ghost before = v@.map_values(|c: (usize, usize, bool)| (c.0 as int, c.1 as int, c.2));
        v.push((a, e, k + 1 < n));
        assert(v@.map_values(|c: (usize, usize, bool)| (c.0 as int, c.1 as int, c.2)) =~= before.push((a as int, e as int, k + 1 < n)));
        assert(spec_batches(total as int).take(k + 1) =~= spec_batches(total as int).take(k as int).push(spec_batches(total as int)[k as int]));
        k = k + 1;
    }
    assert(spec_batches(total as int).len() == n);
    assert(spec_batches(total as int).take(n as int) =~= spec_batches(total as int));
    v
}

} // verus!

verus! {

/// The chunks from `from` on start at `from`, follow one another, end at `total`, and hold
/// 100 layers each but the last, which holds 1 to 100.
proof fn lemma_chunks_from(total: int, from: int)
    requires
        0 <= from <= total,
    ensures
        spec_chunks(total, from).len() == 0 <==> from == total,
        from < total ==> spec_chunks(total, from)[0].0 == from,
        from < total ==> spec_chunks(total, from).last().1 == total,
        forall|i: int| 0 <= i < spec_chunks(total, from).len() ==> {
            let c = #[trigger] spec_chunks(total, from)[i];
            0 < c.1 - c.0 <= 100
        },
        forall|i: int| 0 <= i < spec_chunks(total, from).len() - 1 ==> {
            &&& #[trigger] spec_chunks(total, from)[i].1 == spec_chunks(total, from)[i + 1].0
            &&& spec_chunks(total, from)[i].1 - spec_chunks(total, from)[i].0 == 100
        },
    decreases total - from,
{
    if from < total {
        let end = if total - from > 100 { from + 100 } else { total };
        lemma_chunks_from(total, end);
        let rest = spec_chunks(total, end);
        let c = spec_chunks(total, from);
        assert(c == seq![(from, end)] + rest);
        assert forall|i: int| 0 <= i < c.len() - 1 implies {
            &&& #[trigger] c[i].1 == c[i + 1].0
            &&& c[i].1 - c[i].0 == 100
        } by {
            if i > 0 {
                assert(c[i] == rest[i - 1]);
                assert(c[i + 1] == rest[i]);
            } else {
                assert(rest.len() > 0);
                assert(c[1] == rest[0]);
            }
        }
        assert forall|i: int| 0 <= i < c.len() implies {
            let x = #[trigger] c[i];
            0 < x.1 - x.0 <= 100
        } by {
            if i > 0 {
                assert(c[i] == rest[i - 1]);
            }
        }
        if rest.len() > 0 {
            assert(c.last() == rest.last());
        }
    }
}

/// Law: the chunks of 100 layers cover every layer once, in order: they start at the first
/// layer, each starts where the one before ends, the last ends after the last layer, and
/// each holds 100 layers but the last, which holds 1 to 100.
pub proof fn law_chunks_cover_every_layer(total: int)
    requires
        0 <= total,
    ensures
        spec_chunks(total, 0).len() == 0 <==> total == 0,
        total > 0 ==> spec_chunks(total, 0)[0].0 == 0,
        total > 0 ==> spec_chunks(total, 0).last().1 == total,
        forall|i: int| 0 <= i < spec_chunks(total, 0).len() ==> {
            let c = #[trigger] spec_chunks(total, 0)[i];
            0 < c.1 - c.0 <= 100
        },
        forall|i: int| 0 <= i < spec_chunks(total, 0).len() - 1 ==> {
            &&& #[trigger] spec_chunks(total, 0)[i].1 == spec_chunks(total, 0)[i + 1].0
            &&& spec_chunks(total, 0)[i].1 - spec_chunks(total, 0)[i].0 == 100
        },
{
    lemma_chunks_from(total, 0);
}

} // verus!
