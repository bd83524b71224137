//! The download itself: which provider serves a model, how the requests are split by byte
//! range, how their answers are put back together, and when a request is tried again.

use vstd::prelude::*;
use crate::common::{Grib, GribError, GribErrorV, Model, is_arome, is_arpege, is_gfs};
use crate::text::{count_char, push_char, str_chars, string_from_chars, strings_view, substring};

verus! {

/// The services that the models are downloaded from.
#[derive(Clone, Copy, Debug, PartialEq, Eq, Structural)]
pub enum Provider {
    MeteoFrance,
    Noaa,
    Ecmwf,
}

/// Which service a request goes to: Météo-France for Arome and Arpege, NOAA for GFS,
/// ECMWF for its model; only GFS can go through an Iridium-Go.
pub fn provider(grib: &Grib) -> (r: Result<Provider, GribError>)
    ensures
        match r {
            Ok(p) => !(grib.iridium && !is_gfs(grib.model)) && p == (if is_arome(grib.model) || is_arpege(grib.model) {
                Provider::MeteoFrance
            } else if is_gfs(grib.model) {
                Provider::Noaa
            } else {
                Provider::Ecmwf
            }),
            Err(e) => grib.iridium && !is_gfs(grib.model) && e@ == GribErrorV::InvalidConf(
                "This model is not compatible with iridium"@,
            ),
        },
{
    if grib.iridium && !grib.model.iridium_compatible() {
        return Err(GribError::InvalidConf(String::from_str("This model is not compatible with iridium")));
    }
    match grib.model {
        Model::Arome | Model::Arome0025 | Model::AromeAntille | Model::AromeGuyane
        | Model::AromeIndien | Model::AromeNcaledonie | Model::AromePolynesie | Model::Arpege025
        | Model::Arpege100 => Ok(Provider::MeteoFrance),
        Model::Gfs025 | Model::Gfs050 | Model::Gfs100 => Ok(Provider::Noaa),
        Model::Ecmwf => Ok(Provider::Ecmwf),
    }
}

/// The number of leading characters of `s` other than `c`.
pub open spec fn until_char(s: Seq<char>, c: char) -> nat
    decreases s.len(),
{
    if s.len() == 0 || s[0] == c { 0 } else { 1 + until_char(s.drop_first(), c) }
}

/// The pieces of `s` between the occurrences of `c` (`str::split` on a character): one
/// more than there are occurrences, empty ones included.
pub open spec fn split_char(s: Seq<char>, c: char) -> Seq<Seq<char>>
    decreases s.len(),
{
    let n = until_char(s, c);
    if n >= s.len() {
        seq![s]
    } else {
        seq![s.take(n as int)] + split_char(s.skip(n + 1int), c)
    }
}

proof fn lemma_until_char_le(s: Seq<char>, c: char)
    ensures
        until_char(s, c) <= s.len(),
    decreases s.len(),
{
    if s.len() > 0 && s[0] != c {
        lemma_until_char_le(s.drop_first(), c);
    }
}

/// One request: its order among the answers, its URL, and its `Range` header if any.
pub struct Fetch {
    pub key: usize,
    pub url: String,
    pub range: Option<String>,
}

/// A request taken by its values.
pub open spec fn fetch_view(f: Fetch) -> (int, Seq<char>, Option<Seq<char>>) {
    (f.key as int, f.url@, match f.range {
        Some(r) => Some(r@),
        None => None,
    })
}

/// The requests for the byte ranges `pieces` of file `idx`, from range `r` on.
pub open spec fn range_fetches(idx: int, nb: int, url: Seq<char>, pieces: Seq<Seq<char>>, r: int) -> Seq<(int, Seq<char>, Option<Seq<char>>)>
    decreases pieces.len() - r,
{
    if r < 0 || r >= pieces.len() {
        seq![]
    } else {
        seq![(idx * nb + r, url, Some("bytes="@ + pieces[r]))] + range_fetches(idx, nb, url, pieces, r + 1)
    }
}

/// The requests of files `idx..`: one per file without a `Range` header, one per byte
/// range of the others (their order `file * ranges + range`); an error for a `Range`
/// header that is not in bytes, or an order that does not fit in a `usize`.
pub open spec fn spec_plan(urls: Seq<Seq<char>>, ranges: Seq<Option<Seq<char>>>, idx: int) -> Result<Seq<(int, Seq<char>, Option<Seq<char>>)>, GribErrorV>
    decreases urls.len() - idx,
{
    if idx < 0 || idx >= urls.len() {
        Ok(seq![])
    } else {
        let rest = spec_plan(urls, ranges, idx + 1);
        match ranges[idx] {
            None => match rest {
                Ok(t) => Ok(seq![(idx, urls[idx], None::<Seq<char>>)] + t),
                Err(e) => Err(e),
            },
            Some(h) => if !(h.len() >= 6 && h.take(6) == "bytes="@) {
                Err(GribErrorV::Generic("Unexpected non-bytes RANGE header"@))
            } else {
                let pieces = split_char(h.skip(6), ',');
                if idx * pieces.len() + pieces.len() - 1 > usize::MAX {
                    Err(GribErrorV::Malformed)
                } else {
                    match rest {
                        Ok(t) => Ok(range_fetches(idx, pieces.len() as int, urls[idx], pieces, 0) + t),
                        Err(e) => Err(e),
                    }
                }
            },
        }
    }
}

} // verus!

verus! {

/// The pieces of `s` between the occurrences of `c`.
pub fn split_on(s: &[char], c: char) -> (v: Vec<Vec<char>>)
    ensures
        v@.map_values(|w: Vec<char>| w@) == split_char(s@, c),
        v@.len() >= 1,
{
    let n = s.len();
    let mut out: Vec<Vec<char>> = Vec::new();
    let mut i: usize = 0;
    assert(s@.skip(0) =~= s@);
    assert(out@.map_values(|w: Vec<char>| w@) + split_char(s@, c) =~= split_char(s@, c));
    loop
        invariant
            n == s@.len(),
            i <= n,
            split_char(s@, c) == out@.map_values(|w: Vec<char>| w@) + split_char(s@.skip(i as int), c),
        decreases n - i,
    {
        let mut j = i;
        let mut w: Vec<char> = Vec::new();
        while j < n && s[j] != c
            invariant
                n == s@.len(),
                i <= j <= n,
                w@ == s@.subrange(i as int, j as int),
                until_char(s@.skip(i as int), c) == (j - i) + until_char(s@.skip(j as int), c),
            decreases n - j,
        {
            assert(s@.skip(j as int).drop_first() =~= s@.skip(j + 1));
            w.push(s[j]);
            j = j + 1;
            assert(w@ =~= s@.subrange(i as int, j as int));
        }
        let ghost before = out@.map_values(|x: Vec<char>| x@);
        let ghost rest = s@.skip(i as int);
        if j == n {
            assert(until_char(s@.skip(j as int), c) == 0);
            assert(rest =~= w@);
            out.push(w);
            assert(out@.map_values(|x: Vec<char>| x@) =~= before.push(rest));
            assert(split_char(rest, c) == seq![rest]);
            assert(out@.map_values(|x: Vec<char>| x@) =~= before + split_char(rest, c));
            return out;
        } else {
            assert(until_char(s@.skip(j as int), c) == 0);
            assert(rest.take((j - i) as int) =~= w@);
            assert(rest.skip((j - i) + 1) =~= s@.skip(j + 1));
            out.push(w);
            assert(out@.map_values(|x: Vec<char>| x@) =~= before.push(rest.take((j - i) as int)));
            i = j + 1;
        }
    }
}

/// `b` followed by what `r` holds, or `r`'s error.
pub open spec fn prepend_plan(
    b: Seq<(int, Seq<char>, Option<Seq<char>>)>,
    r: Result<Seq<(int, Seq<char>, Option<Seq<char>>)>, GribErrorV>,
) -> Result<Seq<(int, Seq<char>, Option<Seq<char>>)>, GribErrorV> {
    match r {
        Ok(t) => Ok(b + t),
        Err(e) => Err(e),
    }
}

/// The requests of a download: one per file without a `Range` header, one per byte range
/// of the others, in the order in which their answers are put together.
pub fn plan_fetches(urls: &Vec<String>, ranges: &Vec<Option<String>>) -> (r: Result<Vec<Fetch>, GribError>)
    requires
        urls@.len() == ranges@.len(),
    ensures
        spec_plan(
            strings_view(urls@),
            ranges@.map_values(|o: Option<String>| match o { Some(s) => Some(s@), None => None }),
            0,
        ) == (match r {
            Ok(v) => Ok(v@.map_values(|f: Fetch| fetch_view(f))),
            Err(e) => Err(e@),
        }),
{
    let ghost uv = strings_view(urls@);
    let ghost rv = ranges@.map_values(|o: Option<String>| match o { Some(s) => Some(s@), None => None });
    let mut out: Vec<Fetch> = Vec::new();
    let mut i: usize = 0;
    assert(prepend_plan(out@.map_values(|f: Fetch| fetch_view(f)), spec_plan(uv, rv, 0)) == spec_plan(uv, rv, 0)) by {
        match spec_plan(uv, rv, 0) {
            Ok(t) => { assert(out@.map_values(|f: Fetch| fetch_view(f)) + t =~= t); },
            Err(_) => {},
        }
    }
    while i < urls.len()
        invariant
            i <= urls@.len(),
            urls@.len() == ranges@.len(),
            uv == strings_view(urls@),
            rv == ranges@.map_values(|o: Option<String>| match o { Some(s) => Some(s@), None => None }),
            spec_plan(uv, rv, 0) == prepend_plan(out@.map_values(|f: Fetch| fetch_view(f)), spec_plan(uv, rv, i as int)),
        decreases urls.len() - i,
    {
        let ghost before = out@.map_values(|f: Fetch| fetch_view(f));
        match &ranges[i] {
            None => {
                out.push(Fetch { key: i, url: urls[i].clone(), range: None });
                proof {
                    let item = (i as int, uv[i as int], None::<Seq<char>>);
                    assert(out@.map_values(|f: Fetch| fetch_view(f)) =~= before.push(item));
                    match spec_plan(uv, rv, i + 1) {
                        Ok(t) => { assert(before + (seq![item] + t) =~= before.push(item) + t); },
                        Err(_) => {},
                    }
                }
            },
            Some(h) => {
                let hc = str_chars(h.as_str());
                let hl = hc.len();
                proof {
                    reveal_strlit("bytes=");
                }
                let is_bytes = hl >= 6 && hc[0] == 'b' && hc[1] == 'y' && hc[2] == 't' && hc[3] == 'e'
                    && hc[4] == 's' && hc[5] == '=';
                assert("bytes="@ =~= seq!['b', 'y', 't', 'e', 's', '=']);
                assert(is_bytes == (h@.len() >= 6 && h@.take(6) == "bytes="@)) by {
                    if h@.len() >= 6 {
                        assert(hc@ == h@);
                        if is_bytes {
                            assert(h@.take(6) =~= seq!['b', 'y', 't', 'e', 's', '=']);
                        }
                        if h@.take(6) == "bytes="@ {
                            assert(h@.take(6)[0] == 'b');
                            assert(h@.take(6)[1] == 'y');
                            assert(h@.take(6)[2] == 't');
                            assert(h@.take(6)[3] == 'e');
                            assert(h@.take(6)[4] == 's');
                            assert(h@.take(6)[5] == '=');
                        }
                    }
                }
                if !is_bytes {
                    return Err(GribError::Generic(String::from_str("Unexpected non-bytes RANGE header")));
                }
                let mut rest_chars: Vec<char> = Vec::new();
                let mut k: usize = 6;
                while k < hl
                    invariant
                        6 <= k <= hl,
                        hl == hc@.len(),
                        rest_chars@ == hc@.subrange(6, k as int),
                    decreases hl - k,
                {
                    rest_chars.push(hc[k]);
                    k = k + 1;
                    assert(rest_chars@ =~= hc@.subrange(6, k as int));
                }
                assert(rest_chars@ =~= h@.skip(6));
                let pieces = split_on(rest_chars.as_slice(), ',');
                let nb = pieces.len();
                let ghost pv = pieces@.map_values(|w: Vec<char>| w@);
                assert(i as int * nb as int + nb as int <= 340282366920938463463374607431768211455) by (nonlinear_arith)
                    requires
                        i <= 18446744073709551615,
                        nb <= 18446744073709551615,
                ;
                if (i as u128) * (nb as u128) + (nb as u128) - 1 > usize::MAX as u128 {
                    return Err(GribError::Malformed);
                }
                let mut r: usize = 0;
                let ghost start = out@.map_values(|f: Fetch| fetch_view(f));
                assert(start + range_fetches(i as int, nb as int, uv[i as int], pv, 0)
                    =~= start + range_fetches(i as int, nb as int, uv[i as int], pv, r as int));
                while r < nb
                    invariant
                        r <= nb,
                        nb == pieces@.len(),
                        pv == pieces@.map_values(|w: Vec<char>| w@),
                        i * nb + nb - 1 <= usize::MAX,
                        uv == strings_view(urls@),
                        i < urls@.len(),
                        out@.map_values(|f: Fetch| fetch_view(f)) + range_fetches(i as int, nb as int, uv[i as int], pv, r as int)
                            == start + range_fetches(i as int, nb as int, uv[i as int], pv, 0),
                    decreases nb - r,
                {
                    assert(i * nb + r <= i * nb + nb - 1);
                    let key = i * nb + r;
                    let mut hv = String::from_str("bytes=");
                    let piece = string_from_chars(pieces[r].as_slice());
                    hv.append(piece.as_str());
                    let ghost b2 = out@.map_values(|f: Fetch| fetch_view(f));
                    out.push(Fetch { key, url: urls[i].clone(), range: Some(hv) });
                    let ghost item = (key as int, uv[i as int], Some("bytes="@ + pv[r as int]));
                    assert(out@.map_values(|f: Fetch| fetch_view(f)) =~= b2.push(item));
                    assert(b2 + range_fetches(i as int, nb as int, uv[i as int], pv, r as int)
                        =~= b2.push(item) + range_fetches(i as int, nb as int, uv[i as int], pv, r + 1));
                    r = r + 1;
                }
                assert(range_fetches(i as int, nb as int, uv[i as int], pv, r as int) =~= Seq::<(int, Seq<char>, Option<Seq<char>>)>::empty());
                proof {
                    let rf = range_fetches(i as int, nb as int, uv[i as int], pv, 0);
                    assert(out@.map_values(|f: Fetch| fetch_view(f)) =~= before + rf);
                    match spec_plan(uv, rv, i + 1) {
                        Ok(t) => { assert(before + (rf + t) =~= before + rf + t); },
                        Err(_) => {},
                    }
                }
            },
        }
        i = i + 1;
    }
    assert(spec_plan(uv, rv, i as int) == Ok::<Seq<(int, Seq<char>, Option<Seq<char>>)>, GribErrorV>(seq![]));
    assert(out@.map_values(|f: Fetch| fetch_view(f)) + seq![] =~= out@.map_values(|f: Fetch| fetch_view(f)));
    Ok(out)
}

} // verus!

verus! {

/// An answer: the order of its request, and the bytes received.
pub open spec fn part_view(p: (usize, Vec<u8>)) -> (int, Seq<u8>) {
    (p.0 as int, p.1@)
}

/// `t` with `x` inserted after every element whose order is not above its own.
pub open spec fn insert_by_key(t: Seq<(int, Seq<u8>)>, x: (int, Seq<u8>)) -> Seq<(int, Seq<u8>)>
    decreases t.len(),
{
    if t.len() == 0 {
        seq![x]
    } else if t.last().0 > x.0 {
        insert_by_key(t.drop_last(), x).push(t.last())
    } else {
        t.push(x)
    }
}

/// The answers sorted by the order of their requests, those of equal order kept as they
/// came (a stable sort).
pub open spec fn sort_by_key(s: Seq<(int, Seq<u8>)>) -> Seq<(int, Seq<u8>)>
    decreases s.len(),
{
    if s.len() == 0 {
        seq![]
    } else {
        insert_by_key(sort_by_key(s.drop_last()), s.last())
    }
}

/// The bytes of the answers, one after the other.
pub open spec fn concat_parts(s: Seq<(int, Seq<u8>)>) -> Seq<u8>
    decreases s.len(),
{
    if s.len() == 0 {
        seq![]
    } else {
        concat_parts(s.drop_last()) + s.last().1
    }
}

/// Whether the orders of `s` never decrease.
pub open spec fn keys_sorted(s: Seq<(int, Seq<u8>)>) -> bool {
    forall|i: int, j: int| 0 <= i <= j < s.len() ==> s[i].0 <= s[j].0
}

/// Inserting after the elements whose order is not above: where the scan from the end
/// stops.
proof fn lemma_insert_at(t: Seq<(int, Seq<u8>)>, x: (int, Seq<u8>), j: int)
    requires
        0 <= j <= t.len(),
        forall|k: int| j <= k < t.len() ==> t[k].0 > x.0,
        j == 0 || t[j - 1].0 <= x.0,
    ensures
        insert_by_key(t, x) == t.take(j).push(x) + t.skip(j),
    decreases t.len(),
{
    if t.len() == 0 {
        assert(t.take(j).push(x) + t.skip(j) =~= seq![x]);
    } else if t.last().0 > x.0 {
        lemma_insert_at(t.drop_last(), x, j);
        assert(t.drop_last().take(j) =~= t.take(j));
        assert((t.take(j).push(x) + t.drop_last().skip(j)).push(t.last()) =~= t.take(j).push(x) + t.skip(j));
    } else {
        assert(j == t.len());
        assert(t.take(j).push(x) + t.skip(j) =~= t.push(x));
    }
}

/// Where `insert_by_key` puts `x` in `t`: after the last element whose order is not above
/// its own, once the elements above it at the end are passed.
pub open spec fn insert_pos(t: Seq<(int, Seq<u8>)>, x: (int, Seq<u8>)) -> int
    decreases t.len(),
{
    if t.len() == 0 {
        0
    } else if t.last().0 > x.0 {
        insert_pos(t.drop_last(), x)
    } else {
        t.len() as int
    }
}

/// `insert_by_key` inserts `x` at `insert_pos`, with only greater orders after it and a
/// smaller or equal order just before it.
proof fn lemma_insert_pos(t: Seq<(int, Seq<u8>)>, x: (int, Seq<u8>))
    ensures
        0 <= insert_pos(t, x) <= t.len(),
        forall|k: int| insert_pos(t, x) <= k < t.len() ==> t[k].0 > x.0,
        insert_pos(t, x) == 0 || t[insert_pos(t, x) - 1].0 <= x.0,
        insert_by_key(t, x) == t.insert(insert_pos(t, x), x),
    decreases t.len(),
{
    let j = insert_pos(t, x);
    if t.len() > 0 && t.last().0 > x.0 {
        lemma_insert_pos(t.drop_last(), x);
        assert(forall|k: int| 0 <= k < t.len() - 1 ==> t.drop_last()[k] == t[k]);
    }
    lemma_insert_at(t, x, j);
    assert(t.take(j).push(x) + t.skip(j) =~= t.insert(j, x));
}

/// Inserting by order into a sorted sequence keeps it sorted, and adds exactly the new
/// element.
proof fn lemma_insert_sorted(t: Seq<(int, Seq<u8>)>, x: (int, Seq<u8>))
    requires
        keys_sorted(t),
    ensures
        keys_sorted(insert_by_key(t, x)),
        insert_by_key(t, x).to_multiset() == t.to_multiset().insert(x),
{
    broadcast use vstd::seq_lib::group_to_multiset_ensures;
    lemma_insert_pos(t, x);
    let j = insert_pos(t, x);
    let r = t.insert(j, x);
    assert forall|a: int, b: int| 0 <= a <= b < r.len() implies r[a].0 <= r[b].0 by {
        if a < j && b < j {
        } else if a < j && b == j {
            assert(t[a].0 <= t[j - 1].0);
        } else if a < j {
            assert(r[b] == t[b - 1]);
        } else if a == j && b > j {
            assert(r[b] == t[b - 1]);
        } else if a > j {
            assert(r[a] == t[a - 1]);
            assert(r[b] == t[b - 1]);
        }
    }
}

/// The stable sort yields the answers sorted by order, each one exactly once.
proof fn lemma_sort_sorted(s: Seq<(int, Seq<u8>)>)
    ensures
        keys_sorted(sort_by_key(s)),
        sort_by_key(s).to_multiset() == s.to_multiset(),
    decreases s.len(),
{
    broadcast use vstd::seq_lib::group_to_multiset_ensures;
    if s.len() > 0 {
        lemma_sort_sorted(s.drop_last());
        lemma_insert_sorted(sort_by_key(s.drop_last()), s.last());
        assert(s.drop_last().push(s.last()) =~= s);
    }
}

/// Law: the answers are put back in the order of their requests: the reassembled answers
/// are sorted by order and are the answers received, each exactly once.
pub proof fn law_assembled_in_request_order(parts: Seq<(int, Seq<u8>)>)
    ensures
        keys_sorted(sort_by_key(parts)),
        sort_by_key(parts).to_multiset() == parts.to_multiset(),
        sort_by_key(parts).len() == parts.len(),
{
    broadcast use vstd::seq_lib::group_to_multiset_ensures;
    lemma_sort_sorted(parts);
    sort_by_key(parts).to_multiset_ensures();
    parts.to_multiset_ensures();
}

/// Law: answers that came back in the order of their requests are joined as they came.
pub proof fn law_ordered_answers_joined_as_they_came(parts: Seq<(int, Seq<u8>)>)
    requires
        keys_sorted(parts),
    ensures
        sort_by_key(parts) == parts,
    decreases parts.len(),
{
    if parts.len() > 0 {
        let d = parts.drop_last();
        assert(keys_sorted(d));
        law_ordered_answers_joined_as_they_came(d);
        if d.len() > 0 {
            assert(d.last().0 <= parts.last().0);
        }
        assert(d.push(parts.last()) =~= parts);
    }
}

/// Puts the answers back together: sorted by the order of their requests (a stable sort),
/// then their bytes one after the other.
pub fn assemble(parts: Vec<(usize, Vec<u8>)>) -> (r: Vec<u8>)
    ensures
        r@ == concat_parts(sort_by_key(parts@.map_values(|p: (usize, Vec<u8>)| part_view(p)))),
{
    let ghost pv = parts@.map_values(|p: (usize, Vec<u8>)| part_view(p));
    let mut sorted: Vec<(usize, Vec<u8>)> = Vec::new();
    let mut parts = parts;
    let n = parts.len();
    let mut i: usize = 0;
    // Take the answers in reverse, to move them out of the vector
    let mut rev: Vec<(usize, Vec<u8>)> = Vec::new();
    while parts.len() > 0
        invariant
            parts@.len() + rev@.len() == n,
            n == pv.len(),
            forall|k: int| 0 <= k < parts@.len() ==> part_view(#[trigger] parts@[k]) == pv[k],
            forall|k: int| 0 <= k < rev@.len() ==> part_view(#[trigger] rev@[k]) == pv[n - 1 - k],
        decreases parts.len(),
    {
        let p = parts.pop().unwrap();
        rev.push(p);
    }
    assert(sorted@.map_values(|p: (usize, Vec<u8>)| part_view(p)) =~= sort_by_key(pv.take(0)));
    while i < n
        invariant
            i <= n,
            n == pv.len(),
            rev@.len() == n - i,
            forall|k: int| 0 <= k < rev@.len() ==> part_view(#[trigger] rev@[k]) == pv[n - 1 - k],
            sorted@.map_values(|p: (usize, Vec<u8>)| part_view(p)) == sort_by_key(pv.take(i as int)),
        decreases n - i,
    {
        let x = rev.pop().unwrap();
        assert(part_view(x) == pv[i as int]);
        let ghost t = sorted@.map_values(|p: (usize, Vec<u8>)| part_view(p));
        let mut j = sorted.len();
        while j > 0 && sorted[j - 1].0 > x.0
            invariant
                j <= sorted@.len(),
                t == sorted@.map_values(|p: (usize, Vec<u8>)| part_view(p)),
                forall|k: int| j <= k < t.len() ==> t[k].0 > x.0,
            decreases j,
        {
            j = j - 1;
        }
        proof {
            lemma_insert_at(t, part_view(x), j as int);
            assert(pv.take(i + 1).drop_last() =~= pv.take(i as int));
            assert(pv.take(i + 1).last() == pv[i as int]);
        }
        sorted.insert(j, x);
        assert(sorted@.map_values(|p: (usize, Vec<u8>)| part_view(p)) =~= t.take(j as int).push(part_view(x)) + t.skip(j as int));
        i = i + 1;
    }
    assert(pv.take(n as int) =~= pv);
    let ghost sv = sorted@.map_values(|p: (usize, Vec<u8>)| part_view(p));
    let mut out: Vec<u8> = Vec::new();
    let mut k: usize = 0;
    assert(out@ =~= concat_parts(sv.take(0)));
    while k < sorted.len()
        invariant
            k <= sorted@.len(),
            sv == sorted@.map_values(|p: (usize, Vec<u8>)| part_view(p)),
            out@ == concat_parts(sv.take(k as int)),
        decreases sorted.len() - k,
    {
        let ghost before = out@;
        let b = &sorted[k].1;
        let mut m: usize = 0;
        while m < b.len()
            invariant
                m <= b@.len(),
                out@ == before + b@.take(m as int),
            decreases b.len() - m,
        {
            out.push(b[m]);
            m = m + 1;
            assert(out@ =~= before + b@.take(m as int));
        }
        assert(b@.take(b@.len() as int) =~= b@);
        assert(sv.take(k + 1).drop_last() =~= sv.take(k as int));
        k = k + 1;
    }
    assert(sv.take(k as int) =~= sv);
    out
}

} // verus!

verus! {

/// Whether a failed request is tried again: while fewer than `max` attempts were made
/// (five for downloads, three for the Iridium-Go).
pub fn retry_allowed(attempts: u32, max: u32) -> (b: bool)
    ensures
        b == (attempts < max),
{
    attempts < max
}

/// The name of the file a download is written to: `<model>_<run>_<step>.grib2`.
pub open spec fn spec_grib_filename(g: Grib) -> Seq<char> {
    crate::common::model_name(g.model) + "_"@ + g.run@ + "_"@ + crate::common::step_name(g.step)
        + ".grib2"@
}

/// The name of the file a download is written to.
pub fn grib_filename(grib: &Grib) -> (s: String)
    ensures
        s@ == spec_grib_filename(*grib),
{
    let mut s = String::from_str(grib.model.name());
    s.append("_");
    s.append(grib.run.as_str());
    s.append("_");
    s.append(grib.step.name());
    s.append(".grib2");
    s
}

/// The name under which the Météo-France subscription is kept (in the keyring, or in the
/// environment).
pub const SECRET_ID: &'static str = "G2S_METEOFRANCE_BEARER";

/// Which secret a model needs: the Météo-France subscription for Arome and Arpege, none
/// for the others.
pub fn secret_id(model: Model) -> (r: Option<&'static str>)
    ensures
        match r {
            Some(s) => (is_arome(model) || is_arpege(model)) && s@ == SECRET_ID@,
            None => !(is_arome(model) || is_arpege(model)),
        },
{
    match model {
        Model::Arome | Model::Arome0025 | Model::AromeAntille | Model::AromeGuyane
        | Model::AromeIndien | Model::AromeNcaledonie | Model::AromePolynesie | Model::Arpege025
        | Model::Arpege100 => Some(SECRET_ID),
        _ => None,
    }
}

} // verus!

verus! {

/// The number of requests a file makes: one without a `Range` header, one per byte range
/// with one.
pub open spec fn pieces_count(r: Option<Seq<char>>) -> int {
    match r {
        None => 1,
        Some(h) => split_char(h.skip(6), ',').len() as int,
    }
}

/// The requests for the byte ranges of a file, from range `r` on, have the orders
/// `idx * nb + r`, `idx * nb + r + 1`, ...
proof fn lemma_range_fetches_keys(idx: int, nb: int, url: Seq<char>, pieces: Seq<Seq<char>>, r: int)
    requires
        0 <= r <= pieces.len(),
    ensures
        range_fetches(idx, nb, url, pieces, r).len() == pieces.len() - r,
        forall|j: int| 0 <= j < pieces.len() - r ==> #[trigger] range_fetches(idx, nb, url, pieces, r)[j].0
            == idx * nb + r + j,
    decreases pieces.len() - r,
{
    if r < pieces.len() {
        lemma_range_fetches_keys(idx, nb, url, pieces, r + 1);
        let t = range_fetches(idx, nb, url, pieces, r);
        let rest = range_fetches(idx, nb, url, pieces, r + 1);
        assert(t == seq![(idx * nb + r, url, Some("bytes="@ + pieces[r]))] + rest);
        assert forall|j: int| 0 <= j < pieces.len() - r implies #[trigger] t[j].0 == idx * nb + r + j by {
            if j > 0 {
                assert(t[j] == rest[j - 1]);
            }
        }
    }
}

/// The requests of files `idx..` are ordered `idx * nb`, `idx * nb + 1`, ... when every file
/// makes `nb` requests.
proof fn lemma_plan_keys(urls: Seq<Seq<char>>, ranges: Seq<Option<Seq<char>>>, idx: int, nb: int)
    requires
        0 <= idx <= urls.len(),
        urls.len() == ranges.len(),
        nb >= 1,
        forall|i: int| 0 <= i < ranges.len() ==> pieces_count(#[trigger] ranges[i]) == nb,
    ensures
        spec_plan(urls, ranges, idx) matches Ok(t) ==> {
            &&& t.len() == (urls.len() - idx) * nb
            &&& forall|j: int| 0 <= j < t.len() ==> #[trigger] t[j].0 == idx * nb + j
        },
    decreases urls.len() - idx,
{
    if idx < urls.len() {
        lemma_plan_keys(urls, ranges, idx + 1, nb);
        let n = urls.len();
        assert((idx + 1) * nb == idx * nb + nb) by (nonlinear_arith);
        assert((n - idx) * nb == nb + (n - (idx + 1)) * nb) by (nonlinear_arith);
        match spec_plan(urls, ranges, idx) {
            Ok(t) => {
                let rest = spec_plan(urls, ranges, idx + 1)->Ok_0;
                match ranges[idx] {
                    None => {
                        assert(pieces_count(ranges[idx]) == 1);
                        assert(idx * nb == idx) by (nonlinear_arith)
                            requires
                                nb == 1,
                        ;
                        assert(t == seq![(idx, urls[idx], None::<Seq<char>>)] + rest);
                        assert forall|j: int| 0 <= j < t.len() implies #[trigger] t[j].0 == idx * nb + j by {
                            if j > 0 {
                                assert(t[j] == rest[j - 1]);
                            }
                        }
                    },
                    Some(h) => {
                        let pieces = split_char(h.skip(6), ',');
                        assert(pieces.len() == nb);
                        lemma_range_fetches_keys(idx, nb, urls[idx], pieces, 0);
                        let head = range_fetches(idx, nb, urls[idx], pieces, 0);
                        assert(t == head + rest);
                        assert forall|j: int| 0 <= j < t.len() implies #[trigger] t[j].0 == idx * nb + j by {
                            if j < nb {
                                assert(t[j] == head[j]);
                            } else {
                                assert(t[j] == rest[j - nb]);
                            }
                        }
                    },
                }
            },
            Err(_) => {},
        }
    } else {
        assert((urls.len() - idx) * nb == 0) by (nonlinear_arith)
            requires
                idx == urls.len(),
        ;
    }
}

/// Law: when every file makes the same number of requests (no `Range` header, or `Range`
/// headers with as many byte ranges), the requests are ordered 0, 1, 2, ... file by file,
/// range by range, so that their answers are joined in the order they were asked for.
pub proof fn law_requests_ordered_file_by_file(urls: Seq<Seq<char>>, ranges: Seq<Option<Seq<char>>>, nb: int)
    requires
        urls.len() == ranges.len(),
        nb >= 1,
        forall|i: int| 0 <= i < ranges.len() ==> pieces_count(#[trigger] ranges[i]) == nb,
        spec_plan(urls, ranges, 0) is Ok,
    ensures
        spec_plan(urls, ranges, 0)->Ok_0.len() == urls.len() * nb,
        forall|j: int| 0 <= j < spec_plan(urls, ranges, 0)->Ok_0.len() ==> #[trigger] spec_plan(
            urls,
            ranges,
            0,
        )->Ok_0[j].0 == j,
{
    lemma_plan_keys(urls, ranges, 0, nb);
    assert(0 * nb == 0) by (nonlinear_arith);
}

} // verus!

verus! {

/// Where the scan for `c` stops: on an occurrence of `c`, after which the other
/// occurrences lie; or at the end when `s` holds none.
proof fn lemma_count_until(s: Seq<char>, c: char)
    ensures
        until_char(s, c) <= s.len(),
        until_char(s, c) < s.len() ==> s[until_char(s, c) as int] == c && count_char(s, c) == 1
            + count_char(s.skip(until_char(s, c) as int + 1), c),
        until_char(s, c) == s.len() ==> count_char(s, c) == 0,
    decreases s.len(),
{
    if s.len() > 0 {
        if s[0] == c {
            assert(s.skip(1) =~= s.drop_first());
        } else {
            lemma_count_until(s.drop_first(), c);
            let n = until_char(s.drop_first(), c) as int;
            if n < s.len() - 1 {
                assert(s.drop_first().skip(n + 1) =~= s.skip(n + 2));
            }
        }
    }
}

/// Splitting on `c` gives one piece more than `c` occurs.
proof fn lemma_split_count(s: Seq<char>, c: char)
    ensures
        split_char(s, c).len() == count_char(s, c) + 1,
    decreases s.len(),
{
    lemma_count_until(s, c);
    let n = until_char(s, c) as int;
    if n < s.len() {
        lemma_split_count(s.skip(n + 1), c);
    }
}

/// Characters other than `c` in front of `s` do not change how often `c` occurs.
proof fn lemma_count_skip(s: Seq<char>, c: char, n: int)
    requires
        0 <= n <= s.len(),
        forall|k: int| 0 <= k < n ==> s[k] != c,
    ensures
        count_char(s.skip(n), c) == count_char(s, c),
    decreases n,
{
    if n > 0 {
        lemma_count_skip(s.drop_first(), c, n - 1);
        assert(s.drop_first().skip(n - 1) =~= s.skip(n));
    } else {
        assert(s.skip(0) =~= s);
    }
}

/// Law: the progress announced for an ECMWF download is the number of requests made: as
/// many files as `Range` headers, times the byte ranges of the first header, when every
/// header lists as many byte ranges.
pub proof fn law_progress_total_counts_requests(urls: Seq<Seq<char>>, ranges: Seq<Seq<char>>)
    requires
        urls.len() == ranges.len(),
        forall|i: int| 0 <= i < ranges.len() ==> count_char(#[trigger] ranges[i], ',') == count_char(
            ranges[0],
            ',',
        ),
        spec_plan(urls, ranges.map_values(|h: Seq<char>| Some(h)), 0) is Ok,
    ensures
        spec_plan(urls, ranges.map_values(|h: Seq<char>| Some(h)), 0)->Ok_0.len() == ranges.len() * (
        count_char(ranges[0], ',') + 1),
{
    reveal_strlit("bytes=");
    let rs = ranges.map_values(|h: Seq<char>| Some(h));
    let nb = count_char(ranges[0], ',') + 1int;
    if ranges.len() == 0 {
        assert(spec_plan(urls, rs, 0) == Ok::<Seq<(int, Seq<char>, Option<Seq<char>>)>, GribErrorV>(seq![]));
        assert(ranges.len() * nb == 0) by (nonlinear_arith)
            requires
                ranges.len() == 0,
        ;
    } else {
        assert forall|i: int| 0 <= i < rs.len() implies pieces_count(#[trigger] rs[i]) == nb by {
            let h = ranges[i];
            lemma_plan_header_is_bytes(urls, rs, i);
            assert(h.take(6) =~= seq!['b', 'y', 't', 'e', 's', '=']);
            assert forall|k: int| 0 <= k < 6 implies h[k] != ',' by {
                assert(h[k] == h.take(6)[k]);
            }
            lemma_count_skip(h, ',', 6);
            lemma_split_count(h.skip(6), ',');
        }
        law_requests_ordered_file_by_file(urls, rs, nb);
    }
}

/// A plan that succeeds read a bytes `Range` header from every file that has one.
proof fn lemma_plan_header_is_bytes(urls: Seq<Seq<char>>, ranges: Seq<Option<Seq<char>>>, i: int)
    requires
        0 <= i < urls.len(),
        spec_plan(urls, ranges, 0) is Ok,
        ranges[i] is Some,
    ensures
        ranges[i]->Some_0.len() >= 6,
        ranges[i]->Some_0.take(6) == "bytes="@,
{
    lemma_plan_ok_from(urls, ranges, 0, i);
}

/// A plan that succeeds from `from` on succeeds from every later file on, and reads a bytes
/// `Range` header there.
proof fn lemma_plan_ok_from(urls: Seq<Seq<char>>, ranges: Seq<Option<Seq<char>>>, from: int, i: int)
    requires
        0 <= from <= i < urls.len(),
        spec_plan(urls, ranges, from) is Ok,
    ensures
        ranges[i] matches Some(h) ==> h.len() >= 6 && h.take(6) == "bytes="@,
    decreases i - from,
{
    if from < i {
        assert(spec_plan(urls, ranges, from + 1) is Ok);
        lemma_plan_ok_from(urls, ranges, from + 1, i);
    }
}

} // verus!

verus! {

/// Whether the answers come in the order of their requests: the `k`-th has order `k`.
pub open spec fn in_request_order(s: Seq<(int, Seq<u8>)>) -> bool {
    forall|k: int| 0 <= k < s.len() ==> (#[trigger] s[k]).0 == k
}

/// Strictly rising orders counted from 0, as many as there are positions below `n`, are
/// the positions themselves.
proof fn lemma_keys_at_least(s: Seq<(int, Seq<u8>)>, k: int)
    requires
        0 <= k < s.len(),
        forall|i: int, j: int| 0 <= i < j < s.len() ==> s[i].0 < s[j].0,
        forall|i: int| 0 <= i < s.len() ==> 0 <= #[trigger] s[i].0,
    ensures
        s[k].0 >= k,
    decreases k,
{
    if k > 0 {
        lemma_keys_at_least(s, k - 1);
    }
}

proof fn lemma_keys_at_most(s: Seq<(int, Seq<u8>)>, k: int)
    requires
        0 <= k < s.len(),
        forall|i: int, j: int| 0 <= i < j < s.len() ==> s[i].0 < s[j].0,
        forall|i: int| 0 <= i < s.len() ==> #[trigger] s[i].0 < s.len(),
    ensures
        s[k].0 <= k,
    decreases s.len() - k,
{
    if k < s.len() - 1 {
        lemma_keys_at_most(s, k + 1);
    }
}

/// Law: answers that arrive in any order are put back in the order of their requests:
/// when they are the answers to requests `0, 1, 2, ...` (one each), reassembling them gives
/// exactly those answers, in that order.
pub proof fn law_answers_restored_in_request_order(parts: Seq<(int, Seq<u8>)>, ordered: Seq<(int, Seq<u8>)>)
    requires
        in_request_order(ordered),
        parts.to_multiset() == ordered.to_multiset(),
    ensures
        sort_by_key(parts) == ordered,
{
    broadcast use vstd::seq_lib::group_to_multiset_ensures;
    let s = sort_by_key(parts);
    let n = ordered.len() as int;
    lemma_sort_sorted(parts);
    s.to_multiset_ensures();
    ordered.to_multiset_ensures();
    assert(s.len() == n);
    assert(ordered.no_duplicates()) by {
        assert forall|i: int, j: int| 0 <= i < ordered.len() && 0 <= j < ordered.len() && i != j implies
            ordered[i] != ordered[j] by {
            assert(ordered[i].0 == i && ordered[j].0 == j);
        }
    }
    ordered.lemma_multiset_has_no_duplicates();
    assert forall|x: (int, Seq<u8>)| s.to_multiset().contains(x) implies s.to_multiset().count(x) == 1 by {
        assert(ordered.to_multiset().contains(x));
    }
    s.lemma_multiset_has_no_duplicates_conv();
    // Every answer is the one of the request of its order
    assert forall|k: int| 0 <= k < n implies 0 <= #[trigger] s[k].0 < n && ordered[s[k].0] == s[k] by {
        assert(s.contains(s[k]));
        assert(s.to_multiset().count(s[k]) > 0);
        assert(ordered.to_multiset().count(s[k]) > 0);
        assert(ordered.contains(s[k]));
        let j = choose|j: int| 0 <= j < ordered.len() && ordered[j] == s[k];
        assert(ordered[j].0 == j);
    }
    // The orders rise strictly: equal orders would be the same answer twice
    assert forall|i: int, j: int| 0 <= i < j < s.len() implies s[i].0 < s[j].0 by {
        assert(s[i].0 <= s[j].0);
        if s[i].0 == s[j].0 {
            assert(s[i] == ordered[s[i].0]);
            assert(s[j] == ordered[s[j].0]);
        }
    }
    assert forall|k: int| 0 <= k < n implies s[k] == ordered[k] by {
        lemma_keys_at_least(s, k);
        lemma_keys_at_most(s, k);
    }
    assert(s =~= ordered);
}

} // verus!
