//! Where the Météo-France models lie, and the URL of each requested layer.

use vstd::prelude::*;
use crate::common::{Component, Grib, Model, Step, is_arome, is_arpege, model_name, step_hours};
use crate::text::{dec, hours_from, micro_degrees_text, push_dec, push_micro_degrees, strings_view};

verus! {

/// The URL that hands out a Météo-France token.
pub const TOKEN_URL: &'static str = "https://portail-api.meteofrance.fr/token";

/// The name of the wind layers, by which the available runs are listed.
pub const WIND_V: &'static str = "V_COMPONENT_OF_WIND__SPECIFIC_HEIGHT_LEVEL_ABOVE_GROUND___";

/// What the URLs are for: listing the available runs, or fetching the layers of one.
#[derive(Clone, Copy, Debug, PartialEq, Eq, Structural)]
pub enum UrlType {
    CheckAvailability,
    GribData,
}

/// The web coverage service of a model in the Météo-France API, after
/// `https://public-api.meteofrance.fr/public/`: the Arome service of each area, and for
/// Arpege the worldwide services at 0.25° (`Arpege025`) and 1.00° (`Arpege100`), the
/// resolutions that the README gives them; `None` for other models. The Arpege service
/// names follow those of the Arome services (`MF-NWP-<family>-<model>-<resolution's
/// digits>-<area>`): the sources name no Arpege service.
pub open spec fn coverage(m: Model) -> Option<Seq<char>> {
    match m {
        Model::Arome => Some("arome/1.0/wcs/MF-NWP-HIGHRES-AROME-001-FRANCE"@),
        Model::Arome0025 => Some("arome/1.0/wcs/MF-NWP-HIGHRES-AROME-0025-FRANCE"@),
        Model::AromeAntille => Some("arome/1.0/wcs/MF-NWP-HIGHRES-AROME-OM-0025-ANTIL"@),
        Model::AromeGuyane => Some("arome/1.0/wcs/MF-NWP-HIGHRES-AROME-OM-0025-GUYANE"@),
        Model::AromeIndien => Some("arome/1.0/wcs/MF-NWP-HIGHRES-AROME-OM-0025-INDIEN"@),
        Model::AromeNcaledonie => Some("arome/1.0/wcs/MF-NWP-HIGHRES-AROME-OM-0025-NCALED"@),
        Model::AromePolynesie => Some("arome/1.0/wcs/MF-NWP-HIGHRES-AROME-OM-0025-POLYN"@),
        Model::Arpege025 => Some("arpege/1.0/wcs/MF-NWP-GLOBAL-ARPEGE-025-GLOBE"@),
        Model::Arpege100 => Some("arpege/1.0/wcs/MF-NWP-GLOBAL-ARPEGE-100-GLOBE"@),
        _ => None,
    }
}

/// The web coverage service of a model.
pub open spec fn wcs_base(cov: Seq<char>) -> Seq<char> {
    "https://public-api.meteofrance.fr/public/"@ + cov + "-WCS/"@
}

/// The URL that lists the runs of a model.
pub open spec fn capabilities_url(cov: Seq<char>) -> Seq<char> {
    wcs_base(cov) + "GetCapabilities?service=WCS&version=1.3.0&language=eng"@
}

/// The URL of a layer at `time` seconds after the run, over the requested area.
pub open spec fn time_url(cov: Seq<char>, g: Grib, time: int) -> Seq<char> {
    wcs_base(cov) + "GetCoverage?service=WCS&version=2.0.1&format=application/wmo-grib"@
        + "&subset=time("@ + dec(time as nat) + ")&subset=lat("@ + micro_degrees_text(
        g.latitude_min as int,
    ) + ","@ + micro_degrees_text(g.latitude_max as int) + ")&subset=long("@ + micro_degrees_text(
        g.longitude_min as int,
    ) + ","@ + micro_degrees_text(g.longitude_max as int) + ")"@
}

/// The URLs of a component at one time: the wind as its U then V layers at 10 m; the
/// gusts and the cloud cover, which the first time lacks, and the pressure at sea level.
pub open spec fn layer_urls(c: Component, time: int, tu: Seq<char>, run: Seq<char>) -> Seq<Seq<char>> {
    match c {
        Component::Wind => seq![
            tu + "&coverageid=U_COMPONENT_OF_WIND__SPECIFIC_HEIGHT_LEVEL_ABOVE_GROUND___"@ + run
                + "&subset=height(10)"@,
            tu + "&coverageid=V_COMPONENT_OF_WIND__SPECIFIC_HEIGHT_LEVEL_ABOVE_GROUND___"@ + run
                + "&subset=height(10)"@,
        ],
        Component::WindGust => if time == 0 {
            seq![]
        } else {
            seq![
                tu + "&coverageid=WIND_SPEED_GUST__SPECIFIC_HEIGHT_LEVEL_ABOVE_GROUND___"@ + run
                    + "&subset=height(10)"@,
            ]
        },
        Component::Pressure => seq![tu + "&coverageid=PRESSURE__MEAN_SEA_LEVEL___"@ + run],
        Component::CloudCover => if time == 0 {
            seq![]
        } else {
            seq![tu + "&coverageid=TOTAL_CLOUD_COVER__GROUND_OR_WATER_SURFACE___"@ + run]
        },
    }
}

/// The URLs of a component at each of `times`.
pub open spec fn component_urls(cov: Seq<char>, g: Grib, c: Component, times: Seq<int>, run: Seq<char>) -> Seq<Seq<char>>
    decreases times.len(),
{
    if times.len() == 0 {
        seq![]
    } else {
        layer_urls(c, times[0], time_url(cov, g, times[0]), run) + component_urls(
            cov,
            g,
            c,
            times.drop_first(),
            run,
        )
    }
}

/// The URLs of the components `cs`, one component after the other.
pub open spec fn arome_urls(cov: Seq<char>, g: Grib, cs: Seq<Component>, times: Seq<int>, run: Seq<char>) -> Seq<Seq<char>>
    decreases cs.len(),
{
    if cs.len() == 0 {
        seq![]
    } else {
        component_urls(cov, g, cs[0], times, run) + arome_urls(cov, g, cs.drop_first(), times, run)
    }
}

/// The step between layers, in hours: a 1h step is served as 3h by `Arpege100`; among the
/// Arpege models only `Arpege025` serves hourly.
pub open spec fn mf_step_hours(m: Model, s: Step) -> int {
    if m is Arpege100 && s is H1 { 3 } else { step_hours(s) }
}

/// The times of the layers, in seconds after the run: every step up to the requested days;
/// for `Arpege025` with a 1h step beyond 2 days, every hour up to 48h then every 3 hours.
pub open spec fn layer_times(g: Grib) -> Seq<int> {
    if g.model is Arpege025 && g.step is H1 && g.days > 2 {
        hours_from(0, 172800, 3600) + hours_from(183600, 86400 * g.days, 10800)
    } else {
        hours_from(0, 86400 * g.days, 3600 * mf_step_hours(g.model, g.step))
    }
}

/// The coverage service of a model.
fn coverage_of(m: Model) -> (r: Option<&'static str>)
    ensures
        r matches Some(s) ==> coverage(m) == Some(s@),
        r is None ==> coverage(m) is None,
{
    match m {
        Model::Arome => Some("arome/1.0/wcs/MF-NWP-HIGHRES-AROME-001-FRANCE"),
        Model::Arome0025 => Some("arome/1.0/wcs/MF-NWP-HIGHRES-AROME-0025-FRANCE"),
        Model::AromeAntille => Some("arome/1.0/wcs/MF-NWP-HIGHRES-AROME-OM-0025-ANTIL"),
        Model::AromeGuyane => Some("arome/1.0/wcs/MF-NWP-HIGHRES-AROME-OM-0025-GUYANE"),
        Model::AromeIndien => Some("arome/1.0/wcs/MF-NWP-HIGHRES-AROME-OM-0025-INDIEN"),
        Model::AromeNcaledonie => Some("arome/1.0/wcs/MF-NWP-HIGHRES-AROME-OM-0025-NCALED"),
        Model::AromePolynesie => Some("arome/1.0/wcs/MF-NWP-HIGHRES-AROME-OM-0025-POLYN"),
        Model::Arpege025 => Some("arpege/1.0/wcs/MF-NWP-GLOBAL-ARPEGE-025-GLOBE"),
        Model::Arpege100 => Some("arpege/1.0/wcs/MF-NWP-GLOBAL-ARPEGE-100-GLOBE"),
        _ => None,
    }
}

/// The URL of a layer at `time` seconds after the run.
fn build_time_url(cov: &str, g: &Grib, time: u64) -> (u: String)
    ensures
        u@ == time_url(cov@, *g, time as int),
{
    let mut u = String::from_str("https://public-api.meteofrance.fr/public/");
    u.append(cov);
    u.append("-WCS/");
    u.append("GetCoverage?service=WCS&version=2.0.1&format=application/wmo-grib");
    u.append("&subset=time(");
    push_dec(&mut u, time);
    u.append(")&subset=lat(");
    push_micro_degrees(&mut u, g.latitude_min);
    u.append(",");
    push_micro_degrees(&mut u, g.latitude_max);
    u.append(")&subset=long(");
    push_micro_degrees(&mut u, g.longitude_min);
    u.append(",");
    push_micro_degrees(&mut u, g.longitude_max);
    u.append(")");
    assert(u@ =~= time_url(cov@, *g, time as int));
    u
}

/// `tu`, then `mid`, then `run`, then `end`.
fn join4(tu: &String, mid: &str, run: &str, end: &str) -> (u: String)
    ensures
        u@ == tu@ + mid@ + run@ + end@,
{
    let mut u = tu.clone();
    u.append(mid);
    u.append(run);
    u.append(end);
    u
}

/// Appends the URLs of a component at one time.
fn push_layer_urls(v: &mut Vec<String>, c: Component, time: u64, tu: &String, run: &str)
    ensures
        strings_view(final(v)@) == strings_view(old(v)@) + layer_urls(c, time as int, tu@, run@),
{
    let ghost before = strings_view(v@);
    match c {
        Component::Wind => {
            v.push(join4(tu, "&coverageid=U_COMPONENT_OF_WIND__SPECIFIC_HEIGHT_LEVEL_ABOVE_GROUND___", run, "&subset=height(10)"));
            v.push(join4(tu, "&coverageid=V_COMPONENT_OF_WIND__SPECIFIC_HEIGHT_LEVEL_ABOVE_GROUND___", run, "&subset=height(10)"));
        },
        Component::WindGust => {
            if time != 0 {
                v.push(join4(tu, "&coverageid=WIND_SPEED_GUST__SPECIFIC_HEIGHT_LEVEL_ABOVE_GROUND___", run, "&subset=height(10)"));
            }
        },
        Component::Pressure => {
            v.push(join4(tu, "&coverageid=PRESSURE__MEAN_SEA_LEVEL___", run, ""));
            proof {
                reveal_strlit("");
            }
            assert(tu@ + "&coverageid=PRESSURE__MEAN_SEA_LEVEL___"@ + run@ + ""@ =~= tu@ + "&coverageid=PRESSURE__MEAN_SEA_LEVEL___"@ + run@);
        },
        Component::CloudCover => {
            if time != 0 {
                v.push(join4(tu, "&coverageid=TOTAL_CLOUD_COVER__GROUND_OR_WATER_SURFACE___", run, ""));
                proof {
                    reveal_strlit("");
                }
                assert(tu@ + "&coverageid=TOTAL_CLOUD_COVER__GROUND_OR_WATER_SURFACE___"@ + run@ + ""@ =~= tu@ + "&coverageid=TOTAL_CLOUD_COVER__GROUND_OR_WATER_SURFACE___"@ + run@);
            }
        },
    }
    assert(strings_view(v@) =~= before + layer_urls(c, time as int, tu@, run@));
}

/// The URLs of a component over two runs of times are those over the first, then those
/// over the second.
proof fn lemma_component_urls_concat(cov: Seq<char>, g: Grib, c: Component, a: Seq<int>, b: Seq<int>, run: Seq<char>)
    ensures
        component_urls(cov, g, c, a + b, run) == component_urls(cov, g, c, a, run) + component_urls(cov, g, c, b, run),
    decreases a.len(),
{
    if a.len() == 0 {
        assert(a + b =~= b);
        assert(Seq::<Seq<char>>::empty() + component_urls(cov, g, c, b, run) =~= component_urls(cov, g, c, b, run));
    } else {
        lemma_component_urls_concat(cov, g, c, a.drop_first(), b, run);
        assert((a + b).drop_first() =~= a.drop_first() + b);
        assert((a + b)[0] == a[0]);
        let x = layer_urls(c, a[0], time_url(cov, g, a[0]), run);
        assert(x + (component_urls(cov, g, c, a.drop_first(), run) + component_urls(cov, g, c, b, run))
            =~= (x + component_urls(cov, g, c, a.drop_first(), run)) + component_urls(cov, g, c, b, run));
    }
}

/// Appends the URLs of a component at the times `start`, `start + step`, ... up to `end`.
fn push_component_times(v: &mut Vec<String>, cov: &str, grib: &Grib, c: Component, start: u64, end: u64, step: u64, run: &str)
    requires
        end <= u32::MAX,
        3600 <= step <= 43200,
        start <= end + step,
    ensures
        strings_view(final(v)@) == strings_view(old(v)@) + component_urls(cov@, *grib, c, hours_from(start as int, end as int, step as int), run@),
{
    let ghost before_c = strings_view(v@);
    let mut t: u64 = start;
    assert(strings_view(v@) + component_urls(cov@, *grib, c, hours_from(t as int, end as int, step as int), run@)
        =~= before_c + component_urls(cov@, *grib, c, hours_from(start as int, end as int, step as int), run@));
    while t <= end
        invariant
            end <= u32::MAX,
            3600 <= step <= 43200,
            t <= end + step,
            strings_view(v@) + component_urls(cov@, *grib, c, hours_from(t as int, end as int, step as int), run@)
                == before_c + component_urls(cov@, *grib, c, hours_from(start as int, end as int, step as int), run@),
        decreases end + step - t,
    {
        let ghost rest = hours_from(t as int, end as int, step as int);
        assert(rest == seq![t as int] + hours_from(t + step, end as int, step as int));
        assert(rest.drop_first() =~= hours_from(t + step, end as int, step as int));
        let ghost before = strings_view(v@);
        let tu = build_time_url(cov, grib, t);
        push_layer_urls(v, c, t, &tu, run);
        assert(strings_view(v@) + component_urls(cov@, *grib, c, hours_from(t + step, end as int, step as int), run@)
            =~= before + component_urls(cov@, *grib, c, rest, run@));
        t = t + step;
    }
    assert(hours_from(t as int, end as int, step as int) =~= Seq::<int>::empty());
    assert(strings_view(v@) + Seq::<Seq<char>>::empty() =~= strings_view(v@));
}

/// The URLs that the download of a Météo-France model goes through: the one that lists
/// the runs, or those of the layers of run `run` (one per component, time and, for the
/// wind, direction); none for a model that Météo-France does not serve.
pub fn get_urls(grib: &Grib, url_type: UrlType, run: &str) -> (v: Vec<String>)
    requires
        url_type is GribData ==> 86400 * grib.days <= u32::MAX,
    ensures
        coverage(grib.model) is None ==> v@.len() == 0,
        coverage(grib.model) matches Some(cov) ==> strings_view(v@) == (match url_type {
            UrlType::CheckAvailability => seq![capabilities_url(cov)],
            UrlType::GribData => arome_urls(cov, *grib, grib.components@, layer_times(*grib), run@),
        }),
{
    let cov = match coverage_of(grib.model) {
        Some(c) => c,
        None => return Vec::new(),
    };
    match url_type {
        UrlType::CheckAvailability => {
            let mut u = String::from_str("https://public-api.meteofrance.fr/public/");
            u.append(cov);
            u.append("-WCS/");
            u.append("GetCapabilities?service=WCS&version=1.3.0&language=eng");
            let mut v: Vec<String> = Vec::new();
            v.push(u);
            assert(strings_view(v@) =~= seq![capabilities_url(cov@)]);
            return v;
        },
        UrlType::GribData => {},
    }
    let end: u64 = 86400 * grib.days as u64;
    let split = match (grib.model, grib.step) {
        (Model::Arpege025, Step::H1) => grib.days > 2,
        _ => false,
    };
    let step_h: u64 = match (grib.model, grib.step) {
        (Model::Arpege100, Step::H1) => 3,
        _ => grib.step.hours() as u64,
    };
    let step: u64 = 3600 * step_h;
    let ghost times = layer_times(*grib);
    let ghost cs = grib.components@;
    let mut v: Vec<String> = Vec::new();
    let mut i: usize = 0;
    assert(cs.skip(0) =~= cs);
    assert(strings_view(v@) + arome_urls(cov@, *grib, cs, times, run@) =~= arome_urls(cov@, *grib, cs, times, run@));
    while i < grib.components.len()
        invariant
            i <= cs.len(),
            cs == grib.components@,
            times == layer_times(*grib),
            end == 86400 * grib.days,
            end <= u32::MAX,
            step == 3600 * mf_step_hours(grib.model, grib.step),
            split == (grib.model is Arpege025 && grib.step is H1 && grib.days > 2),
            strings_view(v@) + arome_urls(cov@, *grib, cs.skip(i as int), times, run@)
                == arome_urls(cov@, *grib, cs, times, run@),
        decreases cs.len() - i,
    {
        let c = grib.components[i];
        let ghost restc = cs.skip(i as int);
        assert(restc[0] == c);
        assert(restc.drop_first() =~= cs.skip(i + 1));
        let ghost before_c = strings_view(v@);
        if split {
            push_component_times(&mut v, cov, grib, c, 0, 172800, 3600, run);
            push_component_times(&mut v, cov, grib, c, 183600, end, 10800, run);
            proof {
                lemma_component_urls_concat(cov@, *grib, c, hours_from(0, 172800, 3600), hours_from(183600, end as int, 10800), run@);
            }
            assert(strings_view(v@) =~= before_c + component_urls(cov@, *grib, c, times, run@));
        } else {
            push_component_times(&mut v, cov, grib, c, 0, end, step, run);
        }
        assert(strings_view(v@) + arome_urls(cov@, *grib, cs.skip(i + 1), times, run@)
            =~= before_c + arome_urls(cov@, *grib, restc, times, run@));
        i = i + 1;
    }
    assert(cs.skip(i as int) =~= Seq::<Component>::empty());
    assert(strings_view(v@) + Seq::<Seq<char>>::empty() =~= strings_view(v@));
    v
}

} // verus!

verus! {

/// A letter in upper case; other characters unchanged.
pub open spec fn upper_char(c: char) -> char {
    if 'a' <= c && c <= 'z' { ((c as int) - 32) as char } else { c }
}

/// A text in upper case.
pub open spec fn upper(s: Seq<char>) -> Seq<char> {
    Seq::new(s.len(), |i: int| upper_char(s[i]))
}

/// The prefix of the web coverage services of the overseas Arome models.
pub open spec fn overseas_prefix() -> Seq<char> {
    "arome/1.0/wcs/MF-NWP-HIGHRES-AROME-OM-0025-"@
}

/// Law: each Météo-France model has a web coverage service of its own, named after it.
/// An overseas Arome model (`arome-<area>`) has the overseas service whose code is the
/// first five or six letters of its area, in upper case; `arome0025` has the 0.025° France
/// service, whose resolution digits follow `arome` in its name; `arome` the 0.01° one; an
/// Arpege model the worldwide service whose resolution digits follow `arpege` in its name.
/// The other models have none.
pub proof fn law_coverage_named_after_model(m: Model)
    ensures
        coverage(m) is Some <==> is_arome(m) || is_arpege(m),
        is_arome(m) && !(m is Arome) && !(m is Arome0025) ==> {
            let cov = coverage(m)->Some_0;
            let code = cov.skip(overseas_prefix().len() as int);
            &&& cov.take(overseas_prefix().len() as int) == overseas_prefix()
            &&& 5 <= code.len() <= 6
            &&& model_name(m).take(6) == "arome-"@
            &&& code == upper(model_name(m).skip(6)).take(code.len() as int)
        },
        m is Arome0025 ==> coverage(m)->Some_0 == "arome/1.0/wcs/MF-NWP-HIGHRES-AROME-"@
            + model_name(m).skip(5) + "-FRANCE"@,
        m is Arome ==> coverage(m)->Some_0 == "arome/1.0/wcs/MF-NWP-HIGHRES-AROME-001-FRANCE"@,
        is_arpege(m) ==> coverage(m)->Some_0 == "arpege/1.0/wcs/MF-NWP-GLOBAL-ARPEGE-"@
            + model_name(m).skip(6) + "-GLOBE"@,
{
    reveal_strlit("arome/1.0/wcs/MF-NWP-HIGHRES-AROME-OM-0025-");
    reveal_strlit("arome-");
    match m {
        Model::AromeAntille => {
            reveal_strlit("arome/1.0/wcs/MF-NWP-HIGHRES-AROME-OM-0025-ANTIL");
            reveal_strlit("arome-antille");
            let cov = coverage(m)->Some_0;
            assert(cov.take(overseas_prefix().len() as int) =~= overseas_prefix());
            assert(model_name(m).take(6) =~= "arome-"@);
            assert(cov.skip(overseas_prefix().len() as int) =~= upper(model_name(m).skip(6)).take(5));
        },
        Model::AromeGuyane => {
            reveal_strlit("arome/1.0/wcs/MF-NWP-HIGHRES-AROME-OM-0025-GUYANE");
            reveal_strlit("arome-guyane");
            let cov = coverage(m)->Some_0;
            assert(cov.take(overseas_prefix().len() as int) =~= overseas_prefix());
            assert(model_name(m).take(6) =~= "arome-"@);
            assert(cov.skip(overseas_prefix().len() as int) =~= upper(model_name(m).skip(6)).take(6));
        },
        Model::AromeIndien => {
            reveal_strlit("arome/1.0/wcs/MF-NWP-HIGHRES-AROME-OM-0025-INDIEN");
            reveal_strlit("arome-indien");
            let cov = coverage(m)->Some_0;
            assert(cov.take(overseas_prefix().len() as int) =~= overseas_prefix());
            assert(model_name(m).take(6) =~= "arome-"@);
            assert(cov.skip(overseas_prefix().len() as int) =~= upper(model_name(m).skip(6)).take(6));
        },
        Model::AromeNcaledonie => {
            reveal_strlit("arome/1.0/wcs/MF-NWP-HIGHRES-AROME-OM-0025-NCALED");
            reveal_strlit("arome-ncaledonie");
            let cov = coverage(m)->Some_0;
            assert(cov.take(overseas_prefix().len() as int) =~= overseas_prefix());
            assert(model_name(m).take(6) =~= "arome-"@);
            assert(cov.skip(overseas_prefix().len() as int) =~= upper(model_name(m).skip(6)).take(6));
        },
        Model::AromePolynesie => {
            reveal_strlit("arome/1.0/wcs/MF-NWP-HIGHRES-AROME-OM-0025-POLYN");
            reveal_strlit("arome-polynesie");
            let cov = coverage(m)->Some_0;
            assert(cov.take(overseas_prefix().len() as int) =~= overseas_prefix());
            assert(model_name(m).take(6) =~= "arome-"@);
            assert(cov.skip(overseas_prefix().len() as int) =~= upper(model_name(m).skip(6)).take(5));
        },
        Model::Arome0025 => {
            reveal_strlit("arome/1.0/wcs/MF-NWP-HIGHRES-AROME-0025-FRANCE");
            reveal_strlit("arome0025");
            reveal_strlit("arome/1.0/wcs/MF-NWP-HIGHRES-AROME-");
            reveal_strlit("-FRANCE");
            assert(coverage(m)->Some_0 =~= "arome/1.0/wcs/MF-NWP-HIGHRES-AROME-"@ + model_name(m).skip(5)
                + "-FRANCE"@);
        },
        Model::Arpege025 => {
            reveal_strlit("arpege/1.0/wcs/MF-NWP-GLOBAL-ARPEGE-025-GLOBE");
            reveal_strlit("arpege025");
            reveal_strlit("arpege/1.0/wcs/MF-NWP-GLOBAL-ARPEGE-");
            reveal_strlit("-GLOBE");
            assert(coverage(m)->Some_0 =~= "arpege/1.0/wcs/MF-NWP-GLOBAL-ARPEGE-"@ + model_name(m).skip(6)
                + "-GLOBE"@);
        },
        Model::Arpege100 => {
            reveal_strlit("arpege/1.0/wcs/MF-NWP-GLOBAL-ARPEGE-100-GLOBE");
            reveal_strlit("arpege100");
            reveal_strlit("arpege/1.0/wcs/MF-NWP-GLOBAL-ARPEGE-");
            reveal_strlit("-GLOBE");
            assert(coverage(m)->Some_0 =~= "arpege/1.0/wcs/MF-NWP-GLOBAL-ARPEGE-"@ + model_name(m).skip(6)
                + "-GLOBE"@);
        },
        _ => {},
    }
}

/// Law: no two models share a web coverage service.
pub proof fn law_coverage_distinct(m1: Model, m2: Model)
    requires
        coverage(m1) is Some,
        coverage(m2) is Some,
        m1 != m2,
    ensures
        coverage(m1)->Some_0 != coverage(m2)->Some_0,
{
    reveal_strlit("arome/1.0/wcs/MF-NWP-HIGHRES-AROME-001-FRANCE");
    reveal_strlit("arome/1.0/wcs/MF-NWP-HIGHRES-AROME-0025-FRANCE");
    reveal_strlit("arome/1.0/wcs/MF-NWP-HIGHRES-AROME-OM-0025-ANTIL");
    reveal_strlit("arome/1.0/wcs/MF-NWP-HIGHRES-AROME-OM-0025-GUYANE");
    reveal_strlit("arome/1.0/wcs/MF-NWP-HIGHRES-AROME-OM-0025-INDIEN");
    reveal_strlit("arome/1.0/wcs/MF-NWP-HIGHRES-AROME-OM-0025-NCALED");
    reveal_strlit("arome/1.0/wcs/MF-NWP-HIGHRES-AROME-OM-0025-POLYN");
    reveal_strlit("arpege/1.0/wcs/MF-NWP-GLOBAL-ARPEGE-025-GLOBE");
    reveal_strlit("arpege/1.0/wcs/MF-NWP-GLOBAL-ARPEGE-100-GLOBE");
    let c1 = coverage(m1)->Some_0;
    let c2 = coverage(m2)->Some_0;
    if c1.len() == c2.len() {
        assert(c1[c1.len() - 1] != c2[c2.len() - 1] || c1[c1.len() - 2] != c2[c2.len() - 2]
            || c1[10] != c2[10] || c1[36] != c2[36] || c1[38] != c2[38]);
    }
}

} // verus!
