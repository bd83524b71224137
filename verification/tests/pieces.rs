use grib2sail::cli::{delete_secrets, self_update, update_plan};
use grib2sail::common::{Component, Grib, GribError, IntErrorKind, Model, Step};
use grib2sail::download::{
    assemble, grib_filename, plan_fetches, provider, retry_allowed, secret_id, split_on, Provider,
    SECRET_ID,
};
use grib2sail::ecmwf::config::{get_headers, parse_index};
use grib2sail::ecmwf::layer_total;
use grib2sail::iridium::config::{
    get_req, parse_response, request_body, soap_action, status_values, UrlType,
};
use grib2sail::iridium::{
    broken_error, connection_timeout, disconnected, firewall_task, link_state, signal_sufficient,
    status_request, LinkState,
};
use grib2sail::meteofrance::token::{basic_auth, bearer_auth};
use grib2sail::meteofrance::{
    chunks, download_batches, meteofrance_days, meteofrance_step, extract_date, last_two_runs, last_two_wind_lines, run_name,
};
use grib2sail::text::parse_usize;

fn request_for(model: Model, iridium: bool) -> Grib {
    Grib {
        model,
        step: Step::H3,
        days: 1,
        latitude_max: 44_000_000,
        latitude_min: 43_000_000,
        longitude_max: 6_000_000,
        longitude_min: 5_000_000,
        components: vec![Component::Wind],
        content: Vec::new(),
        run: String::from("20240302-06Z"),
        secret: String::new(),
        iridium,
    }
}

const INDEX: &str = "{\"domain\": \"g\", \"date\": \"20240302\", \"param\": \"10u\", \"_offset\": 0, \"_length\": 600}\n\
{\"domain\": \"g\", \"date\": \"20240302\", \"param\": \"sp\", \"_offset\": 600, \"_length\": 400}\n\
{\"domain\": \"g\", \"date\": \"20240302\", \"param\": \"10v\", \"_offset\": 1000, \"_length\": 500}\n\
{\"domain\": \"g\", \"date\": \"20240302\", \"param\": \"tcc\", \"_offset\": 1500, \"_length\": 100}\n\
";

#[test]
fn index_ranges_of_the_requested_layers() {
    let r = parse_index(vec![String::from("10v"), String::from("10u")], String::from(INDEX));
    assert_eq!(r.ok(), Some(String::from("0-599,1000-1499")));
}

#[test]
fn index_header_for_components() {
    let r = get_headers(String::from(INDEX), &vec![Component::Pressure, Component::CloudCover]);
    assert_eq!(r.ok(), Some(String::from("bytes=600-999,1500-1599")));
}

#[test]
fn index_without_the_layers() {
    let r = get_headers(String::from(INDEX), &vec![Component::WindGust]);
    assert!(matches!(r, Err(GribError::Generic(ref s)) if s == "Unexpected index file content"));
}

#[test]
fn index_line_without_offset() {
    let r = parse_index(vec![String::from("sp")], String::from("{\"param\": \"sp\", \"_length\": 4}\n"));
    assert!(matches!(r, Err(GribError::Generic(ref s)) if s == "Index file error: Missing _offset in index file"));
}

#[test]
fn index_line_without_length() {
    let r = parse_index(vec![String::from("sp")], String::from("{\"param\": \"sp\", \"_offset\": 4}\n"));
    assert!(matches!(r, Err(GribError::Generic(ref s)) if s == "Index file error: Missing _length in index file"));
}

#[test]
fn index_offset_not_a_number() {
    let r = parse_index(vec![String::from("sp")], String::from("{\"param\": \"sp\", \"_offset\": x4, \"_length\": 4}"));
    assert!(matches!(r, Err(GribError::ParseIntError(IntErrorKind::InvalidDigit))));
}

#[test]
fn index_value_missing_after_offset() {
    let r = parse_index(vec![String::from("sp")], String::from("{\"param\": \"sp\", \"_length\": 4, \"_offset\":"));
    assert!(matches!(r, Err(GribError::Generic(ref s)) if s == "Index file error: Missing value after _offset"));
}

#[test]
fn usize_reading() {
    let chars = |s: &str| s.chars().collect::<Vec<char>>();
    assert_eq!(parse_usize(&chars("1500")), Ok(1500));
    assert_eq!(parse_usize(&chars("+7")), Ok(7));
    assert_eq!(parse_usize(&chars("")), Err(IntErrorKind::Empty));
    assert_eq!(parse_usize(&chars("+")), Err(IntErrorKind::InvalidDigit));
    assert_eq!(parse_usize(&chars("-1")), Err(IntErrorKind::InvalidDigit));
    assert_eq!(parse_usize(&chars("99999999999999999999999")), Err(IntErrorKind::PosOverflow));
}

#[test]
fn fetches_split_by_byte_range() {
    let urls = vec![String::from("a"), String::from("b")];
    let ranges = vec![Some(String::from("bytes=0-9,20-29")), Some(String::from("bytes=5-6,7-8"))];
    let plan = plan_fetches(&urls, &ranges).ok().expect("byte ranges");
    let got: Vec<(usize, String, Option<String>)> =
        plan.into_iter().map(|f| (f.key, f.url, f.range)).collect();
    assert_eq!(
        got,
        vec![
            (0, String::from("a"), Some(String::from("bytes=0-9"))),
            (1, String::from("a"), Some(String::from("bytes=20-29"))),
            (2, String::from("b"), Some(String::from("bytes=5-6"))),
            (3, String::from("b"), Some(String::from("bytes=7-8"))),
        ]
    );
}

#[test]
fn fetches_without_range() {
    let urls = vec![String::from("a"), String::from("b")];
    let plan = plan_fetches(&urls, &vec![None, None]).ok().expect("plain requests");
    let got: Vec<(usize, String)> = plan.into_iter().map(|f| (f.key, f.url)).collect();
    assert_eq!(got, vec![(0, String::from("a")), (1, String::from("b"))]);
}

#[test]
fn fetches_refuse_other_ranges() {
    let urls = vec![String::from("a")];
    let r = plan_fetches(&urls, &vec![Some(String::from("items=0-9"))]);
    assert!(matches!(r, Err(GribError::Generic(ref s)) if s == "Unexpected non-bytes RANGE header"));
}

#[test]
fn split_keeps_empty_pieces() {
    let s: Vec<char> = "a,,b".chars().collect();
    let got: Vec<String> = split_on(&s, ',').into_iter().map(|w| w.into_iter().collect()).collect();
    assert_eq!(got, vec!["a", "", "b"]);
}

#[test]
fn answers_assembled_in_request_order() {
    let parts = vec![(2, vec![5, 6]), (0, vec![1]), (1, vec![2, 3, 4])];
    assert_eq!(assemble(parts), vec![1, 2, 3, 4, 5, 6]);
}

#[test]
fn ordered_answers_joined_as_they_came() {
    let parts = vec![(0, vec![9]), (0, vec![8]), (3, vec![7])];
    assert_eq!(assemble(parts), vec![9, 8, 7]);
}

#[test]
fn retries() {
    assert!(retry_allowed(4, 5));
    assert!(!retry_allowed(5, 5));
    assert!(retry_allowed(2, 3));
    assert!(!retry_allowed(3, 3));
}

#[test]
fn providers_of_the_models() {
    assert_eq!(provider(&request_for(Model::AromeGuyane, false)).ok(), Some(Provider::MeteoFrance));
    assert_eq!(provider(&request_for(Model::Arpege100, false)).ok(), Some(Provider::MeteoFrance));
    assert_eq!(provider(&request_for(Model::Gfs050, true)).ok(), Some(Provider::Noaa));
    assert_eq!(provider(&request_for(Model::Ecmwf, false)).ok(), Some(Provider::Ecmwf));
    let r = provider(&request_for(Model::Arome, true));
    assert!(matches!(r, Err(GribError::InvalidConf(ref s)) if s == "This model is not compatible with iridium"));
}

#[test]
fn iridium_only_for_gfs() {
    assert!(Model::Gfs025.iridium_compatible());
    assert!(Model::Gfs100.iridium_compatible());
    assert!(!Model::Arome.iridium_compatible());
    assert!(!Model::Ecmwf.iridium_compatible());
}

#[test]
fn file_name_of_a_download() {
    let mut g = request_for(Model::AromeAntille, false);
    g.run = String::from("19700101-00Z");
    g.step = Step::H1;
    assert_eq!(grib_filename(&g), "arome-antille_19700101-00Z_1h.grib2");
    assert_eq!(Model::Arome0025.name(), "arome0025");
    assert_eq!(Step::H12.name(), "12h");
    assert_eq!(Step::H6.hours(), 6);
}

#[test]
fn secrets_of_the_models() {
    assert_eq!(secret_id(Model::Arpege025), Some(SECRET_ID));
    assert_eq!(secret_id(Model::AromeIndien), Some("G2S_METEOFRANCE_BEARER"));
    assert_eq!(secret_id(Model::Gfs025), None);
    let e = delete_secrets();
    assert_eq!(e.service, "grib2sail");
    assert_eq!(e.user, "G2S_METEOFRANCE_BEARER");
}

#[test]
fn update_release_paths() {
    let p = update_plan("x86_64-unknown-linux-gnu", false);
    assert_eq!(p.repo_owner, "Ch1nkara");
    assert_eq!(p.repo_name, "GRIB2Sail");
    assert_eq!(p.bin_name, "grib2sail-cli");
    assert_eq!(p.bin_path_in_archive, "grib2sail-x86_64-unknown-linux-gnu/grib2sail-cli");
    let w = update_plan("x86_64-pc-windows-msvc", true);
    assert_eq!(w.bin_path_in_archive, "grib2sail-x86_64-pc-windows-msvc/grib2sail-cli.exe");
    let own = self_update(false);
    assert!(!own.target.is_empty());
    assert_eq!(own.bin_path_in_archive, format!("grib2sail-{}/grib2sail-cli", own.target));
}

#[test]
fn meteofrance_days_and_steps() {
    assert_eq!(meteofrance_days(Model::Arpege025, 5), 4);
    assert_eq!(meteofrance_days(Model::Arpege100, 3), 3);
    assert_eq!(meteofrance_days(Model::Arome, 5), 2);
    assert_eq!(meteofrance_days(Model::Arome0025, 12), 2);
    assert_eq!(meteofrance_days(Model::AromeGuyane, 1), 1);
    assert_eq!(meteofrance_step(Model::Arpege100, Step::H1), Step::H3);
    assert_eq!(meteofrance_step(Model::Arpege025, Step::H1), Step::H1);
    assert_eq!(meteofrance_step(Model::Arome, Step::H1), Step::H1);
}

const CAPABILITIES: &str = "<wcs:CoverageId>U_COMPONENT_OF_WIND__SPECIFIC_HEIGHT_LEVEL_ABOVE_GROUND___2024-03-02T00.00.00Z</wcs:CoverageId>\n\
<wcs:CoverageId>V_COMPONENT_OF_WIND__SPECIFIC_HEIGHT_LEVEL_ABOVE_GROUND___2024-03-02T00.00.00Z</wcs:CoverageId>\r\n\
<wcs:CoverageId>PRESSURE__MEAN_SEA_LEVEL___2024-03-02T03.00.00Z</wcs:CoverageId>\n\
<wcs:CoverageId>V_COMPONENT_OF_WIND__SPECIFIC_HEIGHT_LEVEL_ABOVE_GROUND___2024-03-02T03.00.00Z</wcs:CoverageId>\n\
";

#[test]
fn latest_runs_from_the_capabilities() {
    let (older, newer) = last_two_wind_lines(CAPABILITIES).expect("two wind lines");
    assert!(older.ends_with("2024-03-02T00.00.00Z</wcs:CoverageId>"));
    assert!(newer.ends_with("2024-03-02T03.00.00Z</wcs:CoverageId>"));
    let (latest, previous) = last_two_runs(&older, &newer).ok().expect("dated lines");
    assert_eq!(latest, "2024-03-02T03.00.00Z");
    assert_eq!(previous, "2024-03-02T00.00.00Z");
    assert_eq!(last_two_wind_lines("V_COMPONENT_OF_WIND__SPECIFIC_HEIGHT_LEVEL_ABOVE_GROUND___x\nother"), None);
}

#[test]
fn run_date_of_a_line() {
    assert_eq!(extract_date("id___2024-03-02T06.00.00Z<").ok(), Some(String::from("2024-03-02T06.00.00Z")));
    let r = extract_date("no date here");
    assert!(matches!(r, Err(GribError::Generic(ref s))
        if s == "Couldn't find latest forecast available from: no date here"));
}

#[test]
fn run_names_in_file_names() {
    assert_eq!(run_name("1970-01-01T00.00.00Z"), "19700101-00Z");
    assert_eq!(run_name("2024-03-02T06.00.00Z"), "20240302-06Z");
}

#[test]
fn chunks_of_one_hundred_layers() {
    assert_eq!(chunks(250), vec![(0, 100), (100, 200), (200, 250)]);
    assert_eq!(chunks(100), vec![(0, 100)]);
    assert_eq!(chunks(0), vec![]);
}

#[test]
fn authorization_headers() {
    assert_eq!(basic_auth("ABCDEF1234abcdef").ok(), Some(String::from("Basic ABCDEF1234abcdef")));
    let r = basic_auth("bad\nsecret");
    assert!(matches!(r, Err(GribError::InvalidConf(ref s)) if s
        == "The arome AppId provided is not a valid Bearer token, please provide a correct one: failed to parse header value"));
    assert_eq!(bearer_auth("tok").ok(), Some(String::from("Bearer tok")));
    assert!(matches!(bearer_auth("t\u{7f}k"), Err(GribError::InvalidHeaderValue)));
}

const STATUS: &str = "<name>Internet connection status</name><value>4</value>\
    <name>Iridium signal strength</name><value>5</value>";

#[test]
fn iridium_status_answer() {
    let parsed = parse_response(String::from(STATUS), UrlType::GetStatus).ok().expect("a status");
    assert_eq!(parsed, vec![String::from("4"), String::from("5")]);
    assert_eq!(status_values(&parsed).ok(), Some((4, 5)));
    assert!(matches!(status_values(&vec![String::from("4")]), Err(GribError::Malformed)));
    assert!(matches!(
        status_values(&vec![String::from("x"), String::from("5")]),
        Err(GribError::ParseIntError(IntErrorKind::InvalidDigit))
    ));
}

#[test]
fn iridium_task_answer() {
    let parsed = parse_response(String::from("ok A2: done"), UrlType::PerformTask).ok().expect("an answer");
    assert_eq!(parsed, vec![String::from("done")]);
}

#[test]
fn iridium_requests() {
    let status = status_request().ok().expect("a status request");
    assert_eq!(status.url, "http://192.168.0.1/sdk/sdk.php");
    assert!(status.body.contains("<sdk:getStatus>"));
    assert!(status.body.contains("<name>all</name>"));
    assert_eq!(
        status.headers.last(),
        Some(&(String::from("SOAPAction"), String::from("http://192.168.0.1/sdk/getStatus")))
    );
    assert_eq!(status.headers[0], (String::from("content-type"), String::from("text/xml")));
    let open = firewall_task(true).ok().expect("a task");
    assert!(open.body.contains("<name>set state</name>\n<value>1</value>"));
    assert!(open.body.contains("<value>23.223.194.197-443-all</value>"));
    assert_eq!(open.headers[5].1, "http://192.168.0.1/sdk/performTask");
    let close = firewall_task(false).ok().expect("a task");
    assert!(close.body.contains("<name>set state</name>\n<value>0</value>"));
    let r = request_body(UrlType::GetStatus, Some((&vec![], 1)));
    assert!(matches!(r, Err(GribError::Generic(ref s)) if s == "Unexpected get_req parameter combinaison"));
    assert!(matches!(get_req(UrlType::PerformTask, None), Err(GribError::Generic(_))));
    assert_eq!(soap_action(UrlType::PerformTask), "http://192.168.0.1/sdk/performTask");
}

#[test]
fn iridium_decisions() {
    assert!(signal_sufficient(4));
    assert!(!signal_sufficient(3));
    assert_eq!(link_state(4), LinkState::Linked);
    assert_eq!(link_state(0), LinkState::Broken);
    assert_eq!(link_state(2), LinkState::Pending);
    assert!(disconnected(0));
    assert!(!disconnected(1));
    assert!(connection_timeout(120_000).is_none());
    assert!(matches!(connection_timeout(120_001), Some(GribError::Generic(ref s)) if s
        == "Too much time spent trying to establish an internet connexion via iridium, giving up"));
    assert!(matches!(broken_error(), GribError::Generic(ref s) if s
        == "Iridium connection was broken, wait a few seconds and try again"));
}

#[test]
fn progress_total_counts_requests() {
    let urls = vec![String::from("a"), String::from("b"), String::from("c")];
    let headers = vec![
        String::from("bytes=0-9,20-29"),
        String::from("bytes=1-2,3-4"),
        String::from("bytes=5-6,8-9"),
    ];
    let ranges: Vec<Option<String>> = headers.iter().cloned().map(Some).collect();
    let plan = plan_fetches(&urls, &ranges).ok().expect("byte ranges");
    assert_eq!(layer_total(&headers).ok(), Some(plan.len()));
    let keys: Vec<usize> = plan.iter().map(|f| f.key).collect();
    assert_eq!(keys, vec![0, 1, 2, 3, 4, 5]);
}

#[test]
fn batches_of_a_download() {
    assert_eq!(download_batches(42), vec![(0, 42, false)]);
    assert_eq!(download_batches(0), vec![(0, 0, false)]);
    assert_eq!(download_batches(250), vec![(0, 100, true), (100, 200, true), (200, 250, false)]);
    assert_eq!(download_batches(100), vec![(0, 100, false)]);
}
