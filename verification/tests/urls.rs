use grib2sail::common::{Component, Grib, GribError, Model, Step};
use grib2sail::ecmwf::config::{check_urls, get_urls as ecmwf_urls, UrlType as EcmwfUrl};
use grib2sail::ecmwf::{ecmwf_days, index_url, layer_total, pick_run};
use grib2sail::meteofrance::config::{get_urls as meteofrance_urls, UrlType as MfUrl};
use grib2sail::noaa::config::{gfs_check_urls, get_urls as noaa_urls, UrlType as NoaaUrl};
use grib2sail::noaa::{gfs_days, pick_gfs_run};

const ECMWF: &str = "https://ecmwf-forecasts.s3.eu-central-1.amazonaws.com/";

fn grib(model: Model, step: Step, days: u32, components: Vec<Component>) -> Grib {
    Grib {
        model,
        step,
        days,
        latitude_max: 44_000_000,
        latitude_min: 43_000_000,
        longitude_max: 6_000_000,
        longitude_min: 5_000_000,
        components,
        content: Vec::new(),
        run: String::new(),
        secret: String::new(),
        iridium: false,
    }
}

fn ecmwf_file(run_d: &str, run_h: &str, dataset: &str, hour: u32) -> String {
    format!(
        "{}{}/{}z/ifs/0p25/{}/{}{}0000-{}h-{}-fc.grib2",
        ECMWF, run_d, run_h, dataset, run_d, run_h, hour, dataset
    )
}

#[test]
fn ecmwf_data_urls_every_step() {
    let mut g = grib(Model::Ecmwf, Step::H6, 1, vec![Component::Wind]);
    g.run = String::from("20240301-00Z");
    let urls = ecmwf_urls(&g, EcmwfUrl::GribData);
    let expected: Vec<String> = [0, 6, 12, 18, 24]
        .iter()
        .map(|h| ecmwf_file("20240301", "00", "oper", *h))
        .collect();
    assert_eq!(urls, expected);
}

#[test]
fn ecmwf_one_hour_step_is_served_as_three() {
    let mut g = grib(Model::Ecmwf, Step::H1, 1, vec![Component::Wind]);
    g.run = String::from("20240301-18Z");
    let urls = ecmwf_urls(&g, EcmwfUrl::GribData);
    assert_eq!(urls.len(), 9);
    assert_eq!(urls[1], ecmwf_file("20240301", "18", "scda", 3));
}

#[test]
fn ecmwf_three_hour_step_beyond_six_days() {
    let mut g = grib(Model::Ecmwf, Step::H3, 7, vec![Component::Wind]);
    g.run = String::from("20240301-06Z");
    let urls = ecmwf_urls(&g, EcmwfUrl::GribData);
    // every 3h up to 144h, then every 6h up to 168h
    assert_eq!(urls.len(), 49 + 4);
    assert_eq!(urls[48], ecmwf_file("20240301", "06", "scda", 144));
    assert_eq!(urls[49], ecmwf_file("20240301", "06", "scda", 150));
    assert_eq!(urls[52], ecmwf_file("20240301", "06", "scda", 168));
}

#[test]
fn ecmwf_availability_urls_latest_run_first() {
    let dates = vec![String::from("20240302"), String::from("20240301")];
    let urls = check_urls(&dates, 48);
    assert_eq!(
        urls,
        vec![
            ecmwf_file("20240302", "18", "scda", 48),
            ecmwf_file("20240302", "12", "oper", 48),
            ecmwf_file("20240302", "06", "scda", 48),
            ecmwf_file("20240302", "00", "oper", 48),
            ecmwf_file("20240301", "18", "scda", 48),
            ecmwf_file("20240301", "12", "oper", 48),
            ecmwf_file("20240301", "06", "scda", 48),
            ecmwf_file("20240301", "00", "oper", 48),
        ]
    );
}

#[test]
fn ecmwf_availability_covers_three_days() {
    let g = grib(Model::Ecmwf, Step::H3, 2, vec![Component::Wind]);
    let urls = ecmwf_urls(&g, EcmwfUrl::CheckAvailability);
    assert_eq!(urls.len(), 12);
    for u in &urls {
        assert!(u.starts_with(ECMWF));
        assert!(u.ends_with("-fc.grib2"));
        assert!(u.contains("0000-48h-"));
    }
}

#[test]
fn ecmwf_run_from_the_first_published_file() {
    let urls = vec![
        ecmwf_file("20240302", "18", "scda", 24),
        ecmwf_file("20240302", "12", "oper", 24),
    ];
    assert_eq!(pick_run(&urls, Some(1)).ok(), Some(String::from("20240302-12Z")));
    let r = pick_run(&urls, None);
    assert!(matches!(r, Err(GribError::Generic(ref s)) if s == "Couldn't find latest available forecast"));
}

#[test]
fn ecmwf_index_next_to_the_file() {
    assert_eq!(
        index_url(&ecmwf_file("20240302", "12", "oper", 24)),
        format!("{}20240302/12z/ifs/0p25/oper/20240302120000-24h-oper-fc.index", ECMWF)
    );
}

#[test]
fn ecmwf_days_are_capped() {
    assert_eq!(ecmwf_days(20), 15);
    assert_eq!(ecmwf_days(15), 15);
    assert_eq!(ecmwf_days(3), 3);
}

#[test]
fn ecmwf_layer_total_counts_ranges() {
    let ranges = vec![String::from("bytes=0-9,20-29,40-49"), String::from("bytes=0-9")];
    assert_eq!(layer_total(&ranges).ok(), Some(6));
    let r = layer_total(&Vec::new());
    assert!(matches!(r, Err(GribError::Generic(ref s)) if s == "Unexpected empty urls_headers"));
}

fn gfs_check(date: &str, hour: &str, format: &str, model: &str, f: &str) -> String {
    format!(
        "https://nomads.ncep.noaa.gov/pub/data/nccf/com/gfs/prod/gfs.{}/{}/atmos/gfs.t{}z.{}.{}.f{}",
        date, hour, hour, format, model, f
    )
}

#[test]
fn gfs_availability_urls() {
    let dates = vec![String::from("20240302")];
    let urls = gfs_check_urls(Model::Gfs050, &dates, 24);
    assert_eq!(
        urls,
        vec![
            gfs_check("20240302", "18", "pgrb2full", "0p50", "024"),
            gfs_check("20240302", "12", "pgrb2full", "0p50", "024"),
            gfs_check("20240302", "06", "pgrb2full", "0p50", "024"),
            gfs_check("20240302", "00", "pgrb2full", "0p50", "024"),
        ]
    );
    let g = grib(Model::Gfs025, Step::H3, 7, vec![Component::Wind]);
    let all = noaa_urls(&g, NoaaUrl::CheckAvailability, "");
    assert_eq!(all.len(), 12);
    assert!(all.iter().all(|u| u.ends_with(".pgrb2.0p25.f168")));
}

#[test]
fn gfs_run_from_the_first_published_file() {
    let urls = vec![gfs_check("20240302", "06", "pgrb2", "0p25", "024")];
    let (run, name) = pick_gfs_run(&urls, Some(0)).ok().expect("a run");
    assert_eq!(run, "20240302%2F06");
    assert_eq!(name, "20240302-06Z");
    let r = pick_gfs_run(&urls, None);
    assert!(matches!(r, Err(GribError::Generic(ref s)) if s == "Couldn't find latest available forecast"));
}

#[test]
fn gfs_data_urls_accumulate_variables() {
    let mut g = grib(Model::Gfs100, Step::H12, 1, vec![Component::Wind, Component::Pressure]);
    g.latitude_min = -17_000_000;
    g.latitude_max = -16_500_000;
    g.longitude_min = -150_000_000;
    g.longitude_max = -149_250_000;
    let urls = noaa_urls(&g, NoaaUrl::GribData, "20240302%2F06");
    let base = "https://nomads.ncep.noaa.gov/cgi-bin/filter_gfs_1p00.pl?dir=%2Fgfs.20240302%2F06%2Fatmos";
    let sub = "&subregion=&leftlon=-150&rightlon=-149.25&bottomlat=-17&toplat=-16.5";
    let wind = "&var_UGRD=on&var_VGRD=on&lev_10_m_above_ground=on";
    let pres = "&var_PRMSL=on&lev_mean_sea_level=on";
    let mut expected = Vec::new();
    for h in ["000", "012", "024"] {
        let file = format!("{}&file=gfs.t06z.pgrb2.1p00.f{}", base, h);
        expected.push(format!("{}{}{}", file, wind, sub));
        expected.push(format!("{}{}{}{}", file, wind, pres, sub));
    }
    assert_eq!(urls, expected);
}

#[test]
fn gfs_one_hour_step_beyond_five_days() {
    let g = grib(Model::Gfs025, Step::H1, 7, vec![Component::CloudCover]);
    let urls = noaa_urls(&g, NoaaUrl::GribData, "20240302%2F00");
    // every hour up to 120h, then every 3h up to 168h
    assert_eq!(urls.len(), 121 + 16);
    assert!(urls[120].contains(".f120&"));
    assert!(urls[121].contains(".f123&"));
    assert!(urls[136].contains(".f168&"));
}

#[test]
fn gfs_days_are_capped() {
    assert_eq!(gfs_days(33), 16);
    assert_eq!(gfs_days(8), 8);
}

const AROME: &str = "https://public-api.meteofrance.fr/public/arome/1.0/wcs/MF-NWP-HIGHRES-AROME-";

#[test]
fn arome_capabilities_url() {
    let g = grib(Model::AromeAntille, Step::H3, 1, vec![Component::Wind]);
    assert_eq!(
        meteofrance_urls(&g, MfUrl::CheckAvailability, ""),
        vec![format!("{}OM-0025-ANTIL-WCS/GetCapabilities?service=WCS&version=1.3.0&language=eng", AROME)]
    );
}

#[test]
fn arome_layer_urls() {
    let mut g = grib(Model::Arome, Step::H12, 1, vec![Component::Wind, Component::WindGust]);
    g.latitude_min = 43_500_000;
    let run = "2024-03-02T06.00.00Z";
    let urls = meteofrance_urls(&g, MfUrl::GribData, run);
    let base = format!(
        "{}001-FRANCE-WCS/GetCoverage?service=WCS&version=2.0.1&format=application/wmo-grib",
        AROME
    );
    let area = "&subset=lat(43.5,44)&subset=long(5,6)";
    let level = "SPECIFIC_HEIGHT_LEVEL_ABOVE_GROUND___";
    let mut expected = Vec::new();
    for t in [0, 43200, 86400] {
        let tu = format!("{}&subset=time({}){}", base, t, area);
        expected.push(format!("{}&coverageid=U_COMPONENT_OF_WIND__{}{}&subset=height(10)", tu, level, run));
        expected.push(format!("{}&coverageid=V_COMPONENT_OF_WIND__{}{}&subset=height(10)", tu, level, run));
    }
    // the gusts have no layer at the run's time
    for t in [43200, 86400] {
        let tu = format!("{}&subset=time({}){}", base, t, area);
        expected.push(format!("{}&coverageid=WIND_SPEED_GUST__{}{}&subset=height(10)", tu, level, run));
    }
    assert_eq!(urls, expected);
}

#[test]
fn arome_pressure_and_cloud_cover() {
    let g = grib(Model::AromePolynesie, Step::H12, 1, vec![Component::Pressure, Component::CloudCover]);
    let urls = meteofrance_urls(&g, MfUrl::GribData, "R");
    assert_eq!(urls.len(), 3 + 2);
    assert!(urls[0].ends_with("&coverageid=PRESSURE__MEAN_SEA_LEVEL___R"));
    assert!(urls[0].contains("OM-0025-POLYN-WCS"));
    assert!(urls[3].contains("&subset=time(43200)"));
    assert!(urls[3].ends_with("&coverageid=TOTAL_CLOUD_COVER__GROUND_OR_WATER_SURFACE___R"));
}

#[test]
fn meteofrance_urls_only_for_its_models() {
    let g = grib(Model::Gfs025, Step::H3, 1, vec![Component::Wind]);
    assert!(meteofrance_urls(&g, MfUrl::GribData, "R").is_empty());
    assert!(meteofrance_urls(&g, MfUrl::CheckAvailability, "").is_empty());
}

#[test]
fn found_ecmwf_run_is_fetched() {
    let urls = vec![ecmwf_file("20240302", "06", "scda", 24)];
    let mut g = grib(Model::Ecmwf, Step::H12, 1, vec![Component::Wind]);
    g.run = pick_run(&urls, Some(0)).ok().expect("a run");
    let data = ecmwf_urls(&g, EcmwfUrl::GribData);
    assert_eq!(data[0], ecmwf_file("20240302", "06", "scda", 0));
}

#[test]
fn found_gfs_run_is_fetched() {
    let urls = vec![gfs_check("20240302", "18", "pgrb2", "0p25", "024")];
    let (run, _) = pick_gfs_run(&urls, Some(0)).ok().expect("a run");
    let g = grib(Model::Gfs025, Step::H12, 1, vec![Component::Wind]);
    let data = noaa_urls(&g, NoaaUrl::GribData, &run);
    assert!(data[0].contains("?dir=%2Fgfs.20240302%2F18%2Fatmos&file=gfs.t18z.pgrb2.0p25.f000"));
}

#[test]
fn arpege_layer_urls_hourly_then_three_hourly() {
    let g = grib(Model::Arpege025, Step::H1, 3, vec![Component::Pressure]);
    let urls = meteofrance_urls(&g, MfUrl::GribData, "R");
    // every hour up to 48h, then every 3h up to 72h
    assert_eq!(urls.len(), 49 + 8);
    let base = "https://public-api.meteofrance.fr/public/arpege/1.0/wcs/MF-NWP-GLOBAL-ARPEGE-025-GLOBE-WCS/GetCoverage?";
    assert!(urls.iter().all(|u| u.starts_with(base)));
    assert!(urls[48].contains("&subset=time(172800)&"));
    assert!(urls[49].contains("&subset=time(183600)&"));
    assert!(urls[56].contains("&subset=time(259200)&"));
}

#[test]
fn arpege100_serves_three_hour_steps() {
    let g = grib(Model::Arpege100, Step::H1, 1, vec![Component::Pressure]);
    let urls = meteofrance_urls(&g, MfUrl::GribData, "R");
    assert_eq!(urls.len(), 9);
    assert!(urls[1].contains("&subset=time(10800)&"));
    assert_eq!(
        meteofrance_urls(&g, MfUrl::CheckAvailability, ""),
        vec![String::from(
            "https://public-api.meteofrance.fr/public/arpege/1.0/wcs/MF-NWP-GLOBAL-ARPEGE-100-GLOBE-WCS/GetCapabilities?service=WCS&version=1.3.0&language=eng"
        )]
    );
}
