use grib2sail::clock::{date_text, dates_around_today, forecast_dates};

fn chrono_text(y: i32, m: u32, d: u32) -> String {
    chrono::NaiveDate::from_ymd_opt(y, m, d).unwrap().format("%Y%m%d").to_string()
}

#[test]
fn forecast_dates_are_tomorrow_today_yesterday() {
    let (today, dates) = forecast_dates();
    let d = chrono::NaiveDate::from_ymd_opt(today.0, today.1, today.2).unwrap();
    let fmt = |x: chrono::NaiveDate| x.format("%Y%m%d").to_string();
    assert_eq!(
        dates,
        Some(vec![fmt(d + chrono::Duration::days(1)), fmt(d), fmt(d - chrono::Duration::days(1))])
    );
}

#[test]
fn dates_written_as_chrono_writes_them() {
    assert_eq!(date_text((2024, 3, 2)), "20240302");
    assert_eq!(date_text((5, 1, 9)), "00050109");
    for (y, m, d) in [(2024, 3, 2), (5, 1, 9), (12345, 1, 1), (-1, 12, 31), (-12345, 6, 15), (9999, 12, 31)] {
        assert_eq!(date_text((y, m, d)), chrono_text(y, m, d));
    }
}

#[test]
fn dates_around_cross_months_and_years() {
    assert_eq!(
        dates_around_today((2024, 2, 28)),
        Some(vec![String::from("20240229"), String::from("20240228"), String::from("20240227")])
    );
    assert_eq!(
        dates_around_today((2023, 12, 31)),
        Some(vec![String::from("20240101"), String::from("20231231"), String::from("20231230")])
    );
    assert_eq!(dates_around_today((2023, 2, 30)), None);
}
