use appliance_register::api::{ApplianceError, SubmitPrivateRequest};
use appliance_register::date::{add_months, format_date, parse_date, Date};
use appliance_register::model::{Environment, Private};
use appliance_register::text::{check_decimal, i64_to_string, parse_i64, str_eq};

fn request(
    voltage: &str,
    environment: &str,
    date: &str,
) -> SubmitPrivateRequest {
    SubmitPrivateRequest {
        name: String::from("galley oven"),
        description: String::from("fixed appliance"),
        ir: String::from("550.5"),
        resistance_to_earth: String::from("0.2"),
        voltage: String::from(voltage),
        tested_by: String::from("J. Smith"),
        tag_number: String::from("TAG-0042"),
        environment: String::from(environment),
        date: String::from(date),
    }
}

#[test]
fn interval_table_matches_standard() {
    assert_eq!(Private::env_to_retest(Environment::GalleyWshopWet), 6);
    assert_eq!(Private::env_to_retest(Environment::DC), 12);
    assert_eq!(Private::env_to_retest(Environment::Cabinets), 60);
    assert_eq!(Private::env_to_retest(Environment::Cabins), 24);
    assert_eq!(Private::env_to_retest(Environment::Cleaning), 6);
    assert_eq!(Private::env_to_retest(Environment::PrivateApp), 36);
}

#[test]
fn environment_labels_round_trip() {
    let all = [
        Environment::GalleyWshopWet,
        Environment::DC,
        Environment::Cabinets,
        Environment::Cabins,
        Environment::Cleaning,
        Environment::PrivateApp,
    ];
    for env in all {
        let label = env.label();
        assert_eq!(Environment::from_label(label.as_str()), Some(env));
    }
    assert_eq!(Environment::from_label("Sauna"), None);
    assert_eq!(Environment::from_label(""), None);
    assert_eq!(Environment::from_label("dc"), None);
}

#[test]
fn retest_dc_keeps_end_of_january() {
    let date = Date { year: 2024, month: 1, day: 31 };
    let retest = Private::calc_retest(&date, &Environment::DC);
    assert_eq!(retest, Date { year: 2025, month: 1, day: 31 });
}

#[test]
fn retest_galley_six_months() {
    let date = Date { year: 2024, month: 1, day: 30 };
    let retest = Private::calc_retest(&date, &Environment::GalleyWshopWet);
    assert_eq!(retest, Date { year: 2024, month: 7, day: 30 });
}

#[test]
fn add_months_clamps_to_short_month() {
    let date = Date { year: 2024, month: 1, day: 31 };
    assert_eq!(add_months(&date, 1), Date { year: 2024, month: 2, day: 29 });
    let date = Date { year: 2023, month: 1, day: 31 };
    assert_eq!(add_months(&date, 1), Date { year: 2023, month: 2, day: 28 });
    let date = Date { year: 2023, month: 8, day: 31 };
    assert_eq!(add_months(&date, 1), Date { year: 2023, month: 9, day: 30 });
}

#[test]
fn retest_is_deterministic() {
    let date = Date { year: 2024, month: 3, day: 15 };
    let first = Private::calc_retest(&date, &Environment::Cabins);
    let second = Private::calc_retest(&date, &Environment::Cabins);
    assert_eq!(first, second);
}

#[test]
fn parse_date_accepts_canonical_form() {
    assert_eq!(parse_date("2024-01-31"), Ok(Date { year: 2024, month: 1, day: 31 }));
    assert_eq!(parse_date("2024-02-29"), Ok(Date { year: 2024, month: 2, day: 29 }));
    assert_eq!(parse_date("0001-01-01"), Ok(Date { year: 1, month: 1, day: 1 }));
}

#[test]
fn parse_date_rejects_bad_shapes_and_values() {
    assert!(parse_date("2024-13-01").is_err());
    assert!(parse_date("2024-00-10").is_err());
    assert!(parse_date("2024-02-30").is_err());
    assert!(parse_date("2023-02-29").is_err());
    assert!(parse_date("2024-1-31").is_err());
    assert!(parse_date("2024/01/31").is_err());
    assert!(parse_date("abc").is_err());
    assert!(parse_date("").is_err());
}

#[test]
fn format_date_is_canonical() {
    let date = Date { year: 2024, month: 1, day: 31 };
    assert_eq!(format_date(&date), "2024-01-31");
    let date = Date { year: 987, month: 12, day: 5 };
    assert_eq!(format_date(&date), "0987-12-05");
}

#[test]
fn date_text_round_trips() {
    let date = Date { year: 2025, month: 6, day: 30 };
    assert_eq!(parse_date(format_date(&date).as_str()), Ok(date));
}

#[test]
fn integer_text_round_trips() {
    for v in [0i64, 7, -7, 240, 115, 12, i64::MAX, i64::MIN] {
        let text = i64_to_string(v);
        assert_eq!(parse_i64(text.as_str()), Some(v));
    }
    assert_eq!(parse_i64("abc"), None);
    assert_eq!(parse_i64(""), None);
    assert_eq!(parse_i64("-"), None);
    assert_eq!(parse_i64("12x"), None);
    assert_eq!(parse_i64("9223372036854775808"), None);
    assert_eq!(parse_i64("-9223372036854775808"), Some(i64::MIN));
}

#[test]
fn decimal_texts_are_recognized() {
    assert!(check_decimal("550.5"));
    assert!(check_decimal("0.2"));
    assert!(check_decimal("12"));
    assert!(check_decimal("-3.75"));
    assert!(!check_decimal("abc"));
    assert!(!check_decimal(""));
    assert!(!check_decimal("-"));
    assert!(!check_decimal("1."));
    assert!(!check_decimal(".5"));
    assert!(!check_decimal("1.2.3"));
}

#[test]
fn string_equality_is_exact() {
    assert!(str_eq("voltage", "voltage"));
    assert!(!str_eq("voltage", "voltag"));
    assert!(!str_eq("", "a"));
    assert!(str_eq("", ""));
}

#[test]
fn submission_builds_record_with_derived_retest() {
    let req = request("240", "DC", "2024-01-31");
    let record = req.to_private().expect("valid submission");
    assert_eq!(record.name, "galley oven");
    assert_eq!(record.voltage, 240);
    assert_eq!(record.environment, Environment::DC);
    assert_eq!(record.date, Date { year: 2024, month: 1, day: 31 });
    assert_eq!(record.retest, Date { year: 2025, month: 1, day: 31 });
    assert_eq!(record.get_tag_number(), "TAG-0042");
}

#[test]
fn submission_with_bad_voltage_is_rejected() {
    let req = request("abc", "DC", "2024-01-31");
    assert_eq!(req.to_private().unwrap_err(), ApplianceError::BadApplianceRequest);
}

#[test]
fn submission_with_bad_fields_is_rejected() {
    assert!(request("240", "Sauna", "2024-01-31").to_private().is_err());
    assert!(request("240", "DC", "2024-13-01").to_private().is_err());
    assert!(request("240", "DC", "31/01/2024").to_private().is_err());
    let mut req = request("240", "DC", "2024-01-31");
    req.ir = String::from("not-a-number");
    assert!(req.to_private().is_err());
    let mut req = request("240", "DC", "2024-01-31");
    req.resistance_to_earth = String::from("1.");
    assert!(req.to_private().is_err());
}

#[test]
fn from_str_parses_dates() {
    let date = Private::from_str(String::from("2024-06-01")).expect("canonical date");
    assert_eq!(date, Date { year: 2024, month: 6, day: 1 });
    assert!(Private::from_str(String::from("June 1, 2024")).is_err());
}
