use lib_frankfurter::api::shared::{base_build_query_params, base_ensure_valid};
use lib_frankfurter::api::{check_response, convert, currencies, endpoint_url, period};
use lib_frankfurter::data::currency::UNITS_PER_WHOLE;
use lib_frankfurter::{CalendarDate, Currency, CurrencyValue, Error, ValidDate};

fn date(s: &str) -> ValidDate {
    ValidDate::parse(s).unwrap()
}

fn amount(n: u128) -> CurrencyValue {
    CurrencyValue::from_units(n * UNITS_PER_WHOLE).unwrap()
}

#[test]
fn test_base_ensure_valid() {
    // DEFAULT
    assert!(base_ensure_valid(&None, &None).is_ok());

    // VALID TARGETS
    assert!(base_ensure_valid(&None, &Some(vec![Currency::USD, Currency::AUD])).is_ok());

    // INVALID TARGETS
    assert!(base_ensure_valid(&Some(Currency::USD), &Some(vec![Currency::USD, Currency::AUD]))
        .is_err());

    // Check against default (EUR)
    assert!(base_ensure_valid(&None, &Some(vec![Currency::EUR, Currency::AUD])).is_err());
}

#[test]
fn test_base_build_query_params() {
    let pairs = |v: Vec<(&'static str, String)>| v;
    // DEFAULT
    assert_eq!(base_build_query_params(&None, &None, &None), pairs(vec![]));

    // INDIVIDUAL
    assert_eq!(
        base_build_query_params(&Some(amount(10)), &None, &None),
        vec![("amount", String::from("10.00"))]
    );
    assert_eq!(
        base_build_query_params(&None, &Some(Currency::AUD), &None),
        vec![("base", String::from("AUD"))]
    );
    assert_eq!(
        base_build_query_params(&None, &None, &Some(vec![Currency::CAD, Currency::ZAR])),
        vec![("symbols", String::from("CAD,ZAR"))]
    );

    // COMBOS
    assert_eq!(
        base_build_query_params(
            &Some(amount(1000000)),
            &Some(Currency::USD),
            &Some(vec![Currency::CNY, Currency::CZK, Currency::IDR])
        ),
        vec![
            ("amount", String::from("1000000.00")),
            ("base", String::from("USD")),
            ("symbols", String::from("CNY,CZK,IDR")),
        ]
    );
    assert_eq!(
        base_build_query_params(
            &None,
            &Some(Currency::USD),
            &Some(vec![Currency::CNY, Currency::CZK, Currency::IDR])
        ),
        vec![("base", String::from("USD")), ("symbols", String::from("CNY,CZK,IDR")),]
    );
    assert_eq!(
        base_build_query_params(
            &Some(CurrencyValue::min()),
            &None,
            &Some(vec![Currency::CNY, Currency::CZK, Currency::IDR])
        ),
        vec![("amount", String::from("0.01")), ("symbols", String::from("CNY,CZK,IDR")),]
    );
    assert_eq!(
        base_build_query_params(&Some(amount(1000000)), &Some(Currency::USD), &None),
        vec![("amount", String::from("1000000.00")), ("base", String::from("USD")),]
    );
}

#[test]
fn empty_targets_add_no_symbols() {
    assert_eq!(base_build_query_params(&None, &None, &Some(vec![])), vec![]);
    assert_eq!(
        base_build_query_params(&None, &None, &Some(vec![Currency::Other("ESP".to_string())])),
        vec![("symbols", String::from("ESP"))]
    );
}

#[test]
fn test_get_url() {
    assert_eq!(convert::Request::default().get_url(), "latest");

    let d = ValidDate::from_date(CalendarDate { year: 2000, month: 7, day: 2 }).unwrap();
    assert_eq!(convert::Request::default().with_date(d).get_url(), d.to_iso_string());
    assert_eq!(convert::Request::default().with_date(d).get_url(), "2000-07-02");
}

#[test]
fn test_ensure_valid() {
    assert!(convert::Request::default()
        .with_base(Currency::EUR)
        .with_targets(vec![Currency::EUR, Currency::USD])
        .ensure_valid()
        .is_err());

    // VALID DATE
    assert!(convert::Request::default().with_date(ValidDate::max()).ensure_valid().is_ok());

    // Weekend - will just use the closest date with data
    assert!(convert::Request::default()
        .with_date(
            ValidDate::from_date(CalendarDate { year: 2024, month: 2, day: 3 }).unwrap()
        )
        .ensure_valid()
        .is_ok());
}

#[test]
fn get_url() {
    assert_eq!(
        period::Request::default().get_url(),
        format!("{}..", ValidDate::default().to_iso_string())
    );

    let d = date("2000-7-2");
    assert_eq!(period::Request::default().with_start_date(d).get_url(), "2000-07-02..");

    let d = date("2020-8-9");
    assert_eq!(
        period::Request::default().with_end_date(d).get_url(),
        format!("{}..{}", ValidDate::default().to_iso_string(), d.to_iso_string())
    );

    let start_date = date("2020-8-9");
    let end_date = date("2020-10-9");
    assert_eq!(
        period::Request::default().with_start_date(start_date).with_end_date(end_date).get_url(),
        "2020-08-09..2020-10-09"
    );
}

#[test]
fn ensure_valid() {
    assert!(period::Request::default()
        .with_base(Currency::EUR)
        .with_targets(vec![Currency::EUR, Currency::USD])
        .ensure_valid()
        .is_err());

    // VALID START DATE
    assert!(period::Request::default().with_start_date(ValidDate::default()).ensure_valid().is_ok());
    assert!(period::Request::default().with_start_date(ValidDate::max()).ensure_valid().is_ok());

    // VALID END DATE
    assert!(period::Request::default().with_end_date(date("2000-02-04")).ensure_valid().is_ok());

    // Not quite weekend only - Friday-Sun
    assert!(period::Request::default()
        .with_start_date(date("2024-08-02"))
        .with_end_date(date("2024-08-04"))
        .ensure_valid()
        .is_ok());
    // Weekend only - Sat-Sun
    assert!(period::Request::default()
        .with_start_date(date("2024-08-03"))
        .with_end_date(date("2024-08-04"))
        .ensure_valid()
        .is_err());
    // Weekend only - Sat-Sat
    assert!(period::Request::default()
        .with_start_date(date("2024-01-13"))
        .with_end_date(date("2024-01-13"))
        .ensure_valid()
        .is_err());
    // Weekend only - Sun-Sun
    assert!(period::Request::default()
        .with_start_date(date("2024-06-23"))
        .with_end_date(date("2024-06-23"))
        .ensure_valid()
        .is_err());

    // INVALID END DATE
    assert!(period::Request::default()
        .with_start_date(date("2024-06-23"))
        .with_end_date(date("2024-06-22"))
        .ensure_valid()
        .is_err());
}

#[test]
fn test_fail_invalid_start_date() {
    for d in [
        "date",
        "1st of January, 2000",
        "1999/12/29",
        "20240201",
        "0000-01-01",
        "0001-10-10",
        "1900-10-10",
        "1000-09-22",
        "3005-01-01",
        "2024-35-01",
        "2024-01-70",
    ] {
        assert!(ValidDate::parse(d).is_err());
    }
}

#[test]
fn test_fail_invalid_end_date() {
    let start = date("2025-02-01");
    for d in ["3005-01-01", "2024-01-01", "2025-01-31", "0000-01-01"] {
        let rejected = match ValidDate::parse(d) {
            Err(_) => true,
            Ok(end) => period::Request::default()
                .with_start_date(start)
                .with_end_date(end)
                .ensure_valid()
                .is_err(),
        };
        assert!(rejected);
    }
}

#[test]
fn targets_checked_against_explicit_base() {
    let r = convert::Request::default()
        .with_base(Currency::EUR)
        .with_targets(vec![Currency::EUR, Currency::USD])
        .ensure_valid();
    match r {
        Err(Error::RequestTargetsIncludeBase { base, targets }) => {
            assert_eq!(base, Currency::EUR);
            assert_eq!(targets, vec![Currency::EUR, Currency::USD]);
        },
        other => panic!("unexpected {:?}", other),
    }
}

#[test]
fn targets_checked_against_default_base() {
    let r = convert::Request::default().with_targets(vec![Currency::EUR]).ensure_valid();
    assert!(matches!(
        r,
        Err(Error::RequestTargetsIncludeBase { base: Currency::EUR, .. })
    ));
    assert!(convert::Request::default().with_targets(vec![Currency::USD]).ensure_valid().is_ok());
    assert!(convert::Request::default()
        .with_base(Currency::USD)
        .with_targets(vec![Currency::EUR])
        .ensure_valid()
        .is_ok());
}

#[test]
fn weekend_periods_are_rejected() {
    let r = period::Request::default()
        .with_start_date(date("2024-08-03"))
        .with_end_date(date("2024-08-04"))
        .ensure_valid();
    assert!(matches!(r, Err(Error::RequestWeekendDates { .. })));
    assert!(period::Request::default()
        .with_start_date(date("2024-08-02"))
        .with_end_date(date("2024-08-04"))
        .ensure_valid()
        .is_ok());
    // Sunday to the next Saturday holds weekdays.
    assert!(period::Request::default()
        .with_start_date(date("2024-08-04"))
        .with_end_date(date("2024-08-10"))
        .ensure_valid()
        .is_ok());
    // Open-ended periods are not checked for weekends.
    assert!(period::Request::default()
        .with_start_date(date("2024-08-03"))
        .ensure_valid()
        .is_ok());
}

#[test]
fn end_before_start_is_rejected() {
    let start = date("2024-06-23");
    let end = date("2024-06-22");
    let r = period::Request::default().with_start_date(start).with_end_date(end).ensure_valid();
    match r {
        Err(Error::RequestEndDateBeforeStart { start: s, end: e }) => {
            assert_eq!(s, start);
            assert_eq!(e, end);
        },
        other => panic!("unexpected {:?}", other),
    }
}

#[test]
fn setup_gives_path_and_params() {
    let req = convert::Request::default()
        .with_base(Currency::USD)
        .with_amount(amount(4))
        .with_targets(vec![Currency::AUD, Currency::DKK]);
    let (path, params) = req.setup().unwrap();
    assert_eq!(path, "latest");
    assert_eq!(
        params,
        vec![
            ("amount", String::from("4.00")),
            ("base", String::from("USD")),
            ("symbols", String::from("AUD,DKK")),
        ]
    );
    let amount_text = &params[0].1;
    assert_eq!(CurrencyValue::parse(amount_text).unwrap(), amount(4));
    assert_eq!(Currency::parse(&params[1].1), Some(Currency::USD));

    let bad = convert::Request::default().with_targets(vec![Currency::EUR]);
    assert!(bad.setup().is_err());

    let (path, params) = currencies::Request {}.setup().unwrap();
    assert_eq!(path, "currencies");
    assert!(params.is_empty());
    assert!(currencies::Request::default().ensure_valid().is_ok());
    assert!(currencies::Request::default().build_query_params().is_empty());

    let p = period::Request::default()
        .with_start_date(date("2024-10-07"))
        .with_end_date(date("2024-10-11"));
    let (path, params) = p.setup().unwrap();
    assert_eq!(path, "2024-10-07..2024-10-11");
    assert!(params.is_empty());
}

#[test]
fn command_line_requests() {
    let r = convert::Request::from_command_line(Currency::EUR, vec![], None, None);
    assert_eq!(r.base, Some(Currency::EUR));
    assert_eq!(r.targets, None);
    let r = convert::Request::from_command_line(Currency::USD, vec![Currency::GBP], None, None);
    assert_eq!(r.targets, Some(vec![Currency::GBP]));

    let start = date("2024-10-10");
    let r = period::Request::from_command_line(Currency::EUR, vec![], None, Some(start), None);
    assert_eq!(r.start_date, start);
    assert_eq!(r.targets, Some(vec![]));
    let r = period::Request::from_command_line(Currency::EUR, vec![], None, None, None);
    assert_eq!(r.start_date, ValidDate::max());
}

#[test]
fn non_success_status_is_invalid_response() {
    let url = endpoint_url("http://localhost:8080/", "invalid");
    assert_eq!(url, "http://localhost:8080/invalid");
    match check_response(url.clone(), 404, String::from("not found")) {
        Err(Error::InvalidResponse { url: u, status, body }) => {
            assert_eq!(u, "http://localhost:8080/invalid");
            assert_eq!(status, 404);
            assert_eq!(body, "not found");
        },
        other => panic!("unexpected {:?}", other),
    }
    assert_eq!(check_response(url.clone(), 200, String::from("{}")).unwrap(), "{}");
    assert_eq!(check_response(url.clone(), 299, String::from("x")).unwrap(), "x");
    assert!(check_response(url.clone(), 199, String::new()).is_err());
    assert!(check_response(url, 300, String::new()).is_err());
}
