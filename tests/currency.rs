use lib_frankfurter::data::currency::UNITS_PER_WHOLE;
use lib_frankfurter::api::convert;
use lib_frankfurter::{Currency, CurrencyValue, Error};

fn whole(n: u128) -> CurrencyValue {
    CurrencyValue::from_units(n * UNITS_PER_WHOLE).unwrap()
}

/// Reads a float through its shortest decimal text, as the front end does.
fn from_float(v: f64) -> Result<CurrencyValue, Error> {
    CurrencyValue::parse(&format!("{}", v))
}

#[test]
fn test_currency_value_validity_checked_on_creation() {
    assert!(CurrencyValue::from_units(UNITS_PER_WHOLE).is_ok());
    assert!(CurrencyValue::from_units(0).is_err());

    assert!(CurrencyValue::parse("1.0").is_ok());
    assert!(CurrencyValue::parse("0.0").is_err());
    assert!(CurrencyValue::parse("abc").is_err());
}

#[test]
fn test_is_valid_currency_value() {
    let min = CurrencyValue::min();
    let max = CurrencyValue::max();
    assert!(CurrencyValue::from_units(min.units()).is_ok());
    assert!(CurrencyValue::from_units(max.units()).is_ok());

    // A ten-thousandth below the minimum and above the maximum.
    let step = UNITS_PER_WHOLE / 10_000;
    assert!(CurrencyValue::from_units(min.units() - step).is_err());
    assert!(CurrencyValue::from_units(max.units() + step).is_err());

    for val in [f64::NAN, f64::INFINITY, f64::NEG_INFINITY, f64::MIN_POSITIVE] {
        assert!(from_float(val).is_err());
    }
}

#[test]
fn test_currency_value_ignores_separators() {
    let thousand = whole(1_000);
    let million = whole(1_000_000);

    assert_eq!(thousand, CurrencyValue::parse("1,000").unwrap());
    assert_eq!(thousand, CurrencyValue::parse("1_000").unwrap());

    assert_eq!(million, CurrencyValue::parse("1,000,000").unwrap());
    assert_eq!(million, CurrencyValue::parse("1_000_000").unwrap());

    assert_eq!(thousand, CurrencyValue::parse("1,0,0,0,,").unwrap());
    assert_eq!(million, CurrencyValue::parse("1,0,0,0,,_0_0_0_").unwrap());

    assert!(CurrencyValue::parse("0,0").is_err());
    assert!(CurrencyValue::parse("0.0,0_1").is_err());
}

#[test]
fn test_fail_invalid_amount() {
    for amount in ["0", "0.0", "0.009", "0.000001"] {
        assert!(matches!(
            CurrencyValue::parse(amount),
            Err(Error::InvalidCurrencyValue(s)) if s == amount
        ));
    }
}

#[test]
fn separators_collapse_to_the_value() {
    assert_eq!(CurrencyValue::parse("1_0,0_0").unwrap(), whole(1_000));
    assert_eq!(CurrencyValue::parse("1,000").unwrap().to_display_string(), "1000.00");
    assert_eq!(
        CurrencyValue::parse("1,234.5_6").unwrap().units(),
        123_456 * UNITS_PER_WHOLE / 100
    );
}

#[test]
fn bounds_are_inclusive() {
    assert_eq!(CurrencyValue::parse("0.01").unwrap(), CurrencyValue::min());
    assert_eq!(CurrencyValue::parse("1000000000000").unwrap(), CurrencyValue::max());
    assert_eq!(CurrencyValue::parse("1_000_000_000_000.00").unwrap(), CurrencyValue::max());
    assert!(CurrencyValue::parse("0.0099999999").is_err());
    assert!(CurrencyValue::parse("1000000000000.000001").is_err());
    assert!(CurrencyValue::parse("99999999999999999999999999").is_err());
    assert!(CurrencyValue::from_units(CurrencyValue::min().units() - 1).is_err());
    assert!(CurrencyValue::from_units(CurrencyValue::max().units() + 1).is_err());
}

#[test]
fn numerals_with_signs_and_points() {
    assert_eq!(CurrencyValue::parse("+2").unwrap(), whole(2));
    assert_eq!(CurrencyValue::parse(".5").unwrap().units(), UNITS_PER_WHOLE / 2);
    assert_eq!(CurrencyValue::parse("5.").unwrap(), whole(5));
    assert!(CurrencyValue::parse("-2").is_err());
    assert!(CurrencyValue::parse(".").is_err());
    assert!(CurrencyValue::parse("").is_err());
    assert!(CurrencyValue::parse("1.2.3").is_err());
    assert_eq!(CurrencyValue::parse("1e3").unwrap(), whole(1000));
    assert!(CurrencyValue::parse(" 1").is_err());
}

#[test]
fn numerals_with_exponents() {
    assert_eq!(CurrencyValue::parse("1e3").unwrap(), whole(1000));
    assert_eq!(CurrencyValue::parse("1E3").unwrap(), whole(1000));
    assert_eq!(CurrencyValue::parse("1.5e2").unwrap(), whole(150));
    assert_eq!(CurrencyValue::parse("+2.5E+1").unwrap(), whole(25));
    assert_eq!(CurrencyValue::parse("1,0e3").unwrap(), whole(10_000));
    assert_eq!(CurrencyValue::parse("1e-2").unwrap(), CurrencyValue::min());
    assert_eq!(CurrencyValue::parse("0.00001e3").unwrap(), CurrencyValue::min());
    assert_eq!(CurrencyValue::parse("1e12").unwrap(), CurrencyValue::max());
    assert_eq!(CurrencyValue::parse("250e-2").unwrap().to_display_string(), "2.50");
    assert_eq!(
        CurrencyValue::parse("123456789e-10").unwrap().to_exact_string(),
        "0.0123456789"
    );
    assert!(CurrencyValue::parse("1e-3").is_err());
    assert!(CurrencyValue::parse("1e13").is_err());
    assert!(CurrencyValue::parse("0e5").is_err());
    assert!(CurrencyValue::parse("-1e3").is_err());
    assert!(CurrencyValue::parse("1e").is_err());
    assert!(CurrencyValue::parse("e3").is_err());
    assert!(CurrencyValue::parse("1e+").is_err());
    assert!(CurrencyValue::parse("1e3.5").is_err());
    assert!(CurrencyValue::parse("1e2e1").is_err());
    assert!(CurrencyValue::parse("1e99999999999999999999999999999999999").is_err());
    assert!(CurrencyValue::parse("1e-99999999999999999999999999999999999").is_err());
    assert!(matches!(
        CurrencyValue::parse("1_e_3_0"),
        Err(Error::InvalidCurrencyValue(s)) if s == "1_e_3_0"
    ));
}

#[test]
fn float_text_with_exponent_is_read() {
    // Rust writes large and small floats without exponents; other writers use them.
    for (text, expected) in [("1e3", 1000.0), ("2.5E-1", 0.25), ("1.25e+2", 125.0)] {
        let v: f64 = text.parse().unwrap();
        assert_eq!(v, expected);
        assert_eq!(CurrencyValue::parse(text).unwrap(), from_float(v).unwrap());
    }
}

#[test]
fn display_rounds_half_to_even() {
    assert_eq!(CurrencyValue::parse("1.005").unwrap().to_display_string(), "1.00");
    assert_eq!(CurrencyValue::parse("1.015").unwrap().to_display_string(), "1.02");
    assert_eq!(CurrencyValue::parse("1.0051").unwrap().to_display_string(), "1.01");
    assert_eq!(CurrencyValue::parse("1.0049").unwrap().to_display_string(), "1.00");
    assert_eq!(CurrencyValue::parse("100.481983").unwrap().to_display_string(), "100.48");
    assert_eq!(CurrencyValue::parse("7821.234").unwrap().to_display_string(), "7821.23");
    assert_eq!(CurrencyValue::parse("0.995").unwrap().to_display_string(), "1.00");
    assert_eq!(CurrencyValue::min().to_display_string(), "0.01");
    assert_eq!(CurrencyValue::max().to_display_string(), "1000000000000.00");
}

#[test]
fn exact_text_drops_trailing_zeros() {
    assert_eq!(CurrencyValue::parse("1000").unwrap().to_exact_string(), "1000");
    assert_eq!(CurrencyValue::parse("0.012345").unwrap().to_exact_string(), "0.012345");
    assert_eq!(CurrencyValue::parse("2.50").unwrap().to_exact_string(), "2.5");
    assert!(matches!(
        CurrencyValue::from_units(UNITS_PER_WHOLE / 1000 * 9),
        Err(Error::InvalidCurrencyValue(s)) if s == "0.009"
    ));
    assert!(matches!(
        CurrencyValue::from_units(0),
        Err(Error::InvalidCurrencyValue(s)) if s == "0"
    ));
}

#[test]
fn float_text_is_read_exactly() {
    assert_eq!(from_float(0.2).unwrap().units(), UNITS_PER_WHOLE / 5);
    assert_eq!(from_float(100_000.4).unwrap().to_exact_string(), "100000.4");
    assert!(from_float(0.0).is_err());
    assert!(from_float(-0.2).is_err());
    assert!(from_float(f64::MAX).is_err());
}

#[test]
fn currency_codes_parse_ignoring_case() {
    assert_eq!(Currency::parse("usd"), Some(Currency::USD));
    assert!(matches!(Currency::parse("UsD"), Some(Currency::USD)));
    assert!(matches!(Currency::parse("eur"), Some(Currency::EUR)));
    assert!(matches!(Currency::parse("zar"), Some(Currency::ZAR)));
    match Currency::parse("esp") {
        Some(Currency::Other(code)) => assert_eq!(code, "ESP"),
        other => panic!("unexpected {:?}", other),
    }
    assert!(Currency::parse("").is_none());
}

#[test]
fn currency_codes_and_equality() {
    assert_eq!(Currency::AUD.code(), "AUD");
    assert_eq!(Currency::TRY.code(), "TRY");
    assert_eq!(Currency::Other("IEP".to_string()).code(), "IEP");
    assert_eq!(Currency::default(), Currency::EUR);
    assert_eq!(Currency::Other("EUR".to_string()), Currency::EUR);
    assert_ne!(Currency::Other("ESP".to_string()), Currency::EUR);
    assert_ne!(Currency::USD, Currency::EUR);
}

#[test]
fn test_fail_targets_before_base() {
    // A code that is no listed currency is kept as another currency code, so
    // targets given where the base belongs are no local error: the service
    // refuses the unknown code.
    match Currency::parse("EUR,GBP") {
        Some(Currency::Other(code)) => assert_eq!(code, "EUR,GBP"),
        other => panic!("unexpected {:?}", other),
    }
    let base = Currency::parse("eur,gbp").unwrap();
    assert_eq!(base.code(), "EUR,GBP");
    let request = convert::Request::from_command_line(base, vec![], None, None);
    assert!(request.ensure_valid().is_ok());
}
