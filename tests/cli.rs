use lib_frankfurter::cli::{OutputFormat, SubcommandBaseModifiers};

#[test]
fn test_fail_raw_and_json() {
    let both = SubcommandBaseModifiers { json: true, raw: true };
    assert_eq!(both.output_format(), None);
}

#[test]
fn output_format_follows_the_switches() {
    let pick = |json, raw| SubcommandBaseModifiers { json, raw }.output_format();
    assert_eq!(pick(true, false), Some(OutputFormat::Json));
    assert_eq!(pick(false, true), Some(OutputFormat::Raw));
    assert_eq!(pick(false, false), Some(OutputFormat::Table));
}
