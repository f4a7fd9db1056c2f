use tidymoney::as_hashmap;
use tidymoney::dates::{Date, is_leap_year, last_date_in_month};
use tidymoney::date_filter::{date_is_outside_range, validate_date_filters};
use tidymoney::mapping::MappingRulesCsv;
use tidymoney::paths::AuxillaryPaths;
use tidymoney::payees::PayeeRules;
use tidymoney::row::StringMap;
use tidymoney::rules::{MappingTypes, RuleFileData};
use tidymoney::strutil::parse_u32;
use tidymoney::amount::Amount;
use tidymoney::dates::format_date;
use tidymoney::timestamps::{timestamps_path, TimestampKeeper};

fn pairs(data: Vec<(&str, &str)>) -> StringMap {
    as_hashmap(
        data.into_iter()
            .map(|(k, v)| (k.to_string(), v.to_string()))
            .collect(),
    )
}

fn strings(items: Vec<&str>) -> Vec<String> {
    items.into_iter().map(|x| x.to_string()).collect()
}

fn pnc_mapping() -> MappingRulesCsv {
    MappingRulesCsv::new(
        "pnc".to_string(),
        strings(vec!["Date", "Reference Number", "Payee", "Address", "Amount"]),
        &pairs(vec![]),
        None,
        false,
    )
}

#[test]
fn test_cannot_repeat_patterns() {
    let payees = vec![
        (
            "Apple".to_string(),
            vec![
                PayeeRules::try_new(&pairs(vec![("pattern", "PAYPAL"), ("min_amount", "50.00")]))
                    .unwrap(),
                PayeeRules::try_from_pattern("APPLE").unwrap(),
            ],
        ),
        (
            "Microsoft".to_string(),
            vec![
                PayeeRules::try_from_pattern("MICROSOFT").unwrap(),
                PayeeRules::try_new(&pairs(vec![("pattern", "PAYPAL"), ("min_amount", "50.00")]))
                    .unwrap(),
            ],
        ),
    ];
    let result = RuleFileData::new(
        payees,
        None,
        None,
        MappingTypes { csv: vec![pnc_mapping()] },
        AuxillaryPaths::new("/tmp".to_string()),
    );
    assert_eq!(
        r#"The payees "Apple" and "Microsoft" both implement identical rules."#,
        result.err().unwrap()
    );
}

#[test]
fn test_storage_must_exist() {
    let paths = AuxillaryPaths::new("/does/not/exist".to_string());
    assert!(paths.validate().err().unwrap().contains("is not a directory"));
    let paths = AuxillaryPaths::new("/tmp".to_string());
    assert!(paths.validate().is_ok());
}

#[test]
fn test_header_matches() {
    let mapping = pnc_mapping();
    assert!(mapping.header_matches(&strings(vec![
        "Date",
        "Reference Number",
        "Payee",
        "Address",
        "Amount"
    ])));
    assert!(!mapping.header_matches(&strings(vec!["hello"])));
    assert!(!mapping.header_matches(&strings(vec![
        "Date",
        "Payee",
        "Reference Number",
        "Address",
        "Amount"
    ])));
}

#[test]
fn test_mapping_validate() {
    let identify = strings(vec!["Posting Date", "Description", "Amount", "Check Number"]);
    let good = MappingRulesCsv::new(
        "testing".to_string(),
        identify.clone(),
        &pairs(vec![("date", "Posting Date"), ("payee", "Description")]),
        None,
        false,
    );
    assert!(good.validate().is_ok());
    let bad = MappingRulesCsv::new(
        "testing".to_string(),
        identify,
        &pairs(vec![("payee", "Vendor")]),
        None,
        false,
    );
    let err = bad.validate().err().unwrap();
    assert_eq!(
        err,
        "The account testing lists Vendor for translation but it is not listed in identify."
    );
}

#[test]
fn test_remap() {
    let identify = strings(vec![
        "Transaction ID",
        "Posting Date",
        "Amount",
        "Check Number",
        "Description",
        "Transaction Category",
        "Memo",
    ]);
    let mapping = MappingRulesCsv::new(
        "testing".to_string(),
        identify,
        &pairs(vec![
            ("date", "Posting Date"),
            ("check", "Check Number"),
            ("payee", "Description"),
            ("category", "Transaction Category"),
        ]),
        None,
        false,
    );
    let row = pairs(vec![
        ("Transaction ID", "12345"),
        ("Posting Date", "2022-03-04"),
        ("Amount", "-14.53"),
        ("Check Number", "1234"),
        ("Description", "ACE"),
        ("Transaction Category", "Hardware"),
        ("Memo", "Things"),
    ]);
    let out = mapping.remap(row);
    assert_eq!(out.get("Transaction ID").unwrap(), "12345");
    assert_eq!(out.get("Date").unwrap(), "2022-03-04");
    assert_eq!(out.get("Amount").unwrap(), "-14.53");
    assert_eq!(out.get("Check#").unwrap(), "1234");
    assert_eq!(out.get("Payee").unwrap(), "ACE");
    assert_eq!(out.get("Category").unwrap(), "Hardware");
    assert_eq!(out.get("Memo").unwrap(), "Things");
    assert!(out.get("Posting Date").is_none());
    assert!(out.get("Description").is_none());
}

#[test]
fn test_last_date_in_month() {
    assert_eq!(last_date_in_month(&Date { year: 2024, month: 2, day: 1 }), 29);
    assert_eq!(last_date_in_month(&Date { year: 2023, month: 2, day: 1 }), 28);
    assert_eq!(last_date_in_month(&Date { year: 2024, month: 1, day: 1 }), 31);
    assert_eq!(last_date_in_month(&Date { year: 2024, month: 4, day: 1 }), 30);
    assert_eq!(last_date_in_month(&Date { year: 2024, month: 12, day: 1 }), 31);
    assert!(is_leap_year(2000));
    assert!(!is_leap_year(1900));
}

#[test]
fn test_date_filter_wraparound() {
    let bounds = (Some(25), Some(6));
    let d29 = Date { year: 2024, month: 4, day: 29 };
    let d2 = Date { year: 2024, month: 4, day: 2 };
    let d10 = Date { year: 2024, month: 4, day: 10 };
    assert!(!date_is_outside_range(&d29, bounds, (None, None)));
    assert!(!date_is_outside_range(&d2, bounds, (None, None)));
    assert!(date_is_outside_range(&d10, bounds, (None, None)));
}

#[test]
fn test_date_filter_symmetric_bounds() {
    let bounds = (Some(14), Some(14));
    for day in 1..=30 {
        let d = Date { year: 2024, month: 4, day };
        assert_eq!(date_is_outside_range(&d, bounds, (None, None)), day != 14);
    }
}

#[test]
fn test_date_filter_year_window() {
    let d = Date { year: 2024, month: 5, day: 9 };
    assert!(!date_is_outside_range(&d, (None, None), (Some((2, 7)), Some((6, 15)))));
    assert!(date_is_outside_range(&d, (None, None), (Some((6, 15)), Some((8, 12)))));
    assert!(date_is_outside_range(&d, (None, None), (Some((12, 2)), Some((2, 12)))));
    assert!(!date_is_outside_range(&d, (None, None), (Some((12, 2)), Some((5, 12)))));
}

#[test]
fn test_validate_date_filters_messages() {
    let err = validate_date_filters("test", "test", (Some(0), None), (None, None))
        .err()
        .unwrap();
    assert!(err.contains("MinDateInMonth that is not in [1, 31]"));
    let err = validate_date_filters("test", "test", (None, Some(32)), (None, None))
        .err()
        .unwrap();
    assert!(err.contains("MaxDateInMonth that is not in [1, 31]"));
    let err = validate_date_filters("test", "test", (None, None), (Some((13, 1)), None))
        .err()
        .unwrap();
    assert!(err.contains("MinDateInYear where the month is not in [1, 12] or the day is not in [1, 31]"));
    let err = validate_date_filters("test", "test", (None, None), (None, Some((4, 31))))
        .err()
        .unwrap();
    assert!(err.contains(
        "MaxDateInYear where the given date (31) is greater than the number of days in that month (30)"
    ));
    assert!(validate_date_filters("test", "test", (Some(1), Some(31)), (None, None)).is_ok());
}

#[test]
fn test_parse_u32_as_std_does() {
    assert_eq!(parse_u32("123"), Some(123));
    assert_eq!(parse_u32("+123"), Some(123));
    assert_eq!(parse_u32("0"), Some(0));
    assert_eq!(parse_u32(""), None);
    assert_eq!(parse_u32("one"), None);
    assert_eq!(parse_u32("12x"), None);
    assert_eq!(parse_u32("4294967295"), Some(u32::MAX));
    assert_eq!(parse_u32("4294967296"), None);
}

#[test]
fn test_timestamps_path() {
    let given = "/this/is/my/path/to/rules.toml";
    let expected = "/this/is/my/path/to/timestamps.json";
    let result = timestamps_path(given).unwrap();
    assert_eq!(result, expected);
}

#[test]
fn test_timestamps_path_needs_a_parent() {
    assert!(timestamps_path("/").is_err());
    assert!(timestamps_path("").is_err());
}

#[test]
fn test_timestamp_tracking() {
    let given = vec![
        ("VISA".to_string(), Date { year: 2023, month: 3, day: 15 }),
        ("PNC".to_string(), Date { year: 2024, month: 1, day: 4 }),
    ];
    let expected = "[\n  {\n    \"account\": \"Credit Union\",\n    \"date\": \"2024-10-23\"\n  },\n  {\n    \"account\": \"PNC\",\n    \"date\": \"2024-01-04\"\n  },\n  {\n    \"account\": \"VISA\",\n    \"date\": \"2024-05-07\"\n  }\n]";
    let mut stamps = TimestampKeeper::new(given);
    stamps.update_date("VISA", &Date { year: 2024, month: 2, day: 29 });
    stamps.update_date("PNC", &Date { year: 2023, month: 7, day: 3 });
    stamps.update_date("Credit Union", &Date { year: 2024, month: 10, day: 23 });
    stamps.update_date("VISA", &Date { year: 2024, month: 5, day: 7 });
    let result = stamps.get_updated_stamps();
    assert_eq!(result, expected);
}

#[test]
fn test_watermark_never_regresses() {
    let mut stamps = TimestampKeeper::new_empty();
    let d1 = Date { year: 2024, month: 5, day: 7 };
    let d2 = Date { year: 2024, month: 2, day: 29 };
    stamps.update_date("VISA", &d1);
    stamps.update_date("VISA", &d2);
    assert_eq!(stamps.get_date("VISA"), d1);
}

#[test]
fn test_amount_equality_ignores_scale() {
    let a = Amount::from_parts(2400, 2).unwrap();
    let b = Amount::from_parts(240, 1).unwrap();
    let c = Amount::from_parts(24, 0).unwrap();
    let d = Amount::from_parts(2401, 2).unwrap();
    assert_eq!(a, b);
    assert_eq!(a, c);
    assert_ne!(a, d);
    assert_eq!(a.to_text(), "24.00");
    assert_eq!(b.to_text(), "24.0");
    assert_eq!(c.to_text(), "24");
    assert!(a.le(&d) && !d.le(&a));
    assert!(Amount::from_parts(-2400, 2).unwrap().le(&a));
}

#[test]
fn test_format_date_pads() {
    assert_eq!(format_date(&Date { year: 2024, month: 3, day: 7 }), "2024-03-07");
    assert_eq!(format_date(&Date { year: 987, month: 12, day: 31 }), "0987-12-31");
}

#[test]
fn test_watermark_default_is_early() {
    let stamps = TimestampKeeper::new_empty();
    assert_eq!(stamps.get_date("missing"), Date { year: 2000, month: 1, day: 1 });
    let empty = TimestampKeeper::new_empty();
    assert_eq!(empty.get_updated_stamps(), "[]");
}
