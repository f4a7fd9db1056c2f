use tidymoney::as_hashmap;
use tidymoney::amount::Amount;
use tidymoney::category_and_memo::CategoryAndMemoRules;
use tidymoney::dates::Date;
use tidymoney::payees::PayeeRules;
use tidymoney::row::StringMap;
use tidymoney::NormalizedBankData;

fn pairs(data: Vec<(&str, &str)>) -> StringMap {
    as_hashmap(
        data.into_iter()
            .map(|(k, v)| (k.to_string(), v.to_string()))
            .collect(),
    )
}

fn txn(data: Vec<(&str, &str)>) -> NormalizedBankData {
    NormalizedBankData::from_raw_data(&pairs(data), false, "%Y-%m-%d", "testing").unwrap()
}

#[test]
fn test_check_at_least_one_affirmative() {
    let obj = CategoryAndMemoRules::try_new(&pairs(vec![("orig_payee", "Dennis")])).unwrap();
    assert!(obj.check_at_least_one());
}

#[test]
fn test_categories_must_give_at_least_one_rule() {
    let obj = CategoryAndMemoRules::try_new(&pairs(vec![])).unwrap();
    assert!(!obj.check_at_least_one());
    assert_eq!(
        obj.validate("category", "Dining").err().unwrap(),
        "The category \"Dining\" must implement a rule."
    );
}

#[test]
fn test_memos_must_give_at_least_one_rule() {
    let obj = CategoryAndMemoRules::try_new(&pairs(vec![])).unwrap();
    assert!(!obj.check_at_least_one());
    assert_eq!(
        obj.validate("memo", "Sandwich").err().unwrap(),
        "The memo \"Sandwich\" must implement a rule."
    );
}

#[test]
fn test_validate_works() {
    let given = vec![("pattern", "ACE"), ("max_date_in_year", "3/40")];
    let result = PayeeRules::try_new(&pairs(given)).unwrap().validate("test");
    assert!(result.is_err());
}

#[test]
fn test_validate_error_names_the_field() {
    let given = vec![("pattern", "ACE"), ("min_date_in_month", "32")];
    let err = PayeeRules::try_new(&pairs(given))
        .unwrap()
        .validate("test")
        .err()
        .unwrap();
    assert!(err.contains("MinDateInMonth that is not in [1, 31]"));
    let given = vec![("pattern", "ACE"), ("max_date_in_year", "4/31")];
    let err = PayeeRules::try_new(&pairs(given))
        .unwrap()
        .validate("test")
        .err()
        .unwrap();
    assert!(err.contains(
        "MaxDateInYear where the given date (31) is greater than the number of days in that month (30)"
    ));
}

#[test]
fn test_payee_matching_basics() {
    let t = txn(vec![("Payee", "ACE"), ("Date", "2024-04-03"), ("Amount", "-15.43")]);
    let r = PayeeRules::try_new(&pairs(vec![("pattern", "ACE")])).unwrap();
    assert!(r.transaction_matches(&t));
    let r = PayeeRules::try_new(&pairs(vec![("pattern", "Target")])).unwrap();
    assert!(!r.transaction_matches(&t));
    let r = PayeeRules::try_new(&pairs(vec![
        ("pattern", "ACE"),
        ("min_amount", "10.00"),
        ("max_amount", "20.00"),
    ]))
    .unwrap();
    assert!(r.transaction_matches(&t));
    let r = PayeeRules::try_new(&pairs(vec![
        ("pattern", "ACE"),
        ("min_amount", "10.00"),
        ("max_amount", "15.00"),
    ]))
    .unwrap();
    assert!(!r.transaction_matches(&t));
    let r = PayeeRules::try_new(&pairs(vec![("pattern", "ACE"), ("amount", "15.43")])).unwrap();
    assert!(r.transaction_matches(&t));
    let r = PayeeRules::try_new(&pairs(vec![("pattern", "ACE"), ("amount", "15.00")])).unwrap();
    assert!(!r.transaction_matches(&t));
}

#[test]
fn test_payee_matching_is_sign_agnostic() {
    let rule = PayeeRules::try_new(&pairs(vec![("pattern", "ACE"), ("max_amount", "20.00")]))
        .unwrap();
    let debit = txn(vec![("Payee", "ACE"), ("Date", "2024-04-03"), ("Amount", "-15.43")]);
    let credit = txn(vec![("Payee", "ACE"), ("Date", "2024-04-03"), ("Amount", "15.43")]);
    assert_eq!(rule.transaction_matches(&debit), rule.transaction_matches(&credit));
    assert!(rule.transaction_matches(&debit));
}

#[test]
fn test_payee_matching_regex_is_a_pattern() {
    let rule = PayeeRules::try_from_pattern(r"AMAZON\.COM").unwrap();
    let hit = txn(vec![
        ("Payee", "AMAZON.COM*1234567"),
        ("Date", "2024-09-14"),
        ("Amount", "29.99"),
    ]);
    let miss = txn(vec![
        ("Payee", "AMAZONxCOM*1234567"),
        ("Date", "2024-09-14"),
        ("Amount", "29.99"),
    ]);
    assert!(rule.transaction_matches(&hit));
    assert!(!rule.transaction_matches(&miss));
}

#[test]
fn test_payee_matching_date_windows() {
    let base = vec![("Payee", "ACE"), ("Date", "2024-04-03"), ("Amount", "-15.43")];
    let r = PayeeRules::try_new(&pairs(vec![("pattern", "ACE"), ("min_date_in_month", "6")]))
        .unwrap();
    assert!(!r.transaction_matches(&txn(base.clone())));
    let r = PayeeRules::try_new(&pairs(vec![("pattern", "ACE"), ("min_date_in_month", "2")]))
        .unwrap();
    assert!(r.transaction_matches(&txn(base.clone())));
    let r = PayeeRules::try_new(&pairs(vec![
        ("pattern", "ACE"),
        ("min_date_in_month", "25"),
        ("max_date_in_month", "6"),
    ]))
    .unwrap();
    assert!(r.transaction_matches(&txn(base.clone())));
    let wrap = PayeeRules::try_new(&pairs(vec![
        ("pattern", "ACE"),
        ("min_date_in_month", "25"),
        ("max_date_in_month", "6"),
    ]))
    .unwrap();
    let inside = txn(vec![("Payee", "ACE"), ("Date", "2024-04-29"), ("Amount", "-15.43")]);
    let outside = txn(vec![("Payee", "ACE"), ("Date", "2024-04-24"), ("Amount", "-15.43")]);
    assert!(wrap.transaction_matches(&inside));
    assert!(!wrap.transaction_matches(&outside));
    let r = PayeeRules::try_new(&pairs(vec![
        ("pattern", "ACE"),
        ("min_date_in_year", "12/3"),
        ("max_date_in_year", "3/6"),
    ]))
    .unwrap();
    let dec = txn(vec![("Payee", "ACE"), ("Date", "2024-12-29"), ("Amount", "-15.43")]);
    let nov = txn(vec![("Payee", "ACE"), ("Date", "2024-11-24"), ("Amount", "-15.43")]);
    assert!(r.transaction_matches(&dec));
    assert!(!r.transaction_matches(&nov));
}

#[test]
fn test_cm_matching_basics() {
    let t = txn(vec![("Payee", "ACE"), ("Date", "2024-04-03"), ("Amount", "-15.43")]);
    let r = CategoryAndMemoRules::try_new(&pairs(vec![("payee", "ACE")])).unwrap();
    assert!(r.transaction_matches(&t));
    let r = CategoryAndMemoRules::try_new(&pairs(vec![("payee", "Target")])).unwrap();
    assert!(!r.transaction_matches(&t));
    let r = CategoryAndMemoRules::try_new(&pairs(vec![("orig_payee", "^ACE")])).unwrap();
    assert!(r.transaction_matches(&t));
    let r = CategoryAndMemoRules::try_new(&pairs(vec![("orig_payee", "^TARGET")])).unwrap();
    assert!(!r.transaction_matches(&t));
    let r = CategoryAndMemoRules::try_new(&pairs(vec![("category", "Hardware")])).unwrap();
    assert!(!r.transaction_matches(&t));
    let with_cat = txn(vec![
        ("Payee", "ACE"),
        ("Date", "2024-04-03"),
        ("Amount", "-15.43"),
        ("Category", "Hardware"),
    ]);
    assert!(r.transaction_matches(&with_cat));
}

#[test]
fn test_cm_matching_income_rule() {
    let income = txn(vec![("Payee", "ACE"), ("Date", "2024-04-03"), ("Amount", "15.43")]);
    let r = CategoryAndMemoRules::try_new(&pairs(vec![("income_ok", "true")])).unwrap();
    assert!(r.transaction_matches(&income));
    let r = CategoryAndMemoRules::try_new(&pairs(vec![("income_ok", "false")])).unwrap();
    assert!(!r.transaction_matches(&income));
    let debit = txn(vec![("Payee", "ACE"), ("Date", "2024-04-03"), ("Amount", "-15.43")]);
    assert!(r.transaction_matches(&debit));
}

#[test]
fn test_interpret_dollar_amount_parses_exactly() {
    let t = txn(vec![("Payee", "A"), ("Date", "2024-01-01"), ("Amount", "4.56")]);
    assert_eq!(t.amount, Amount::from_parts(456, 2).unwrap());
    assert_eq!(t.amount.to_text(), "4.56");
    let t = txn(vec![("Payee", "A"), ("Date", "2024-01-01"), ("Amount", "-4.56")]);
    assert_eq!(t.amount, Amount::from_parts(-456, 2).unwrap());
    assert_eq!(t.amount.to_text(), "-4.56");
    let neg = NormalizedBankData::from_raw_data(
        &pairs(vec![("Payee", "A"), ("Date", "2024-01-01"), ("Amount", "4.56")]),
        true,
        "%Y-%m-%d",
        "testing",
    )
    .unwrap();
    assert_eq!(neg.amount, Amount::from_parts(-456, 2).unwrap());
    let junk = txn(vec![("Payee", "A"), ("Date", "2024-01-01"), ("Amount", "gandalf")]);
    assert!(junk.amount.is_zero());
}

#[test]
fn test_from_raw_data_missing_columns() {
    let e = NormalizedBankData::from_raw_data(
        &pairs(vec![("Date", "2024-01-01"), ("Amount", "1.00")]),
        false,
        "%Y-%m-%d",
        "acct",
    )
    .err()
    .unwrap();
    assert_eq!(e, "The account 'acct' is missing the Payee column");
    let e = NormalizedBankData::from_raw_data(
        &pairs(vec![("Payee", "A"), ("Amount", "1.00")]),
        false,
        "%Y-%m-%d",
        "acct",
    )
    .err()
    .unwrap();
    assert_eq!(e, "The account 'acct' is missing the Date column");
    let e = NormalizedBankData::from_raw_data(
        &pairs(vec![("Payee", "A"), ("Date", "2024-01-01")]),
        false,
        "%Y-%m-%d",
        "acct",
    )
    .err()
    .unwrap();
    assert_eq!(e, "The account 'acct' is missing the Amount column");
}

#[test]
fn test_from_raw_data_bad_date() {
    let e = NormalizedBankData::from_raw_data(
        &pairs(vec![("Payee", "A"), ("Date", "01/02/2024"), ("Amount", "1.00")]),
        false,
        "%Y-%m-%d",
        "acct",
    )
    .err()
    .unwrap();
    assert_eq!(
        e,
        "Cannot parse the date \"01/02/2024\" with the format string \"%Y-%m-%d\""
    );
}

#[test]
fn test_from_raw_data_parses_date_format() {
    let t = NormalizedBankData::from_raw_data(
        &pairs(vec![("Payee", "A"), ("Date", "09/14/2024"), ("Amount", "1.00")]),
        false,
        "%m/%d/%Y",
        "acct",
    )
    .unwrap();
    assert_eq!(t.date, Date { year: 2024, month: 9, day: 14 });
    let t = txn(vec![
        ("Payee", "A"),
        ("Date", "2024-02-29"),
        ("Amount", "1.00"),
        ("Check#", "123"),
    ]);
    assert_eq!(t.date, Date { year: 2024, month: 2, day: 29 });
    assert_eq!(t.check, Some(123));
    let t = txn(vec![
        ("Payee", "A"),
        ("Date", "2024-01-01"),
        ("Amount", "1.00"),
        ("Check#", "one"),
    ]);
    assert_eq!(t.check, None);
}

#[test]
fn test_skipme() {
    let start = Date { year: 2024, month: 1, day: 1 };
    let end = Date { year: 2024, month: 2, day: 1 };
    let zero = txn(vec![("Payee", "MOD"), ("Date", "2024-01-15"), ("Amount", "0.00")]);
    assert!(zero.skipme(&start, &end));
    let early = txn(vec![("Payee", "MOD"), ("Date", "2023-12-31"), ("Amount", "-15.32")]);
    assert!(early.skipme(&start, &end));
    let late = txn(vec![("Payee", "MOD"), ("Date", "2024-02-02"), ("Amount", "-15.32")]);
    assert!(late.skipme(&start, &end));
    let kept = txn(vec![("Payee", "MOD"), ("Date", "2024-01-01"), ("Amount", "-15.32")]);
    assert!(!kept.skipme(&start, &end));
}
