use tidymoney::as_hashmap;
use tidymoney::dates::Date;
use tidymoney::category_and_memo::CategoryAndMemoRules;
use tidymoney::mapping::MappingRulesCsv;
use tidymoney::paths::AuxillaryPaths;
use tidymoney::payees::PayeeRules;
use tidymoney::row::StringMap;
use tidymoney::rules::{MappingTypes, RuleFileData};
use tidymoney::timestamps::TimestampKeeper;
use tidymoney::{
    account_for_dates_in_transactions, process_csv_files, NormalizedBankData,
    TransactionProcessor,
};

fn pairs(data: Vec<(&str, &str)>) -> StringMap {
    as_hashmap(
        data.into_iter()
            .map(|(k, v)| (k.to_string(), v.to_string()))
            .collect(),
    )
}

fn strings(items: Vec<&str>) -> Vec<String> {
    items.into_iter().map(|x| x.to_string()).collect()
}

fn bare(pattern: &str) -> PayeeRules {
    PayeeRules::try_from_pattern(pattern).unwrap()
}

fn payee(data: Vec<(&str, &str)>) -> PayeeRules {
    PayeeRules::try_new(&pairs(data)).unwrap()
}

fn cm(data: Vec<(&str, &str)>) -> CategoryAndMemoRules {
    CategoryAndMemoRules::try_new(&pairs(data)).unwrap()
}

fn sample_rules() -> RuleFileData {
    let payees = vec![
        (
            "Ace".to_string(),
            vec![bare("ACE HARDWARE"), payee(vec![("pattern", "HARDWARE"), ("max_amount", "20.00")])],
        ),
        (
            "Amazon.com".to_string(),
            vec![bare(r"AMAZON\.COM"), bare("AMAZON MKTPL")],
        ),
        ("Apple".to_string(), vec![bare("APPLE")]),
        (
            "Credit Card Payment".to_string(),
            vec![bare("BA ELECTRONIC PAYMENT"), bare("DIRECTPAY")],
        ),
        (
            "Hulu".to_string(),
            vec![payee(vec![("pattern", "PAYPAL INST XFER"), ("amount", "24.00")])],
        ),
        ("Local Public Transit".to_string(), vec![bare("LIGHT RAIL")]),
        ("Netflix".to_string(), vec![bare(r"Netflix\.com")]),
        (
            "The New York Times".to_string(),
            vec![payee(vec![("pattern", "PAYPAL INST XFER"), ("amount", "28.00")])],
        ),
        ("Salary".to_string(), vec![bare("DIRDEP")]),
        ("Subway".to_string(), vec![bare("Subway"), bare("SUBWAY")]),
        (
            "Transfer".to_string(),
            vec![bare("Surprise Savings Booster Transfer to Savings Account")],
        ),
        (
            "Visible".to_string(),
            vec![payee(vec![("pattern", "PAYPAL INST XFER"), ("amount", "35.00")])],
        ),
        (
            "XYZ Insurance".to_string(),
            vec![payee(vec![
                ("pattern", "PAYPAL INST XFER"),
                ("min_amount", "65.00"),
                ("max_amount", "75.00"),
                ("min_date_in_month", "15"),
            ])],
        ),
    ];
    let categories = Some(vec![
        (
            "Dining".to_string(),
            vec![cm(vec![("payee", "Subway")]), cm(vec![("payee", "Outback Steakhouse")])],
        ),
        ("Insurance".to_string(), vec![cm(vec![("payee", "XYZ Insurance")])]),
        ("Net Income".to_string(), vec![cm(vec![("payee", "Salary")])]),
        ("Payment".to_string(), vec![cm(vec![("payee", "Credit Card Payment")])]),
        ("Savings".to_string(), vec![cm(vec![("payee", "Transfer")])]),
        ("Travel".to_string(), vec![cm(vec![("payee", "Local Public Transit")])]),
    ]);
    let memos = Some(vec![
        (
            "Surprise!".to_string(),
            vec![cm(vec![("orig_payee", "Surprise"), ("category", "Savings")])],
        ),
        (
            "Parking".to_string(),
            vec![cm(vec![("orig_payee", "PARKING")]), cm(vec![("payee", "Johnson Garage")])],
        ),
    ]);
    let mappings = MappingTypes {
        csv: vec![
            MappingRulesCsv::new(
                "bank_of_america".to_string(),
                strings(vec!["Posted Date", "Reference Number", "Payee", "Address", "Amount"]),
                &pairs(vec![("date", "Posted Date")]),
                Some("%m/%d/%Y".to_string()),
                false,
            ),
            MappingRulesCsv::new(
                "ally".to_string(),
                strings(vec!["Date", " Time", " Amount", " Type", " Description"]),
                &pairs(vec![("amount", " Amount"), ("payee", " Description")]),
                None,
                false,
            ),
            MappingRulesCsv::new(
                "discover".to_string(),
                strings(vec!["Trans. Date", "Post Date", "Description", "Amount", "Category"]),
                &pairs(vec![("date", "Trans. Date"), ("payee", "Description")]),
                Some("%m/%d/%Y".to_string()),
                true,
            ),
        ],
    };
    RuleFileData::new(payees, categories, memos, mappings, AuxillaryPaths::new("/tmp".to_string()))
        .unwrap()
}

fn sample_files() -> Vec<(String, String)> {
    let texts = vec![
        "Trans. Date,Post Date,Description,Amount,Category\n09/14/2024,09/14/2024,\"AMAZON.COM*1234567\",29.99,\"Merchandise\"\n09/13/2024,09/13/2024,\"DIRECTPAY FULL BALANCESEE DETAILS OF YOUR NEXT DIRECTPAY BELOW\",-616.62,\"Payments and Credits\"\n09/05/2024,09/05/2024,\"PAYPAL INST XFER\",35.00,\"Services\"\n08/31/2024,08/31/2024,\"AMAZON MKTPL*1234567\",24.99,\"Merchandise\"\n",
        "Trans. Date,Post Date,Description,Amount,Category\n10/22/2024,10/22/2024,\"LIGHT RAIL FASTPASS\",25.00,\"Travel/ Entertainment\"\n",
        "Trans. Date,Post Date,Description,Amount,Category\n04/03/2022,10/22/2024,\"BARNS AND NOBLE\",64.00,\"Merchandise\"\n",
        "Date, Time, Amount, Type, Description\n2024-10-26,23:37:23,-12.54,Withdrawal,Wendy's\n2024-10-23,23:37:23,0.14,Deposit,Interest Paid\n2024-10-23,15:31:30,-49.00,Withdrawal,Surprise Savings Booster Transfer to Savings Account\n2024-10-21,01:13:22,-15.99,Withdrawal,PAYPAL INST XFER\n2024-10-18,01:04:46,-69.75,Withdrawal,PAYPAL INST XFER\n2024-10-11,16:14:48,550.00,Deposit,ABC INC DIRDEP\n2024-10-03,01:04:46,-69.75,Withdrawal,PAYPAL INST XFER\n2024-09-28,13:52:23,0.00,Deposit,Ping\n2024-09-23,23:43:32,0.12,Deposit,Interest Paid\n",
        "Posted Date,Reference Number,Payee,Address,Amount\n09/26/2024,123456,\"PP*APPLE.COM/BILL\",\"402-935-7733  CA \",-7.99\n09/26/2024,123456,\"PAYPAL INST XFER\",\"402-935-7733  IL \",-14.29\n09/25/2024,123456,\"PP*APPLE.COM/BILL\",\"402-935-7733  CA \",-2.99\n09/24/2024,123456,\"BA ELECTRONIC PAYMENT\",\"\",860.31\n09/24/2024,123456,\"PAYPAL INST XFER\",\"402-935-7733  NY \",-28.00\n",
        "Posted Date,Reference Number,Payee,Address,Amount\n10/24/2024,123456,\"BA ELECTRONIC PAYMENT\",\"\",25.27\n10/18/2024,123456,\"Netflix.com\",\"866-5797172   CA \",-15.49\n10/14/2024,123456,\"Subway 26689 Vancouver WA\",\"Vancouver     WA \",-6.98\n10/14/2024,123456,\"Subway 26689 Vancouver WA\",\"Vancouver     WA \",-21.57\n",
    ];
    texts
        .into_iter()
        .enumerate()
        .map(|(i, t)| (format!("{i}.csv"), t.to_string()))
        .collect()
}

fn batch_for<'a>(
    procs: &'a Vec<(String, TransactionProcessor)>,
    label: &str,
) -> &'a TransactionProcessor {
    for (l, p) in procs.iter() {
        if l == label {
            return p;
        }
    }
    panic!("no batch for {label}");
}

#[test]
fn test_full_integration() {
    let rules = sample_rules();
    let mut stamps = TimestampKeeper::new(vec![
        ("discover".to_string(), Date { year: 2023, month: 3, day: 15 }),
        ("ally".to_string(), Date { year: 2024, month: 1, day: 4 }),
    ]);
    let mut processed = process_csv_files(&sample_files(), &rules).unwrap();
    let now = Date { year: 2024, month: 10, day: 25 };
    account_for_dates_in_transactions(&now, &mut processed, &mut stamps);

    let ally = batch_for(&processed, "ally").get_transactions_as_csv();
    assert_eq!(
        ally,
        "Date,Payee,Category,Memo,Amount,Check#\n2024-10-23,Interest Paid,,,0.14,\n2024-10-23,Transfer,Savings,Surprise!,-49.00,\n2024-10-21,PAYPAL INST XFER,,,-15.99,\n2024-10-18,XYZ Insurance,Insurance,,-69.75,\n2024-10-11,Salary,Net Income,,550.00,\n2024-10-03,PAYPAL INST XFER,,,-69.75,\n2024-09-23,Interest Paid,,,0.12,\n"
    );

    let bofa = batch_for(&processed, "bank_of_america").get_transactions_as_csv();
    assert_eq!(
        bofa,
        "Date,Payee,Category,Memo,Amount,Check#\n2024-09-26,Apple,,,-7.99,\n2024-09-26,PAYPAL INST XFER,,,-14.29,\n2024-09-25,Apple,,,-2.99,\n2024-09-24,Credit Card Payment,Payment,,860.31,\n2024-09-24,The New York Times,,,-28.00,\n2024-10-24,Credit Card Payment,Payment,,25.27,\n2024-10-18,Netflix,,,-15.49,\n2024-10-14,Subway,Dining,,-6.98,\n2024-10-14,Subway,Dining,,-21.57,\n"
    );

    let discover = batch_for(&processed, "discover").get_transactions_as_csv();
    assert_eq!(
        discover,
        "Date,Payee,Category,Memo,Amount,Check#\n2024-09-14,Amazon.com,Merchandise,,-29.99,\n2024-09-13,Credit Card Payment,Payment,,616.62,\n2024-09-05,Visible,Services,,-35.00,\n2024-08-31,Amazon.com,Merchandise,,-24.99,\n2024-10-22,Local Public Transit,Travel,,-25.00,\n"
    );

    let expected_stamps = "[\n  {\n    \"account\": \"ally\",\n    \"date\": \"2024-10-25\"\n  },\n  {\n    \"account\": \"bank_of_america\",\n    \"date\": \"2024-10-25\"\n  },\n  {\n    \"account\": \"discover\",\n    \"date\": \"2024-10-25\"\n  }\n]";
    assert_eq!(stamps.get_updated_stamps(), expected_stamps);
}

#[test]
fn test_csv_serialization() {
    let first = NormalizedBankData::from_raw_data(
        &pairs(vec![
            ("Date", "2024-01-01"),
            ("Payee", "MOD"),
            ("Category", "Dining"),
            ("Amount", "-15.32"),
            ("Check#", "one"),
        ]),
        false,
        "%Y-%m-%d",
        "testing",
    )
    .unwrap();
    let second = NormalizedBankData::from_raw_data(
        &pairs(vec![
            ("Date", "2024-02-01"),
            ("Payee", "ACE"),
            ("Category", "Home:Maintenance"),
            ("Memo", "Nails"),
            ("Amount", "-6.02"),
            ("Check#", "123"),
            ("OrigPayee", "ACE HARDWARE CO"),
        ]),
        false,
        "%Y-%m-%d",
        "testing",
    )
    .unwrap();
    let processor = TransactionProcessor { transactions: vec![first, second], mapping_idx: 0 };
    let expected = "Date,Payee,Category,Memo,Amount,Check#\n\
                    2024-01-01,MOD,Dining,,-15.32,\n\
                    2024-02-01,ACE,Home:Maintenance,Nails,-6.02,123\n";
    assert_eq!(processor.get_transactions_as_csv(), expected);
}

#[test]
fn test_csv_serialization_quotes_fields() {
    let t = NormalizedBankData::from_raw_data(
        &pairs(vec![
            ("Date", "2024-01-01"),
            ("Payee", "SMITH, JONES \"AND\" CO"),
            ("Amount", "-1.00"),
        ]),
        false,
        "%Y-%m-%d",
        "testing",
    )
    .unwrap();
    let processor = TransactionProcessor { transactions: vec![t], mapping_idx: 0 };
    let expected = "Date,Payee,Category,Memo,Amount,Check#\n\
                    2024-01-01,\"SMITH, JONES \"\"AND\"\" CO\",,,-1.00,\n";
    assert_eq!(processor.get_transactions_as_csv(), expected);
}

#[test]
fn test_csv_round_trip_through_parser() {
    let rules = sample_rules();
    let file = "Trans. Date,Post Date,Description,Amount,Category\n09/14/2024,09/14/2024,\"SMITH, JONES \"\"AND\"\" CO\",29.99,\"Merchandise\"\n";
    let files = vec![("quoted.csv".to_string(), file.to_string())];
    let processed = process_csv_files(&files, &rules).unwrap();
    let p = batch_for(&processed, "discover");
    assert_eq!(p.transactions.len(), 1);
    assert_eq!(p.transactions[0].payee, "SMITH, JONES \"AND\" CO");
}

#[test]
fn test_prune_is_idempotent() {
    let mk = |date: &str, amount: &str| {
        NormalizedBankData::from_raw_data(
            &pairs(vec![("Date", date), ("Payee", "X"), ("Amount", amount)]),
            false,
            "%Y-%m-%d",
            "testing",
        )
        .unwrap()
    };
    let mut p = TransactionProcessor {
        transactions: vec![
            mk("2024-01-15", "-1.00"),
            mk("2023-12-31", "-2.00"),
            mk("2024-01-20", "0.00"),
            mk("2024-02-02", "-3.00"),
            mk("2024-01-31", "4.00"),
        ],
        mapping_idx: 0,
    };
    let start = Date { year: 2024, month: 1, day: 1 };
    let end = Date { year: 2024, month: 2, day: 1 };
    p.drop_uneeded(&start, &end);
    let once = p.get_transactions_as_csv();
    assert_eq!(p.transactions.len(), 2);
    p.drop_uneeded(&start, &end);
    let twice = p.get_transactions_as_csv();
    assert_eq!(once, twice);
}

#[test]
fn test_unknown_account_is_an_error() {
    let rules = sample_rules();
    let files = vec![("mystery.csv".to_string(), "A,B\n1,2\n".to_string())];
    let err = process_csv_files(&files, &rules).err().unwrap();
    assert_eq!(
        err,
        "No rules are defined for the account corresponding to file \"mystery.csv\""
    );
}

#[test]
fn test_malformed_file_is_an_error() {
    let rules = sample_rules();
    let files = vec![(
        "bad.csv".to_string(),
        "Trans. Date,Post Date,Description,Amount,Category\n1,2\n".to_string(),
    )];
    let err = process_csv_files(&files, &rules).err().unwrap();
    assert_eq!(err, "Cannot read the transactions in the file \"bad.csv\"");
}

#[test]
fn test_missing_column_is_an_error() {
    let rules = RuleFileData::new(
        vec![("Apple".to_string(), vec![bare("APPLE")])],
        None,
        None,
        MappingTypes {
            csv: vec![MappingRulesCsv::new(
                "tiny".to_string(),
                strings(vec!["Date", "Payee"]),
                &pairs(vec![]),
                None,
                false,
            )],
        },
        AuxillaryPaths::new("/tmp".to_string()),
    )
    .unwrap();
    let files = vec![("t.csv".to_string(), "Date,Payee\n2024-01-01,Bob\n".to_string())];
    let err = process_csv_files(&files, &rules).err().unwrap();
    assert_eq!(err, "The account 'tiny' is missing the Amount column");
}

#[test]
fn test_empty_file_gives_an_empty_batch() {
    let rules = sample_rules();
    let files = vec![(
        "empty.csv".to_string(),
        "Date, Time, Amount, Type, Description\n".to_string(),
    )];
    let ok = process_csv_files(&files, &rules).unwrap();
    assert_eq!(batch_for(&ok, "ally").transactions.len(), 0);
    assert_eq!(batch_for(&ok, "ally").get_transactions_as_csv(), "");
}
