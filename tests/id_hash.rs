use zkb::{build_report, IdHashBinary};

#[test]
fn test_try_from_fail_on_invalid_hex_number() {
    let value = IdHashBinary::try_from((42, "1a3"));
    assert!(value.is_err());
    assert_eq!(value.unwrap_err(), IdHashBinary::ERR_DECODE);
}

#[test]
fn test_try_from_fail_on_too_short_hash() {
    let value = IdHashBinary::try_from((42, "1a38d4921711476e5ea304f799a1552b4d2e5d"));
    assert!(value.is_err());
    assert_eq!(value.unwrap_err(), IdHashBinary::ERR_ARRAY);
}

#[test]
fn test_try_from_fail_on_too_long_hash() {
    let value = IdHashBinary::try_from((42, "1a38d4921711476e5ea304f799a1552b4d2e5d2828"));
    assert!(value.is_err());
    assert_eq!(value.unwrap_err(), IdHashBinary::ERR_ARRAY);
}

#[test]
fn test_try_from() {
    let res = IdHashBinary::try_from((42, "1a38d4921711476e5ea304f799a1552b4d2e5d28"));
    assert!(res.is_ok());
    let value = res.unwrap();
    assert_eq!(42, value.get_id());
    assert_eq!(
        "1a38d4921711476e5ea304f799a1552b4d2e5d28",
        IdHashBinary::hash_to_string(&value.get_hash()[..])
    );
}

#[test]
fn try_from_accepts_upper_case_and_decodes_bytes() {
    let value = IdHashBinary::try_from((7, "FF00aa00000000000000000000000000000000A1")).unwrap();
    let hash = value.get_hash();
    assert_eq!(hash[0], 0xff);
    assert_eq!(hash[1], 0x00);
    assert_eq!(hash[2], 0xaa);
    assert_eq!(hash[19], 0xa1);
    assert_eq!(
        IdHashBinary::hash_to_string(&hash[..]),
        "ff00aa00000000000000000000000000000000a1"
    );
}

#[test]
fn try_from_rejects_non_hex_character() {
    let value = IdHashBinary::try_from((1, "zz38d4921711476e5ea304f799a1552b4d2e5d28"));
    assert_eq!(value.unwrap_err(), IdHashBinary::ERR_DECODE);
}

#[test]
fn hash_to_string_of_bytes() {
    assert_eq!(IdHashBinary::hash_to_string(&[0x01, 0xab, 0xff]), "01abff");
    assert_eq!(IdHashBinary::hash_to_string(&[]), "");
}

#[test]
fn string_to_hash_decodes_and_rejects() {
    assert_eq!(
        IdHashBinary::string_to_hash(String::from("0aFf")).unwrap(),
        vec![0x0a, 0xff]
    );
    assert_eq!(
        IdHashBinary::string_to_hash(String::from("abc")).unwrap_err(),
        IdHashBinary::ERR_DECODE
    );
}

#[test]
fn build_report_keeps_order_and_values() {
    let entries = vec![
        (3, "aa".repeat(20)),
        (1, "bb".repeat(20)),
    ];
    let report = build_report(String::from("2022-01-05"), &entries).unwrap();
    assert_eq!(report.date, "2022-01-05");
    assert_eq!(report.killmails.len(), 2);
    assert_eq!(report.killmails[0].get_id(), 3);
    assert_eq!(report.killmails[0].get_hash(), [0xaa; 20]);
    assert_eq!(report.killmails[1].get_id(), 1);
    assert_eq!(report.killmails[1].get_hash(), [0xbb; 20]);
}

#[test]
fn build_report_fails_on_bad_digest() {
    let entries = vec![(3, "aa".repeat(20)), (4, String::from("abc"))];
    assert_eq!(
        build_report(String::from("2022-01-05"), &entries).unwrap_err(),
        IdHashBinary::ERR_DECODE
    );
    let entries = vec![(3, "aa".repeat(19))];
    assert_eq!(
        build_report(String::from("2022-01-05"), &entries).unwrap_err(),
        IdHashBinary::ERR_ARRAY
    );
}

#[test]
fn build_report_of_no_entries_is_empty() {
    let report = build_report(String::from("2022-01-05"), &Vec::new()).unwrap();
    assert!(report.killmails.is_empty());
}

#[test]
fn daily_report_new_is_empty() {
    let report = zkb::DailyReport::new(String::from("2021-12-31"));
    assert_eq!(report.date, "2021-12-31");
    assert!(report.killmails.is_empty());
}
