use ratio_report::fetch::{decode_failure, json_failure, FetchError, JsonFault};
use ratio_report::record::{get_last_data, latest_interest, latest_long_short, InterestData, LongShortData};

fn interest(amount: &str, timestamp: i64) -> InterestData {
    InterestData {
        symbol: "BTCUSDT".to_string(),
        sum_open_interest: amount.to_string(),
        sum_open_interest_value: "0".to_string(),
        timestamp,
    }
}

fn long_short(long: &str, timestamp: i64) -> LongShortData {
    LongShortData {
        symbol: "BTCUSDT".to_string(),
        long_short_ratio: "1".to_string(),
        long_account: long.to_string(),
        short_account: "0".to_string(),
        timestamp,
    }
}

#[test]
fn test_get_last_data() {
    let tester = vec![
        interest("88000.00000000", 1732442100000),
        interest("88637.56900000", 1732442700000),
        interest("88300.00000000", 1732442400000),
    ];
    let key_fn = |entry: &InterestData| entry.timestamp;
    let res = get_last_data(&tester, key_fn);
    let found = res.expect("Failed to get last data");
    assert_eq!(found.timestamp, 1732442700000);
    assert_eq!(found.sum_open_interest, "88637.56900000");
}

#[test]
fn get_last_data_of_nothing_is_none() {
    let none: Vec<InterestData> = vec![];
    assert!(get_last_data(&none, |entry| entry.timestamp).is_none());
    assert!(latest_interest(&none).is_none());
    let none: Vec<LongShortData> = vec![];
    assert!(latest_long_short(&none).is_none());
}

#[test]
fn get_last_data_takes_the_last_of_equal_keys() {
    let data = vec![(5i64, 'a'), (9, 'b'), (9, 'c'), (1, 'd'), (9, 'e'), (8, 'f')];
    assert_eq!(get_last_data(&data, |entry| entry.0).map(|entry| entry.1), Some('e'));
    let data = vec![(3i64, 'a'), (3, 'b')];
    assert_eq!(get_last_data(&data, |entry| entry.0).map(|entry| entry.1), Some('b'));
    let data = vec![(i64::MIN, 'a')];
    assert_eq!(get_last_data(&data, |entry| entry.0).map(|entry| entry.1), Some('a'));
    let data = vec![(-1i64, 'a'), (-7, 'b'), (i64::MAX, 'c'), (0, 'd')];
    assert_eq!(get_last_data(&data, |entry| entry.0).map(|entry| entry.1), Some('c'));
}

#[test]
fn get_last_data_calls_the_key_once_per_entry() {
    let calls = std::cell::Cell::new(0);
    let data = vec![4i64, 2, 7, 7, 1];
    let found = get_last_data(&data, |entry| {
        calls.set(calls.get() + 1);
        *entry
    });
    assert_eq!(found, Some(&7));
    assert_eq!(calls.get(), 5);
}

#[test]
fn latest_records_by_timestamp() {
    let records = vec![interest("1", 10), interest("2", 30), interest("3", 30), interest("4", 20)];
    assert_eq!(latest_interest(&records).map(|r| r.sum_open_interest.as_str()), Some("3"));
    let records = vec![long_short("0.1", 50), long_short("0.2", 40)];
    assert_eq!(latest_long_short(&records).map(|r| r.long_account.as_str()), Some("0.1"));
}

#[test]
fn decode_failure_tells_shape_from_text() {
    assert_eq!(decode_failure(JsonFault::Data), FetchError::ParseError);
    assert_eq!(decode_failure(JsonFault::Syntax), FetchError::DecodeError);
    assert_eq!(decode_failure(JsonFault::Eof), FetchError::DecodeError);
    assert_eq!(decode_failure(JsonFault::Io), FetchError::DecodeError);
}

#[test]
fn json_failure_classifies_real_errors() {
    let truncated = serde_json::from_str::<Vec<i64>>("[1, 2").unwrap_err();
    assert_eq!(json_failure(&truncated), FetchError::DecodeError);
    let malformed = serde_json::from_str::<Vec<i64>>("[1 2]").unwrap_err();
    assert_eq!(json_failure(&malformed), FetchError::DecodeError);
    let not_json = serde_json::from_str::<Vec<i64>>("<html>").unwrap_err();
    assert_eq!(json_failure(&not_json), FetchError::DecodeError);
    let wrong_shape = serde_json::from_str::<Vec<i64>>("{\"code\": -1121}").unwrap_err();
    assert_eq!(json_failure(&wrong_shape), FetchError::ParseError);
    let wrong_field = serde_json::from_str::<Vec<i64>>("[\"1\"]").unwrap_err();
    assert_eq!(json_failure(&wrong_field), FetchError::ParseError);
}
