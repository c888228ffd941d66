use near_enhanced_api::coin::history::{get_near_history, next_near_cursor};
use near_enhanced_api::coin::models::NearHistoryInfo;
use near_enhanced_api::coin::schemas::NearHistoryItem;
use near_enhanced_api::errors::ErrorKind;
use near_enhanced_api::types::account_id::AccountId;
use near_enhanced_api::types::query_params::HistoryPagination;

fn near_row(
    involved: Option<&str>,
    delta_available: &str,
    delta_staked: &str,
    available: &str,
    staked: &str,
    timestamp: &str,
) -> NearHistoryInfo {
    NearHistoryInfo {
        involved_account_id: involved.map(|text| text.to_string()),
        delta_available_balance: delta_available.to_string(),
        delta_staked_balance: delta_staked.to_string(),
        available_balance: available.to_string(),
        staked_balance: staked.to_string(),
        cause: "TRANSACTION".to_string(),
        block_timestamp_nanos: timestamp.to_string(),
    }
}

#[test]
fn native_row_is_projected() {
    let row = near_row(None, "5", "0", "105", "20", "1654000000000000000");
    let item = NearHistoryItem::try_from(row).unwrap();
    assert_eq!(item.delta_balance, 5);
    assert_eq!(item.total_balance, 125);
    assert_eq!(item.available_balance, 105);
    assert_eq!(item.staked_balance, 20);
    assert_eq!(item.delta_available_balance, 5);
    assert_eq!(item.delta_staked_balance, 0);
    assert_eq!(item.involved_account_id, None);
    assert_eq!(item.cause, "TRANSACTION");
    assert_eq!(item.block_timestamp_nanos, 1_654_000_000_000_000_000);
}

#[test]
fn native_row_with_staking_moves_between_parts() {
    let row = near_row(Some("pool.near"), "-40", "40", "60", "140", "17");
    let item = NearHistoryItem::try_from(row).unwrap();
    assert_eq!(item.delta_balance, 0);
    assert_eq!(item.delta_available_balance, -40);
    assert_eq!(item.delta_staked_balance, 40);
    assert_eq!(item.total_balance, 200);
    assert_eq!(
        item.involved_account_id,
        Some(AccountId::from_str("pool.near").unwrap())
    );
}

#[test]
fn native_row_with_bad_counterparty_fails() {
    let row = near_row(Some("Pool.near"), "5", "0", "105", "20", "17");
    assert_eq!(NearHistoryItem::try_from(row), Err(ErrorKind::AccountAddressInvalid));
    let empty = near_row(Some(""), "5", "0", "105", "20", "17");
    assert_eq!(NearHistoryItem::try_from(empty), Err(ErrorKind::AccountAddressInvalid));
}

#[test]
fn native_row_with_bad_number_fails() {
    let row = near_row(None, "5.5", "0", "105", "20", "17");
    assert_eq!(NearHistoryItem::try_from(row), Err(ErrorKind::MalformedNumeric));
    let row = near_row(None, "5", "0", "-105", "20", "17");
    assert_eq!(NearHistoryItem::try_from(row), Err(ErrorKind::OutOfRange));
    let row = near_row(None, "5", "0", "105", "20", "18446744073709551616");
    assert_eq!(NearHistoryItem::try_from(row), Err(ErrorKind::OutOfRange));
    let row = near_row(None, "5", "0", "105", "20", "1e9");
    assert_eq!(NearHistoryItem::try_from(row), Err(ErrorKind::MalformedNumeric));
}

#[test]
fn native_sums_are_checked() {
    let max = "340282366920938463463374607431768211455";
    let row = near_row(None, "0", "0", max, "1", "17");
    assert_eq!(NearHistoryItem::try_from(row), Err(ErrorKind::OutOfRange));
    let row = near_row(None, "0", "0", max, "0", "17");
    assert_eq!(NearHistoryItem::try_from(row).unwrap().total_balance, u128::MAX);
    let top = "170141183460469231731687303715884105727";
    let row = near_row(None, top, "1", "1", "1", "17");
    assert_eq!(NearHistoryItem::try_from(row), Err(ErrorKind::OutOfRange));
    let bottom = "-170141183460469231731687303715884105728";
    let row = near_row(None, bottom, "-1", "1", "1", "17");
    assert_eq!(NearHistoryItem::try_from(row), Err(ErrorKind::OutOfRange));
    let row = near_row(None, bottom, top, "1", "1", "17");
    assert_eq!(NearHistoryItem::try_from(row).unwrap().delta_balance, -1);
}

#[test]
fn native_first_failure_is_reported() {
    let row = near_row(Some("Bad"), "x", "y", "-1", "z", "");
    assert_eq!(NearHistoryItem::try_from(row), Err(ErrorKind::AccountAddressInvalid));
    let row = near_row(None, "1", "y", "-1", "z", "");
    assert_eq!(NearHistoryItem::try_from(row), Err(ErrorKind::MalformedNumeric));
    let row = near_row(None, "1", "1", "-1", "z", "");
    assert_eq!(NearHistoryItem::try_from(row), Err(ErrorKind::OutOfRange));
}

#[test]
fn native_page_keeps_order_and_length() {
    let rows = vec![
        near_row(Some("vasya.near"), "-3", "0", "97", "20", "30"),
        near_row(None, "100", "0", "100", "20", "20"),
        near_row(None, "0", "20", "0", "20", "10"),
    ];
    let items = get_near_history(rows).unwrap();
    assert_eq!(items.len(), 3);
    assert_eq!(items[0].total_balance, 117);
    assert_eq!(items[0].delta_balance, -3);
    assert_eq!(items[1].total_balance, 120);
    assert_eq!(items[2].total_balance, 20);
    assert_eq!(items[2].delta_balance, 20);
    assert_eq!(items[0].block_timestamp_nanos, 30);
    assert_eq!(items[2].block_timestamp_nanos, 10);
}

#[test]
fn native_empty_page_gives_empty_history() {
    assert_eq!(get_near_history(vec![]), Ok(vec![]));
}

#[test]
fn native_page_fails_as_a_whole() {
    let rows = vec![
        near_row(None, "1", "0", "1", "0", "30"),
        near_row(None, "1", "0", "oops", "0", "20"),
        near_row(Some("Bad"), "1", "0", "1", "0", "10"),
    ];
    assert_eq!(get_near_history(rows), Err(ErrorKind::MalformedNumeric));
}

#[test]
fn native_next_cursor_stands_behind_the_oldest_item() {
    let cursor = HistoryPagination::new(700, 1000, 10).unwrap();
    let rows = vec![
        near_row(None, "1", "0", "3", "0", "30"),
        near_row(None, "2", "0", "2", "0", "20"),
    ];
    let items = get_near_history(rows).unwrap();
    let next = next_near_cursor(&cursor, &items).unwrap();
    assert_eq!(next.block_timestamp, 20);
    assert_eq!(next.block_height, 700);
    assert_eq!(next.limit, 10);
    assert!(!next.admits(30));
    assert!(!next.admits(20));
    assert!(next.admits(19));
    assert_eq!(next_near_cursor(&cursor, &vec![]), None);
}
