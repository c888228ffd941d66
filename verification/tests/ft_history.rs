use near_enhanced_api::coin::history::{
    get_ft_history, next_ft_cursor, reconstruct_event, role_in_event, walk_ft_history,
    BalanceSnapshot, PageFailure, Role,
};
use near_enhanced_api::coin::models::FtHistoryInfo;
use near_enhanced_api::errors::{ErrorKind, InternalFault};
use near_enhanced_api::types::account_id::AccountId;
use near_enhanced_api::types::query_params::HistoryPagination;

fn subject() -> AccountId {
    AccountId::from_str("pushxo.near").unwrap()
}

fn event(old_owner: &str, new_owner: &str, amount: &str, height: &str, timestamp: &str) -> FtHistoryInfo {
    FtHistoryInfo {
        block_height: height.to_string(),
        block_timestamp: timestamp.to_string(),
        amount: amount.to_string(),
        event_kind: "TRANSFER".to_string(),
        old_owner_id: old_owner.to_string(),
        new_owner_id: new_owner.to_string(),
    }
}

#[test]
fn receiver_event_walks_backward() {
    let received = event("vasya.near", "pushxo.near", "30", "70", "7000");
    let (item, running_balance) = reconstruct_event(&subject(), 100, &received).unwrap();
    assert_eq!(item.delta_balance, 30);
    assert_eq!(item.balance, 100);
    assert_eq!(running_balance, 70);
    assert_eq!(item.action_kind, "TRANSFER");
    assert_eq!(item.involved_account_id, Some(AccountId::from_str("vasya.near").unwrap()));
    assert_eq!(item.coin_metadata, None);
    assert_eq!(item.block_height, 70);
    assert_eq!(item.block_timestamp_nanos, 7000);
}

#[test]
fn receiver_event_is_followed_by_the_older_balance() {
    let page = vec![
        event("vasya.near", "pushxo.near", "30", "70", "7000"),
        event("pushxo.near", "petya.near", "5", "60", "6000"),
    ];
    let items = get_ft_history(&subject(), 100, page).unwrap();
    assert_eq!(items[0].delta_balance, 30);
    assert_eq!(items[0].balance, 100);
    assert_eq!(items[1].balance, 70);
    assert_eq!(items[1].delta_balance, -5);
}

#[test]
fn negative_balance_is_an_internal_error() {
    let received = event("vasya.near", "pushxo.near", "50", "70", "7000");
    assert_eq!(
        reconstruct_event(&subject(), 10, &received),
        Err(ErrorKind::InternalError(InternalFault::NegativeBalance))
    );
    assert_eq!(
        get_ft_history(&subject(), 10, vec![received]),
        Err(ErrorKind::InternalError(InternalFault::NegativeBalance))
    );
}

#[test]
fn sender_event_raises_the_older_balance() {
    let sent = event("pushxo.near", "vasya.near", "50", "70", "7000");
    let (item, running_balance) = reconstruct_event(&subject(), 10, &sent).unwrap();
    assert_eq!(item.delta_balance, -50);
    assert_eq!(item.balance, 10);
    assert_eq!(running_balance, 60);
    assert_eq!(item.involved_account_id, Some(AccountId::from_str("vasya.near").unwrap()));
}

#[test]
fn role_is_told_apart() {
    let me = subject();
    assert_eq!(role_in_event(&me, &event("pushxo.near", "vasya.near", "1", "1", "1")), Role::Sender);
    assert_eq!(role_in_event(&me, &event("vasya.near", "pushxo.near", "1", "1", "1")), Role::Receiver);
    assert_eq!(role_in_event(&me, &event("vasya.near", "petya.near", "1", "1", "1")), Role::Inconsistent);
    assert_eq!(role_in_event(&me, &event("", "", "1", "1", "1")), Role::Inconsistent);
    assert_eq!(role_in_event(&me, &event("pushxo.near", "pushxo.near", "1", "1", "1")), Role::Sender);
    assert_eq!(role_in_event(&me, &event("", "pushxo.near", "1", "1", "1")), Role::Receiver);
}

#[test]
fn stranger_event_is_an_internal_error() {
    let foreign = event("vasya.near", "petya.near", "1", "70", "7000");
    assert_eq!(
        reconstruct_event(&subject(), 100, &foreign),
        Err(ErrorKind::InternalError(InternalFault::NotSenderOrReceiver))
    );
    let page = vec![
        event("vasya.near", "pushxo.near", "30", "70", "7000"),
        foreign,
        event("pushxo.near", "petya.near", "5", "50", "5000"),
    ];
    assert_eq!(
        get_ft_history(&subject(), 100, page),
        Err(ErrorKind::InternalError(InternalFault::NotSenderOrReceiver))
    );
}

#[test]
fn mint_and_burn_have_no_counterparty() {
    let minted = event("", "pushxo.near", "1000", "10", "1000");
    let (item, before) = reconstruct_event(&subject(), 1000, &minted).unwrap();
    assert_eq!(item.involved_account_id, None);
    assert_eq!(item.delta_balance, 1000);
    assert_eq!(before, 0);
    let burnt = event("pushxo.near", "", "400", "20", "2000");
    let (item, before) = reconstruct_event(&subject(), 600, &burnt).unwrap();
    assert_eq!(item.involved_account_id, None);
    assert_eq!(item.delta_balance, -400);
    assert_eq!(before, 1000);
}

#[test]
fn bad_counterparty_is_refused() {
    let odd = event("Vasya.near", "pushxo.near", "1", "70", "7000");
    assert_eq!(reconstruct_event(&subject(), 100, &odd), Err(ErrorKind::AccountAddressInvalid));
    let odd = event("pushxo.near", "x", "1", "70", "7000");
    assert_eq!(reconstruct_event(&subject(), 100, &odd), Err(ErrorKind::AccountAddressInvalid));
}

#[test]
fn bad_numbers_are_refused() {
    let odd = event("vasya.near", "pushxo.near", "1.5", "70", "7000");
    assert_eq!(reconstruct_event(&subject(), 100, &odd), Err(ErrorKind::MalformedNumeric));
    let odd = event("vasya.near", "pushxo.near", "1", "7e1", "7000");
    assert_eq!(reconstruct_event(&subject(), 100, &odd), Err(ErrorKind::MalformedNumeric));
    let odd = event("vasya.near", "pushxo.near", "1", "70", "-7000");
    assert_eq!(reconstruct_event(&subject(), 100, &odd), Err(ErrorKind::OutOfRange));
    let odd = event(
        "vasya.near",
        "pushxo.near",
        "170141183460469231731687303715884105728",
        "70",
        "7000",
    );
    assert_eq!(reconstruct_event(&subject(), 100, &odd), Err(ErrorKind::OutOfRange));
}

#[test]
fn bad_amount_is_reported_before_the_side() {
    let odd = event("vasya.near", "petya.near", "abc", "70", "7000");
    assert_eq!(reconstruct_event(&subject(), 100, &odd), Err(ErrorKind::MalformedNumeric));
}

#[test]
fn arithmetic_does_not_wrap() {
    let lowest = "-170141183460469231731687303715884105728";
    let sent = event("pushxo.near", "vasya.near", lowest, "70", "7000");
    assert_eq!(reconstruct_event(&subject(), 100, &sent), Err(ErrorKind::OutOfRange));
    let received = event("vasya.near", "pushxo.near", lowest, "70", "7000");
    let (item, before) = reconstruct_event(&subject(), 100, &received).unwrap();
    assert_eq!(item.delta_balance, i128::MIN);
    assert_eq!(before, 100 + (1u128 << 127));
    let sent = event("pushxo.near", "vasya.near", "1", "70", "7000");
    assert_eq!(reconstruct_event(&subject(), u128::MAX, &sent), Err(ErrorKind::OutOfRange));
    let received = event("vasya.near", "pushxo.near", "1", "70", "7000");
    let (item, before) = reconstruct_event(&subject(), u128::MAX, &received).unwrap();
    assert_eq!(item.balance, u128::MAX);
    assert_eq!(before, u128::MAX - 1);
}

#[test]
fn balances_above_the_signed_range_are_walked() {
    let high = (1u128 << 127) + 5;
    let received = event("vasya.near", "pushxo.near", "10", "70", "7000");
    let (item, before) = reconstruct_event(&subject(), high, &received).unwrap();
    assert_eq!(item.balance, high);
    assert_eq!(before, high - 10);
}

#[test]
fn negative_amount_is_undone_by_its_sign() {
    let received = event("vasya.near", "pushxo.near", "-7", "70", "7000");
    let (item, before) = reconstruct_event(&subject(), 100, &received).unwrap();
    assert_eq!(item.delta_balance, -7);
    assert_eq!(before, 107);
    let sent = event("pushxo.near", "vasya.near", "-7", "70", "7000");
    let (item, before) = reconstruct_event(&subject(), 100, &sent).unwrap();
    assert_eq!(item.delta_balance, 7);
    assert_eq!(before, 93);
}

#[test]
fn zero_amount_changes_nothing() {
    let sent = event("pushxo.near", "vasya.near", "0", "70", "7000");
    let (item, before) = reconstruct_event(&subject(), 100, &sent).unwrap();
    assert_eq!(item.delta_balance, 0);
    assert_eq!(before, 100);
}

#[test]
fn snapshot_steps_back() {
    let snapshot = BalanceSnapshot::undo(100, 30).unwrap();
    assert_eq!(snapshot.balance_after, 100);
    assert_eq!(snapshot.balance_before, 70);
    assert_eq!(snapshot.delta, 30);
    let snapshot = BalanceSnapshot::undo(10, -50).unwrap();
    assert_eq!(snapshot.balance_before, 60);
    assert_eq!(
        BalanceSnapshot::undo(10, 50),
        Err(ErrorKind::InternalError(InternalFault::NegativeBalance))
    );
    assert_eq!(BalanceSnapshot::undo(10, 10).unwrap().balance_before, 0);
    assert_eq!(
        BalanceSnapshot::undo(10, 11),
        Err(ErrorKind::InternalError(InternalFault::NegativeBalance))
    );
    assert_eq!(BalanceSnapshot::undo(u128::MAX, -1), Err(ErrorKind::OutOfRange));
    assert_eq!(BalanceSnapshot::undo(0, i128::MIN).unwrap().balance_before, 1u128 << 127);
}

fn sample_page() -> Vec<FtHistoryInfo> {
    vec![
        event("vasya.near", "pushxo.near", "30", "70", "7000"),
        event("pushxo.near", "petya.near", "25", "60", "6000"),
        event("pushxo.near", "", "5", "60", "6000"),
        event("", "pushxo.near", "100", "10", "1000"),
    ]
}

#[test]
fn history_has_one_item_for_each_event() {
    let items = get_ft_history(&subject(), 100, sample_page()).unwrap();
    assert_eq!(items.len(), 4);
    let balances: Vec<u128> = items.iter().map(|item| item.balance).collect();
    assert_eq!(balances, vec![100, 70, 95, 100]);
    let deltas: Vec<i128> = items.iter().map(|item| item.delta_balance).collect();
    assert_eq!(deltas, vec![30, -25, -5, 100]);
    let heights: Vec<u64> = items.iter().map(|item| item.block_height).collect();
    assert_eq!(heights, vec![70, 60, 60, 10]);
    assert!(items.iter().all(|item| item.coin_metadata.is_none()));
}

#[test]
fn history_is_continuous() {
    let items = get_ft_history(&subject(), 100, sample_page()).unwrap();
    assert_eq!(items[0].balance, 100);
    for pair in items.windows(2) {
        let younger = pair[0].snapshot().unwrap();
        let older = pair[1].snapshot().unwrap();
        assert_eq!(younger.balance_before, older.balance_after);
    }
    assert_eq!(items[3].snapshot().unwrap().balance_before, 0);
}

#[test]
fn history_changes_carry_the_sign_of_the_side() {
    let items = get_ft_history(&subject(), 100, sample_page()).unwrap();
    assert!(items[0].delta_balance > 0);
    assert!(items[1].delta_balance < 0);
    assert!(items[2].delta_balance < 0);
    assert!(items[3].delta_balance > 0);
}

#[test]
fn empty_page_gives_empty_history() {
    assert_eq!(get_ft_history(&subject(), 100, vec![]), Ok(vec![]));
}

#[test]
fn missing_event_surfaces_as_negative_balance() {
    let page = vec![
        event("vasya.near", "pushxo.near", "30", "70", "7000"),
        event("", "pushxo.near", "100", "10", "1000"),
    ];
    assert_eq!(
        get_ft_history(&subject(), 100, page),
        Err(ErrorKind::InternalError(InternalFault::NegativeBalance))
    );
}

#[test]
fn page_out_of_order_is_an_internal_error() {
    let page = vec![
        event("", "pushxo.near", "100", "10", "1000"),
        event("pushxo.near", "vasya.near", "30", "70", "7000"),
    ];
    assert_eq!(
        get_ft_history(&subject(), 100, page),
        Err(ErrorKind::InternalError(InternalFault::PageOrder))
    );
}

#[test]
fn first_failure_of_the_page_is_reported() {
    let page = vec![
        event("vasya.near", "pushxo.near", "30", "70", "7000"),
        event("pushxo.near", "Petya", "25", "60", "6000"),
        event("stranger.near", "other.near", "5", "50", "5000"),
    ];
    assert_eq!(get_ft_history(&subject(), 100, page), Err(ErrorKind::AccountAddressInvalid));
}

#[test]
fn next_cursor_admits_no_event_of_the_page() {
    let cursor = HistoryPagination::new(80, 8000, 4).unwrap();
    let items = get_ft_history(&subject(), 100, sample_page()).unwrap();
    let timestamps: Vec<u64> = items.iter().map(|item| item.block_timestamp_nanos).collect();
    assert!(cursor.accepts_page(&timestamps));
    let next = next_ft_cursor(&cursor, &items).unwrap();
    assert_eq!(next, HistoryPagination { block_height: 10, block_timestamp: 1000, limit: 4 });
    for item in &items {
        assert!(!next.admits(item.block_timestamp_nanos));
    }
    assert!(next.admits(999));
    assert_eq!(next_ft_cursor(&cursor, &vec![]), None);
}

#[test]
fn failure_is_placed_at_its_event() {
    let page = vec![
        event("vasya.near", "pushxo.near", "30", "70", "7000"),
        event("pushxo.near", "petya.near", "25", "60", "6000"),
        event("stranger.near", "other.near", "5", "50", "5000"),
        event("pushxo.near", "Petya", "25", "40", "4000"),
    ];
    assert_eq!(
        walk_ft_history(&subject(), 100, page),
        Err(PageFailure {
            index: 2,
            kind: ErrorKind::InternalError(InternalFault::NotSenderOrReceiver),
        })
    );
    let page = vec![event("vasya.near", "pushxo.near", "50", "70", "7000")];
    assert_eq!(
        walk_ft_history(&subject(), 10, page),
        Err(PageFailure {
            index: 0,
            kind: ErrorKind::InternalError(InternalFault::NegativeBalance),
        })
    );
    let page = vec![
        event("", "pushxo.near", "100", "10", "1000"),
        event("pushxo.near", "vasya.near", "30", "70", "7000"),
    ];
    assert_eq!(
        walk_ft_history(&subject(), 100, page),
        Err(PageFailure {
            index: 1,
            kind: ErrorKind::InternalError(InternalFault::PageOrder),
        })
    );
}

#[test]
fn placed_walk_gives_the_same_history() {
    assert_eq!(
        walk_ft_history(&subject(), 100, sample_page()).unwrap(),
        get_ft_history(&subject(), 100, sample_page()).unwrap()
    );
}
