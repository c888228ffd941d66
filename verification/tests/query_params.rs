use near_enhanced_api::errors::{ErrorKind, InternalFault};
use near_enhanced_api::types::query_params::HistoryPagination;

#[test]
fn limit_must_be_positive() {
    assert_eq!(HistoryPagination::new(5, 50, 0), Err(ErrorKind::InvalidInput));
    assert_eq!(
        HistoryPagination::new(5, 50, 1),
        Ok(HistoryPagination { block_height: 5, block_timestamp: 50, limit: 1 })
    );
    assert_eq!(
        HistoryPagination::new(0, 0, u32::MAX),
        Ok(HistoryPagination { block_height: 0, block_timestamp: 0, limit: u32::MAX })
    );
}

#[test]
fn cursor_admits_strictly_older_events() {
    let cursor = HistoryPagination::new(5, 50, 10).unwrap();
    assert!(cursor.admits(49));
    assert!(cursor.admits(0));
    assert!(!cursor.admits(50));
    assert!(!cursor.admits(51));
    let first = HistoryPagination::new(0, 0, 10).unwrap();
    assert!(!first.admits(0));
}

#[test]
fn next_cursor_keeps_the_limit() {
    let cursor = HistoryPagination::new(5, 50, 10).unwrap();
    let next = cursor.after(3, 30);
    assert_eq!(next, HistoryPagination { block_height: 3, block_timestamp: 30, limit: 10 });
}

#[test]
fn page_is_checked_against_its_cursor() {
    let cursor = HistoryPagination::new(5, 50, 3).unwrap();
    assert!(cursor.accepts_page(&vec![]));
    assert!(cursor.accepts_page(&vec![49, 40, 40]));
    assert!(!cursor.accepts_page(&vec![49, 40, 40, 30]));
    assert!(!cursor.accepts_page(&vec![50, 40]));
    assert!(!cursor.accepts_page(&vec![40, 41]));
    assert!(!cursor.accepts_page(&vec![40, 30, 35]));
}

#[test]
fn pages_do_not_overlap() {
    let log: Vec<u64> = vec![90, 80, 80, 70, 60, 50, 40, 30, 20, 10];
    let mut cursor = HistoryPagination::new(100, 100, 3).unwrap();
    let mut seen: Vec<u64> = vec![];
    loop {
        let page: Vec<u64> = log
            .iter()
            .copied()
            .filter(|timestamp| cursor.admits(*timestamp))
            .take(cursor.limit as usize)
            .collect();
        assert!(cursor.accepts_page(&page));
        if page.is_empty() {
            break;
        }
        for timestamp in &page {
            assert!(seen.iter().all(|earlier| earlier > timestamp));
        }
        seen.extend(page.iter().copied());
        cursor = cursor.after(cursor.block_height, *page.last().unwrap());
        for timestamp in &seen {
            assert!(!cursor.admits(*timestamp));
        }
    }
    assert_eq!(seen, log);
}

#[test]
fn errors_have_messages() {
    assert_eq!(ErrorKind::MalformedNumeric.message(), "The value is not a decimal integer");
    assert_eq!(ErrorKind::OutOfRange.message(), "The value does not fit the integer type");
    assert_eq!(
        ErrorKind::AccountAddressInvalid.message(),
        "The account identifier is not well-formed"
    );
    assert_eq!(ErrorKind::InvalidInput.message(), "The request parameter is not acceptable");
    assert_eq!(
        ErrorKind::InternalError(InternalFault::NegativeBalance).message(),
        "Balance could not be negative"
    );
    assert_eq!(
        ErrorKind::InternalError(InternalFault::NotSenderOrReceiver).message(),
        "The account should be sender or receiver"
    );
    assert_eq!(
        InternalFault::PageOrder.message(),
        "The events are not ordered from the newest to the oldest"
    );
}
